//! Names in byte order.
use vstd::prelude::*;

verus! {

/// `a` comes before `b`, byte by byte; a name comes before its extensions.
pub open spec fn less(a: Seq<u8>, b: Seq<u8>) -> bool
    decreases a.len(),
{
    if b.len() == 0 {
        false
    } else if a.len() == 0 {
        true
    } else if a[0] != b[0] {
        a[0] < b[0]
    } else {
        less(a.drop_first(), b.drop_first())
    }
}

/// Whether `a` comes before `b`.
pub fn is_less(a: &[u8], b: &[u8]) -> (result: bool)
    ensures
        result == less(a@, b@),
{
    let mut i: usize = 0;
    assert(a@.skip(0) =~= a@);
    assert(b@.skip(0) =~= b@);
    while i < a.len() && i < b.len()
        invariant
            i <= a@.len(),
            i <= b@.len(),
            less(a@, b@) == less(a@.skip(i as int), b@.skip(i as int)),
        decreases a@.len() - i,
    {
        if a[i] != b[i] {
            return a[i] < b[i];
        }
        assert(a@.skip(i as int).drop_first() =~= a@.skip(i + 1));
        assert(b@.skip(i as int).drop_first() =~= b@.skip(i + 1));
        i = i + 1;
    }
    i < b.len()
}

/// The places stand in the order of their names, equal names as they came.
pub open spec fn sorted(names: Seq<Vec<u8>>, places: Seq<usize>) -> bool {
    forall|i: int, j: int|
        0 <= i < j < places.len() ==> precedes(
            names,
            #[trigger] places[i] as int,
            #[trigger] places[j] as int,
        )
}

/// Place `a` stands before place `b`: by name, then by place.
pub open spec fn precedes(names: Seq<Vec<u8>>, a: int, b: int) -> bool {
    less(names[a]@, names[b]@) || (!less(names[b]@, names[a]@) && a < b)
}

/// The list holds this place.
pub open spec fn holds_place(places: Seq<usize>, place: int) -> bool {
    exists|i: int| 0 <= i < places.len() && #[trigger] places[i] == place
}

/// Every place below `count` stands in the list exactly once.
pub open spec fn all_places(places: Seq<usize>, count: nat) -> bool {
    &&& places.len() == count
    &&& forall|i: int| 0 <= i < places.len() ==> (#[trigger] places[i]) < count
    &&& places.no_duplicates()
    &&& forall|place: int| 0 <= place < count ==> #[trigger] holds_place(places, place)
}

proof fn lemma_less_transitive(a: Seq<u8>, b: Seq<u8>, c: Seq<u8>)
    requires
        less(a, b),
        !less(c, b),
    ensures
        less(a, c),
    decreases a.len(),
{
    if c.len() == 0 {
        assert(less(c, b));
    } else if a.len() > 0 && a[0] == b[0] {
        if c[0] == b[0] {
            lemma_less_transitive(a.drop_first(), b.drop_first(), c.drop_first());
        }
    }
}

proof fn lemma_not_less_transitive(a: Seq<u8>, b: Seq<u8>, c: Seq<u8>)
    requires
        !less(b, a),
        less(b, c),
    ensures
        less(a, c),
    decreases a.len(),
{
    if b.len() == 0 {
        if a.len() > 0 {
            assert(less(b, a));
        }
    } else if a.len() > 0 && a[0] == b[0] && b[0] == c[0] {
        lemma_not_less_transitive(a.drop_first(), b.drop_first(), c.drop_first());
    }
}

proof fn lemma_not_less_chain(a: Seq<u8>, b: Seq<u8>, c: Seq<u8>)
    requires
        !less(b, a),
        !less(c, b),
    ensures
        !less(c, a),
{
    if less(c, a) {
        lemma_less_transitive(c, a, b);
    }
}

proof fn lemma_precedes_transitive(names: Seq<Vec<u8>>, a: int, b: int, c: int)
    requires
        precedes(names, a, b),
        precedes(names, b, c),
    ensures
        precedes(names, a, c),
{
    let (x, y, z) = (names[a]@, names[b]@, names[c]@);
    if less(x, y) {
        if less(y, z) {
            lemma_asymmetric(y, z);
            lemma_less_transitive(x, y, z);
        } else {
            lemma_less_transitive(x, y, z);
        }
    } else {
        if less(y, z) {
            lemma_not_less_transitive(x, y, z);
        } else {
            lemma_not_less_chain(x, y, z);
        }
    }
}

proof fn lemma_asymmetric(a: Seq<u8>, b: Seq<u8>)
    requires
        less(a, b),
    ensures
        !less(b, a),
    decreases a.len(),
{
    if a.len() > 0 && a[0] == b[0] {
        lemma_asymmetric(a.drop_first(), b.drop_first());
    }
}

/// The places of the names in byte order; equal names keep their order.
pub fn sort_places(names: &Vec<Vec<u8>>) -> (places: Vec<usize>)
    ensures
        all_places(places@, names@.len()),
        sorted(names@, places@),
{
    let mut places: Vec<usize> = Vec::new();
    let mut next: usize = 0;
    while next < names.len()
        invariant
            next <= names@.len(),
            all_places(places@, next as nat),
            sorted(names@, places@),
        decreases names@.len() - next,
    {
        insert_place(names, &mut places, next);
        next = next + 1;
    }
    places
}

fn insert_place(names: &Vec<Vec<u8>>, places: &mut Vec<usize>, next: usize)
    requires
        next < names@.len(),
        all_places(old(places)@, next as nat),
        sorted(names@, old(places)@),
    ensures
        all_places(final(places)@, (next + 1) as nat),
        sorted(names@, final(places)@),
{
    let ghost before = places@;
    let mut at: usize = places.len();
    while at > 0 && is_less(names[next].as_slice(), names[places[at - 1]].as_slice())
        invariant
            next < names@.len(),
            places@ == before,
            all_places(before, next as nat),
            at <= before.len(),
            forall|k: int|
                at <= k < before.len() ==> less(
                    names@[next as int]@,
                    names@[#[trigger] before[k] as int]@,
                ),
        decreases at,
    {
        at = at - 1;
    }
    places.insert(at, next);
    proof {
        let after = places@;
        assert(after =~= before.insert(at as int, next));
        assert forall|i: int| 0 <= i < after.len() implies (#[trigger] after[i]) < next + 1 by {
            if i < at {
                assert(after[i] == before[i]);
            } else if i > at {
                assert(after[i] == before[i - 1]);
            }
        }
        assert(after.no_duplicates()) by {
            assert forall|i: int, j: int|
                0 <= i < after.len() && 0 <= j < after.len() && i != j implies after[i]
                != after[j] by {
                let a = if i < at { i } else { i - 1 };
                let b = if j < at { j } else { j - 1 };
                if i != at {
                    assert(after[i] == before[a]);
                    assert(before[a] < next);
                }
                if j != at {
                    assert(after[j] == before[b]);
                    assert(before[b] < next);
                }
            }
        }
        assert forall|place: int| 0 <= place < next + 1 implies #[trigger] holds_place(
            after,
            place,
        ) by {
            if place == next {
                assert(after[at as int] == place);
            } else {
                assert(holds_place(before, place));
                let k = choose|k: int| 0 <= k < before.len() && #[trigger] before[k] == place;
                if k < at {
                    assert(after[k] == place);
                } else {
                    assert(after[k + 1] == place);
                }
            }
        }
        assert forall|i: int, j: int| 0 <= i < j < after.len() implies precedes(
            names@,
            #[trigger] after[i] as int,
            #[trigger] after[j] as int,
        ) by {
            let a = if i < at { i } else { i - 1 };
            let b = if j < at { j } else { j - 1 };
            if i != at && j != at {
                assert(after[i] == before[a]);
                assert(after[j] == before[b]);
                assert(precedes(names@, before[a] as int, before[b] as int));
            } else if i == at {
                assert(after[j] == before[b]);
                assert(less(names@[next as int]@, names@[before[b] as int]@));
            } else {
                assert(after[i] == before[a]);
                let last = at - 1;
                assert(!less(names@[next as int]@, names@[before[last] as int]@));
                assert(before[last] < next);
                assert(precedes(names@, before[last] as int, next as int));
                if a < last {
                    assert(precedes(names@, before[a] as int, before[last] as int));
                    lemma_precedes_transitive(
                        names@,
                        before[a] as int,
                        before[last] as int,
                        next as int,
                    );
                }
            }
        }
    }
}

/// Byte order is strict and total: of two different names exactly one comes
/// before the other.
pub proof fn law_byte_order_is_total(a: Seq<u8>, b: Seq<u8>)
    ensures
        !(less(a, b) && less(b, a)),
        !less(a, b) && !less(b, a) ==> a == b,
    decreases a.len(),
{
    if a.len() > 0 && b.len() > 0 && a[0] == b[0] {
        law_byte_order_is_total(a.drop_first(), b.drop_first());
        if !less(a, b) && !less(b, a) {
            assert(a =~= seq![a[0]] + a.drop_first());
            assert(b =~= seq![b[0]] + b.drop_first());
        }
    } else if a.len() == 0 && b.len() == 0 {
        assert(a =~= b);
    }
}

/// The first difference decides: of two names that agree in their first `k`
/// bytes, the one with the smaller byte behind them comes first, and one that
/// ends there comes before one that does not.
pub proof fn law_first_difference_decides(a: Seq<u8>, b: Seq<u8>, k: int)
    requires
        0 <= k <= a.len(),
        k <= b.len(),
        forall|i: int| 0 <= i < k ==> a[i] == b[i],
    ensures
        k == a.len() && k < b.len() ==> less(a, b),
        k == b.len() ==> !less(a, b),
        k < a.len() && k < b.len() && a[k] != b[k] ==> (less(a, b) <==> a[k] < b[k]),
    decreases k,
{
    if k > 0 {
        let (x, y) = (a.drop_first(), b.drop_first());
        assert forall|i: int| 0 <= i < k - 1 implies x[i] == y[i] by {
            assert(a[i + 1] == b[i + 1]);
        }
        law_first_difference_decides(x, y, k - 1);
    }
}

/// Sorted places stand in the order of their names: no name stands behind one
/// that it comes before, and equal names stand as they came.
pub proof fn law_sorted_by_name(names: Seq<Vec<u8>>, places: Seq<usize>, i: int, j: int)
    requires
        sorted(names, places),
        0 <= i < j < places.len(),
    ensures
        !less(names[places[j] as int]@, names[places[i] as int]@),
        names[places[i] as int]@ == names[places[j] as int]@ ==> places[i] < places[j],
{
    let (a, b) = (places[i] as int, places[j] as int);
    assert(precedes(names, a, b));
    if less(names[a]@, names[b]@) {
        lemma_asymmetric(names[a]@, names[b]@);
    }
    if names[a]@ == names[b]@ {
        law_byte_order_is_total(names[a]@, names[b]@);
    }
}

/// A list of all places holds each of them once, and nothing else.
pub proof fn law_every_place_once(places: Seq<usize>, count: nat, place: int)
    requires
        all_places(places, count),
        0 <= place < count,
    ensures
        places.len() == count,
        forall|i: int| 0 <= i < places.len() ==> 0 <= #[trigger] places[i] < count,
        exists|i: int| 0 <= i < places.len() && #[trigger] places[i] == place,
        forall|i: int, j: int|
            0 <= i < j < places.len() ==> #[trigger] places[i] != #[trigger] places[j],
{
    assert(holds_place(places, place));
}

} // verus!
