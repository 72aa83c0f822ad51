//! The data configuration of a run.
use vstd::prelude::*;

verus! {

/// The largest bits of a 32-bit float that is not negative and is a number.
pub const MAX_NUMBER_BITS: u32 = 0x7f80_0000;

/// An asset of a run: the object that holds it and the file to start from.
pub struct AssetConfig {
    pub object: String,
    pub entrypoint: Option<String>,
}

/// How validation is sampled; `max_seconds` holds the bits of a 32-bit float.
pub struct ValidationConfig {
    pub samples: i64,
    pub max_seconds: u32,
}

/// One stage of training; `max_seconds` holds the bits of a 32-bit float.
pub struct SequenceConfig {
    pub batches: u64,
    pub max_seconds: u32,
}

/// The data configuration of a run. Queries and assets are named, each name
/// once.
pub struct DataConfig {
    pub queries: Vec<(String, String)>,
    pub dataset_id: u128,
    pub asset_type: String,
    pub seed: u64,
    pub max_text_tokens: i32,
    pub plbert_languages: Vec<String>,
    pub assets: Vec<(String, AssetConfig)>,
    pub validation: ValidationConfig,
    pub training: Vec<SequenceConfig>,
}

/// The place of a name in a list of named things.
pub open spec fn place_of<T>(list: Seq<(String, T)>, name: Seq<char>) -> Option<int>
    decreases list.len(),
{
    if list.len() == 0 {
        None
    } else {
        match place_of(list.drop_last(), name) {
            Some(place) => Some(place),
            None => if list.last().0@ == name {
                Some(list.len() - 1)
            } else {
                None
            },
        }
    }
}

/// Every name stands once in a list of named things.
pub open spec fn names_unique<T>(list: Seq<(String, T)>) -> bool {
    forall|i: int, j: int|
        0 <= i < j < list.len() ==> (#[trigger] list[i]).0@ != (#[trigger] list[j]).0@
}

/// The thing with this name.
pub fn find_named<'a, T>(list: &'a Vec<(String, T)>, name: &str) -> (found: Option<&'a T>)
    ensures
        match place_of(list@, name@) {
            Some(place) => 0 <= place < list@.len() && found == Some(&list@[place].1),
            None => found is None,
        },
{
    let wanted = name.to_owned();
    let mut i: usize = 0;
    assert(list@.take(0) =~= Seq::<(String, T)>::empty());
    while i < list.len()
        invariant
            wanted@ == name@,
            i <= list@.len(),
            place_of(list@.take(i as int), name@) is None,
        decreases list@.len() - i,
    {
        proof {
            assert(list@.take(i + 1).drop_last() =~= list@.take(i as int));
        }
        if list[i].0 == wanted {
            proof {
                lemma_place_sticks(list@, i + 1, name@);
            }
            return Some(&list[i].1);
        }
        i = i + 1;
    }
    assert(list@.take(i as int) =~= list@);
    None
}

proof fn lemma_place_sticks<T>(list: Seq<(String, T)>, n: int, name: Seq<char>)
    requires
        0 <= n <= list.len(),
    ensures
        place_of(list.take(n), name) matches Some(place) ==> place_of(list, name) == Some(place),
    decreases list.len() - n,
{
    if n == list.len() {
        assert(list.take(n) =~= list);
    } else {
        assert(list.take(n + 1).drop_last() =~= list.take(n));
        lemma_place_sticks(list, n + 1, name);
    }
}

/// Where every name stands once, a name is found where it stands.
pub proof fn law_named_things_are_found<T>(list: Seq<(String, T)>, i: int)
    requires
        names_unique(list),
        0 <= i < list.len(),
    ensures
        place_of(list, list[i].0@) == Some(i),
    decreases list.len(),
{
    let shorter = list.drop_last();
    let name = list[i].0@;
    assert(names_unique(shorter)) by {
        assert forall|a: int, b: int| 0 <= a < b < shorter.len() implies (
        #[trigger] shorter[a]).0@ != (#[trigger] shorter[b]).0@ by {
            assert(list[a].0@ != list[b].0@);
        }
    }
    if i < shorter.len() {
        assert(shorter[i] == list[i]);
        law_named_things_are_found(shorter, i);
    } else {
        lemma_place_valid(shorter, name);
        if let Some(place) = place_of(shorter, name) {
            assert(list[place].0@ != list[i].0@);
        }
    }
}

proof fn lemma_place_valid<T>(list: Seq<(String, T)>, name: Seq<char>)
    ensures
        place_of(list, name) matches Some(place) ==> 0 <= place < list.len() && list[place].0@
            == name,
    decreases list.len(),
{
    if list.len() > 0 {
        lemma_place_valid(list.drop_last(), name);
    }
}

/// The larger of `best` and a float, over the bits of floats that are not
/// negative; a negative float and one that is no number do not count.
pub open spec fn larger_bits(best: u32, bits: u32) -> u32 {
    if bits <= MAX_NUMBER_BITS && bits > best { bits } else { best }
}

/// The largest number of seconds of a list of stages, at least zero.
pub open spec fn max_seconds_spec(stages: Seq<SequenceConfig>) -> u32
    decreases stages.len(),
{
    if stages.len() == 0 {
        0
    } else {
        larger_bits(max_seconds_spec(stages.drop_last()), stages.last().max_seconds)
    }
}

/// The batches of a list of stages together, modulo the width of the counter.
pub open spec fn total_batches_spec(stages: Seq<SequenceConfig>) -> nat
    decreases stages.len(),
{
    if stages.len() == 0 {
        0
    } else {
        (total_batches_spec(stages.drop_last()) + stages.last().batches as nat)
            % 0x1_0000_0000_0000_0000
    }
}

/// The batches of a list of stages together.
pub open spec fn sum_batches(stages: Seq<SequenceConfig>) -> nat
    decreases stages.len(),
{
    if stages.len() == 0 {
        0
    } else {
        sum_batches(stages.drop_last()) + stages.last().batches as nat
    }
}

impl DataConfig {
    /// Every query and every asset has a name of its own.
    pub open spec fn wf(self) -> bool {
        names_unique(self.queries@) && names_unique(self.assets@)
    }

    /// The longest sample that any stage of training takes, as the bits of a
    /// 32-bit float.
    pub fn training_max_seconds(&self) -> (bits: u32)
        ensures
            bits == max_seconds_spec(self.training@),
    {
        let mut best: u32 = 0;
        let mut i: usize = 0;
        assert(self.training@.take(0) =~= Seq::<SequenceConfig>::empty());
        while i < self.training.len()
            invariant
                i <= self.training@.len(),
                best == max_seconds_spec(self.training@.take(i as int)),
            decreases self.training@.len() - i,
        {
            let bits: u32 = self.training[i].max_seconds;
            if bits <= MAX_NUMBER_BITS && bits > best {
                best = bits;
            }
            assert(self.training@.take(i + 1).drop_last() =~= self.training@.take(i as int));
            i = i + 1;
        }
        assert(self.training@.take(i as int) =~= self.training@);
        best
    }

    /// How many batches training takes.
    pub fn expected_batches(&self) -> (total: u64)
        ensures
            total == total_batches_spec(self.training@),
    {
        let mut total: u64 = 0;
        let mut i: usize = 0;
        assert(self.training@.take(0) =~= Seq::<SequenceConfig>::empty());
        while i < self.training.len()
            invariant
                i <= self.training@.len(),
                total == total_batches_spec(self.training@.take(i as int)),
            decreases self.training@.len() - i,
        {
            total = total.wrapping_add(self.training[i].batches);
            assert(self.training@.take(i + 1).drop_last() =~= self.training@.take(i as int));
            i = i + 1;
        }
        assert(self.training@.take(i as int) =~= self.training@);
        total
    }

    /// The query of a split.
    pub fn query(&self, split: &str) -> (query: Option<&String>)
        ensures
            match place_of(self.queries@, split@) {
                Some(place) => 0 <= place < self.queries@.len() && query == Some(
                    &self.queries@[place].1,
                ),
                None => query is None,
            },
    {
        find_named(&self.queries, split)
    }

    /// The asset with this name.
    pub fn asset(&self, name: &str) -> (asset: Option<&AssetConfig>)
        ensures
            match place_of(self.assets@, name@) {
                Some(place) => 0 <= place < self.assets@.len() && asset == Some(
                    &self.assets@[place].1,
                ),
                None => asset is None,
            },
    {
        find_named(&self.assets, name)
    }

    /// The names of the assets.
    pub fn asset_names(&self) -> (names: Vec<String>)
        ensures
            names@.len() == self.assets@.len(),
            forall|i: int|
                0 <= i < names@.len() ==> (#[trigger] names@[i])@ == self.assets@[i].0@,
    {
        let mut names: Vec<String> = Vec::new();
        let mut i: usize = 0;
        while i < self.assets.len()
            invariant
                i <= self.assets@.len(),
                names@.len() == i,
                forall|k: int| 0 <= k < i ==> (#[trigger] names@[k])@ == self.assets@[k].0@,
            decreases self.assets@.len() - i,
        {
            names.push(self.assets[i].0.clone());
            i = i + 1;
        }
        names
    }
}

/// Where the sum fits the counter, the total is the sum.
pub proof fn law_total_is_the_sum(stages: Seq<SequenceConfig>)
    requires
        sum_batches(stages) <= u64::MAX,
    ensures
        total_batches_spec(stages) == sum_batches(stages),
    decreases stages.len(),
{
    if stages.len() > 0 {
        law_total_is_the_sum(stages.drop_last());
    }
}

/// The longest sample is at least as long as what any stage takes, and some
/// stage takes it unless it is zero.
pub proof fn law_longest_of_the_stages(stages: Seq<SequenceConfig>, i: int)
    requires
        0 <= i < stages.len(),
    ensures
        stages[i].max_seconds <= MAX_NUMBER_BITS ==> stages[i].max_seconds <= max_seconds_spec(
            stages,
        ),
        max_seconds_spec(stages) <= MAX_NUMBER_BITS,
        max_seconds_spec(stages) > 0 ==> exists|j: int|
            0 <= j < stages.len() && (#[trigger] stages[j]).max_seconds == max_seconds_spec(stages),
    decreases stages.len(),
{
    let shorter = stages.drop_last();
    if shorter.len() > 0 {
        let k = if i < shorter.len() { i } else { 0 };
        law_longest_of_the_stages(shorter, k);
        if max_seconds_spec(shorter) > 0 {
            let j = choose|j: int|
                0 <= j < shorter.len() && (#[trigger] shorter[j]).max_seconds == max_seconds_spec(
                    shorter,
                );
            assert(stages[j] == shorter[j]);
        }
        assert(shorter[k] == stages[k]);
    } else {
        assert(max_seconds_spec(shorter) == 0);
    }
    assert(stages[stages.len() - 1] == stages.last());
}

/// A name is found at the first place where it stands, and is not found only
/// where it stands nowhere.
pub proof fn law_first_of_a_name_is_found<T>(list: Seq<(String, T)>, name: Seq<char>)
    ensures
        match place_of(list, name) {
            Some(place) => {
                &&& 0 <= place < list.len()
                &&& list[place].0@ == name
                &&& forall|j: int| 0 <= j < place ==> (#[trigger] list[j]).0@ != name
            },
            None => forall|j: int| 0 <= j < list.len() ==> (#[trigger] list[j]).0@ != name,
        },
    decreases list.len(),
{
    if list.len() > 0 {
        let shorter = list.drop_last();
        law_first_of_a_name_is_found(shorter, name);
        assert forall|j: int| 0 <= j < shorter.len() implies #[trigger] list[j] == shorter[j] by {}
    }
}

/// Only what is a number and not below zero counts: the bits of such a float
/// are at most those of infinity.
pub proof fn law_only_numbers_count(stages: Seq<SequenceConfig>, extra: SequenceConfig)
    ensures
        extra.max_seconds > 0x7f80_0000 ==> max_seconds_spec(stages.push(extra))
            == max_seconds_spec(stages),
        extra.max_seconds <= 0x7f80_0000 ==> max_seconds_spec(stages.push(extra)) == if extra.max_seconds
            > max_seconds_spec(stages) {
            extra.max_seconds
        } else {
            max_seconds_spec(stages)
        },
        max_seconds_spec(Seq::<SequenceConfig>::empty()) == 0,
{
    assert(stages.push(extra).drop_last() =~= stages);
}

/// Every stage adds its batches to the total, which is counted modulo 2^64.
pub proof fn law_every_stage_counts(stages: Seq<SequenceConfig>, extra: SequenceConfig)
    ensures
        total_batches_spec(Seq::<SequenceConfig>::empty()) == 0,
        total_batches_spec(stages.push(extra)) <= u64::MAX,
        total_batches_spec(stages) + extra.batches <= u64::MAX ==> total_batches_spec(
            stages.push(extra),
        ) == total_batches_spec(stages) + extra.batches,
        total_batches_spec(stages) <= u64::MAX && total_batches_spec(stages) + extra.batches
            > u64::MAX ==> total_batches_spec(stages.push(extra)) == total_batches_spec(stages)
            + extra.batches - 0x1_0000_0000_0000_0000,
{
    assert(stages.push(extra).drop_last() =~= stages);
}

} // verus!
