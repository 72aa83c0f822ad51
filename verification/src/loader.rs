//! Loading the audio of a batch.
use crate::sampling::Sample;
use crate::text::{decimal_spec, signed_decimal, signed_decimal_spec};
use vstd::prelude::*;
use vstd::string::*;

verus! {

/// What loading one sample gave: its wave, nothing where the store is in
/// trouble, or an error.
pub type LoadOutcome = Result<Option<Vec<u8>>, String>;

/// How a request to the object store went.
#[derive(Clone, Copy, Debug, PartialEq, Eq, Structural)]
pub enum FetchFailure {
    /// The request took too long.
    Timeout,
    /// The store answered with this status, well-formed or not.
    Answered(u16),
    /// Anything else.
    Other,
}

/// A sample is skipped where the store is slow or in trouble; any other
/// failure is an error.
pub open spec fn is_skipped(failure: FetchFailure) -> bool {
    match failure {
        FetchFailure::Timeout => true,
        FetchFailure::Answered(status) => 500 <= status < 600,
        FetchFailure::Other => false,
    }
}

/// Whether a sample is skipped after this failure.
pub fn skips_sample(failure: FetchFailure) -> (skips: bool)
    ensures
        skips == is_skipped(failure),
        failure is Timeout ==> skips,
        failure matches FetchFailure::Answered(status) ==> (skips <==> 500 <= status <= 599),
        failure is Other ==> !skips,
{
    match failure {
        FetchFailure::Timeout => true,
        FetchFailure::Answered(status) => status >= 500 && status < 600,
        FetchFailure::Other => false,
    }
}

/// The byte range of a sample in its object, as a request header.
pub open spec fn range_spec(offset: int, length: int) -> Seq<char> {
    "bytes="@ + signed_decimal_spec(offset) + "-"@ + signed_decimal_spec(offset + length - 1)
}

/// The byte range of a sample in its object.
pub fn range_header(offset: i64, length: i64) -> (range: String)
    requires
        i64::MIN <= offset + length <= i64::MAX,
        i64::MIN <= offset + length - 1,
    ensures
        range@ == range_spec(offset as int, length as int),
        offset >= 0 && length > 0 ==> range@ == "bytes="@ + decimal_spec(offset as nat) + "-"@
            + decimal_spec((offset + length - 1) as nat),
{
    let mut range = "bytes=".to_owned();
    range.append(signed_decimal(offset).as_str());
    range.append("-");
    range.append(signed_decimal(offset + length - 1).as_str());
    range
}

/// The first error in a list of outcomes.
pub open spec fn first_error(outcomes: Seq<(Sample, LoadOutcome)>) -> Option<String>
    decreases outcomes.len(),
{
    if outcomes.len() == 0 {
        None
    } else {
        match first_error(outcomes.drop_last()) {
            Some(error) => Some(error),
            None => match outcomes.last().1 {
                Err(error) => Some(error),
                Ok(_) => None,
            },
        }
    }
}

/// Every sample has its wave.
pub open spec fn all_loaded(outcomes: Seq<(Sample, LoadOutcome)>) -> bool {
    forall|i: int|
        0 <= i < outcomes.len() ==> ((#[trigger] outcomes[i]).1 matches Ok(wave) && wave is Some)
}

/// Puts a batch together from what loading its samples gave: an error where
/// one failed, nothing where one is missing, and else the samples with their
/// waves, in order.
pub fn collect_batch(outcomes: Vec<(Sample, LoadOutcome)>) -> (batch: Result<
    Option<Vec<(Sample, Vec<u8>)>>,
    String,
>)
    ensures
        match batch {
            Err(error) => first_error(outcomes@) == Some(error),
            Ok(None) => first_error(outcomes@) is None && !all_loaded(outcomes@),
            Ok(Some(list)) => {
                &&& all_loaded(outcomes@)
                &&& list@.len() == outcomes@.len()
                &&& forall|i: int|
                    0 <= i < list@.len() ==> {
                        &&& (#[trigger] list@[i]).0 == outcomes@[i].0
                        &&& outcomes@[i].1 == Ok::<Option<Vec<u8>>, String>(Some(list@[i].1))
                    }
            },
        },
{
    let ghost all = outcomes@;
    let mut list: Vec<(Sample, Vec<u8>)> = Vec::new();
    let mut missing = false;
    let ghost mut gap: int = 0;
    proof {
        assert(all.take(0) =~= Seq::<(Sample, LoadOutcome)>::empty());
    }
    for outcome in iter: outcomes
        invariant
            iter.seq() == all,
            all == outcomes@,
            first_error(all.take(iter.index() as int)) is None,
            !missing ==> list@.len() == iter.index() && forall|i: int|
                0 <= i < list@.len() ==> {
                    &&& (#[trigger] list@[i]).0 == all[i].0
                    &&& all[i].1 == Ok::<Option<Vec<u8>>, String>(Some(list@[i].1))
                },
            missing ==> 0 <= gap < iter.index() && all[gap].1 == Ok::<Option<Vec<u8>>, String>(
                None,
            ),
    {
        let ghost index = iter.index() as int;
        proof {
            assert(outcome == all[index]);
            assert(all.take(index + 1).drop_last() =~= all.take(index));
        }
        let (sample, wave) = outcome;
        match wave {
            Err(error) => {
                proof {
                    lemma_first_error_sticks(all, index + 1);
                }
                return Err(error);
            },
            Ok(None) => {
                proof {
                    gap = index;
                }
                missing = true;
            },
            Ok(Some(bytes)) => {
                if !missing {
                    list.push((sample, bytes));
                }
            },
        }
    }
    assert(all.take(all.len() as int) =~= all);
    if missing {
        assert(!(all[gap].1 matches Ok(wave) && wave is Some));
        return Ok(None);
    }
    assert(all_loaded(all)) by {
        assert forall|i: int| 0 <= i < all.len() implies ((#[trigger] all[i]).1 matches Ok(wave)
            && wave is Some) by {
            assert(list@[i].0 == all[i].0);
        }
    }
    Ok(Some(list))
}

proof fn lemma_first_error_sticks(outcomes: Seq<(Sample, LoadOutcome)>, n: int)
    requires
        0 <= n <= outcomes.len(),
    ensures
        first_error(outcomes.take(n)) matches Some(error) ==> first_error(outcomes) == Some(error),
    decreases outcomes.len() - n,
{
    if n == outcomes.len() {
        assert(outcomes.take(n) =~= outcomes);
    } else {
        assert(outcomes.take(n + 1).drop_last() =~= outcomes.take(n));
        lemma_first_error_sticks(outcomes, n + 1);
    }
}

/// The outcomes of putting a batch together exclude each other: where every
/// sample has its wave there is no error.
pub proof fn law_loaded_batch_has_no_error(outcomes: Seq<(Sample, LoadOutcome)>)
    requires
        all_loaded(outcomes),
    ensures
        first_error(outcomes) is None,
    decreases outcomes.len(),
{
    if outcomes.len() > 0 {
        let shorter = outcomes.drop_last();
        assert(all_loaded(shorter)) by {
            assert forall|i: int| 0 <= i < shorter.len() implies ((
            #[trigger] shorter[i]).1 matches Ok(wave) && wave is Some) by {
                assert(outcomes[i] == shorter[i]);
            }
        }
        law_loaded_batch_has_no_error(shorter);
        assert(outcomes[outcomes.len() - 1] == outcomes.last());
    }
}

/// The first error is the error of the first outcome that is one, and there is
/// none only where no outcome is one.
pub proof fn law_first_error_is_first(outcomes: Seq<(Sample, LoadOutcome)>)
    ensures
        match first_error(outcomes) {
            Some(error) => exists|i: int|
                0 <= i < outcomes.len() && (#[trigger] outcomes[i]).1 == Err::<
                    Option<Vec<u8>>,
                    String,
                >(error) && forall|j: int| 0 <= j < i ==> (#[trigger] outcomes[j]).1 is Ok,
            None => forall|j: int| 0 <= j < outcomes.len() ==> (#[trigger] outcomes[j]).1 is Ok,
        },
    decreases outcomes.len(),
{
    if outcomes.len() > 0 {
        let shorter = outcomes.drop_last();
        law_first_error_is_first(shorter);
        assert forall|j: int| 0 <= j < shorter.len() implies #[trigger] outcomes[j]
            == shorter[j] by {}
        match first_error(shorter) {
            Some(error) => {
                let i = choose|i: int|
                    0 <= i < shorter.len() && (#[trigger] shorter[i]).1 == Err::<
                        Option<Vec<u8>>,
                        String,
                    >(error) && forall|j: int| 0 <= j < i ==> (#[trigger] shorter[j]).1 is Ok;
                assert(outcomes[i] == shorter[i]);
                assert forall|j: int| 0 <= j < i implies (#[trigger] outcomes[j]).1 is Ok by {
                    assert(outcomes[j] == shorter[j]);
                }
            },
            None => {
                let n = outcomes.len() - 1;
                assert(outcomes[n] == outcomes.last());
            },
        }
    }
}

/// The range of a sample names its first and its last byte: read back, they
/// are as far apart as the sample is long.
pub proof fn law_range_is_the_sample(offset: nat, length: nat)
    requires
        length > 0,
    ensures
        ({
            let first = decimal_spec(offset);
            let last = decimal_spec((offset + length - 1) as nat);
            &&& range_spec(offset as int, length as int) == "bytes="@ + first + "-"@ + last
            &&& crate::text::decimal_value(first) == offset
            &&& crate::text::decimal_value(last) - crate::text::decimal_value(first) + 1 == length
        }),
{
    crate::text::lemma_decimal_reads_back(offset);
    crate::text::lemma_decimal_reads_back((offset + length - 1) as nat);
}

/// A batch is whole exactly when every sample of it came with its wave; one
/// that is missing, or that failed, makes it not whole.
pub proof fn law_whole_means_every_wave(outcomes: Seq<(Sample, LoadOutcome)>)
    ensures
        all_loaded(outcomes) <==> forall|i: int|
            0 <= i < outcomes.len() ==> ((#[trigger] outcomes[i]).1 is Ok && (
            outcomes[i].1->Ok_0) is Some),
{
}

/// A sample is skipped after a timeout and after an answer in the five
/// hundreds, and after nothing else.
pub proof fn law_skipped_failures(failure: FetchFailure)
    ensures
        failure is Timeout ==> is_skipped(failure),
        failure matches FetchFailure::Answered(status) ==> (is_skipped(failure) <==> 500 <= status
            <= 599),
        failure is Other ==> !is_skipped(failure),
{
}

} // verus!
