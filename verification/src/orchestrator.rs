use vstd::prelude::*;
use crate::keyspace::{
    alphabet_wf, enumerate, key_of_index, keyspace_size, lemma_key_of_index_len,
};
use crate::progress::{interval_spec, ProgressTracker};
use crate::sampler::{lemma_mask_filter_distinct, mask_filter, sample, PPM_SCALE};

verus! {

/// What can be wrong with a configuration, checked before any work.
#[derive(Clone, Copy, Debug, PartialEq, Eq, Structural)]
pub enum ConfigError {
    EmptyAlphabet,
    DuplicateAlphabet,
    ZeroLength,
    ZeroRepeat,
    DropoutOutOfRange,
    TotalOverflow,
}

/// A configuration the run accepts: a well-formed alphabet, at least
/// one character per key, at least one repetition, and a dropout
/// probability below one.
pub open spec fn config_wf(a: Seq<char>, length: usize, repeat: usize, dropout_ppm: u64) -> bool {
    &&& alphabet_wf(a)
    &&& length >= 1
    &&& repeat >= 1
    &&& dropout_ppm < PPM_SCALE
}

/// Whether the alphabet repeats a character.
fn has_duplicate(alphabet: &Vec<char>) -> (b: bool)
    ensures
        b == exists|i: int, j: int|
            0 <= i < j < alphabet@.len() && alphabet@[i] == alphabet@[j],
{
    let n = alphabet.len();
    let mut i: usize = 0;
    while i < n
        invariant
            n == alphabet@.len(),
            i <= n,
            forall|p: int, q: int| 0 <= p < q < i ==> alphabet@[p] != alphabet@[q],
        decreases n - i,
    {
        let mut j: usize = 0;
        while j < i
            invariant
                n == alphabet@.len(),
                i < n,
                j <= i,
                forall|p: int, q: int| 0 <= p < q < i ==> alphabet@[p] != alphabet@[q],
                forall|q: int| 0 <= q < j ==> alphabet@[q] != alphabet@[i as int],
            decreases i - j,
        {
            if alphabet[j] == alphabet[i] {
                return true;
            }
            j += 1;
        }
        i += 1;
    }
    false
}

/// Check a configuration, naming the first fault found; accepts it
/// exactly when it is well formed.
pub fn validate_config(alphabet: &Vec<char>, length: usize, repeat: usize, dropout_ppm: u64) -> (r:
    Result<(), ConfigError>)
    ensures
        r is Ok <==> config_wf(alphabet@, length, repeat, dropout_ppm),
        r == Result::<(), ConfigError>::Err(ConfigError::EmptyAlphabet) <==> alphabet@.len() == 0,
        r == Result::<(), ConfigError>::Err(ConfigError::DuplicateAlphabet) <==> (alphabet@.len()
            > 0 && !alphabet_wf(alphabet@)),
        r == Result::<(), ConfigError>::Err(ConfigError::ZeroLength) <==> (alphabet_wf(alphabet@)
            && length == 0),
        r == Result::<(), ConfigError>::Err(ConfigError::ZeroRepeat) <==> (alphabet_wf(alphabet@)
            && length >= 1 && repeat == 0),
        r == Result::<(), ConfigError>::Err(ConfigError::DropoutOutOfRange) <==> (alphabet_wf(
            alphabet@,
        ) && length >= 1 && repeat >= 1 && dropout_ppm >= PPM_SCALE),
{
    if alphabet.len() == 0 {
        return Err(ConfigError::EmptyAlphabet);
    }
    if has_duplicate(alphabet) {
        proof {
            let (i, j) = choose|i: int, j: int|
                0 <= i < j < alphabet@.len() && alphabet@[i] == alphabet@[j];
            assert(alphabet@[i] == alphabet@[j] && i != j);
        }
        return Err(ConfigError::DuplicateAlphabet);
    }
    assert(alphabet_wf(alphabet@)) by {
        assert forall|i: int, j: int|
            0 <= i < alphabet@.len() && 0 <= j < alphabet@.len() && i != j implies alphabet@[i]
            != alphabet@[j] by {
            if alphabet@[i] == alphabet@[j] {
                if i < j {
                    assert(0 <= i < j < alphabet@.len() && alphabet@[i] == alphabet@[j]);
                } else {
                    assert(0 <= j < i < alphabet@.len() && alphabet@[j] == alphabet@[i]);
                }
            }
        }
    }
    if length == 0 {
        return Err(ConfigError::ZeroLength);
    }
    if repeat == 0 {
        return Err(ConfigError::ZeroRepeat);
    }
    if dropout_ppm >= PPM_SCALE {
        return Err(ConfigError::DropoutOutOfRange);
    }
    Ok(())
}

/// Everything a run needs once the candidate set is fixed: the kept
/// keys, the final work-unit total, and a tracker denominated in it.
/// One work unit is one (key, repetition) artifact, so a worker
/// advances the tracker once per artifact written, and the count
/// reaches the total exactly when the run is done.
pub struct RunPlan {
    pub candidates: Vec<String>,
    pub total: usize,
    pub tracker: ProgressTracker,
}

/// Set up a run: enumerate the whole keyspace, sample it exactly once,
/// fix the total as kept × repeat, and start a tracker against that
/// total. The candidate list is a mask-filter of the full enumeration;
/// with a dropout of zero it is the full enumeration itself.
pub fn prepare(
    alphabet: &Vec<char>,
    length: usize,
    repeat: usize,
    dropout_ppm: u64,
    report_interval_max: usize,
) -> (r: Result<RunPlan, ConfigError>)
    requires
        report_interval_max >= 1,
    ensures
        r is Ok <==> (config_wf(alphabet@, length, repeat, dropout_ppm) && !(r
            == Result::<RunPlan, ConfigError>::Err(ConfigError::TotalOverflow))),
        !config_wf(alphabet@, length, repeat, dropout_ppm) ==> r != Result::<
            RunPlan,
            ConfigError,
        >::Err(ConfigError::TotalOverflow),
        r matches Result::Ok(plan) ==> {
            &&& plan.total == plan.candidates@.len() * repeat
            &&& forall|k: int|
                0 <= k < plan.candidates@.len() ==> (#[trigger] plan.candidates@[k])@.len()
                    == length
            &&& forall|k1: int, k2: int|
                0 <= k1 < k2 < plan.candidates@.len() ==> (#[trigger] plan.candidates@[k1])@ != (
                #[trigger] plan.candidates@[k2])@
            &&& plan.tracker.wf()
            &&& plan.tracker.completed == 0
            &&& plan.tracker.total == plan.total
            &&& plan.tracker.report_interval == interval_spec(
                plan.total as nat,
                report_interval_max as nat,
            )
            &&& exists|full: Seq<String>, m: Seq<bool>|
                {
                    &&& full.len() == keyspace_size(alphabet@.len(), length as nat)
                    &&& (forall|i: int|
                        0 <= i < full.len() ==> (#[trigger] full[i])@ == key_of_index(
                            alphabet@,
                            length as nat,
                            i as nat,
                        ))
                    &&& m.len() == full.len()
                    &&& plan.candidates@ == mask_filter(full, m)
                }
            &&& (dropout_ppm == 0 ==> {
                &&& plan.candidates@.len() == keyspace_size(alphabet@.len(), length as nat)
                &&& forall|i: int|
                    0 <= i < plan.candidates@.len() ==> (#[trigger] plan.candidates@[i])@
                        == key_of_index(alphabet@, length as nat, i as nat)
            })
        },
        dropout_ppm == 0 && config_wf(alphabet@, length, repeat, dropout_ppm) ==> (r
            == Result::<RunPlan, ConfigError>::Err(ConfigError::TotalOverflow) <==> keyspace_size(
            alphabet@.len(),
            length as nat,
        ) * repeat > usize::MAX),
{
    match validate_config(alphabet, length, repeat, dropout_ppm) {
        Err(e) => Err(e),
        Ok(()) => {
            let full = enumerate(alphabet, length);
            let (candidates, kept_count) = sample(&full, dropout_ppm);
            proof {
                if dropout_ppm == 0 {
                    assert(candidates@ == full@);
                }
            }
            match kept_count.checked_mul(repeat) {
                None => Err(ConfigError::TotalOverflow),
                Some(total) => {
                    let tracker = ProgressTracker::new(total, report_interval_max);
                    proof {
                        let m = choose|m: Seq<bool>|
                            m.len() == full@.len() && candidates@ == mask_filter(full@, m);
                        lemma_mask_filter_distinct(full@, m);
                        assert forall|k: int|
                            0 <= k < candidates@.len() implies (#[trigger] candidates@[k])@.len()
                            == length by {
                            assert(full@.contains(candidates@[k]));
                            let i = choose|i: int|
                                0 <= i < full@.len() && full@[i] == candidates@[k];
                            lemma_key_of_index_len(alphabet@, length as nat, i as nat);
                        }
                        assert({
                            &&& full@.len() == keyspace_size(alphabet@.len(), length as nat)
                            &&& (forall|i: int|
                                0 <= i < full@.len() ==> (#[trigger] full@[i])@ == key_of_index(
                                    alphabet@,
                                    length as nat,
                                    i as nat,
                                ))
                            &&& m.len() == full@.len()
                            &&& candidates@ == mask_filter(full@, m)
                        });
                    }
                    Ok(RunPlan { candidates, total, tracker })
                },
            }
        },
    }
}

} // verus!
