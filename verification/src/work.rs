//! The work function that a worker applies to one input value.
//!
//! From the scheduler's viewpoint the evaluation is a black box: the only
//! thing that varies between workers is how long a call takes, and that
//! latency is modelled separately, per worker, by the run itself. The value
//! computed here is the identity, which keeps every result traceable to its
//! input; the run contracts speak of results only through [`work_of`], so
//! they state the scheduling guarantees independently of what the evaluation
//! computes.

use vstd::prelude::*;

verus! {

/// What the work function returns for one input value. The result depends on
/// the value alone, never on which worker evaluated it.
pub open spec fn work_of(value: i64) -> i64 {
    value
}

/// The image of a whole input sequence under the work function: what a run
/// must have collected, in some order, once it is complete.
pub open spec fn work_image(values: Seq<i64>) -> Seq<i64> {
    values.map_values(|v: i64| work_of(v))
}

/// Evaluates the work function for one value on behalf of one worker. The
/// worker identity selects only the latency of the call, which the run
/// models with its virtual clock; the result ignores it.
pub fn apply_work(value: i64, _worker: usize) -> (r: i64)
    ensures
        r == work_of(value),
{
    value
}

/// With the work function being the identity, the image of a sequence is
/// the sequence itself.
pub proof fn lemma_work_image_id(values: Seq<i64>)
    ensures
        work_image(values) == values,
{
    assert(work_image(values) =~= values);
}

pub proof fn lemma_work_image_push(values: Seq<i64>, v: i64)
    ensures
        work_image(values.push(v)) == work_image(values).push(work_of(v)),
{
    assert(work_image(values.push(v)) =~= work_image(values).push(work_of(v)));
}

} // verus!
