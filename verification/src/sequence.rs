//! Generation of the ordered input sequence that a run evaluates: an
//! inclusive arithmetic progression given by a start, an end and a step.

use vstd::prelude::*;
use vstd::arithmetic::div_mod::{
    lemma_div_nonincreasing, lemma_div_pos_is_pos, lemma_fundamental_div_mod, lemma_mod_bound,
};
use vstd::arithmetic::mul::{lemma_mul_inequality, lemma_mul_is_commutative};

verus! {

/// How many values the progression from `start` towards `end` in strides of
/// `step` holds. The span between the bounds is rounded down to a whole
/// number of strides; when `start` exceeds `end` by less than one stride the
/// rounded span is zero and the progression still holds its starting point,
/// while a full stride or more leaves it empty.
pub open spec fn generated_len(start: int, end: int, step: int) -> int
    recommends
        step >= 1,
{
    if end >= start {
        (end - start) / step + 1
    } else if start - end < step {
        1
    } else {
        0
    }
}

/// The ordered input sequence for the given bounds and step: `start`,
/// `start + step`, and so on, up to the last value that does not pass `end`.
pub open spec fn generate_spec(start: i64, end: i64, step: i64) -> Seq<i64> {
    Seq::new(
        generated_len(start as int, end as int, step as int) as nat,
        |i: int| (start + i * step) as i64,
    )
}

/// Builds the input sequence for one run. Every value lies between `start`
/// and `end`, so the bounds named in `requires` are exactly what keeps the
/// arithmetic within the machine word.
pub fn generate(start: i64, end: i64, step: i64) -> (r: Vec<i64>)
    requires
        step >= 1,
        end - start <= i64::MAX,
        start - end <= i64::MAX,
        generated_len(start as int, end as int, step as int) <= usize::MAX,
    ensures
        r@ == generate_spec(start, end, step),
{
    if end < start {
        let gap = start - end;
        if gap < step {
            let mut r: Vec<i64> = Vec::new();
            r.push(start);
            proof {
                assert(r@ =~= generate_spec(start, end, step));
            }
            return r;
        }
        let r: Vec<i64> = Vec::new();
        proof {
            assert(r@ =~= generate_spec(start, end, step));
        }
        return r;
    }
    let span = end - start;
    let steps = span / step;
    proof {
        lemma_div_pos_is_pos(span as int, step as int);
        lemma_div_nonincreasing(span as int, step as int);
        assert(steps as int * step as int <= span as int) by {
            lemma_fundamental_div_mod(span as int, step as int);
            lemma_mod_bound(span as int, step as int);
            lemma_mul_is_commutative(step as int, steps as int);
        }
    }
    let count = (steps as usize) + 1;
    let mut r: Vec<i64> = Vec::new();
    let mut i: usize = 0;
    while i < count
        invariant
            start <= end,
            step >= 1,
            span == end - start,
            steps == span as int / step as int,
            steps as int * step as int <= span as int,
            count == steps + 1,
            0 <= i <= count,
            r@.len() == i,
            forall|j: int| 0 <= j < i ==> r@[j] as int == start + j * (step as int),
        decreases count - i,
    {
        proof {
            lemma_mul_inequality(i as int, steps as int, step as int);
        }
        let x = start + (i as i64) * step;
        r.push(x);
        i = i + 1;
    }
    proof {
        assert(r@ =~= generate_spec(start, end, step));
    }
    r
}

/// Sequence generation is pure: two sequences generated from the same start,
/// end and step are the same ordered sequence.
pub proof fn lemma_generate_pure(
    first: Seq<i64>,
    second: Seq<i64>,
    start: i64,
    end: i64,
    step: i64,
)
    requires
        first == generate_spec(start, end, step),
        second == generate_spec(start, end, step),
    ensures
        first == second,
{
}

} // verus!
