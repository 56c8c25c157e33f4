//! What a parsing step gives: a value and the position after it, an error,
//! or (`None`) an outcome that is not defined: a lookup of a class whose
//! name entry is not UTF-8, which a checked pool never holds, or a pool
//! whose checking is itself not defined.
use vstd::prelude::*;

use super::error::Error;

verus! {

/// The outcome of one parsing step at a position of the input.
pub type Outcome<T> = Option<Result<(T, int), Error>>;

/// Running `step` `n` times in a row from `p`, appending each value to `acc`;
/// the first step that fails decides the outcome.
pub open spec fn spec_repeat<T>(
    n: nat,
    d: Seq<u8>,
    p: int,
    acc: Seq<T>,
    step: spec_fn(Seq<u8>, int) -> Outcome<T>,
) -> Outcome<Seq<T>>
    decreases n,
{
    if n == 0 {
        Some(Ok((acc, p)))
    } else {
        match step(d, p) {
            None => None,
            Some(Err(e)) => Some(Err(e)),
            Some(Ok((x, p1))) => spec_repeat((n - 1) as nat, d, p1, acc.push(x), step),
        }
    }
}

} // verus!
