//! The crate-wide fallible-result vocabulary.

use vstd::prelude::*;

verus! {

/// Why a simulation operation refused its input.
#[derive(Debug, Clone, Copy, PartialEq, Eq)]
pub enum SimError {
    /// A parameter was outside its documented range.
    OutOfRange {
        /// Stable label of the offending field.
        field: &'static str,
    },
    /// A fixed-point computation could not be represented.
    Overflow {
        /// Stable label of the computation.
        context: &'static str,
    },
    /// An identifier did not name anything known to the simulation.
    UnknownDefinition,
}

/// Result type used throughout the simulation.
pub type SimResult<T> = Result<T, SimError>;

/// A result holding a vector, viewed as a result holding its sequence.
pub open spec fn vec_result_view<T>(result: SimResult<Vec<T>>) -> SimResult<Seq<T>> {
    match result {
        Ok(values) => Ok(values@),
        Err(error) => Err(error),
    }
}

/// Collects `item(0), ..., item(n - 1)`, stopping at the first error.
pub open spec fn spec_collect<T>(item: spec_fn(int) -> SimResult<T>, n: int) -> SimResult<Seq<T>>
    decreases n,
{
    if n <= 0 {
        Ok(Seq::empty())
    } else {
        match spec_collect(item, n - 1) {
            Err(error) => Err(error),
            Ok(prefix) => match item(n - 1) {
                Err(error) => Err(error),
                Ok(value) => Ok(prefix.push(value)),
            },
        }
    }
}

/// Once a collection fails, every longer collection fails the same way.
pub proof fn lemma_collect_err_sticks<T>(item: spec_fn(int) -> SimResult<T>, n: int, m: int)
    requires
        0 <= n <= m,
        spec_collect(item, n) is Err,
    ensures
        spec_collect(item, m) == spec_collect(item, n),
    decreases m - n,
{
    if n < m {
        lemma_collect_err_sticks(item, n, m - 1);
    }
}

/// A successful collection of `n` items holds exactly `item(0), ..., item(n - 1)`.
pub proof fn lemma_collect_ok<T>(item: spec_fn(int) -> SimResult<T>, n: int)
    requires
        n >= 0,
        spec_collect(item, n) is Ok,
    ensures
        spec_collect(item, n).unwrap().len() == n,
        forall|i: int| 0 <= i < n ==> item(i) == Ok::<T, SimError>(spec_collect(item, n).unwrap()[i]),
    decreases n,
{
    if n > 0 {
        lemma_collect_ok(item, n - 1);
    }
}

} // verus!
