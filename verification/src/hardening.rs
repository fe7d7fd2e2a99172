//! Hints that keep the compiler from removing or reordering the engine's
//! redundant work.

use vstd::prelude::*;

verus! {

/// Hands `value` back through `core::hint::black_box`, which std documents
/// as an identity function that the compiler must treat as opaque. The
/// contract claims that identity: the result is the argument.
#[verifier::external_body]
pub(crate) fn opaque<T>(value: T) -> (r: T)
    ensures
        r == value,
{
    core::hint::black_box(value)
}

/// Calls `core::sync::atomic::compiler_fence` with sequentially consistent
/// ordering, which keeps the compiler from moving memory accesses across
/// this point. It returns nothing, and the contract claims nothing.
#[verifier::external_body]
pub(crate) fn compiler_barrier() {
    core::sync::atomic::compiler_fence(core::sync::atomic::Ordering::SeqCst);
}

} // verus!
