//! Calls of functions of which nothing is known but that they were called.

use vstd::prelude::*;

verus! {

/// Calls a function, and says that the result came from it.
pub(crate) fn called0<R, F: FnOnce() -> R>(f: F) -> (r: R)
    requires
        f.requires(()),
    ensures
        f.ensures((), r),
{
    f()
}

/// Calls a function, and says that the result came from it.
pub(crate) fn called<A, R, F: FnOnce(A) -> R>(f: F, argument: A) -> (r: R)
    requires
        f.requires((argument,)),
    ensures
        f.ensures((argument,), r),
{
    f(argument)
}

/// Calls a function, and says that the result came from it.
pub(crate) fn called2<A, B, R, F: FnOnce(A, B) -> R>(f: F, first: A, second: B) -> (r: R)
    requires
        f.requires((first, second)),
    ensures
        f.ensures((first, second), r),
{
    f(first, second)
}

/// Calls a function, and says that the result came from it.
pub(crate) fn called3<A, B, C, R, F: FnOnce(A, B, C) -> R>(
    f: F,
    first: A,
    second: B,
    third: C,
) -> (r: R)
    requires
        f.requires((first, second, third)),
    ensures
        f.ensures((first, second, third), r),
{
    f(first, second, third)
}

} // verus!
