//! Small function combinators.

use vstd::prelude::*;

verus! {

/// Invert the boolean result of a function.
pub fn complement<T, F: Fn(T) -> bool>(f: F) -> (r: impl Fn(T) -> bool)
    ensures
        forall|x: T| call_requires(f, (x,)) ==> call_requires(r, (x,)),
        forall|x: T, b: bool|
            call_ensures(r, (x,), b) ==> exists|fb: bool| call_ensures(f, (x,), fb) && b == !fb,
{
    move |x: T| -> (b: bool)
        requires
            call_requires(f, (x,)),
        ensures
            exists|fb: bool| call_ensures(f, (x,), fb) && b == !fb,
        {
            !f(x)
        }
}

/// Compare two values through an accessor: `on(access, cmp)` applies
/// `cmp` to `access` of each argument.
pub fn on<T, K, R, A: Fn(&T) -> K, C: Fn(K, K) -> R>(access: A, cmp: C) -> (r: impl Fn(
    &T,
    &T,
) -> R)
    ensures
        forall|a: &T, b: &T|
            (call_requires(access, (a,)) && call_requires(access, (b,)) && (forall|ka: K, kb: K|
                call_ensures(access, (a,), ka) && call_ensures(access, (b,), kb)
                    ==> call_requires(cmp, (ka, kb)))) ==> call_requires(r, (a, b)),
        forall|a: &T, b: &T, out: R|
            call_ensures(r, (a, b), out) ==> exists|ka: K, kb: K|
                call_ensures(access, (a,), ka) && call_ensures(access, (b,), kb) && call_ensures(
                    cmp,
                    (ka, kb),
                    out,
                ),
{
    move |a: &T, b: &T| -> (out: R)
        requires
            call_requires(access, (a,)),
            call_requires(access, (b,)),
            forall|ka: K, kb: K|
                call_ensures(access, (a,), ka) && call_ensures(access, (b,), kb)
                    ==> call_requires(cmp, (ka, kb)),
        ensures
            exists|ka: K, kb: K|
                call_ensures(access, (a,), ka) && call_ensures(access, (b,), kb) && call_ensures(
                    cmp,
                    (ka, kb),
                    out,
                ),
        {
            cmp(access(a), access(b))
        }
}

} // verus!
