//! Cell operations given as closures, and what their results mean in specs.
use vstd::prelude::*;

verus! {

/// A unary cell operation that can always be called and always gives the same result.
pub open spec fn is_op1<T, F: Fn(T) -> T>(f: F) -> bool {
    &&& forall|x: T| #[trigger] f.requires((x,))
    &&& forall|x: T, r1: T, r2: T|
        #[trigger] f.ensures((x,), r1) && #[trigger] f.ensures((x,), r2) ==> r1 == r2
}

/// A binary cell operation that can always be called and always gives the same result.
pub open spec fn is_op2<T, F: Fn(T, T) -> T>(f: F) -> bool {
    &&& forall|x: T, y: T| #[trigger] f.requires((x, y))
    &&& forall|x: T, y: T, r1: T, r2: T|
        #[trigger] f.ensures((x, y), r1) && #[trigger] f.ensures((x, y), r2) ==> r1 == r2
}

/// A multiply-accumulate operation `(acc, a, b)` that can always be called and
/// always gives the same result.
pub open spec fn is_op3<T, F: Fn(T, T, T) -> T>(f: F) -> bool {
    &&& forall|a: T, x: T, y: T| #[trigger] f.requires((a, x, y))
    &&& forall|a: T, x: T, y: T, r1: T, r2: T|
        #[trigger] f.ensures((a, x, y), r1) && #[trigger] f.ensures((a, x, y), r2) ==> r1 == r2
}

/// The result of a unary cell operation.
pub open spec fn call1<T, F: Fn(T) -> T>(f: F, x: T) -> T {
    choose|r: T| f.ensures((x,), r)
}

/// The result of a binary cell operation.
pub open spec fn call2<T, F: Fn(T, T) -> T>(f: F, x: T, y: T) -> T {
    choose|r: T| f.ensures((x, y), r)
}

/// The result of a multiply-accumulate operation.
pub open spec fn call3<T, F: Fn(T, T, T) -> T>(f: F, a: T, x: T, y: T) -> T {
    choose|r: T| f.ensures((a, x, y), r)
}

/// Whether the multiply-accumulate operation does not care about the order of its two factors.
pub open spec fn factors_commute<T, F: Fn(T, T, T) -> T>(f: F) -> bool {
    forall|a: T, x: T, y: T| #[trigger] call3(f, a, x, y) == call3(f, a, y, x)
}

/// Accumulates `f` over the first `n` pairs of `xs` and `ys`, starting from `zero`,
/// first pair first.
pub open spec fn fold_mul_add<T, F: Fn(T, T, T) -> T>(
    f: F,
    zero: T,
    xs: Seq<T>,
    ys: Seq<T>,
    n: nat,
) -> T
    decreases n,
{
    if n == 0 {
        zero
    } else {
        call3(f, fold_mul_add(f, zero, xs, ys, (n - 1) as nat), xs[n - 1], ys[n - 1])
    }
}

/// A call of a unary operation gives what `call1` names.
pub proof fn lemma_call1<T, F: Fn(T) -> T>(f: F, x: T, r: T)
    requires
        is_op1(f),
        f.ensures((x,), r),
    ensures
        call1(f, x) == r,
{
}

/// A call of a binary operation gives what `call2` names.
pub proof fn lemma_call2<T, F: Fn(T, T) -> T>(f: F, x: T, y: T, r: T)
    requires
        is_op2(f),
        f.ensures((x, y), r),
    ensures
        call2(f, x, y) == r,
{
}

/// A call of a multiply-accumulate operation gives what `call3` names.
pub proof fn lemma_call3<T, F: Fn(T, T, T) -> T>(f: F, a: T, x: T, y: T, r: T)
    requires
        is_op3(f),
        f.ensures((a, x, y), r),
    ensures
        call3(f, a, x, y) == r,
{
}

/// The cell arithmetic that a network runs on: a zero, addition,
/// subtraction, multiplication, multiply-accumulate `(acc, a, b)` and the
/// activation function.
pub struct Arith<T, A, S, M, MA, G> {
    pub zero: T,
    pub add: A,
    pub sub: S,
    pub mul: M,
    pub mul_add: MA,
    pub activate: G,
}

impl<T, A, S, M, MA, G> Arith<T, A, S, M, MA, G> where
    A: Fn(T, T) -> T,
    S: Fn(T, T) -> T,
    M: Fn(T, T) -> T,
    MA: Fn(T, T, T) -> T,
    G: Fn(T) -> T,
{
    /// Every operation can always be called and always gives the same result.
    pub open spec fn wf(&self) -> bool {
        &&& is_op2(self.add)
        &&& is_op2(self.sub)
        &&& is_op2(self.mul)
        &&& is_op3(self.mul_add)
        &&& is_op1(self.activate)
    }
}

} // verus!
