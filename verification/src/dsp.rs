//! Signal-processing helpers that do not depend on the sample type.

use vstd::prelude::*;
use vstd::std_specs::ops::{AddSpec, MulSpec};
use core::ops::{Add, Mul};

verus! {

/// The sum of the first `n` products of the convolution window that starts
/// at `start`, added one by one from the left to `zero`: term `j` pairs `b[j]`
/// with the `j`-th sample of the window counted from its end,
/// `a[start + b.len() - 1 - j]`.
pub open spec fn window_sum<A, B, C>(zero: C, a: Seq<A>, b: Seq<B>, start: int, n: nat) -> C where
    A: Mul<B, Output = C>,
    C: Add<Output = C>,
 decreases n,
{
    if n == 0 {
        zero
    } else {
        window_sum::<A, B, C>(zero, a, b, start, (n - 1) as nat).add_spec(
            a[start + b.len() - n].mul_spec(b[n - 1]),
        )
    }
}

/// Whether `value` is one that `C::default()` may return: the zero from
/// which each window's sum starts.
pub open spec fn is_default_value<C: Default>(value: C) -> bool {
    call_ensures(C::default, (), value)
}

/// Whether `value` is the sum of the window of `a` that starts at `start`,
/// added up from a value of `C::default()`.
pub open spec fn is_window_sum<A, B, C>(value: C, a: Seq<A>, b: Seq<B>, start: int) -> bool where
    A: Mul<B, Output = C>,
    C: Add<Output = C> + Default,
 {
    exists|zero: C|
        #![trigger is_default_value(zero), window_sum::<A, B, C>(zero, a, b, start, b.len())]
        is_default_value(zero) && value == window_sum::<A, B, C>(zero, a, b, start, b.len())
}

/// Whether `*` and `+` on these types behave as their specifications say
/// (true of the integer types).
pub open spec fn ops_obey_spec<A, B, C>() -> bool where
    A: Mul<B, Output = C>,
    C: Add<Output = C>,
 {
    <A as MulSpec<B>>::obeys_mul_spec() && <C as AddSpec>::obeys_add_spec()
}

/// Whether every operation that convolving `a` with `b` performs is allowed:
/// each product of a sample of a window with a coefficient and, where the
/// operators follow their specifications, each partial sum of a window (from
/// the default value on) plus its next product (for integers: none of them
/// overflows). Where they do not, the partial sums are not known, and any
/// two values must be allowed to be added.
pub open spec fn convolve_ops_allowed<A, B, C>(a: Seq<A>, b: Seq<B>) -> bool where
    A: Mul<B, Output = C>,
    C: Add<Output = C> + Default,
 {
    &&& forall|k: int, j: int|
        0 <= k && k + b.len() <= a.len() && 0 <= j < b.len() ==> #[trigger] a[k + b.len() - 1 - j].mul_req(
            b[j],
        )
    &&& ops_obey_spec::<A, B, C>() ==> forall|zero: C, k: int, j: nat|
        is_default_value(zero) && 0 <= k && k + b.len() <= a.len() && j < b.len()
            ==> #[trigger] window_sum::<A, B, C>(zero, a, b, k, j).add_req(
            a[k + b.len() - 1 - j].mul_spec(b[j as int]),
        )
    &&& !ops_obey_spec::<A, B, C>() ==> forall|x: C, y: C| #[trigger] x.add_req(y)
}

/// The number of full windows of length `m` in a sequence of length `n`.
pub open spec fn window_count(n: nat, m: nat) -> nat {
    if m <= n {
        (n - m + 1) as nat
    } else {
        0
    }
}

/// Slides `b`, reversed, along `a` and yields one sum of products per
/// position at which `b` lies entirely within `a`. Each sum starts from
/// `C::default()` (the zero of the sample type) and adds the products one by
/// one.
pub fn convolve<A, B, C>(a: &[A], b: &[B]) -> (r: Vec<C>) where
    A: Copy + Mul<B, Output = C>,
    B: Copy,
    C: Add<Output = C> + Default,

    requires
        b@.len() > 0,
        convolve_ops_allowed::<A, B, C>(a@, b@),
    ensures
        r@.len() == window_count(a@.len(), b@.len()),
        ops_obey_spec::<A, B, C>() ==> forall|k: int|
            0 <= k < r@.len() ==> #[trigger] is_window_sum(r@[k], a@, b@, k),
{
    let m = b.len();
    let mut r: Vec<C> = Vec::new();
    if m > a.len() {
        return r;
    }
    let count = a.len() - m + 1;
    let ghost obeys = ops_obey_spec::<A, B, C>();
    let mut k: usize = 0;
    while k < count
        invariant
            k <= count,
            a@.len() <= usize::MAX,
            m == b@.len(),
            m >= 1,
            count == a@.len() - m + 1,
            convolve_ops_allowed::<A, B, C>(a@, b@),
            obeys == ops_obey_spec::<A, B, C>(),
            r@.len() == k,
            obeys ==> forall|i: int| 0 <= i < k ==> #[trigger] is_window_sum(r@[i], a@, b@, i),
        decreases count - k,
    {
        let mut acc: C = C::default();
        let ghost zero = acc;
        let mut j: usize = 0;
        while j < m
            invariant
                j <= m,
                a@.len() <= usize::MAX,
                m == b@.len(),
                m >= 1,
                k + m <= a@.len(),
                convolve_ops_allowed::<A, B, C>(a@, b@),
                obeys == ops_obey_spec::<A, B, C>(),
                is_default_value(zero),
                obeys ==> acc == window_sum::<A, B, C>(zero, a@, b@, k as int, j as nat),
            decreases m - j,
        {
            proof {
                assert(a@[k + b@.len() - 1 - j].mul_req(b@[j as int]));
            }
            let term = a[k + m - 1 - j] * b[j];
            proof {
                if obeys {
                    let jn = j as nat;
                    assert(window_sum::<A, B, C>(zero, a@, b@, k as int, jn).add_req(
                        a@[k + b@.len() - 1 - jn].mul_spec(b@[jn as int]),
                    ));
                } else {
                    assert(acc.add_req(term));
                }
            }
            acc = acc + term;
            j = j + 1;
        }
        let ghost prev = r@;
        r.push(acc);
        proof {
            if obeys {
                assert(is_window_sum(acc, a@, b@, k as int));
                assert forall|i: int| 0 <= i < k + 1 implies #[trigger] is_window_sum(r@[i], a@, b@, i) by {
                    if i < k {
                        assert(r@[i] == prev[i]);
                    }
                }
            }
        }
        k = k + 1;
    }
    r
}

} // verus!
