//! The Fibonacci numbers behind the interpreter benchmarks: an iterative one kept modulo a
//! prime, and the naive recursion.

use vstd::prelude::*;

verus! {

/// The prime the iterative benchmark reduces by.
pub const MOD: i64 = 1000000007;

/// The Fibonacci numbers: 0, 1, 1, 2, 3, 5, …
pub open spec fn fib_spec(n: nat) -> nat
    decreases n,
{
    if n < 2 {
        n
    } else {
        fib_spec((n - 1) as nat) + fib_spec((n - 2) as nat)
    }
}

proof fn lemma_fib_monotonic(i: nat, j: nat)
    requires
        i <= j,
    ensures
        fib_spec(i) <= fib_spec(j),
    decreases j - i,
{
    if i < j {
        lemma_fib_monotonic(i, (j - 1) as nat);
        if j >= 2 {
        }
    }
}

/// The `n`th Fibonacci number modulo `MOD`; 0 for a negative `n`.
pub fn fib_iter(n: i64) -> (r: i64)
    ensures
        n >= 0 ==> r == fib_spec(n as nat) % (MOD as nat),
        n < 0 ==> r == 0,
{
    let mut a: i64 = 0;
    let mut b: i64 = 1;
    let mut i: i64 = 0;
    proof {
        assert(fib_spec(0) == 0 && fib_spec(1) == 1);
        assert(0nat % (MOD as nat) == 0) by (nonlinear_arith);
        assert(1nat % (MOD as nat) == 1) by (nonlinear_arith);
    }
    while i < n
        invariant
            0 <= i,
            n >= 0 ==> i <= n,
            n < 0 ==> i == 0,
            0 <= a < MOD,
            0 <= b < MOD,
            a == fib_spec(i as nat) % (MOD as nat),
            b == fib_spec((i + 1) as nat) % (MOD as nat),
        decreases n - i,
    {
        let t = (a + b) % MOD;
        proof {
            let p = MOD as int;
            let x = fib_spec(i as nat) as int;
            let y = fib_spec((i + 1) as nat) as int;
            assert(fib_spec((i + 2) as nat) == fib_spec((i + 1) as nat) + fib_spec(i as nat));
            vstd::arithmetic::div_mod::lemma_add_mod_noop(x, y, p);
        }
        a = b;
        b = t;
        i += 1;
    }
    a
}

/// The `n`th Fibonacci number by the naive recursion; a negative `n` comes back as is.
pub fn fib(n: i64) -> (r: i64)
    requires
        n >= 2 ==> fib_spec(n as nat) <= i64::MAX,
    ensures
        n < 2 ==> r == n,
        n >= 2 ==> r == fib_spec(n as nat),
    decreases n,
{
    if n < 2 {
        n
    } else {
        proof {
            lemma_fib_monotonic((n - 1) as nat, n as nat);
            lemma_fib_monotonic((n - 2) as nat, n as nat);
        }
        fib(n - 1) + fib(n - 2)
    }
}

} // verus!
