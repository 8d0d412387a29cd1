//! A linear congruential generator that can be fast-forwarded, so that
//! blocks of its output can be produced in parallel.
use vstd::prelude::*;
use vstd::arithmetic::div_mod::{
    lemma_add_mod_noop, lemma_fundamental_div_mod, lemma_fundamental_div_mod_converse_div,
    lemma_fundamental_div_mod_converse_mod, lemma_mod_bound, lemma_mul_mod_noop_left,
    lemma_mul_mod_noop_right, lemma_small_mod,
};
use vstd::arithmetic::power::{
    lemma_pow0, lemma_pow1, lemma_pow_adds, lemma_pow_mod_noop, lemma_pow_multiplies,
    lemma_square_is_pow2, pow,
};

verus! {

pub const MODULUS: u32 = 139968;
pub const MULTIPLIER: u32 = 3877;
pub const ADDITIVE: u32 = 29573;

/// One step of the generator.
pub open spec fn lcg_next(x: nat) -> nat {
    (x * MULTIPLIER as nat + ADDITIVE as nat) % MODULUS as nat
}

/// The state after `n` steps from `x`.
pub open spec fn lcg_iter(x: nat, n: nat) -> nat
    decreases n,
{
    if n == 0 {
        x
    } else {
        lcg_next(lcg_iter(x, (n - 1) as nat))
    }
}

proof fn lemma_powmod_step(ret: int, b: int, e: nat, m: int)
    requires
        m > 0,
    ensures
        ((if e % 2 == 1 {
            (ret * b) % m
        } else {
            ret
        }) * pow((b * b) % m, e / 2)) % m == (ret * pow(b, e)) % m,
{
    let k = e / 2;
    lemma_pow_multiplies(b, 2, k);
    lemma_square_is_pow2(b);
    let p = pow(b * b, k);
    assert(pow(b, 2 * k) == p);
    lemma_pow_mod_noop(b * b, k, m);
    if e % 2 == 1 {
        lemma_pow_adds(b, 2 * k, 1);
        lemma_pow1(b);
        assert(e == 2 * k + 1);
        assert(pow(b, e) == p * b);
        let r2 = (ret * b) % m;
        lemma_mul_mod_noop_right(r2, p, m);
        lemma_mul_mod_noop_right(r2, pow((b * b) % m, k), m);
        lemma_mul_mod_noop_left(ret * b, p, m);
        assert((ret * b) * p == ret * (p * b)) by (nonlinear_arith);
    } else {
        assert(e == 2 * k);
        lemma_mul_mod_noop_right(ret, pow(b * b, k), m);
        lemma_mul_mod_noop_right(ret, pow((b * b) % m, k), m);
    }
}

/// `base` to the power `exponent`, modulo `modulus`, by repeated squaring.
pub fn powmod(base: u64, exponent: u32, modulus: u64) -> (r: u64)
    requires
        1 <= modulus <= 0x1_0000_0000,
    ensures
        r == pow(base as int, exponent as nat) % (modulus as int),
{
    let mut ret: u64 = 1 % modulus;
    let mut b: u64 = base % modulus;
    let mut e: u32 = exponent;
    proof {
        lemma_pow0(b as int);
        lemma_pow_mod_noop(base as int, exponent as nat, modulus as int);
        lemma_mul_mod_noop_right(ret as int, pow(b as int, e as nat), modulus as int);
        assert((ret as int * pow(b as int, e as nat)) % (modulus as int) == pow(base as int, exponent as nat)
            % (modulus as int)) by (nonlinear_arith)
            requires
                ret as int == 1int % (modulus as int),
                (pow((base % modulus) as int, exponent as nat)) % (modulus as int) == pow(base as int, exponent as nat) % (modulus as int),
                b == base % modulus,
                e == exponent,
                modulus >= 1,
        ;
    }
    while e > 0
        invariant
            1 <= modulus <= 0x1_0000_0000,
            ret < modulus,
            b < modulus,
            (ret * pow(b as int, e as nat)) % (modulus as int) == pow(base as int, exponent as nat)
                % (modulus as int),
        decreases e,
    {
        proof {
            lemma_powmod_step(ret as int, b as int, e as nat, modulus as int);
            assert(b * b <= 0xFFFF_FFFF * 0xFFFF_FFFF) by (nonlinear_arith)
                requires
                    b < modulus <= 0x1_0000_0000,
            ;
            assert(ret * b <= 0xFFFF_FFFF * 0xFFFF_FFFF) by (nonlinear_arith)
                requires
                    b < modulus <= 0x1_0000_0000,
                    ret < modulus,
            ;
        }
        if e % 2 == 1 {
            ret = ret * b % modulus;
        }
        e = e / 2;
        b = b * b % modulus;
    }
    proof {
        lemma_pow0(b as int);
        lemma_small_mod(ret as nat, modulus as nat);
    }
    ret
}

/// `1 + a + a^2 + ... + a^(n-1)` for the generator's multiplier `a`.
pub open spec fn geo(n: nat) -> nat
    decreases n,
{
    if n == 0 {
        0
    } else {
        MULTIPLIER as nat * geo((n - 1) as nat) + 1
    }
}

proof fn lemma_geo(n: nat)
    ensures
        (MULTIPLIER as int - 1) * geo(n) == pow(MULTIPLIER as int, n) - 1,
    decreases n,
{
    if n == 0 {
        lemma_pow0(MULTIPLIER as int);
    } else {
        lemma_geo((n - 1) as nat);
        lemma_pow_adds(MULTIPLIER as int, (n - 1) as nat, 1);
        lemma_pow1(MULTIPLIER as int);
        let g = geo((n - 1) as nat);
        let p = pow(MULTIPLIER as int, (n - 1) as nat);
        assert((MULTIPLIER as int - 1) * (MULTIPLIER as int * g + 1) == MULTIPLIER as int * ((
        MULTIPLIER as int - 1) * g) + MULTIPLIER as int - 1) by (nonlinear_arith);
        assert(pow(MULTIPLIER as int, n) == p * MULTIPLIER as int);
    }
}

/// `n` steps of the generator in closed form.
proof fn lemma_lcg_closed_form(x: nat, n: nat)
    requires
        x < MODULUS,
    ensures
        lcg_iter(x, n) == (pow(MULTIPLIER as int, n) * x + ADDITIVE as int * geo(n)) % (
        MODULUS as int),
    decreases n,
{
    let a = MULTIPLIER as int;
    let b = ADDITIVE as int;
    let m = MODULUS as int;
    if n == 0 {
        lemma_pow0(a);
        lemma_small_mod(x, m as nat);
    } else {
        let n1 = (n - 1) as nat;
        lemma_lcg_closed_form(x, n1);
        let p = pow(a, n1);
        let g = geo(n1);
        let t = p * x + b * g;
        lemma_pow_adds(a, n1, 1);
        lemma_pow1(a);
        // lcg_iter(x, n) == (lcg_iter(x, n1) * a + b) % m
        lemma_mul_mod_noop_left(t, a, m);
        lemma_add_mod_noop(t * a, b, m);
        lemma_add_mod_noop((t % m) * a, b, m);
        lemma_mul_mod_noop_left(t, a, m);
        assert(t * a + b == pow(a, n) * x + b * geo(n)) by (nonlinear_arith)
            requires
                t == p * x + b * g,
                pow(a, n) == p * a,
                geo(n) == a * g + 1,
        ;
    }
}

/// A linear congruential generator: each step maps the state `x` to
/// `(x * 3877 + 29573) % 139968`, and yields the new state.
pub struct Rng {
    last: u32,
}

impl View for Rng {
    type V = nat;

    closed spec fn view(&self) -> nat {
        self.last as nat
    }
}

impl Rng {
    /// States are below the modulus.
    pub closed spec fn wf(&self) -> bool {
        self.last < MODULUS
    }

    /// The generator at its conventional seed, 42.
    pub fn new() -> (r: Rng)
        ensures
            r.wf(),
            r@ == 42,
    {
        Rng { last: 42 }
    }

    /// The largest value the generator yields.
    pub fn max_value() -> (r: u32)
        ensures
            r == MODULUS - 1,
    {
        MODULUS - 1
    }

    /// Advances the generator one step and returns its new state.
    pub fn gen(&mut self) -> (r: u32)
        requires
            old(self).wf(),
        ensures
            final(self).wf(),
            final(self)@ == lcg_next(old(self)@),
            r == final(self)@,
    {
        self.last = (self.last * MULTIPLIER + ADDITIVE) % MODULUS;
        self.last
    }

    /// The generator as it will be after `n` more steps, computed without
    /// taking them.
    pub fn future(&self, n: u32) -> (r: Rng)
        requires
            self.wf(),
        ensures
            r.wf(),
            r@ == lcg_iter(self@, n as nat),
    {
        let a = MULTIPLIER as u64;
        let b = ADDITIVE as u64;
        let m = MODULUS as u64;
        let x = self.last as u64;
        let an = powmod(a, n, m);
        let an_wide = powmod(a, n, (a - 1) * m);
        let ghost g = geo(n as nat);
        let ghost gm = g % (m as nat);
        proof {
            lemma_geo(n as nat);
            lemma_fundamental_div_mod(g as int, m as int);
            lemma_mod_bound(g as int, m as int);
            let d = (a as int - 1) * m as int;
            let q = g as int / m as int;
            assert(pow(a as int, n as nat) == q * d + ((a as int - 1) * gm + 1)) by (nonlinear_arith)
                requires
                    (a as int - 1) * g == pow(a as int, n as nat) - 1,
                    g == m as int * q + gm,
                    d == (a as int - 1) * m as int,
            ;
            assert((a as int - 1) * gm + 1 < d) by (nonlinear_arith)
                requires
                    0 <= gm < m,
                    d == (a as int - 1) * m as int,
                    a == 3877,
            ;
            lemma_fundamental_div_mod_converse_mod(pow(a as int, n as nat), d, q, (a as int - 1)
                * gm + 1);
            assert(an_wide == (a as int - 1) * gm + 1);
            lemma_fundamental_div_mod_converse_div((a as int - 1) * gm, a as int - 1, gm as int, 0);
            assert(an * x < 0x1_0000_0000 * 0x1_0000_0000) by (nonlinear_arith)
                requires
                    an < m,
                    x < m,
                    m == 139968,
            ;
            assert(gm * b < 139968 * 29573) by (nonlinear_arith)
                requires
                    gm < m,
                    m == 139968,
                    b == 29573,
            ;
        }
        let new_seed = (an * x) % m + (an_wide - 1) / (a - 1) * b;
        proof {
            let t = pow(a as int, n as nat);
            assert((an_wide - 1) / (a - 1) == gm);
            lemma_mul_mod_noop_left(t, x as int, m as int);
            lemma_mul_mod_noop_left(g as int, b as int, m as int);
            lemma_add_mod_noop(t * x, g * b, m as int);
            lemma_add_mod_noop((an * x) as int, (gm * b) as int, m as int);
            lemma_mod_bound((an * x) as int, m as int);
            lemma_add_mod_noop((an * x) as int % (m as int), (gm * b) as int, m as int);
            lemma_mul_mod_noop_left(g as int, b as int, m as int);
            lemma_lcg_closed_form(x as nat, n as nat);
            assert(gm % (m as nat) == gm) by {
                lemma_small_mod(gm, m as nat);
            }
            lemma_mul_mod_noop_left(gm as int, b as int, m as int);
            assert(b * g == g * b) by (nonlinear_arith);
        }
        Rng { last: (new_seed % m) as u32 }
    }
}

} // verus!
