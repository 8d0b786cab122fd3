//! Units of measure: the dimension algebra behind compile-time dimensional analysis.
//!
//! A quantity is an ordinary number kept in coherent base units; dimensional analysis tracks each
//! quantity's [`Dim`] -- an exponent for every base dimension -- and refuses arithmetic that
//! doesn't add up. Base dimensions are the seven SI ones plus a currency (`usd`) and two for
//! graphics (`px`, `frame`).

use vstd::prelude::*;
use vstd::string::StringSliceAdditionalSpecFns;
use crate::text::{range_eq, dec, push_dec, bytes_le, le_bytes, is_alpha, is_digit, ident_len, digits_len};

verus! {

broadcast use vstd::string::group_string_axioms;

/// Number of base dimensions.
pub const N: usize = 10;

/// An exponent per base dimension. All zeros is dimensionless.
#[derive(Debug, Clone, Copy, Eq, Hash, Default)]
pub struct Dim(pub [i8; N]);

/// The exponent of base `i` in `d`, as a mathematical integer.
pub open spec fn exp(d: Dim, i: int) -> int {
    d.0@[i] as int
}

/// The exponents of `d` as mathematical integers.
pub open spec fn exps(d: Dim) -> Seq<int> {
    Seq::new(N as nat, |i: int| d.0@[i] as int)
}

/// Exponent-wise sum: the dimension of a product.
pub open spec fn add_exps(a: Dim, b: Dim) -> Seq<int> {
    Seq::new(N as nat, |i: int| exp(a, i) + exp(b, i))
}

/// Exponent-wise difference: the dimension of a quotient.
pub open spec fn sub_exps(a: Dim, b: Dim) -> Seq<int> {
    Seq::new(N as nat, |i: int| exp(a, i) - exp(b, i))
}

/// Exponents scaled by `n`: the dimension of a power.
pub open spec fn scale_exps(a: Dim, n: int) -> Seq<int> {
    Seq::new(N as nat, |i: int| exp(a, i) * n)
}

/// Every entry of `s` fits an `i8`.
pub open spec fn fits_i8(s: Seq<int>) -> bool {
    forall|i: int| 0 <= i < s.len() ==> i8::MIN <= #[trigger] s[i] <= i8::MAX
}

/// All exponents are zero.
pub open spec fn dim_is_none(d: Dim) -> bool {
    forall|i: int| 0 <= i < N ==> #[trigger] exp(d, i) == 0
}

/// Every exponent is even.
pub open spec fn all_even(d: Dim) -> bool {
    forall|i: int| 0 <= i < N ==> #[trigger] exp(d, i) % 2 == 0
}

/// Two dimensions with the same exponents are the same dimension.
pub proof fn lemma_exps_injective(a: Dim, b: Dim)
    requires
        exps(a) == exps(b),
    ensures
        a.0@ == b.0@,
        a == b,
{
    assert forall|i: int| 0 <= i < N implies a.0@[i] == b.0@[i] by {
        assert(exps(a)[i] == a.0@[i] as int);
        assert(exps(b)[i] == b.0@[i] as int);
    }
    assert(a.0@ =~= b.0@);
    vstd::array::axiom_array_ext_equal(a.0, b.0);
}

/// The dimension of a product `a * b`.
pub open spec fn dim_mul(a: Dim, b: Dim) -> Dim {
    choose|z: Dim| exps(z) == add_exps(a, b)
}

/// The dimension of a quotient `a / b`.
pub open spec fn dim_div(a: Dim, b: Dim) -> Dim {
    choose|z: Dim| exps(z) == sub_exps(a, b)
}

/// A dimension with the exponents of a product is that product's dimension.
pub proof fn lemma_dim_mul(a: Dim, b: Dim, r: Dim)
    requires
        exps(r) == add_exps(a, b),
    ensures
        r == dim_mul(a, b),
{
    let z = dim_mul(a, b);
    assert(exps(z) == add_exps(a, b));
    lemma_exps_injective(r, z);
}

/// A dimension with the exponents of a quotient is that quotient's dimension.
pub proof fn lemma_dim_div(a: Dim, b: Dim, r: Dim)
    requires
        exps(r) == sub_exps(a, b),
    ensures
        r == dim_div(a, b),
{
    let z = dim_div(a, b);
    assert(exps(z) == sub_exps(a, b));
    lemma_exps_injective(r, z);
}

/// The dimensionless dimension.
pub open spec fn dim_none() -> Dim {
    Dim([0, 0, 0, 0, 0, 0, 0, 0, 0, 0])
}

/// Multiplying dimensions adds exponents, so it is commutative and associative, with the
/// dimensionless dimension as its identity.
pub proof fn lemma_mul_laws(a: Dim, b: Dim, c: Dim)
    ensures
        add_exps(a, b) == add_exps(b, a),
        add_exps(a, dim_none()) == exps(a),
        forall|p: Dim, q: Dim|
            exps(p) == add_exps(a, b) && exps(q) == add_exps(b, c) ==> add_exps(p, c) == add_exps(
                a,
                q,
            ),
{
    assert(add_exps(a, b) =~= add_exps(b, a));
    assert(add_exps(a, dim_none()) =~= exps(a));
    assert forall|p: Dim, q: Dim|
        exps(p) == add_exps(a, b) && exps(q) == add_exps(b, c) implies add_exps(p, c) == add_exps(
        a,
        q,
    ) by {
        assert forall|i: int| 0 <= i < N implies #[trigger] add_exps(p, c)[i] == add_exps(a, q)[i] by {
            assert(exps(p)[i] == exp(p, i));
            assert(exps(q)[i] == exp(q, i));
        }
        assert(add_exps(p, c) =~= add_exps(a, q));
    }
}

/// Dividing undoes multiplying: `(a * b) / b` is `a`, and `a / a` is dimensionless.
pub proof fn lemma_div_undoes_mul(a: Dim, b: Dim, p: Dim)
    requires
        exps(p) == add_exps(a, b),
    ensures
        sub_exps(p, b) == exps(a),
        sub_exps(a, a) == exps(dim_none()),
{
    assert forall|i: int| 0 <= i < N implies #[trigger] sub_exps(p, b)[i] == exps(a)[i] by {
        assert(exps(p)[i] == exp(p, i));
    }
    assert(sub_exps(p, b) =~= exps(a));
    assert(sub_exps(a, a) =~= exps(dim_none()));
}

/// The square root of a square gives the dimension back: a square has even exponents,
/// and the only dimension whose exponents double to them is the one squared.
pub proof fn lemma_sqrt_of_square(a: Dim, sq: Dim, h: Dim)
    requires
        exps(sq) == scale_exps(a, 2),
        forall|i: int| 0 <= i < N ==> #[trigger] exp(h, i) * 2 == exp(sq, i),
    ensures
        all_even(sq),
        h == a,
{
    assert forall|i: int| 0 <= i < N implies #[trigger] exp(sq, i) % 2 == 0 by {
        assert(exps(sq)[i] == exp(sq, i));
        assert(exp(sq, i) == exp(a, i) * 2);
    }
    assert forall|i: int| 0 <= i < N implies #[trigger] exps(h)[i] == exps(a)[i] by {
        assert(exps(sq)[i] == exp(sq, i));
        assert(exp(h, i) * 2 == exp(sq, i));
    }
    assert(exps(h) =~= exps(a));
    lemma_exps_injective(h, a);
}

/// A dimension is dimensionless exactly when it is the dimensionless dimension.
pub proof fn lemma_is_none_iff(a: Dim)
    ensures
        dim_is_none(a) <==> a == dim_none(),
{
    let z = dim_none();
    assert(z.0@ =~= seq![0i8, 0i8, 0i8, 0i8, 0i8, 0i8, 0i8, 0i8, 0i8, 0i8]);
    if dim_is_none(a) {
        assert forall|i: int| 0 <= i < N implies #[trigger] exps(a)[i] == exps(z)[i] by {
            assert(exp(a, i) == 0);
        }
        assert(exps(a) =~= exps(z));
        lemma_exps_injective(a, z);
    }
}

impl PartialEq for Dim {
    fn eq(&self, other: &Dim) -> (r: bool) {
        let mut i: usize = 0;
        while i < N
            invariant
                0 <= i <= N,
                forall|j: int| 0 <= j < i ==> self.0@[j] == other.0@[j],
            decreases N - i,
        {
            if self.0[i] != other.0[i] {
                return false;
            }
            i += 1;
        }
        assert(self.0@ =~= other.0@);
        true
    }
}

impl vstd::std_specs::cmp::PartialEqSpecImpl for Dim {
    open spec fn obeys_eq_spec() -> bool {
        true
    }

    open spec fn eq_spec(&self, other: &Dim) -> bool {
        self.0@ == other.0@
    }
}

impl Dim {
    /// The dimensionless dimension: a plain number.
    pub fn none() -> (d: Dim)
        ensures
            d == dim_none(),
    {
        Dim([0, 0, 0, 0, 0, 0, 0, 0, 0, 0])
    }

    /// Whether every exponent is zero.
    pub fn is_none(&self) -> (r: bool)
        ensures
            r == dim_is_none(*self),
    {
        let mut i: usize = 0;
        while i < N
            invariant
                0 <= i <= N,
                forall|j: int| 0 <= j < i ==> #[trigger] exp(*self, j) == 0,
            decreases N - i,
        {
            if self.0[i] != 0 {
                assert(exp(*self, i as int) != 0);
                return false;
            }
            i += 1;
        }
        true
    }

    /// The dimension of a product: exponents add.
    pub fn mul(self, other: Dim) -> (r: Dim)
        requires
            fits_i8(add_exps(self, other)),
        ensures
            exps(r) == add_exps(self, other),
    {
        let mut out = self.0;
        let mut i: usize = 0;
        while i < N
            invariant
                0 <= i <= N,
                fits_i8(add_exps(self, other)),
                forall|j: int| 0 <= j < i ==> out@[j] as int == exp(self, j) + exp(other, j),
                forall|j: int| i <= j < N ==> out@[j] == self.0@[j],
            decreases N - i,
        {
            assert(add_exps(self, other)[i as int] == exp(self, i as int) + exp(other, i as int));
            out[i] = out[i] + other.0[i];
            i += 1;
        }
        assert(exps(Dim(out)) =~= add_exps(self, other));
        Dim(out)
    }

    /// The dimension of a quotient: exponents subtract.
    pub fn div(self, other: Dim) -> (r: Dim)
        requires
            fits_i8(sub_exps(self, other)),
        ensures
            exps(r) == sub_exps(self, other),
    {
        let mut out = self.0;
        let mut i: usize = 0;
        while i < N
            invariant
                0 <= i <= N,
                fits_i8(sub_exps(self, other)),
                forall|j: int| 0 <= j < i ==> out@[j] as int == exp(self, j) - exp(other, j),
                forall|j: int| i <= j < N ==> out@[j] == self.0@[j],
            decreases N - i,
        {
            assert(sub_exps(self, other)[i as int] == exp(self, i as int) - exp(other, i as int));
            out[i] = out[i] - other.0[i];
            i += 1;
        }
        assert(exps(Dim(out)) =~= sub_exps(self, other));
        Dim(out)
    }

    /// `self ^ n`: every exponent scales by `n`.
    pub fn powi(self, n: i8) -> (r: Dim)
        requires
            fits_i8(scale_exps(self, n as int)),
        ensures
            exps(r) == scale_exps(self, n as int),
    {
        let mut out = self.0;
        let mut i: usize = 0;
        while i < N
            invariant
                0 <= i <= N,
                fits_i8(scale_exps(self, n as int)),
                forall|j: int| 0 <= j < i ==> out@[j] as int == exp(self, j) * n,
                forall|j: int| i <= j < N ==> out@[j] == self.0@[j],
            decreases N - i,
        {
            assert(scale_exps(self, n as int)[i as int] == exp(self, i as int) * n);
            out[i] = out[i] * n;
            i += 1;
        }
        assert(exps(Dim(out)) =~= scale_exps(self, n as int));
        Dim(out)
    }

    /// The square root, when every exponent is even: every exponent halves.
    pub fn sqrt(self) -> (r: Option<Dim>)
        ensures
            r is Some <==> all_even(self),
            r matches Some(h) ==> forall|i: int| 0 <= i < N ==> #[trigger] exp(h, i) * 2 == exp(
                self,
                i,
            ),
    {
        let mut i: usize = 0;
        while i < N
            invariant
                0 <= i <= N,
                forall|j: int| 0 <= j < i ==> #[trigger] exp(self, j) % 2 == 0,
            decreases N - i,
        {
            if self.0[i] % 2 != 0 {
                assert(exp(self, i as int) % 2 != 0);
                return None;
            }
            i += 1;
        }
        let mut out = self.0;
        let mut k: usize = 0;
        while k < N
            invariant
                0 <= k <= N,
                all_even(self),
                forall|j: int| 0 <= j < k ==> out@[j] as int * 2 == exp(self, j),
                forall|j: int| k <= j < N ==> out@[j] == self.0@[j],
            decreases N - k,
        {
            assert(exp(self, k as int) % 2 == 0);
            out[k] = out[k] / 2;
            k += 1;
        }
        let h = Dim(out);
        assert forall|j: int| 0 <= j < N implies #[trigger] exp(h, j) * 2 == exp(self, j) by {}
        Some(h)
    }
}

/// The length dimension.
pub open spec fn dim_length() -> Dim {
    Dim([1, 0, 0, 0, 0, 0, 0, 0, 0, 0])
}

/// The length dimension.
pub fn length() -> (d: Dim)
    ensures
        d == dim_length(),
{
    Dim([1, 0, 0, 0, 0, 0, 0, 0, 0, 0])
}

/// The mass dimension.
pub open spec fn dim_mass() -> Dim {
    Dim([0, 1, 0, 0, 0, 0, 0, 0, 0, 0])
}

/// The mass dimension.
pub fn mass() -> (d: Dim)
    ensures
        d == dim_mass(),
{
    Dim([0, 1, 0, 0, 0, 0, 0, 0, 0, 0])
}

/// The time dimension.
pub open spec fn dim_time() -> Dim {
    Dim([0, 0, 1, 0, 0, 0, 0, 0, 0, 0])
}

/// The time dimension.
pub fn time() -> (d: Dim)
    ensures
        d == dim_time(),
{
    Dim([0, 0, 1, 0, 0, 0, 0, 0, 0, 0])
}

/// The current dimension.
pub open spec fn dim_current() -> Dim {
    Dim([0, 0, 0, 1, 0, 0, 0, 0, 0, 0])
}

/// The current dimension.
pub fn current() -> (d: Dim)
    ensures
        d == dim_current(),
{
    Dim([0, 0, 0, 1, 0, 0, 0, 0, 0, 0])
}

/// The temperature dimension.
pub open spec fn dim_temperature() -> Dim {
    Dim([0, 0, 0, 0, 1, 0, 0, 0, 0, 0])
}

/// The temperature dimension.
pub fn temperature() -> (d: Dim)
    ensures
        d == dim_temperature(),
{
    Dim([0, 0, 0, 0, 1, 0, 0, 0, 0, 0])
}

/// The amount dimension.
pub open spec fn dim_amount() -> Dim {
    Dim([0, 0, 0, 0, 0, 1, 0, 0, 0, 0])
}

/// The amount dimension.
pub fn amount() -> (d: Dim)
    ensures
        d == dim_amount(),
{
    Dim([0, 0, 0, 0, 0, 1, 0, 0, 0, 0])
}

/// The luminous dimension.
pub open spec fn dim_luminous() -> Dim {
    Dim([0, 0, 0, 0, 0, 0, 1, 0, 0, 0])
}

/// The luminous dimension.
pub fn luminous() -> (d: Dim)
    ensures
        d == dim_luminous(),
{
    Dim([0, 0, 0, 0, 0, 0, 1, 0, 0, 0])
}

/// The money dimension.
pub open spec fn dim_money() -> Dim {
    Dim([0, 0, 0, 0, 0, 0, 0, 1, 0, 0])
}

/// The money dimension.
pub fn money() -> (d: Dim)
    ensures
        d == dim_money(),
{
    Dim([0, 0, 0, 0, 0, 0, 0, 1, 0, 0])
}

/// The pixels dimension.
pub open spec fn dim_pixels() -> Dim {
    Dim([0, 0, 0, 0, 0, 0, 0, 0, 1, 0])
}

/// The pixels dimension.
pub fn pixels() -> (d: Dim)
    ensures
        d == dim_pixels(),
{
    Dim([0, 0, 0, 0, 0, 0, 0, 0, 1, 0])
}

/// The frames dimension.
pub open spec fn dim_frames() -> Dim {
    Dim([0, 0, 0, 0, 0, 0, 0, 0, 0, 1])
}

/// The frames dimension.
pub fn frames() -> (d: Dim)
    ensures
        d == dim_frames(),
{
    Dim([0, 0, 0, 0, 0, 0, 0, 0, 0, 1])
}

/// The frequency dimension.
pub open spec fn dim_frequency() -> Dim {
    Dim([0, 0, -1i8, 0, 0, 0, 0, 0, 0, 0])
}

/// The frequency dimension.
pub fn frequency() -> (d: Dim)
    ensures
        d == dim_frequency(),
{
    Dim([0, 0, -1i8, 0, 0, 0, 0, 0, 0, 0])
}

/// The force dimension.
pub open spec fn dim_force() -> Dim {
    Dim([1, 1, -2i8, 0, 0, 0, 0, 0, 0, 0])
}

/// The force dimension.
pub fn force() -> (d: Dim)
    ensures
        d == dim_force(),
{
    Dim([1, 1, -2i8, 0, 0, 0, 0, 0, 0, 0])
}

/// The pressure dimension.
pub open spec fn dim_pressure() -> Dim {
    Dim([-1i8, 1, -2i8, 0, 0, 0, 0, 0, 0, 0])
}

/// The pressure dimension.
pub fn pressure() -> (d: Dim)
    ensures
        d == dim_pressure(),
{
    Dim([-1i8, 1, -2i8, 0, 0, 0, 0, 0, 0, 0])
}

/// The energy dimension.
pub open spec fn dim_energy() -> Dim {
    Dim([2, 1, -2i8, 0, 0, 0, 0, 0, 0, 0])
}

/// The energy dimension.
pub fn energy() -> (d: Dim)
    ensures
        d == dim_energy(),
{
    Dim([2, 1, -2i8, 0, 0, 0, 0, 0, 0, 0])
}

/// The power dimension.
pub open spec fn dim_power() -> Dim {
    Dim([2, 1, -3i8, 0, 0, 0, 0, 0, 0, 0])
}

/// The power dimension.
pub fn power() -> (d: Dim)
    ensures
        d == dim_power(),
{
    Dim([2, 1, -3i8, 0, 0, 0, 0, 0, 0, 0])
}

/// The charge dimension.
pub open spec fn dim_charge() -> Dim {
    Dim([0, 0, 1, 1, 0, 0, 0, 0, 0, 0])
}

/// The charge dimension.
pub fn charge() -> (d: Dim)
    ensures
        d == dim_charge(),
{
    Dim([0, 0, 1, 1, 0, 0, 0, 0, 0, 0])
}

/// The voltage dimension.
pub open spec fn dim_voltage() -> Dim {
    Dim([2, 1, -3i8, -1i8, 0, 0, 0, 0, 0, 0])
}

/// The voltage dimension.
pub fn voltage() -> (d: Dim)
    ensures
        d == dim_voltage(),
{
    Dim([2, 1, -3i8, -1i8, 0, 0, 0, 0, 0, 0])
}

/// The dimension of each unit name, `None` for a name that isn't a unit.
#[verifier::opaque]
pub open spec fn unit_spec(name: Seq<u8>) -> Option<Dim> {
    if name == "m".spec_bytes() {
        Some(dim_length())
    } else if name == "km".spec_bytes() {
        Some(dim_length())
    } else if name == "cm".spec_bytes() {
        Some(dim_length())
    } else if name == "mm".spec_bytes() {
        Some(dim_length())
    } else if name == "inch".spec_bytes() {
        Some(dim_length())
    } else if name == "ft".spec_bytes() {
        Some(dim_length())
    } else if name == "mi".spec_bytes() {
        Some(dim_length())
    } else if name == "kg".spec_bytes() {
        Some(dim_mass())
    } else if name == "g".spec_bytes() {
        Some(dim_mass())
    } else if name == "mg".spec_bytes() {
        Some(dim_mass())
    } else if name == "lb".spec_bytes() {
        Some(dim_mass())
    } else if name == "tonne".spec_bytes() {
        Some(dim_mass())
    } else if name == "s".spec_bytes() {
        Some(dim_time())
    } else if name == "ms".spec_bytes() {
        Some(dim_time())
    } else if name == "us".spec_bytes() {
        Some(dim_time())
    } else if name == "min".spec_bytes() {
        Some(dim_time())
    } else if name == "h".spec_bytes() {
        Some(dim_time())
    } else if name == "d".spec_bytes() {
        Some(dim_time())
    } else if name == "wk".spec_bytes() {
        Some(dim_time())
    } else if name == "yr".spec_bytes() {
        Some(dim_time())
    } else if name == "A".spec_bytes() {
        Some(dim_current())
    } else if name == "mA".spec_bytes() {
        Some(dim_current())
    } else if name == "K".spec_bytes() {
        Some(dim_temperature())
    } else if name == "mol".spec_bytes() {
        Some(dim_amount())
    } else if name == "cd".spec_bytes() {
        Some(dim_luminous())
    } else if name == "V".spec_bytes() {
        Some(dim_voltage())
    } else if name == "kV".spec_bytes() {
        Some(dim_voltage())
    } else if name == "C".spec_bytes() {
        Some(dim_charge())
    } else if name == "Hz".spec_bytes() {
        Some(dim_frequency())
    } else if name == "kHz".spec_bytes() {
        Some(dim_frequency())
    } else if name == "N".spec_bytes() {
        Some(dim_force())
    } else if name == "kN".spec_bytes() {
        Some(dim_force())
    } else if name == "Pa".spec_bytes() {
        Some(dim_pressure())
    } else if name == "kPa".spec_bytes() {
        Some(dim_pressure())
    } else if name == "J".spec_bytes() {
        Some(dim_energy())
    } else if name == "kJ".spec_bytes() {
        Some(dim_energy())
    } else if name == "MJ".spec_bytes() {
        Some(dim_energy())
    } else if name == "Wh".spec_bytes() {
        Some(dim_energy())
    } else if name == "kWh".spec_bytes() {
        Some(dim_energy())
    } else if name == "MWh".spec_bytes() {
        Some(dim_energy())
    } else if name == "W".spec_bytes() {
        Some(dim_power())
    } else if name == "mW".spec_bytes() {
        Some(dim_power())
    } else if name == "kW".spec_bytes() {
        Some(dim_power())
    } else if name == "MW".spec_bytes() {
        Some(dim_power())
    } else if name == "usd".spec_bytes() {
        Some(dim_money())
    } else if name == "px".spec_bytes() {
        Some(dim_pixels())
    } else if name == "frame".spec_bytes() {
        Some(dim_frames())
    } else if name == "rad".spec_bytes() {
        Some(dim_none())
    } else if name == "deg".spec_bytes() {
        Some(dim_none())
    } else if name == "pct".spec_bytes() {
        Some(dim_none())
    } else {
        None
    }
}

fn unit_entry(name: &[u8], lo: usize, hi: usize) -> (r: Option<(&'static str, Dim)>)
    requires
        lo <= hi <= name@.len(),
    ensures
        r matches Some(e) ==> e.0.spec_bytes() == name@.subrange(lo as int, hi as int)
            && unit_spec(e.0.spec_bytes()) == Some(e.1),
        r is None <==> unit_spec(name@.subrange(lo as int, hi as int)) is None,
{
    reveal(unit_spec);
    if range_eq(name, lo, hi, "m".as_bytes()) {
        Some(("m", length()))
    } else if range_eq(name, lo, hi, "km".as_bytes()) {
        Some(("km", length()))
    } else if range_eq(name, lo, hi, "cm".as_bytes()) {
        Some(("cm", length()))
    } else if range_eq(name, lo, hi, "mm".as_bytes()) {
        Some(("mm", length()))
    } else if range_eq(name, lo, hi, "inch".as_bytes()) {
        Some(("inch", length()))
    } else if range_eq(name, lo, hi, "ft".as_bytes()) {
        Some(("ft", length()))
    } else if range_eq(name, lo, hi, "mi".as_bytes()) {
        Some(("mi", length()))
    } else if range_eq(name, lo, hi, "kg".as_bytes()) {
        Some(("kg", mass()))
    } else if range_eq(name, lo, hi, "g".as_bytes()) {
        Some(("g", mass()))
    } else if range_eq(name, lo, hi, "mg".as_bytes()) {
        Some(("mg", mass()))
    } else if range_eq(name, lo, hi, "lb".as_bytes()) {
        Some(("lb", mass()))
    } else if range_eq(name, lo, hi, "tonne".as_bytes()) {
        Some(("tonne", mass()))
    } else if range_eq(name, lo, hi, "s".as_bytes()) {
        Some(("s", time()))
    } else if range_eq(name, lo, hi, "ms".as_bytes()) {
        Some(("ms", time()))
    } else if range_eq(name, lo, hi, "us".as_bytes()) {
        Some(("us", time()))
    } else if range_eq(name, lo, hi, "min".as_bytes()) {
        Some(("min", time()))
    } else if range_eq(name, lo, hi, "h".as_bytes()) {
        Some(("h", time()))
    } else if range_eq(name, lo, hi, "d".as_bytes()) {
        Some(("d", time()))
    } else if range_eq(name, lo, hi, "wk".as_bytes()) {
        Some(("wk", time()))
    } else if range_eq(name, lo, hi, "yr".as_bytes()) {
        Some(("yr", time()))
    } else if range_eq(name, lo, hi, "A".as_bytes()) {
        Some(("A", current()))
    } else if range_eq(name, lo, hi, "mA".as_bytes()) {
        Some(("mA", current()))
    } else if range_eq(name, lo, hi, "K".as_bytes()) {
        Some(("K", temperature()))
    } else if range_eq(name, lo, hi, "mol".as_bytes()) {
        Some(("mol", amount()))
    } else if range_eq(name, lo, hi, "cd".as_bytes()) {
        Some(("cd", luminous()))
    } else if range_eq(name, lo, hi, "V".as_bytes()) {
        Some(("V", voltage()))
    } else if range_eq(name, lo, hi, "kV".as_bytes()) {
        Some(("kV", voltage()))
    } else if range_eq(name, lo, hi, "C".as_bytes()) {
        Some(("C", charge()))
    } else if range_eq(name, lo, hi, "Hz".as_bytes()) {
        Some(("Hz", frequency()))
    } else if range_eq(name, lo, hi, "kHz".as_bytes()) {
        Some(("kHz", frequency()))
    } else if range_eq(name, lo, hi, "N".as_bytes()) {
        Some(("N", force()))
    } else if range_eq(name, lo, hi, "kN".as_bytes()) {
        Some(("kN", force()))
    } else if range_eq(name, lo, hi, "Pa".as_bytes()) {
        Some(("Pa", pressure()))
    } else if range_eq(name, lo, hi, "kPa".as_bytes()) {
        Some(("kPa", pressure()))
    } else if range_eq(name, lo, hi, "J".as_bytes()) {
        Some(("J", energy()))
    } else if range_eq(name, lo, hi, "kJ".as_bytes()) {
        Some(("kJ", energy()))
    } else if range_eq(name, lo, hi, "MJ".as_bytes()) {
        Some(("MJ", energy()))
    } else if range_eq(name, lo, hi, "Wh".as_bytes()) {
        Some(("Wh", energy()))
    } else if range_eq(name, lo, hi, "kWh".as_bytes()) {
        Some(("kWh", energy()))
    } else if range_eq(name, lo, hi, "MWh".as_bytes()) {
        Some(("MWh", energy()))
    } else if range_eq(name, lo, hi, "W".as_bytes()) {
        Some(("W", power()))
    } else if range_eq(name, lo, hi, "mW".as_bytes()) {
        Some(("mW", power()))
    } else if range_eq(name, lo, hi, "kW".as_bytes()) {
        Some(("kW", power()))
    } else if range_eq(name, lo, hi, "MW".as_bytes()) {
        Some(("MW", power()))
    } else if range_eq(name, lo, hi, "usd".as_bytes()) {
        Some(("usd", money()))
    } else if range_eq(name, lo, hi, "px".as_bytes()) {
        Some(("px", pixels()))
    } else if range_eq(name, lo, hi, "frame".as_bytes()) {
        Some(("frame", frames()))
    } else if range_eq(name, lo, hi, "rad".as_bytes()) {
        Some(("rad", Dim::none()))
    } else if range_eq(name, lo, hi, "deg".as_bytes()) {
        Some(("deg", Dim::none()))
    } else if range_eq(name, lo, hi, "pct".as_bytes()) {
        Some(("pct", Dim::none()))
    } else {
        None
    }
}

/// The dimension of the `i`-th coherent unit; families are listed in the same order.
pub open spec fn named_dim(i: int) -> Dim {
    if i == 0 {
        dim_length()
    } else if i == 1 {
        dim_mass()
    } else if i == 2 {
        dim_time()
    } else if i == 3 {
        dim_current()
    } else if i == 4 {
        dim_temperature()
    } else if i == 5 {
        dim_amount()
    } else if i == 6 {
        dim_luminous()
    } else if i == 7 {
        dim_money()
    } else if i == 8 {
        dim_pixels()
    } else if i == 9 {
        dim_frames()
    } else if i == 10 {
        dim_frequency()
    } else if i == 11 {
        dim_force()
    } else if i == 12 {
        dim_pressure()
    } else if i == 13 {
        dim_energy()
    } else if i == 14 {
        dim_power()
    } else if i == 15 {
        dim_charge()
    } else {
        dim_voltage()
    }
}

/// The name of the `i`-th coherent unit.
pub open spec fn named_str(i: int) -> &'static str {
    if i == 0 {
        "m"
    } else if i == 1 {
        "kg"
    } else if i == 2 {
        "s"
    } else if i == 3 {
        "A"
    } else if i == 4 {
        "K"
    } else if i == 5 {
        "mol"
    } else if i == 6 {
        "cd"
    } else if i == 7 {
        "usd"
    } else if i == 8 {
        "px"
    } else if i == 9 {
        "frame"
    } else if i == 10 {
        "Hz"
    } else if i == 11 {
        "N"
    } else if i == 12 {
        "Pa"
    } else if i == 13 {
        "J"
    } else if i == 14 {
        "W"
    } else if i == 15 {
        "C"
    } else {
        "V"
    }
}

/// The word for the `i`-th dimension family.
pub open spec fn family_str(i: int) -> &'static str {
    if i == 0 {
        "length"
    } else if i == 1 {
        "mass"
    } else if i == 2 {
        "time"
    } else if i == 3 {
        "current"
    } else if i == 4 {
        "temperature"
    } else if i == 5 {
        "amount"
    } else if i == 6 {
        "luminous intensity"
    } else if i == 7 {
        "money"
    } else if i == 8 {
        "pixels"
    } else if i == 9 {
        "frames"
    } else if i == 10 {
        "frequency"
    } else if i == 11 {
        "force"
    } else if i == 12 {
        "pressure"
    } else if i == 13 {
        "energy"
    } else if i == 14 {
        "power"
    } else if i == 15 {
        "charge"
    } else {
        "voltage"
    }
}

/// The symbol of the `i`-th base dimension.
pub open spec fn base_str(i: int) -> &'static str {
    if i == 0 {
        "m"
    } else if i == 1 {
        "kg"
    } else if i == 2 {
        "s"
    } else if i == 3 {
        "A"
    } else if i == 4 {
        "K"
    } else if i == 5 {
        "mol"
    } else if i == 6 {
        "cd"
    } else if i == 7 {
        "usd"
    } else if i == 8 {
        "px"
    } else {
        "frame"
    }
}

fn named(i: usize) -> (r: (&'static str, Dim))
    requires
        i < 17,
    ensures
        r.0 == named_str(i as int),
        r.1 == named_dim(i as int),
{
    if i == 0 {
        ("m", length())
    } else if i == 1 {
        ("kg", mass())
    } else if i == 2 {
        ("s", time())
    } else if i == 3 {
        ("A", current())
    } else if i == 4 {
        ("K", temperature())
    } else if i == 5 {
        ("mol", amount())
    } else if i == 6 {
        ("cd", luminous())
    } else if i == 7 {
        ("usd", money())
    } else if i == 8 {
        ("px", pixels())
    } else if i == 9 {
        ("frame", frames())
    } else if i == 10 {
        ("Hz", frequency())
    } else if i == 11 {
        ("N", force())
    } else if i == 12 {
        ("Pa", pressure())
    } else if i == 13 {
        ("J", energy())
    } else if i == 14 {
        ("W", power())
    } else if i == 15 {
        ("C", charge())
    } else {
        ("V", voltage())
    }
}

fn family_at(i: usize) -> (r: &'static str)
    requires
        i < 17,
    ensures
        r == family_str(i as int),
{
    if i == 0 {
        "length"
    } else if i == 1 {
        "mass"
    } else if i == 2 {
        "time"
    } else if i == 3 {
        "current"
    } else if i == 4 {
        "temperature"
    } else if i == 5 {
        "amount"
    } else if i == 6 {
        "luminous intensity"
    } else if i == 7 {
        "money"
    } else if i == 8 {
        "pixels"
    } else if i == 9 {
        "frames"
    } else if i == 10 {
        "frequency"
    } else if i == 11 {
        "force"
    } else if i == 12 {
        "pressure"
    } else if i == 13 {
        "energy"
    } else if i == 14 {
        "power"
    } else if i == 15 {
        "charge"
    } else {
        "voltage"
    }
}

fn base_at(i: usize) -> (r: &'static str)
    requires
        i < N,
    ensures
        r == base_str(i as int),
{
    if i == 0 {
        "m"
    } else if i == 1 {
        "kg"
    } else if i == 2 {
        "s"
    } else if i == 3 {
        "A"
    } else if i == 4 {
        "K"
    } else if i == 5 {
        "mol"
    } else if i == 6 {
        "cd"
    } else if i == 7 {
        "usd"
    } else if i == 8 {
        "px"
    } else {
        "frame"
    }
}

/// The exponents of every coherent unit lie in `-3..=2`, so sums and differences of two of
/// them always fit.
proof fn lemma_named_small(i: int)
    requires
        0 <= i < 17,
    ensures
        forall|k: int| 0 <= k < N ==> -3 <= #[trigger] exp(named_dim(i), k) <= 2,
{
    assert forall|k: int| 0 <= k < N implies -3 <= #[trigger] exp(named_dim(i), k) <= 2 by {
        reveal_with_fuel(named_dim, 1);
    }
}

/// The first coherent unit at index `k` or later whose dimension is `d`.
pub open spec fn first_named(d: Dim, k: int) -> Option<int>
    decreases 17 - k,
{
    if k < 0 || k >= 17 {
        None
    } else if named_dim(k).0@ == d.0@ {
        Some(k)
    } else {
        first_named(d, k + 1)
    }
}

/// Pair `k` (row-major over two coherent units) is a ratio giving `d`.
pub open spec fn ratio_at(d: Dim, k: int) -> bool {
    &&& sub_exps(named_dim(k / 17), named_dim(k % 17)) == exps(d)
    &&& !dim_is_none(named_dim(k % 17))
}

/// Pair `k` (row-major over two coherent units) is a product giving `d`, its names in order.
pub open spec fn product_at(d: Dim, k: int) -> bool {
    &&& add_exps(named_dim(k / 17), named_dim(k % 17)) == exps(d)
    &&& bytes_le(named_str(k / 17).spec_bytes(), named_str(k % 17).spec_bytes())
}

pub open spec fn first_ratio(d: Dim, k: int) -> Option<int>
    decreases 289 - k,
{
    if k < 0 || k >= 289 {
        None
    } else if ratio_at(d, k) {
        Some(k)
    } else {
        first_ratio(d, k + 1)
    }
}

pub open spec fn first_product(d: Dim, k: int) -> Option<int>
    decreases 289 - k,
{
    if k < 0 || k >= 289 {
        None
    } else if product_at(d, k) {
        Some(k)
    } else {
        first_product(d, k + 1)
    }
}

/// The word for a dimension: its family's, or `quantity`.
pub open spec fn family_of(d: Dim) -> &'static str {
    match first_named(d, 0) {
        Some(i) => family_str(i),
        None => "quantity",
    }
}

/// Exponent `i` of `d`, negated when reading the denominator.
pub open spec fn signed_exp(d: Dim, pos: bool, i: int) -> int {
    if pos {
        exp(d, i)
    } else {
        -exp(d, i)
    }
}

/// `m`, or `m^e` for an exponent other than one.
pub open spec fn base_term(i: int, e: int) -> Seq<char> {
    if e == 1 {
        base_str(i)@
    } else {
        base_str(i)@ + "^"@ + dec(e as nat)
    }
}

/// The terms for the bases below `n` with a positive (signed) exponent.
pub open spec fn terms(d: Dim, pos: bool, n: int) -> Seq<Seq<char>>
    decreases n,
{
    if n <= 0 {
        seq![]
    } else if signed_exp(d, pos, n - 1) > 0 {
        terms(d, pos, n - 1).push(base_term(n - 1, signed_exp(d, pos, n - 1)))
    } else {
        terms(d, pos, n - 1)
    }
}

/// Terms joined by `*`.
pub open spec fn join_star(t: Seq<Seq<char>>) -> Seq<char>
    decreases t.len(),
{
    if t.len() == 0 {
        seq![]
    } else if t.len() == 1 {
        t[0]
    } else {
        join_star(t.drop_last()) + "*"@ + t.last()
    }
}

proof fn lemma_join_star_push(t: Seq<Seq<char>>, x: Seq<char>)
    ensures
        join_star(t.push(x)) == if t.len() == 0 {
            x
        } else {
            join_star(t) + "*"@ + x
        },
{
    let t2 = t.push(x);
    assert(t2.drop_last() =~= t);
    assert(t2.last() == x);
    if t.len() == 0 {
        assert(t2.len() == 1);
        assert(t2[0] == x);
    }
}

/// The base composition of `d`: numerator over denominator.
pub open spec fn composition(d: Dim) -> Seq<char> {
    let num = terms(d, true, N as int);
    let den = terms(d, false, N as int);
    if den.len() == 0 {
        join_star(num)
    } else if num.len() == 0 {
        "1/"@ + join_star(den)
    } else {
        join_star(num) + "/"@ + join_star(den)
    }
}

/// A reader-friendly name for a dimension: a familiar unit when one fits, a ratio or
/// product of two familiar units, else the base composition.
pub open spec fn describe_spec(d: Dim) -> Seq<char> {
    if dim_is_none(d) {
        "a plain number"@
    } else {
        match first_named(d, 0) {
            Some(i) => family_of(d)@ + " ("@ + named_str(i)@ + ")"@,
            None => match first_ratio(d, 0) {
                Some(k) => named_str(k / 17)@ + "/"@ + named_str(k % 17)@,
                None => match first_product(d, 0) {
                    Some(k) => named_str(k / 17)@ + "*"@ + named_str(k % 17)@,
                    None => composition(d),
                },
            },
        }
    }
}

/// The word for a dimension, when it has one.
fn family(d: Dim) -> (r: &'static str)
    ensures
        r == family_of(d),
{
    let mut i: usize = 0;
    while i < 17
        invariant
            0 <= i <= 17,
            first_named(d, 0) == first_named(d, i as int),
        decreases 17 - i,
    {
        let (_, nd) = named(i);
        if nd == d {
            return family_at(i);
        }
        i += 1;
    }
    "quantity"
}

fn push_term(out: &mut String, i: usize, e: i16)
    requires
        i < N,
        e > 0,
    ensures
        final(out)@ == old(out)@ + base_term(i as int, e as int),
{
    out.append(base_at(i));
    if e != 1 {
        out.append("^");
        push_dec(out, e as usize);
    }
    assert(out@ =~= old(out)@ + base_term(i as int, e as int));
}

/// Appends `d`'s composition terms on one side of the fraction bar; returns whether any
/// were written.
fn push_terms(out: &mut String, d: Dim, pos: bool) -> (any: bool)
    ensures
        final(out)@ == old(out)@ + join_star(terms(d, pos, N as int)),
        any == (terms(d, pos, N as int).len() > 0),
{
    let ghost start = out@;
    let mut any = false;
    let mut i: usize = 0;
    while i < N
        invariant
            0 <= i <= N,
            out@ == start + join_star(terms(d, pos, i as int)),
            any == (terms(d, pos, i as int).len() > 0),
        decreases N - i,
    {
        let e: i16 = if pos { d.0[i] as i16 } else { -(d.0[i] as i16) };
        assert(e == signed_exp(d, pos, i as int));
        if e > 0 {
            let ghost t = terms(d, pos, i as int);
            let ghost term = base_term(i as int, e as int);
            if any {
                out.append("*");
            }
            push_term(out, i, e);
            proof {
                lemma_join_star_push(t, term);
                assert(terms(d, pos, i + 1) == t.push(term));
                assert(out@ =~= start + join_star(t.push(term)));
            }
            any = true;
        } else {
            assert(terms(d, pos, i + 1) == terms(d, pos, i as int));
        }
        i += 1;
    }
    any
}

/// A dimension spelled by its base units: the composition (`kg*m^2/s^2`), or `1` when it
/// is dimensionless.
pub open spec fn base_text_spec(d: Dim) -> Seq<char> {
    if dim_is_none(d) {
        "1"@
    } else {
        composition(d)
    }
}

impl Dim {
    /// The dimension spelled by its base units: `kg*m^2/s^2`, `usd/s`, or `1` when it is
    /// dimensionless.
    pub fn base_text(&self) -> (r: String)
        ensures
            r@ == base_text_spec(*self),
    {
        let d = *self;
        if d.is_none() {
            return "1".to_string();
        }
        let mut out = String::new();
        let num = push_terms(&mut out, d, true);
        let mut den = String::new();
        let has_den = push_terms(&mut den, d, false);
        if !has_den {
            assert(out@ =~= composition(d));
            return out;
        }
        if !num {
            let mut r = String::new();
            r.append("1/");
            r.append(den.as_str());
            assert(r@ =~= composition(d));
            return r;
        }
        out.append("/");
        out.append(den.as_str());
        assert(out@ =~= composition(d));
        out
    }

    /// A reader-friendly name: a familiar unit when one fits (`kW`-ish things say
    /// `power (W)`), else the base composition (`kg*m^2/s^3`).
    pub fn describe(&self) -> (r: String)
        requires
            forall|i: int| 0 <= i < N ==> #[trigger] exp(*self, i) != i8::MIN,
        ensures
            r@ == describe_spec(*self),
    {
        let d = *self;
        let mut out = String::new();
        if d.is_none() {
            out.append("a plain number");
            return out;
        }
        let mut i: usize = 0;
        while i < 17
            invariant
                0 <= i <= 17,
                first_named(d, 0) == first_named(d, i as int),
                !dim_is_none(d),
                d == *self,
                out@ == Seq::<char>::empty(),
            decreases 17 - i,
        {
            let (name, nd) = named(i);
            if nd == d {
                out.append(family(d));
                out.append(" (");
                out.append(name);
                out.append(")");
                assert(first_named(d, i as int) == Some(i as int));
                assert(!dim_is_none(d));
                assert(first_named(d, 0) == Some(i as int));
                assert(describe_spec(d) == family_of(d)@ + " ("@ + named_str(i as int)@ + ")"@);
                assert(out@ =~= describe_spec(d));
                assert(d == *self);
                assert(out@ == describe_spec(*self));
                return out;
            }
            i += 1;
        }
        assert(first_named(d, 0) is None);
        let mut k: usize = 0;
        while k < 289
            invariant
                0 <= k <= 289,
                first_named(d, 0) is None,
                !dim_is_none(d),
                d == *self,
                first_ratio(d, 0) == first_ratio(d, k as int),
                out@ == Seq::<char>::empty(),
            decreases 289 - k,
        {
            let (an, ad) = named(k / 17);
            let (bn, bd) = named(k % 17);
            proof {
                lemma_named_small((k / 17) as int);
                lemma_named_small((k % 17) as int);
                assert forall|j: int| 0 <= j < N implies i8::MIN <= #[trigger] sub_exps(ad, bd)[j]
                    <= i8::MAX by {
                    assert(-3 <= exp(ad, j) <= 2);
                    assert(-3 <= exp(bd, j) <= 2);
                }
            }
            let q = ad.div(bd);
            if q == d && !bd.is_none() {
                proof {
                    assert(exps(q) =~= exps(d));
                    assert(ratio_at(d, k as int));
                    assert(first_ratio(d, k as int) == Some(k as int));
                }
                out.append(an);
                out.append("/");
                out.append(bn);
                assert(out@ =~= describe_spec(d));
                assert(d == *self);
                assert(out@ == describe_spec(*self));
                return out;
            }
            proof {
                if ratio_at(d, k as int) {
                    lemma_exps_injective(q, d);
                }
            }
            k += 1;
        }
        let mut k: usize = 0;
        while k < 289
            invariant
                0 <= k <= 289,
                first_named(d, 0) is None,
                first_ratio(d, 0) is None,
                !dim_is_none(d),
                d == *self,
                first_product(d, 0) == first_product(d, k as int),
                out@ == Seq::<char>::empty(),
            decreases 289 - k,
        {
            let (an, ad) = named(k / 17);
            let (bn, bd) = named(k % 17);
            proof {
                lemma_named_small((k / 17) as int);
                lemma_named_small((k % 17) as int);
                assert forall|j: int| 0 <= j < N implies i8::MIN <= #[trigger] add_exps(ad, bd)[j]
                    <= i8::MAX by {
                    assert(-3 <= exp(ad, j) <= 2);
                    assert(-3 <= exp(bd, j) <= 2);
                }
            }
            let p = ad.mul(bd);
            if p == d && le_bytes(an.as_bytes(), bn.as_bytes()) {
                proof {
                    assert(exps(p) =~= exps(d));
                    assert(product_at(d, k as int));
                    assert(first_product(d, k as int) == Some(k as int));
                }
                out.append(an);
                out.append("*");
                out.append(bn);
                assert(out@ =~= describe_spec(d));
                assert(d == *self);
                assert(out@ == describe_spec(*self));
                return out;
            }
            proof {
                if product_at(d, k as int) {
                    lemma_exps_injective(p, d);
                }
            }
            k += 1;
        }
        let num = push_terms(&mut out, d, true);
        let mut den = String::new();
        let has_den = push_terms(&mut den, d, false);
        if !has_den {
            assert(out@ =~= composition(d));
            return out;
        }
        if !num {
            let mut r = String::new();
            r.append("1/");
            r.append(den.as_str());
            assert(r@ =~= composition(d));
            return r;
        }
        out.append("/");
        out.append(den.as_str());
        assert(out@ =~= composition(d));
        out
    }
}

/// The dimension of a unit name, when the name is exactly a unit.
pub fn lookup_dim(name: &str) -> (r: Option<Dim>)
    ensures
        r == unit_spec(name.spec_bytes()),
{
    let b = name.as_bytes();
    assert(b@.subrange(0, b@.len() as int) =~= b@);
    match unit_entry(b, 0, b.len()) {
        Some(e) => Some(e.1),
        None => None,
    }
}

/// The length of a `^n` / `^-n` exponent at the start of `s` (zero when there is none).
pub open spec fn exponent_len(s: Seq<u8>) -> int {
    if s.len() > 0 && s[0] == 94 {
        let t = s.drop_first();
        let neg: int = if t.len() > 0 && t[0] == 45 { 1 } else { 0 };
        let ds = digits_len(t.skip(neg));
        if ds == 0 {
            0
        } else {
            1 + neg + ds
        }
    } else {
        0
    }
}

/// Where a unit suffix ends, given that it has been read up to `end`: each `/name` that is
/// exactly a unit (with its optional exponent) extends it.
pub open spec fn suffix_from(b: Seq<u8>, end: int) -> int
    decreases b.len() - end,
{
    if 0 <= end && end + 1 < b.len() && b[end] == 47 && is_alpha(b[end + 1]) && unit_spec(
        b.skip(end + 1).take(ident_len(b.skip(end + 1)) as int),
    ) is Some {
        let e2 = end + 1 + ident_len(b.skip(end + 1));
        let e3 = e2 + exponent_len(b.skip(e2));
        if end < e3 <= b.len() {
            suffix_from(b, e3)
        } else {
            end
        }
    } else {
        end
    }
}

/// The length of the unit suffix at the start of `b`, if it opens with a unit.
pub open spec fn scan_suffix_spec(b: Seq<u8>) -> Option<int> {
    if b.len() > 0 && is_alpha(b[0]) && unit_spec(b.take(ident_len(b) as int)) is Some {
        let e = ident_len(b) as int;
        Some(suffix_from(b, e + exponent_len(b.skip(e))))
    } else {
        None
    }
}

proof fn lemma_skip_skip(b: Seq<u8>, i: int, j: int)
    requires
        0 <= i,
        0 <= j,
        i + j <= b.len(),
    ensures
        b.skip(i).skip(j) == b.skip(i + j),
{
    assert(b.skip(i).skip(j) =~= b.skip(i + j));
}

/// The exponent length at `at`.
fn exponent_at(b: &[u8], at: usize) -> (n: usize)
    requires
        at <= b@.len(),
    ensures
        n == exponent_len(b@.skip(at as int)),
        at + n <= b@.len(),
{
    let ghost s = b@.skip(at as int);
    if at < b.len() && b[at] == 94 {
        let t = at + 1;
        let neg: usize = if t < b.len() && b[t] == 45 { 1 } else { 0 };
        let end = crate::text::scan_digits(b, t + neg);
        proof {
            assert(s.drop_first() =~= b@.skip(t as int));
            lemma_skip_skip(b@, t as int, neg as int);
            assert(b@.subrange((t + neg) as int, b@.len() as int) =~= b@.skip((t + neg) as int));
            crate::text::lemma_digits_len(b@.skip((t + neg) as int));
        }
        let ds = end - (t + neg);
        if ds == 0 {
            0
        } else {
            1 + neg + ds
        }
    } else {
        0
    }
}

/// The length of the unit suffix at the start of `rest` (what follows a number), if it opens
/// with a unit: a unit name, then any `/name` continuations and `^n` exponents. A name only
/// counts when it is exactly a unit, and only `/` continues a literal's unit.
pub fn scan_suffix(rest: &str) -> (r: Option<usize>)
    ensures
        r matches Some(n) ==> scan_suffix_spec(rest.spec_bytes()) == Some(n as int),
        r is None <==> scan_suffix_spec(rest.spec_bytes()) is None,
{
    let b = rest.as_bytes();
    if b.len() == 0 || !crate::text::alpha(b[0]) {
        return None;
    }
    let first = crate::text::scan_ident_bytes(b, 0);
    proof {
        assert(b@.subrange(0, b@.len() as int) =~= b@);
        crate::text::lemma_ident_len(b@);
        assert(b@.take(first as int) =~= b@.subrange(0, first as int));
    }
    if unit_entry(b, 0, first).is_none() {
        return None;
    }
    let mut end = first + exponent_at(b, first);
    while end < b.len() && b[end] == 47 && end + 1 < b.len() && crate::text::alpha(b[end + 1])
        invariant
            end <= b@.len(),
            b@ == rest.spec_bytes(),
            scan_suffix_spec(b@) == Some(suffix_from(b@, end as int)),
        decreases b@.len() - end,
    {
        let name_end = crate::text::scan_ident_bytes(b, end + 1);
        proof {
            assert(b@.subrange((end + 1) as int, b@.len() as int) =~= b@.skip(end + 1));
            crate::text::lemma_ident_len(b@.skip(end + 1));
            assert(b@.skip(end + 1).take(ident_len(b@.skip(end + 1)) as int) =~= b@.subrange(
                (end + 1) as int,
                name_end as int,
            ));
        }
        if unit_entry(b, end + 1, name_end).is_none() {
            assert(suffix_from(b@, end as int) == end);
            return Some(end);
        }
        let next = name_end + exponent_at(b, name_end);
        end = next;
    }
    Some(end)
}

/// The value of a run of ASCII digits.
pub open spec fn digits_value(s: Seq<u8>) -> nat
    decreases s.len(),
{
    if s.len() == 0 {
        0
    } else {
        digits_value(s.drop_last()) * 10 + (s.last() - 48) as nat
    }
}

proof fn lemma_digits_value_prefix(s: Seq<u8>, j: int)
    requires
        0 <= j <= s.len(),
        forall|i: int| 0 <= i < s.len() ==> crate::text::is_digit(#[trigger] s[i]),
    ensures
        digits_value(s.take(j)) <= digits_value(s),
    decreases s.len(),
{
    if j < s.len() {
        let p = s.drop_last();
        assert(p.take(j) =~= s.take(j));
        lemma_digits_value_prefix(p, j);
    } else {
        assert(s.take(j) =~= s);
    }
}

/// The exponent written at `at` (`^n` or `^-n` with `n` an `i8`, else 1) and where the
/// text after it starts; `None` when a `^` is not followed by such a number.
pub open spec fn exp_at(b: Seq<u8>, at: int) -> Option<(int, int)> {
    if 0 <= at < b.len() && b[at] == 94 {
        let t = at + 1;
        let neg = t < b.len() && b[t] == 45;
        let ds = if neg { t + 1 } else { t };
        let k = digits_len(b.skip(ds)) as int;
        let v = digits_value(b.subrange(ds, ds + k)) as int;
        if k == 0 || v > 127 {
            None
        } else {
            Some((if neg { -v } else { v }, ds + k))
        }
    } else {
        Some((1, at))
    }
}

/// The factors of a unit expression read from `pos`, the first one dividing when
/// `divide`: names joined by `*` and `/`, each exactly a unit and with an optional exponent.
pub open spec fn factors_from(b: Seq<u8>, pos: int, divide: bool) -> Option<
    Seq<(Seq<u8>, int, bool)>,
>
    decreases b.len() - pos,
{
    if pos < 0 || pos > b.len() {
        None
    } else {
        let end = pos + ident_len(b.skip(pos));
        let name = b.subrange(pos, end);
        if unit_spec(name) is None {
            None
        } else {
            match exp_at(b, end) {
                None => None,
                Some((e, tail)) => if tail >= b.len() {
                    Some(seq![(name, e, divide)])
                } else if pos < tail + 1 && (b[tail] == 42 || b[tail] == 47) {
                    match factors_from(b, tail + 1, b[tail] == 47) {
                        Some(rest) => Some(seq![(name, e, divide)] + rest),
                        None => None,
                    }
                } else {
                    None
                },
            }
        }
    }
}

/// The exponents one factor contributes.
pub open spec fn factor_exps(f: (Seq<u8>, int, bool)) -> Seq<int> {
    scale_exps(unit_spec(f.0).unwrap(), f.1)
}

/// The exponents of the first `k` factors folded left to right from a plain number.
pub open spec fn fold_exps(fs: Seq<(Seq<u8>, int, bool)>, k: int) -> Seq<int>
    decreases k,
{
    if k <= 0 {
        exps(dim_none())
    } else {
        let acc = fold_exps(fs, k - 1);
        let t = factor_exps(fs[k - 1]);
        Seq::new(
            N as nat,
            |i: int|
                if fs[k - 1].2 {
                    acc[i] - t[i]
                } else {
                    acc[i] + t[i]
                },
        )
    }
}

/// Every power and every running product of the first `k` factors fits an `i8`.
pub open spec fn fold_fits(fs: Seq<(Seq<u8>, int, bool)>, k: int) -> bool
    decreases k,
{
    k <= 0 || (fold_fits(fs, k - 1) && fits_i8(factor_exps(fs[k - 1])) && fits_i8(
        fold_exps(fs, k),
    ))
}

/// The factors whose dimension arithmetic is carried out when `b` is read from `pos`
/// (the first dividing when `divide`): each one up to the first that cannot be read,
/// including one followed by something other than `*`, `/` or the end.
pub open spec fn processed_from(b: Seq<u8>, pos: int, divide: bool) -> Seq<(Seq<u8>, int, bool)>
    decreases b.len() - pos,
{
    if pos < 0 || pos > b.len() {
        seq![]
    } else {
        let end = pos + ident_len(b.skip(pos));
        let name = b.subrange(pos, end);
        if unit_spec(name) is None {
            seq![]
        } else {
            match exp_at(b, end) {
                None => seq![],
                Some((e, tail)) => if tail < b.len() && pos < tail + 1 && (b[tail] == 42 || b[tail]
                    == 47) {
                    seq![(name, e, divide)] + processed_from(b, tail + 1, b[tail] == 47)
                } else {
                    seq![(name, e, divide)]
                },
            }
        }
    }
}

/// When the whole expression reads, every factor is carried out.
proof fn lemma_processed_all(b: Seq<u8>, pos: int, divide: bool)
    requires
        factors_from(b, pos, divide) is Some,
    ensures
        processed_from(b, pos, divide) == factors_from(b, pos, divide).unwrap(),
    decreases b.len() - pos,
{
    let end = pos + ident_len(b.skip(pos));
    if let Some((e, tail)) = exp_at(b, end) {
        if tail < b.len() && pos < tail + 1 && (b[tail] == 42 || b[tail] == 47) {
            lemma_processed_all(b, tail + 1, b[tail] == 47);
        }
    }
}

/// The dimension arithmetic carried out on expression `b` stays within `i8` exponents:
/// that of every factor read before the first that cannot be.
pub open spec fn unit_expr_fits(b: Seq<u8>) -> bool {
    fold_fits(processed_from(b, 0, false), processed_from(b, 0, false).len() as int)
}

/// One `name^exp` term of a unit expression, and whether it divides.
#[derive(Debug, Clone, Copy, PartialEq, Eq)]
pub struct Factor {
    pub unit: &'static str,
    pub exp: i8,
    pub divide: bool,
}

pub open spec fn factor_view(f: Factor) -> (Seq<u8>, int, bool) {
    (f.unit.spec_bytes(), f.exp as int, f.divide)
}

pub open spec fn factors_view(v: Seq<Factor>) -> Seq<(Seq<u8>, int, bool)> {
    v.map_values(|f: Factor| factor_view(f))
}

/// A parsed unit expression: its dimension and the factors it is built from.
#[derive(Debug, Clone)]
pub struct UnitExpr {
    pub dim: Dim,
    pub factors: Vec<Factor>,
}

fn exponent_value(b: &[u8], at: usize) -> (r: Option<(i8, usize)>)
    requires
        at <= b@.len(),
    ensures
        r matches Some((e, t)) ==> exp_at(b@, at as int) == Some((e as int, t as int)),
        r is None <==> exp_at(b@, at as int) is None,
        r matches Some((e, t)) ==> at <= t <= b@.len(),
{
    if !(at < b.len() && b[at] == 94) {
        return Some((1, at));
    }
    let t = at + 1;
    let neg = t < b.len() && b[t] == 45;
    let ds = if neg { t + 1 } else { t };
    let de = crate::text::scan_digits(b, ds);
    let ghost digits = b@.subrange(ds as int, de as int);
    proof {
        assert(b@.subrange(ds as int, b@.len() as int) =~= b@.skip(ds as int));
        crate::text::lemma_digits_len(b@.skip(ds as int));
        assert forall|i: int| 0 <= i < digits.len() implies crate::text::is_digit(
            #[trigger] digits[i],
        ) by {
            assert(digits[i] == b@.skip(ds as int)[i]);
        }
    }
    proof {
        assert(b@.subrange(ds as int, (ds + digits_len(b@.skip(ds as int))) as int) == digits);
    }
    if de == ds {
        return None;
    }
    let ghost want = if digits_value(digits) > 127 {
        None
    } else {
        Some((if neg { -(digits_value(digits) as int) } else { digits_value(digits) as int }, de as int))
    };
    assert(exp_at(b@, at as int) == want);
    let mut v: u8 = 0;
    let mut i = ds;
    while i < de
        invariant
            ds <= i <= de <= b@.len(),
            exp_at(b@, at as int) == want,
            want == if digits_value(digits) > 127 {
                None
            } else {
                Some((if neg { -(digits_value(digits) as int) } else { digits_value(digits) as int }, de as int))
            },
            digits == b@.subrange(ds as int, de as int),
            forall|k: int| 0 <= k < digits.len() ==> crate::text::is_digit(#[trigger] digits[k]),
            v as nat == digits_value(digits.take(i - ds)),
            v <= 127,
        decreases de - i,
    {
        assert(digits[i - ds] == b@[i as int]);
        assert(crate::text::is_digit(digits[i - ds]));
        let d = b[i] - 48;
        assert(digits.take(i - ds + 1).drop_last() =~= digits.take(i - ds));
        assert(digits.take(i - ds + 1).last() == b@[i as int]);
        assert(digits_value(digits.take(i - ds + 1)) == v * 10 + d);
        if v > 12 || (v == 12 && d > 7) {
            proof {
                lemma_digits_value_prefix(digits, i - ds + 1);
                assert(digits_value(digits) > 127);
            }
            return None;
        }
        v = v * 10 + d;
        i += 1;
    }
    assert(digits.take(de - ds) =~= digits);
    let n = v as i8;
    if neg {
        Some((-n, de))
    } else {
        Some((n, de))
    }
}

proof fn lemma_fold_fits_prefix(fs: Seq<(Seq<u8>, int, bool)>, j: int, k: int)
    requires
        0 <= j <= k,
        fold_fits(fs, k),
    ensures
        fold_fits(fs, j),
    decreases k - j,
{
    if j < k {
        lemma_fold_fits_prefix(fs, j, k - 1);
    }
}

/// The factors of a unit expression, in order.
fn factors_of(expr: &str) -> (r: Option<Vec<Factor>>)
    ensures
        r is Some <==> factors_from(expr.spec_bytes(), 0, false) is Some,
        r matches Some(v) ==> {
            &&& factors_view(v@) == factors_from(expr.spec_bytes(), 0, false).unwrap()
            &&& forall|j: int|
                0 <= j < v@.len() ==> unit_spec(#[trigger] v@[j].unit.spec_bytes()) is Some
        },
{
    let b = expr.as_bytes();
    let ghost all = factors_from(b@, 0, false);
    let mut factors: Vec<Factor> = Vec::new();
    let mut pos: usize = 0;
    let mut divide = false;
    loop
        invariant_except_break
            all == match factors_from(b@, pos as int, divide) {
                Some(rest) => Some(factors_view(factors@) + rest),
                None => None::<Seq<(Seq<u8>, int, bool)>>,
            },
        invariant
            pos <= b@.len(),
            b@ == expr.spec_bytes(),
            all == factors_from(b@, 0, false),
            forall|j: int|
                0 <= j < factors@.len() ==> unit_spec(#[trigger] factors@[j].unit.spec_bytes())
                    is Some,
        ensures
            b@ == expr.spec_bytes(),
            all == Some(factors_view(factors@)),
            forall|j: int|
                0 <= j < factors@.len() ==> unit_spec(#[trigger] factors@[j].unit.spec_bytes())
                    is Some,
        decreases b@.len() - pos,
    {
        let ghost fview = factors_view(factors@);
        let end = crate::text::scan_ident_bytes(b, pos);
        proof {
            assert(b@.subrange(pos as int, b@.len() as int) =~= b@.skip(pos as int));
            crate::text::lemma_ident_len(b@.skip(pos as int));
        }
        let entry = unit_entry(b, pos, end);
        if entry.is_none() {
            return None;
        }
        let (unit, _) = entry.unwrap();
        let ev = exponent_value(b, end);
        if ev.is_none() {
            return None;
        }
        let (e, tail) = ev.unwrap();
        let ghost name = b@.subrange(pos as int, end as int);
        assert(unit_spec(name) is Some);
        assert(exp_at(b@, end as int) == Some((e as int, tail as int)));
        let f = Factor { unit, exp: e, divide };
        factors.push(f);
        proof {
            assert(factor_view(f) == (b@.subrange(pos as int, end as int), e as int, divide));
            assert(factors_view(factors@) =~= fview.push(factor_view(f)));
        }
        if tail >= b.len() {
            proof {
                assert(factors_from(b@, pos as int, divide) == Some(seq![(name, e as int, divide)]));
                assert(fview + seq![factor_view(f)] =~= fview.push(factor_view(f)));
            }
            break;
        }
        if b[tail] != 42 && b[tail] != 47 {
            assert(factors_from(b@, pos as int, divide) is None);
            return None;
        }
        proof {
            let rest = factors_from(b@, tail + 1, b@[tail as int] == 47);
            assert(factors_from(b@, pos as int, divide) == match rest {
                Some(r) => Some(seq![(name, e as int, divide)] + r),
                None => None::<Seq<(Seq<u8>, int, bool)>>,
            });
            assert(factor_view(f) == (name, e as int, divide));
            if rest is Some {
                assert(fview + (seq![factor_view(f)] + rest.unwrap()) =~= fview.push(
                    factor_view(f),
                ) + rest.unwrap());
                assert(all == Some(factors_view(factors@) + rest.unwrap()));
            } else {
                assert(all is None);
            }
        }
        let ghost old_factors = factors_view(factors@);
        divide = b[tail] == 47;
        pos = tail + 1;
        proof {
            let rest = factors_from(b@, pos as int, divide);
            if rest is Some {
                assert(all == Some(old_factors + rest.unwrap()));
            }
        }
    }
    let ghost fs = all.unwrap();
    assert(factors_view(factors@) == fs);
    Some(factors)
}

/// The factors of `expr` whose arithmetic is carried out: each one up to the first that
/// cannot be read.
fn processed_factors(expr: &str) -> (r: Vec<Factor>)
    ensures
        factors_view(r@) == processed_from(expr.spec_bytes(), 0, false),
        forall|j: int| 0 <= j < r@.len() ==> unit_spec(#[trigger] r@[j].unit.spec_bytes()) is Some,
{
    let b = expr.as_bytes();
    let ghost all = processed_from(b@, 0, false);
    let mut factors: Vec<Factor> = Vec::new();
    let mut pos: usize = 0;
    let mut divide = false;
    assert(factors_view(factors@) =~= Seq::<(Seq<u8>, int, bool)>::empty());
    loop
        invariant
            pos <= b@.len(),
            b@ == expr.spec_bytes(),
            all == processed_from(b@, 0, false),
            all == factors_view(factors@) + processed_from(b@, pos as int, divide),
            forall|j: int|
                0 <= j < factors@.len() ==> unit_spec(#[trigger] factors@[j].unit.spec_bytes())
                    is Some,
        decreases b@.len() - pos,
    {
        let ghost fview = factors_view(factors@);
        let end = crate::text::scan_ident_bytes(b, pos);
        proof {
            assert(b@.subrange(pos as int, b@.len() as int) =~= b@.skip(pos as int));
            crate::text::lemma_ident_len(b@.skip(pos as int));
        }
        let entry = unit_entry(b, pos, end);
        if entry.is_none() {
            assert(all =~= factors_view(factors@));
            return factors;
        }
        let (unit, _) = entry.unwrap();
        let ev = exponent_value(b, end);
        if ev.is_none() {
            assert(all =~= factors_view(factors@));
            return factors;
        }
        let (e, tail) = ev.unwrap();
        let ghost name = b@.subrange(pos as int, end as int);
        assert(unit_spec(name) is Some);
        assert(exp_at(b@, end as int) == Some((e as int, tail as int)));
        let f = Factor { unit, exp: e, divide };
        factors.push(f);
        proof {
            assert(factor_view(f) == (b@.subrange(pos as int, end as int), e as int, divide));
            assert(factors_view(factors@) =~= fview.push(factor_view(f)));
        }
        if tail >= b.len() || (b[tail] != 42 && b[tail] != 47) {
            proof {
                assert(processed_from(b@, pos as int, divide) == seq![(name, e as int, divide)]);
                assert(all =~= factors_view(factors@));
            }
            return factors;
        }
        proof {
            assert(processed_from(b@, pos as int, divide) == seq![(name, e as int, divide)]
                + processed_from(b@, tail + 1, b@[tail as int] == 47));
            assert(fview + (seq![factor_view(f)] + processed_from(b@, tail + 1, b@[tail as int] == 47))
                =~= factors_view(factors@) + processed_from(b@, tail + 1, b@[tail as int] == 47));
        }
        divide = b[tail] == 47;
        pos = tail + 1;
    }
}

/// A unit expression like `usd/kWh`, `m/s^2` or `W*h`: names joined by `*` and `/`, each with
/// an optional `^n`. Multiplication and division associate left to right.
pub fn parse(expr: &str) -> (r: Option<UnitExpr>)
    requires
        unit_expr_fits(expr.spec_bytes()),
    ensures
        r is Some <==> factors_from(expr.spec_bytes(), 0, false) is Some,
        r matches Some(u) ==> {
            let fs = factors_from(expr.spec_bytes(), 0, false).unwrap();
            &&& factors_view(u.factors@) == fs
            &&& exps(u.dim) == fold_exps(fs, fs.len() as int)
        },
{
    let factors = match factors_of(expr) {
        Some(v) => v,
        None => return None,
    };
    let ghost fs = factors_from(expr.spec_bytes(), 0, false).unwrap();
    proof {
        lemma_processed_all(expr.spec_bytes(), 0, false);
    }
    let mut dim = Dim::none();
    let mut k: usize = 0;
    while k < factors.len()
        invariant
            0 <= k <= factors@.len(),
            fs == factors_view(factors@),
            fold_fits(fs, fs.len() as int),
            exps(dim) == fold_exps(fs, k as int),
            forall|j: int|
                0 <= j < factors@.len() ==> unit_spec(#[trigger] factors@[j].unit.spec_bytes())
                    is Some,
        decreases factors@.len() - k,
    {
        let f = factors[k];
        assert(fs[k as int] == factor_view(f));
        proof {
            lemma_fold_fits_prefix(fs, k + 1, fs.len() as int);
        }
        assert(unit_spec(factors@[k as int].unit.spec_bytes()) is Some);
        let d = lookup_dim(f.unit).unwrap();
        assert(fold_fits(fs, k + 1));
        assert(scale_exps(d, f.exp as int) =~= factor_exps(fs[k as int]));
        let p = d.powi(f.exp);
        let ghost acc = fold_exps(fs, k as int);
        let ghost nxt = fold_exps(fs, k + 1);
        if f.divide {
            assert(sub_exps(dim, p) =~= nxt);
            dim = dim.div(p);
        } else {
            assert(add_exps(dim, p) =~= nxt);
            dim = dim.mul(p);
        }
        assert(exps(dim) =~= fold_exps(fs, k + 1));
        k += 1;
    }
    Some(UnitExpr { dim, factors })
}

/// Whether the dimension arithmetic carried out on `expr` stays within `i8` exponents:
/// every power of a factor and every running product or quotient, for each factor read
/// before the first that cannot be. Only then may `parse` be called.
pub fn expr_fits(expr: &str) -> (r: bool)
    ensures
        r == unit_expr_fits(expr.spec_bytes()),
{
    let factors = processed_factors(expr);
    let ghost fs = processed_from(expr.spec_bytes(), 0, false);
    let mut acc: [i32; N] = [0, 0, 0, 0, 0, 0, 0, 0, 0, 0];
    proof {
        assert(dim_none().0@ =~= seq![0i8, 0i8, 0i8, 0i8, 0i8, 0i8, 0i8, 0i8, 0i8, 0i8]);
        assert(acc@ =~= seq![0i32, 0i32, 0i32, 0i32, 0i32, 0i32, 0i32, 0i32, 0i32, 0i32]);
    }
    let mut k: usize = 0;
    while k < factors.len()
        invariant
            0 <= k <= factors@.len(),
            fs == factors_view(factors@),
            fs == processed_from(expr.spec_bytes(), 0, false),
            fold_fits(fs, k as int),
            forall|i: int| 0 <= i < N ==> acc@[i] == #[trigger] fold_exps(fs, k as int)[i],
            forall|j: int| 0 <= j < N ==> -128 <= #[trigger] acc@[j] <= 127,
            forall|j: int|
                0 <= j < factors@.len() ==> unit_spec(#[trigger] factors@[j].unit.spec_bytes())
                    is Some,
        decreases factors@.len() - k,
    {
        let f = factors[k];
        assert(fs[k as int] == factor_view(f));
        let d = lookup_dim(f.unit).unwrap();
        let ghost t = factor_exps(fs[k as int]);
        let ghost nxt = fold_exps(fs, k + 1);
        assert(t =~= scale_exps(d, f.exp as int));
        let mut next = acc;
        let mut i: usize = 0;
        while i < N
            invariant
                0 <= i <= N,
                t == scale_exps(d, f.exp as int),
                t == factor_exps(fs[k as int]),
                nxt == fold_exps(fs, k + 1),
                fs == processed_from(expr.spec_bytes(), 0, false),
                forall|j: int| 0 <= j < N ==> -128 <= #[trigger] acc@[j] <= 127,
                nxt.len() == N,
                forall|j: int| 0 <= j < N ==> acc@[j] == #[trigger] fold_exps(fs, k as int)[j],
                f == factors@[k as int],
                k < fs.len(),
                fs == factors_view(factors@),
                fs[k as int] == factor_view(f),
                forall|j: int| 0 <= j < i ==> i8::MIN <= #[trigger] t[j] <= i8::MAX,
                forall|j: int| 0 <= j < i ==> i8::MIN <= #[trigger] nxt[j] <= i8::MAX,
                forall|j: int| 0 <= j < i ==> next@[j] == #[trigger] nxt[j],
            decreases N - i,
        {
            assert(t[i as int] == exp(d, i as int) * f.exp);
            let a = d.0[i] as i32;
            let e = f.exp as i32;
            assert(-16384 <= a * e <= 16384) by (nonlinear_arith)
                requires
                    -128 <= a <= 127,
                    -128 <= e <= 127,
            ;
            let p = a * e;
            assert(nxt[i as int] == if f.divide {
                fold_exps(fs, k as int)[i as int] - t[i as int]
            } else {
                fold_exps(fs, k as int)[i as int] + t[i as int]
            });
            if p < -128 || p > 127 {
                proof {
                    assert(!fits_i8(t));
                    if unit_expr_fits(expr.spec_bytes()) {
                        lemma_fold_fits_prefix(fs, k + 1, fs.len() as int);
                    }
                }
                return false;
            }
            let v = if f.divide {
                acc[i] - p
            } else {
                acc[i] + p
            };
            if v < -128 || v > 127 {
                proof {
                    assert(!fits_i8(nxt));
                    if unit_expr_fits(expr.spec_bytes()) {
                        lemma_fold_fits_prefix(fs, k + 1, fs.len() as int);
                    }
                }
                return false;
            }
            next[i] = v;
            i += 1;
        }
        assert(fits_i8(t));
        assert(fits_i8(nxt));
        assert forall|j: int| 0 <= j < N implies -128 <= #[trigger] next@[j] <= 127 && next@[j]
            == nxt[j] by {
            assert(i8::MIN <= nxt[j] <= i8::MAX);
        }
        acc = next;
        k += 1;
    }
    assert(fs.len() == factors@.len());
    true
}

proof fn lemma_bytes_le_total(a: Seq<u8>, b: Seq<u8>)
    ensures
        bytes_le(a, b) || bytes_le(b, a),
    decreases a.len(),
{
    if a.len() > 0 && b.len() > 0 && a[0] == b[0] {
        lemma_bytes_le_total(a.drop_first(), b.drop_first());
    }
}

proof fn lemma_no_named_from(d: Dim, k: int)
    requires
        0 <= k,
        forall|i: int| 0 <= i < 17 ==> (#[trigger] named_dim(i)).0@ != d.0@,
    ensures
        first_named(d, k) is None,
    decreases 17 - k,
{
    if k < 17 {
        lemma_no_named_from(d, k + 1);
    }
}

proof fn lemma_no_ratio_from(d: Dim, k: int)
    requires
        0 <= k,
        forall|i: int, j: int|
            0 <= i < 17 && 0 <= j < 17 ==> !(sub_exps(named_dim(i), named_dim(j)) == exps(d)
                && !dim_is_none(named_dim(j))),
    ensures
        first_ratio(d, k) is None,
    decreases 289 - k,
{
    if k < 289 {
        assert(!ratio_at(d, k)) by {
            assert(0 <= k / 17 < 17 && 0 <= k % 17 < 17);
        }
        lemma_no_ratio_from(d, k + 1);
    }
}

proof fn lemma_ratio_found(d: Dim, lo: int, k: int)
    requires
        0 <= lo <= k < 289,
        ratio_at(d, k),
    ensures
        first_ratio(d, lo) matches Some(m) && lo <= m < 289 && ratio_at(d, m),
    decreases k - lo,
{
    if !ratio_at(d, lo) {
        lemma_ratio_found(d, lo + 1, k);
    }
}

proof fn lemma_product_found(d: Dim, lo: int, k: int)
    requires
        0 <= lo <= k < 289,
        product_at(d, k),
    ensures
        first_product(d, lo) matches Some(m) && lo <= m < 289 && product_at(d, m),
    decreases k - lo,
{
    if !product_at(d, lo) {
        lemma_product_found(d, lo + 1, k);
    }
}

/// When no familiar unit measures `d` but the ratio of two does, `describe` names such a
/// ratio: its text is the one unit's name, `/`, the other's, and the first unit's dimension
/// over the second's is `d`.
pub proof fn lemma_describe_names_a_ratio(d: Dim, i: int, j: int)
    requires
        !dim_is_none(d),
        forall|n: int| 0 <= n < 17 ==> (#[trigger] named_dim(n)).0@ != d.0@,
        0 <= i < 17,
        0 <= j < 17,
        sub_exps(named_dim(i), named_dim(j)) == exps(d),
        !dim_is_none(named_dim(j)),
    ensures
        exists|a: int, b: int|
            0 <= a < 17 && 0 <= b < 17 && #[trigger] sub_exps(named_dim(a), named_dim(b)) == exps(d)
                && describe_spec(d) == named_str(a)@ + "/"@ + #[trigger] named_str(b)@,
{
    lemma_no_named_from(d, 0);
    let k = i * 17 + j;
    assert(k / 17 == i && k % 17 == j);
    lemma_ratio_found(d, 0, k);
    let m = first_ratio(d, 0)->0;
    assert(describe_spec(d) == named_str(m / 17)@ + "/"@ + named_str(m % 17)@);
    assert(0 <= m / 17 < 17 && 0 <= m % 17 < 17);
}

/// When no familiar unit and no ratio of two measures `d` but the product of two does,
/// `describe` names such a product: its text is the one unit's name, `*`, the other's, and
/// the two units' dimensions multiply to `d`.
pub proof fn lemma_describe_names_a_product(d: Dim, i: int, j: int)
    requires
        !dim_is_none(d),
        forall|n: int| 0 <= n < 17 ==> (#[trigger] named_dim(n)).0@ != d.0@,
        forall|a: int, b: int|
            0 <= a < 17 && 0 <= b < 17 ==> !(sub_exps(named_dim(a), named_dim(b)) == exps(d)
                && !dim_is_none(named_dim(b))),
        0 <= i < 17,
        0 <= j < 17,
        add_exps(named_dim(i), named_dim(j)) == exps(d),
    ensures
        exists|a: int, b: int|
            0 <= a < 17 && 0 <= b < 17 && #[trigger] add_exps(named_dim(a), named_dim(b)) == exps(d)
                && describe_spec(d) == named_str(a)@ + "*"@ + #[trigger] named_str(b)@,
{
    lemma_no_named_from(d, 0);
    lemma_no_ratio_from(d, 0);
    lemma_bytes_le_total(named_str(i).spec_bytes(), named_str(j).spec_bytes());
    let k = if bytes_le(named_str(i).spec_bytes(), named_str(j).spec_bytes()) {
        i * 17 + j
    } else {
        j * 17 + i
    };
    assert(add_exps(named_dim(j), named_dim(i)) =~= add_exps(named_dim(i), named_dim(j)));
    assert((i * 17 + j) / 17 == i && (i * 17 + j) % 17 == j);
    assert((j * 17 + i) / 17 == j && (j * 17 + i) % 17 == i);
    assert(product_at(d, k));
    lemma_product_found(d, 0, k);
    let m = first_product(d, 0)->0;
    assert(describe_spec(d) == named_str(m / 17)@ + "*"@ + named_str(m % 17)@);
    assert(0 <= m / 17 < 17 && 0 <= m % 17 < 17);
}

proof fn lemma_named_found(d: Dim, lo: int, k: int)
    requires
        0 <= lo <= k < 17,
        named_dim(k).0@ == d.0@,
    ensures
        first_named(d, lo) matches Some(m) && lo <= m < 17 && named_dim(m).0@ == d.0@,
    decreases k - lo,
{
    if named_dim(lo).0@ != d.0@ {
        lemma_named_found(d, lo + 1, k);
    }
}

/// When a familiar unit measures `d`, `describe` names one: the text ends with that unit's
/// name in parentheses, and the named unit measures exactly `d`.
pub proof fn lemma_describe_names_a_familiar_unit(d: Dim, i: int)
    requires
        !dim_is_none(d),
        0 <= i < 17,
        named_dim(i).0@ == d.0@,
    ensures
        exists|a: int|
            0 <= a < 17 && (#[trigger] named_dim(a)).0@ == d.0@ && describe_spec(d) == family_of(d)@
                + " ("@ + named_str(a)@ + ")"@,
{
    lemma_named_found(d, 0, i);
    let m = first_named(d, 0)->0;
    assert(describe_spec(d) == family_of(d)@ + " ("@ + named_str(m)@ + ")"@);
}

} // verus!
