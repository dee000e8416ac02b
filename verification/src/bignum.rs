//! Arbitrary-precision signed integers for iterator counters.
//!
//! The enumerate counter must grow without any overflow ceiling, so it is
//! kept as a sign plus a little-endian sequence of 32-bit limbs. The
//! representation is canonical: no trailing zero limb, and a negative sign
//! only on a non-zero magnitude, so two numbers are equal exactly when
//! their representations are.

use vstd::prelude::*;
use vstd::arithmetic::power::*;

verus! {

/// Radix of the limb representation.
pub open spec fn limb_base() -> int {
    0x1_0000_0000
}

/// Value of a little-endian limb sequence.
pub open spec fn limbs_val(s: Seq<u32>) -> nat
    decreases s.len(),
{
    if s.len() == 0 {
        0
    } else {
        (s[0] + limb_base() * limbs_val(s.skip(1))) as nat
    }
}

/// A limb sequence is canonical when it carries no trailing zero limb.
pub open spec fn limbs_canonical(s: Seq<u32>) -> bool {
    s.len() > 0 ==> s[s.len() - 1] != 0
}

/// The decimal digits of `n`, most significant first, as `u64` formatting
/// or num_bigint's decimal rendering would produce them.
pub open spec fn dec_str(n: nat) -> Seq<char>
    decreases n,
{
    if n < 10 {
        seq![dec_digit(n)]
    } else {
        dec_str(n / 10).push(dec_digit(n % 10))
    }
}

/// One decimal digit as a character; `d` is below ten.
pub open spec fn dec_digit(d: nat) -> char {
    if d == 0 { '0' }
    else if d == 1 { '1' }
    else if d == 2 { '2' }
    else if d == 3 { '3' }
    else if d == 4 { '4' }
    else if d == 5 { '5' }
    else if d == 6 { '6' }
    else if d == 7 { '7' }
    else if d == 8 { '8' }
    else { '9' }
}

/// Decimal rendering of a signed value: a leading minus for negatives.
pub open spec fn int_dec_str(v: int) -> Seq<char> {
    if v < 0 {
        seq!['-'] + dec_str((-v) as nat)
    } else {
        dec_str(v as nat)
    }
}

proof fn lemma_pow_unfold(b: int, e: nat)
    requires
        e > 0,
    ensures
        pow(b, e) == b * pow(b, (e - 1) as nat),
{
    lemma_pow1(b);
    lemma_pow_adds(b, 1, (e - 1) as nat);
}

proof fn lemma_limbs_val_single(x: u32)
    ensures
        limbs_val(seq![x]) == x,
{
    reveal_with_fuel(limbs_val, 3);
    assert(seq![x].skip(1) =~= Seq::<u32>::empty());
}

proof fn lemma_limbs_val_pair(x: u32, y: u32)
    ensures
        limbs_val(seq![x, y]) == x + limb_base() * y,
{
    assert(seq![x, y].skip(1) =~= seq![y]);
    lemma_limbs_val_single(y);
}

proof fn lemma_limbs_val_split(s: Seq<u32>, i: int)
    requires
        0 <= i <= s.len(),
    ensures
        limbs_val(s) == limbs_val(s.take(i)) + pow(limb_base(), i as nat) * limbs_val(s.skip(i)),
    decreases i,
{
    if i == 0 {
        reveal_with_fuel(limbs_val, 2);
        lemma_pow0(limb_base());
        assert(s.take(0) =~= Seq::<u32>::empty());
        assert(s.skip(0) =~= s);
    } else {
        let s1 = s.skip(1);
        lemma_limbs_val_split(s1, i - 1);
        assert(s1.take(i - 1) =~= s.take(i).skip(1));
        assert(s1.skip(i - 1) =~= s.skip(i));
        assert(s.take(i)[0] == s[0]);
        let b = limb_base();
        let p1 = pow(b, (i - 1) as nat);
        let p = pow(b, i as nat);
        lemma_pow_unfold(b, i as nat);
        assert(p == b * p1);
        let head = s[0] as int;
        let mid = limbs_val(s.take(i).skip(1)) as int;
        let tail = limbs_val(s.skip(i)) as int;
        assert(limbs_val(s1) == mid + p1 * tail);
        assert(limbs_val(s.take(i)) == head + b * mid);
        assert(limbs_val(s) == head + b * (mid + p1 * tail));
        assert(head + b * (mid + p1 * tail) == (head + b * mid) + (b * p1) * tail)
            by (nonlinear_arith);
    }
}

proof fn lemma_limbs_val_all_zero(s: Seq<u32>)
    requires
        forall|j: int| 0 <= j < s.len() ==> s[j] == 0,
    ensures
        limbs_val(s) == 0,
    decreases s.len(),
{
    if s.len() > 0 {
        lemma_limbs_val_all_zero(s.skip(1));
    }
}

proof fn lemma_limbs_val_all_max(s: Seq<u32>)
    requires
        forall|j: int| 0 <= j < s.len() ==> s[j] == u32::MAX,
    ensures
        limbs_val(s) == pow(limb_base(), s.len()) - 1,
    decreases s.len(),
{
    let b = limb_base();
    if s.len() == 0 {
        lemma_pow0(b);
    } else {
        lemma_limbs_val_all_max(s.skip(1));
        let p1 = pow(b, (s.len() - 1) as nat);
        lemma_pow_positive(b, (s.len() - 1) as nat);
        lemma_pow_unfold(b, s.len());
        assert(pow(b, s.len()) == b * p1);
        assert((b - 1) + b * (p1 - 1) == b * p1 - 1) by (nonlinear_arith);
    }
}

proof fn lemma_limbs_val_bound(s: Seq<u32>)
    ensures
        limbs_val(s) < pow(limb_base(), s.len()),
    decreases s.len(),
{
    let b = limb_base();
    if s.len() == 0 {
        lemma_pow0(b);
    } else {
        lemma_limbs_val_bound(s.skip(1));
        let p1 = pow(b, (s.len() - 1) as nat);
        let tail = limbs_val(s.skip(1)) as int;
        lemma_pow_unfold(b, s.len());
        assert(pow(b, s.len()) == b * p1);
        assert(tail <= p1 - 1);
        assert(s[0] + b * tail <= (b - 1) + b * (p1 - 1)) by (nonlinear_arith)
            requires tail <= p1 - 1 && s[0] <= b - 1 && b > 0;
        assert((b - 1) + b * (p1 - 1) == b * p1 - 1) by (nonlinear_arith);
    }
}

/// A canonical, non-empty limb sequence stands for a positive value.
proof fn lemma_canonical_pos(s: Seq<u32>)
    requires
        limbs_canonical(s),
        s.len() > 0,
    ensures
        limbs_val(s) > 0,
{
    let b = limb_base();
    let n = s.len() as int;
    lemma_limbs_val_split(s, n - 1);
    let p = pow(b, (n - 1) as nat);
    lemma_pow_positive(b, (n - 1) as nat);
    let tail = s.skip(n - 1);
    assert(tail.len() == 1);
    assert(tail[0] == s[n - 1]);
    assert(limbs_val(tail.skip(1)) == 0);
    assert(limbs_val(tail) == tail[0]);
    assert(limbs_val(s.take(n - 1)) + p * tail[0] > 0) by (nonlinear_arith)
        requires p > 0 && tail[0] > 0 && limbs_val(s.take(n - 1)) >= 0;
}

/// Canonical limb sequences are unique for their value.
proof fn lemma_canonical_unique(a: Seq<u32>, b: Seq<u32>)
    requires
        limbs_canonical(a),
        limbs_canonical(b),
        limbs_val(a) == limbs_val(b),
    ensures
        a =~= b,
    decreases a.len(),
{
    let base = limb_base();
    if a.len() == 0 {
        if b.len() > 0 {
            lemma_canonical_pos(b);
        }
        assert(b.len() == 0);
    } else if b.len() == 0 {
        lemma_canonical_pos(a);
    } else {
        let av = limbs_val(a) as int;
        let at = limbs_val(a.skip(1)) as int;
        let bt = limbs_val(b.skip(1)) as int;
        assert(av == a[0] + base * at);
        assert(av == b[0] + base * bt);
        vstd::arithmetic::div_mod::lemma_fundamental_div_mod_converse(
            av, base, at, a[0] as int);
        vstd::arithmetic::div_mod::lemma_fundamental_div_mod_converse(
            av, base, bt, b[0] as int);
        assert(a[0] == b[0]);
        assert(at == bt);
        if a.len() == 1 {
            // a.skip(1) is empty, so bt == 0; a canonical single limb is
            // non-zero, hence b cannot be longer.
            if b.len() > 1 {
                assert(limbs_canonical(b.skip(1)));
                lemma_canonical_pos(b.skip(1));
            }
            assert(b.len() == 1);
        } else {
            if b.len() == 1 {
                assert(limbs_canonical(a.skip(1)));
                lemma_canonical_pos(a.skip(1));
            }
            assert(b.len() > 1);
            assert(limbs_canonical(a.skip(1)));
            assert(limbs_canonical(b.skip(1)));
            lemma_canonical_unique(a.skip(1), b.skip(1));
        }
        assert forall|j: int| 0 <= j < a.len() implies a[j] == b[j] by {
            if j > 0 {
                assert(a[j] == a.skip(1)[j - 1]);
                assert(b[j] == b.skip(1)[j - 1]);
            }
        }
        assert(a =~= b);
    }
}

/// Signed arbitrary-precision integer: sign and little-endian magnitude.
#[derive(Debug)]
pub struct BigNum {
    pub neg: bool,
    pub mag: Vec<u32>,
}

impl Clone for BigNum {
    /// A clone keeps the sign and the limbs, hence the value.
    fn clone(&self) -> (res: BigNum)
        ensures
            res.neg == self.neg,
            res.mag@ == self.mag@,
            res.value() == self.value(),
            res.wf() == self.wf(),
    {
        let mag = self.mag.clone();
        proof {
            assert(mag@ =~= self.mag@);
        }
        BigNum { neg: self.neg, mag }
    }
}

impl BigNum {
    /// Canonical-form invariant: no trailing zero limb, and only a
    /// non-zero magnitude may be negative.
    pub open spec fn wf(self) -> bool {
        &&& limbs_canonical(self.mag@)
        &&& (self.neg ==> self.mag@.len() > 0)
    }

    /// The integer this number stands for.
    pub open spec fn value(self) -> int {
        if self.neg {
            -(limbs_val(self.mag@) as int)
        } else {
            limbs_val(self.mag@) as int
        }
    }

    /// Zero.
    pub fn zero() -> (r: BigNum)
        ensures
            r.wf(),
            r.value() == 0,
    {
        BigNum { neg: false, mag: Vec::new() }
    }

    /// The number standing for an unsigned machine integer.
    pub fn from_u64(m: u64) -> (r: BigNum)
        ensures
            r.wf(),
            r.value() == m as int,
    {
        BigNum::from_mag(false, m)
    }

    /// The number standing for a machine integer.
    pub fn from_i64(v: i64) -> (r: BigNum)
        ensures
            r.wf(),
            r.value() == v as int,
    {
        let neg = v < 0;
        let m: u64 = if v >= 0 {
            v as u64
        } else {
            // Negate without overflowing on the smallest value.
            ((-(v + 1)) as u64) + 1
        };
        BigNum::from_mag(neg, m)
    }

    /// The number with the given sign and magnitude.
    fn from_mag(neg: bool, m: u64) -> (r: BigNum)
        requires
            neg ==> m > 0,
        ensures
            r.wf(),
            r.value() == if neg { -(m as int) } else { m as int },
    {
        proof {
            assert(m & 0xFFFF_FFFF < 0x1_0000_0000) by (bit_vector);
            assert(m >> 32 < 0x1_0000_0000) by (bit_vector);
            assert((m & 0xFFFF_FFFF) + 0x1_0000_0000 * (m >> 32) == m) by (bit_vector);
            assert(m < 0x1_0000_0000 ==> (m & 0xFFFF_FFFF) == m) by (bit_vector);
            assert(m >= 0x1_0000_0000 ==> (m >> 32) > 0) by (bit_vector);
        }
        let mut mag: Vec<u32> = Vec::new();
        if m > 0 {
            let lo: u32 = (m & 0xFFFF_FFFF) as u32;
            mag.push(lo);
            if m >= 0x1_0000_0000 {
                let hi: u32 = (m >> 32) as u32;
                mag.push(hi);
                proof {
                    assert(mag@ =~= seq![lo, hi]);
                    lemma_limbs_val_pair(lo, hi);
                }
            } else {
                proof {
                    assert(mag@ =~= seq![lo]);
                    lemma_limbs_val_single(lo);
                }
            }
        }
        let r = BigNum { neg, mag };
        proof {
            if m == 0 {
                assert(r.mag@ =~= Seq::<u32>::empty());
            }
        }
        r
    }

    /// Step the number forward by one; the counter operation.
    pub fn succ(&mut self)
        requires
            old(self).wf(),
        ensures
            final(self).wf(),
            final(self).value() == old(self).value() + 1,
    {
        if self.neg {
            dec_limbs(&mut self.mag);
            if self.mag.len() == 0 {
                self.neg = false;
            }
            proof {
                if old(self).mag@.len() > 0 {
                    lemma_canonical_pos(old(self).mag@);
                }
            }
        } else {
            inc_limbs(&mut self.mag);
        }
    }

    /// Structural equality decides value equality, since the
    /// representation is canonical.
    pub fn eq_big(&self, other: &BigNum) -> (r: bool)
        requires
            self.wf(),
            other.wf(),
        ensures
            r == (self.value() == other.value()),
    {
        proof {
            if self.value() == other.value() {
                if self.neg == other.neg {
                    lemma_canonical_unique(self.mag@, other.mag@);
                } else if self.neg {
                    lemma_canonical_pos(self.mag@);
                } else {
                    lemma_canonical_pos(other.mag@);
                }
            }
            if self.mag@ =~= other.mag@ && self.neg == other.neg {
                assert(self.value() == other.value());
            }
        }
        if self.neg != other.neg {
            return false;
        }
        if self.mag.len() != other.mag.len() {
            return false;
        }
        let n = self.mag.len();
        let mut i: usize = 0;
        while i < n
            invariant
                n == self.mag@.len(),
                n == other.mag@.len(),
                i <= n,
                forall|j: int| 0 <= j < i ==> self.mag@[j] == other.mag@[j],
                self.wf(),
                other.wf(),
                self.neg == other.neg,
                self.value() == other.value() ==> self.mag@ == other.mag@,
                self.mag@ == other.mag@ ==> self.value() == other.value(),
            decreases n - i,
        {
            if self.mag[i] != other.mag[i] {
                proof {
                    assert(!(self.mag@ =~= other.mag@));
                }
                return false;
            }
            i += 1;
        }
        proof {
            assert(self.mag@ =~= other.mag@);
        }
        true
    }

    /// Strict order on values; canonical magnitudes compare by length
    /// first, then limbwise from the top.
    pub fn lt_big(&self, other: &BigNum) -> (r: bool)
        requires
            self.wf(),
            other.wf(),
        ensures
            r == (self.value() < other.value()),
    {
        proof {
            if self.neg {
                lemma_canonical_pos(self.mag@);
            }
            if other.neg {
                lemma_canonical_pos(other.mag@);
            }
        }
        if self.neg != other.neg {
            self.neg
        } else if self.neg {
            mag_lt(&other.mag, &self.mag)
        } else {
            mag_lt(&self.mag, &other.mag)
        }
    }

    /// Decimal rendering, with a leading minus for negatives.
    pub fn to_decimal(&self) -> (r: String)
        requires
            self.wf(),
        ensures
            r@ == int_dec_str(self.value()),
    {
        let digits = mag_to_decimal(&self.mag);
        if self.neg {
            proof {
                reveal_strlit("-");
                lemma_canonical_pos(self.mag@);
            }
            let mut s: String = "-".to_owned();
            s.append(digits.as_str());
            s
        } else {
            digits
        }
    }
}

/// A canonical, non-empty limb sequence reaches at least the weight of
/// its top limb's position.
proof fn lemma_canonical_min(s: Seq<u32>)
    requires
        limbs_canonical(s),
        s.len() > 0,
    ensures
        limbs_val(s) >= pow(limb_base(), (s.len() - 1) as nat),
{
    let b = limb_base();
    let n = s.len() as int;
    lemma_limbs_val_split(s, n - 1);
    let p = pow(b, (n - 1) as nat);
    lemma_pow_positive(b, (n - 1) as nat);
    let tail = s.skip(n - 1);
    assert(tail.len() == 1);
    assert(tail[0] == s[n - 1]);
    assert(limbs_val(tail.skip(1)) == 0);
    assert(limbs_val(tail) == tail[0]);
    assert(limbs_val(s.take(n - 1)) + p * tail[0] >= p) by (nonlinear_arith)
        requires p > 0 && tail[0] >= 1 && limbs_val(s.take(n - 1)) >= 0;
}

/// A shorter canonical magnitude is the smaller one.
proof fn lemma_shorter_lt(x: Seq<u32>, y: Seq<u32>)
    requires
        limbs_canonical(x),
        limbs_canonical(y),
        x.len() < y.len(),
    ensures
        limbs_val(x) < limbs_val(y),
{
    let b = limb_base();
    lemma_limbs_val_bound(x);
    lemma_canonical_min(y);
    lemma_pow_increases(b as nat, x.len(), (y.len() - 1) as nat);
}

/// With equal tails above position `i`, the limb at `i` decides.
proof fn lemma_top_limb_lt(x: Seq<u32>, y: Seq<u32>, i: int)
    requires
        x.len() == y.len(),
        0 <= i < x.len(),
        forall|j: int| i < j < x.len() ==> x[j] == y[j],
        x[i] < y[i],
    ensures
        limbs_val(x) < limbs_val(y),
{
    let b = limb_base();
    let p = pow(b, i as nat);
    lemma_pow_positive(b, i as nat);
    lemma_limbs_val_split(x, i);
    lemma_limbs_val_split(y, i);
    let xs = x.skip(i);
    let ys = y.skip(i);
    assert(xs.skip(1) =~= x.skip(i + 1));
    assert(ys.skip(1) =~= y.skip(i + 1));
    assert(x.skip(i + 1) =~= y.skip(i + 1));
    let rest = limbs_val(x.skip(i + 1)) as int;
    assert(limbs_val(xs) == x[i] + b * rest);
    assert(limbs_val(ys) == y[i] + b * rest);
    let tx = limbs_val(x.take(i)) as int;
    let ty = limbs_val(y.take(i)) as int;
    lemma_limbs_val_bound(x.take(i));
    assert(x.take(i).len() == i);
    assert(tx < p);
    assert(ty >= 0);
    // val(y) - val(x) = (ty - tx) + p * (y[i] - x[i]) >= -(p - 1) + p >= 1
    assert(ty + p * (y[i] + b * rest) > tx + p * (x[i] + b * rest)) by (nonlinear_arith)
        requires tx < p && ty >= 0 && p > 0 && x[i] + 1 <= y[i] && rest >= 0 && b > 0;
}

/// Strict order on canonical magnitudes.
fn mag_lt(x: &Vec<u32>, y: &Vec<u32>) -> (r: bool)
    requires
        limbs_canonical(x@),
        limbs_canonical(y@),
    ensures
        r == (limbs_val(x@) < limbs_val(y@)),
{
    if x.len() != y.len() {
        proof {
            if x@.len() < y@.len() {
                lemma_shorter_lt(x@, y@);
            } else {
                lemma_shorter_lt(y@, x@);
            }
        }
        return x.len() < y.len();
    }
    let n = x.len();
    let mut i: usize = n;
    while i > 0
        invariant
            n == x@.len(),
            n == y@.len(),
            i <= n,
            forall|j: int| i <= j < n ==> x@[j] == y@[j],
        decreases i,
    {
        i = i - 1;
        if x[i] < y[i] {
            proof {
                lemma_top_limb_lt(x@, y@, i as int);
            }
            return true;
        }
        if y[i] < x[i] {
            proof {
                lemma_top_limb_lt(y@, x@, i as int);
            }
            return false;
        }
    }
    proof {
        assert(x@ =~= y@);
    }
    false
}

/// Relies on num_bigint: `BigUint::from_slice` reads base-2^32 digits
/// least significant first, and the `Display` impl renders plain decimal
/// digits with no sign, padding or separators.
#[verifier::external_body]
fn mag_to_decimal(limbs: &Vec<u32>) -> (r: String)
    ensures
        r@ == dec_str(limbs_val(limbs@)),
{
    let big = num_bigint::BigUint::from_slice(limbs.as_slice());
    format!("{}", big)
}

/// Add one to a canonical limb sequence.
fn inc_limbs(v: &mut Vec<u32>)
    requires
        limbs_canonical(old(v)@),
    ensures
        limbs_canonical(final(v)@),
        limbs_val(final(v)@) == limbs_val(old(v)@) + 1,
        final(v)@.len() > 0,
{
    let ghost orig = v@;
    let n = v.len();
    let mut i: usize = 0;
    loop
        invariant
            orig == old(v)@,
            limbs_canonical(orig),
            n == orig.len(),
            v@.len() == n,
            i <= n,
            forall|j: int| 0 <= j < i ==> (orig[j] == u32::MAX && v@[j] == 0),
            forall|j: int| i <= j < n ==> v@[j] == orig[j],
        decreases n - i,
    {
        if i == n {
            v.push(1);
            proof {
                lemma_inc_push(orig, v@);
            }
            return;
        }
        if v[i] < u32::MAX {
            let ghost before = v@;
            let x = v[i];
            v[i] = x + 1;
            proof {
                lemma_inc_set(orig, before, v@, i as int);
            }
            return;
        }
        v[i] = 0;
        i += 1;
    }
}

proof fn lemma_inc_push(orig: Seq<u32>, now: Seq<u32>)
    requires
        limbs_canonical(orig),
        now.len() == orig.len() + 1,
        forall|j: int| 0 <= j < orig.len() ==> (orig[j] == u32::MAX && now[j] == 0),
        now[orig.len() as int] == 1,
    ensures
        limbs_canonical(now),
        limbs_val(now) == limbs_val(orig) + 1,
{
    let b = limb_base();
    let n = orig.len() as int;
    lemma_limbs_val_all_max(orig);
    lemma_limbs_val_split(now, n);
    lemma_limbs_val_all_zero(now.take(n));
    assert(now.skip(n) =~= seq![1u32]);
    lemma_limbs_val_single(1u32);
    assert(limbs_val(now.skip(n)) == 1);
}

proof fn lemma_inc_set(orig: Seq<u32>, before: Seq<u32>, now: Seq<u32>, i: int)
    requires
        limbs_canonical(orig),
        0 <= i < orig.len(),
        before.len() == orig.len(),
        now == before.update(i, (before[i] + 1) as u32),
        before[i] < u32::MAX,
        forall|j: int| 0 <= j < i ==> (orig[j] == u32::MAX && before[j] == 0),
        forall|j: int| i <= j < orig.len() ==> before[j] == orig[j],
    ensures
        limbs_canonical(now),
        limbs_val(now) == limbs_val(orig) + 1,
        now.len() > 0,
{
    let b = limb_base();
    let n = orig.len() as int;
    let p = pow(b, i as nat);
    lemma_pow_positive(b, i as nat);

    lemma_limbs_val_split(orig, i);
    lemma_limbs_val_all_max(orig.take(i));
    lemma_limbs_val_split(now, i);
    lemma_limbs_val_all_zero(now.take(i));

    // Unfold one limb of each suffix.
    let os = orig.skip(i);
    let ns = now.skip(i);
    assert(os.skip(1) =~= orig.skip(i + 1));
    assert(ns.skip(1) =~= now.skip(i + 1));
    assert(now.skip(i + 1) =~= orig.skip(i + 1));
    assert(os[0] == orig[i]);
    assert(ns[0] == orig[i] + 1);
    let rest = limbs_val(orig.skip(i + 1)) as int;
    assert(limbs_val(os) == orig[i] + b * rest);
    assert(limbs_val(ns) == orig[i] + 1 + b * rest);

    // limbs_val(orig) = (p - 1) + p * (orig[i] + b * rest)
    // limbs_val(now)  = 0       + p * (orig[i] + 1 + b * rest)
    assert(p * (orig[i] + 1 + b * rest) == (p - 1) + p * (orig[i] + b * rest) + 1)
        by (nonlinear_arith);

    // Canonical: the last limb is unchanged unless i is last, where the
    // incremented limb is non-zero.
    assert(now[n - 1] != 0);
}

/// Subtract one from a canonical, non-empty limb sequence; drops a
/// trailing zero limb so the result is canonical again.
fn dec_limbs(v: &mut Vec<u32>)
    requires
        limbs_canonical(old(v)@),
        old(v)@.len() > 0,
    ensures
        limbs_canonical(final(v)@),
        limbs_val(final(v)@) == limbs_val(old(v)@) - 1,
{
    proof {
        lemma_canonical_pos(old(v)@);
    }
    let ghost orig = v@;
    let n = v.len();
    let mut i: usize = 0;
    loop
        invariant_except_break
            i < n,
            forall|j: int| 0 <= j < i ==> (orig[j] == 0 && v@[j] == u32::MAX),
            forall|j: int| i <= j < n ==> v@[j] == orig[j],
        invariant
            orig == old(v)@,
            limbs_canonical(orig),
            n == orig.len(),
            n > 0,
            v@.len() == n,
        ensures
            limbs_val(v@) == limbs_val(orig) - 1,
            v@[n - 1] != 0 || (forall|j: int| 0 <= j < n - 1 ==> v@[j] == u32::MAX),
        decreases n - i,
    {
        if v[i] > 0 {
            let ghost before = v@;
            let x = v[i];
            v[i] = x - 1;
            proof {
                lemma_dec_set(orig, before, v@, i as int);
                if i < n - 1 {
                    assert(v@[n - 1] == orig[n - 1]);
                    assert(v@[n - 1] != 0);
                } else {
                    assert(i == n - 1);
                    assert forall|j: int| 0 <= j < n - 1 implies v@[j] == u32::MAX by {
                        assert(0 <= j < i);
                        assert(orig[j] == 0 && before[j] == u32::MAX);
                        assert(v@[j] == before[j]);
                    }
                }
            }
            break;
        }
        v[i] = u32::MAX;
        proof {
            // The last limb of a canonical sequence is non-zero, so the
            // borrow never walks past it.
            assert(orig[n - 1] != 0);
        }
        i += 1;
    }
    // Only the top limb can have been zeroed by the borrow's final step.
    if v.len() > 0 && v[v.len() - 1] == 0 {
        let ghost before = v@;
        v.pop();
        proof {
            let m = before.len() as int;
            lemma_limbs_val_split(before, m - 1);
            assert(before.skip(m - 1) =~= seq![0u32]);
            lemma_limbs_val_single(0u32);
            assert(limbs_val(before.skip(m - 1)) == 0);
            assert(v@ =~= before.take(m - 1));
        }
    }
}

proof fn lemma_dec_set(orig: Seq<u32>, before: Seq<u32>, now: Seq<u32>, i: int)
    requires
        limbs_canonical(orig),
        0 <= i < orig.len(),
        before.len() == orig.len(),
        now == before.update(i, (before[i] - 1) as u32),
        before[i] > 0,
        forall|j: int| 0 <= j < i ==> (orig[j] == 0 && before[j] == u32::MAX),
        forall|j: int| i <= j < orig.len() ==> before[j] == orig[j],
    ensures
        limbs_val(now) == limbs_val(orig) - 1,
        // Canonical except possibly a single zero on top.
        orig.len() > 1 && i < orig.len() - 1 ==> limbs_canonical(now),
{
    let b = limb_base();
    let n = orig.len() as int;
    let p = pow(b, i as nat);
    lemma_pow_positive(b, i as nat);

    lemma_limbs_val_split(orig, i);
    lemma_limbs_val_all_zero(orig.take(i));
    lemma_limbs_val_split(now, i);
    lemma_limbs_val_all_max(now.take(i));

    let os = orig.skip(i);
    let ns = now.skip(i);
    assert(os.skip(1) =~= orig.skip(i + 1));
    assert(ns.skip(1) =~= now.skip(i + 1));
    assert(now.skip(i + 1) =~= orig.skip(i + 1));
    assert(os[0] == orig[i]);
    assert(ns[0] == orig[i] - 1);
    let rest = limbs_val(orig.skip(i + 1)) as int;
    assert(limbs_val(os) == orig[i] + b * rest);
    assert(limbs_val(ns) == orig[i] - 1 + b * rest);

    // limbs_val(orig) = 0       + p * (orig[i] + b * rest)
    // limbs_val(now)  = (p - 1) + p * (orig[i] - 1 + b * rest)
    assert((p - 1) + p * (orig[i] - 1 + b * rest) == p * (orig[i] + b * rest) - 1)
        by (nonlinear_arith);
}

} // verus!
