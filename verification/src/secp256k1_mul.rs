//! The double scalar multiplication `k1·G + k2·P` on secp256k1, by a left-to-right scan of
//! the bits of both scalars with one shared doubling per bit. The curve arithmetic (point
//! addition and doubling) is done outside: the state machine asks for one operation at a
//! time and is handed back its result, which it also appends to the hints.

use vstd::arithmetic::power2::{lemma2_to64, lemma_pow2_pos, lemma_pow2_unfold, pow2};
use vstd::prelude::*;

verus! {

/// The x coordinate of the generator G, as four little-endian limbs.
pub const G_X: [u64; 4] = [0x59F2815B16F81798, 0x029BFCDB2DCE28D9, 0x55A06295CE870B07, 0x79BE667EF9DCBBAC];

/// The y coordinate of the generator G, as four little-endian limbs.
pub const G_Y: [u64; 4] = [0x9C47D08FFB10D4B8, 0xFD17B448A6855419, 0x5DA4FBFC0E1108A8, 0x483ADA7726A3C465];

/// An affine point: two 256-bit coordinates of four little-endian limbs.
#[derive(Clone, Copy, Debug)]
pub struct Point256 {
    pub x: [u64; 4],
    pub y: [u64; 4],
}

/// The generator G.
pub open spec fn generator() -> Point256 {
    Point256 { x: G_X, y: G_Y }
}

/// Bit `g` (0 is the least significant) of the 256-bit number of limbs `k`.
pub open spec fn bit_at(k: [u64; 4], g: int) -> u64 {
    (k[g / 64] >> ((g % 64) as u64)) & 1
}

/// `(limb, bit)` is the position of the most significant bit set in `k1` or `k2`.
pub open spec fn is_msb_pos(k1: [u64; 4], k2: [u64; 4], limb: u64, bit: u64) -> bool {
    &&& limb < 4
    &&& bit < 64
    &&& (k1[limb as int] | k2[limb as int]) >> bit == 1
    &&& forall|l: int| limb < l < 4 ==> k1[l] == 0 && k2[l] == 0
}

/// The position of the most significant bit set in `k1` or `k2`, as `(limb, bit)`.
pub fn msb_pos_256(k1: &[u64; 4], k2: &[u64; 4]) -> (r: (u64, u64))
    requires
        exists|l: int| 0 <= l < 4 && (k1[l] | k2[l]) != 0,
    ensures
        is_msb_pos(*k1, *k2, r.0, r.1),
{
    let mut limb: usize = 3;
    while (k1[limb] | k2[limb]) == 0
        invariant
            limb <= 3,
            exists|l: int| 0 <= l <= limb && (k1[l] | k2[l]) != 0,
            forall|l: int| limb < l < 4 ==> (k1[l] | k2[l]) == 0,
        decreases limb,
    {
        limb = limb - 1;
    }
    let v = k1[limb] | k2[limb];
    let mut bit: u64 = 63;
    while (v >> bit) == 0
        invariant
            bit <= 63,
            v != 0,
            forall|b: u64| bit < b < 64 ==> #[trigger] (v >> b) == 0,
        decreases bit,
    {
        assert(bit > 0) by {
            if bit == 0 {
                assert(v >> 0u64 == v) by (bit_vector);
            }
        }
        let ghost old_bit = bit;
        bit = bit - 1;
        assert forall|b: u64| bit < b < 64 implies #[trigger] (v >> b) == 0 by {
            if b == old_bit {
            }
        }
    }
    proof {
        if bit < 63 {
            let nb: u64 = (bit + 1) as u64;
            assert(v >> nb == 0);
        }
        let w = v >> bit;
        assert(w != 0);
        assert(bit == 63 || (v >> ((bit + 1) as u64)) == 0);
        assert((w != 0 && (bit == 63 || v >> ((bit + 1) as u64) == 0) && w == v >> bit && bit < 64) ==> w == 1)
            by (bit_vector);
        assert forall|l: int| limb < l < 4 implies k1[l] == 0 && k2[l] == 0 by {
            let a = k1[l];
            let b = k2[l];
            assert((a | b) == 0 ==> a == 0 && b == 0) by (bit_vector);
        }
    }
    (limb as u64, bit)
}

/// Which point a step adds after the doubling.
#[derive(Clone, Copy, Debug, PartialEq, Eq, Structural)]
pub enum Operand {
    /// The point P.
    P,
    /// The generator G.
    G,
    /// The precomputed sum G + P.
    Gp,
}

/// What the state machine asks for next.
#[derive(Clone, Copy, Debug)]
pub enum CurveOp {
    /// The sum of two points with different x coordinates.
    Add(Point256, Point256),
    /// The double of a point.
    Double(Point256),
    /// The result: whether it is the point at infinity, and the point otherwise.
    Finished(bool, Point256),
}

/// Where the state machine waits.
#[derive(Clone, Copy, Debug, PartialEq, Eq, Structural)]
pub enum Phase {
    /// For the sum G + P.
    AwaitGp,
    /// For the double of the accumulator, then to add the operand if any.
    AwaitDouble(Option<Operand>),
    /// For the sum of the accumulator and an operand.
    AwaitAdd,
    /// The result was given.
    Done,
}

/// The state of a double scalar multiplication `k1·G + k2·P`.
#[derive(Clone, Copy, Debug)]
pub struct DoubleScalarMul {
    pub k1: [u64; 4],
    pub k2: [u64; 4],
    pub p: Point256,
    /// G + P, unless it is the point at infinity.
    pub gp: Point256,
    pub gp_is_infinity: bool,
    /// The accumulator, unless it is the point at infinity.
    pub res: Point256,
    pub res_is_infinity: bool,
    /// Bit positions still to scan: the next one is `remaining - 1`.
    pub remaining: u64,
    pub phase: Phase,
}

/// The point of an operand.
pub open spec fn operand_point(s: DoubleScalarMul, o: Operand) -> Point256 {
    match o {
        Operand::P => s.p,
        Operand::G => generator(),
        Operand::Gp => s.gp,
    }
}

/// Whether two 256-bit numbers are equal.
pub open spec fn limbs_eq(a: [u64; 4], b: [u64; 4]) -> bool {
    a@ == b@
}

/// The complete addition of `q` to the accumulator `a`: the sum when the x coordinates
/// differ, the double when `q` equals `a`, and the point at infinity when `q` is `-a`.
/// Says the operation to ask for, if any.
pub open spec fn complete_add(a: Point256, q: Point256) -> Option<CurveOp> {
    if !limbs_eq(a.x, q.x) {
        Some(CurveOp::Add(a, q))
    } else if limbs_eq(a.y, q.y) {
        Some(CurveOp::Double(a))
    } else {
        None
    }
}

/// The state machine scans bit positions from `s.remaining - 1` down until one needs a
/// doubling, or none is left: the next state and the operation it asks for.
pub open spec fn advance(s: DoubleScalarMul) -> (DoubleScalarMul, CurveOp)
    decreases s.remaining,
{
    if s.remaining == 0 {
        (DoubleScalarMul { phase: Phase::Done, ..s }, CurveOp::Finished(s.res_is_infinity, s.res))
    } else {
        let g = s.remaining - 1;
        let b1 = bit_at(s.k1, g);
        let b2 = bit_at(s.k2, g);
        let s1 = DoubleScalarMul { remaining: (s.remaining - 1) as u64, ..s };
        if b1 == 0 && b2 == 0 {
            if s.res_is_infinity {
                advance(s1)
            } else {
                (DoubleScalarMul { phase: Phase::AwaitDouble(None), ..s1 }, CurveOp::Double(s.res))
            }
        } else {
            let o = operand_for(b1, b2);
            if s.res_is_infinity {
                if o == Operand::Gp && s.gp_is_infinity {
                    advance(s1)
                } else {
                    advance(DoubleScalarMul { res: operand_point(s, o), res_is_infinity: false, ..s1 })
                }
            } else {
                let next = if o == Operand::Gp && s.gp_is_infinity {
                    None
                } else {
                    Some(o)
                };
                (DoubleScalarMul { phase: Phase::AwaitDouble(next), ..s1 }, CurveOp::Double(s.res))
            }
        }
    }
}

/// The state machine after it was handed `result`, the point it asked for.
pub open spec fn feed_spec(s: DoubleScalarMul, result: Point256) -> (DoubleScalarMul, CurveOp) {
    match s.phase {
        Phase::AwaitGp => advance(DoubleScalarMul { gp: result, ..s }),
        Phase::AwaitDouble(None) => advance(DoubleScalarMul { res: result, ..s }),
        Phase::AwaitDouble(Some(o)) => {
            let s1 = DoubleScalarMul { res: result, ..s };
            match complete_add(result, operand_point(s1, o)) {
                Some(op) => (DoubleScalarMul { phase: Phase::AwaitAdd, ..s1 }, op),
                None => advance(DoubleScalarMul { res_is_infinity: true, ..s1 }),
            }
        },
        Phase::AwaitAdd => advance(DoubleScalarMul { res: result, ..s }),
        Phase::Done => (s, CurveOp::Finished(s.res_is_infinity, s.res)),
    }
}

/// The state machine at the start, for `k1`, `k2` and `P`, scanning from the most
/// significant bit at `(limb, bit)`: G + P is asked for, or found to be the point at
/// infinity.
pub open spec fn start_spec(k1: [u64; 4], k2: [u64; 4], p: Point256, limb: u64, bit: u64) -> (DoubleScalarMul, CurveOp) {
    let s = DoubleScalarMul {
        k1,
        k2,
        p,
        gp: generator(),
        gp_is_infinity: false,
        res: Point256 { x: [0u64, 0u64, 0u64, 0u64], y: [0u64, 0u64, 0u64, 0u64] },
        res_is_infinity: true,
        remaining: (limb * 64 + bit + 1) as u64,
        phase: Phase::AwaitGp,
    };
    match complete_add(generator(), p) {
        Some(op) => (s, op),
        None => advance(DoubleScalarMul { gp_is_infinity: true, ..s }),
    }
}

/// The coordinates of `p`, as hinted: x then y.
pub open spec fn point_words(p: Point256) -> Seq<u64> {
    p.x@ + p.y@
}

/// Bits of a 256-bit number.
fn bit_of(k: &[u64; 4], g: u64) -> (r: u64)
    requires
        g < 256,
    ensures
        r == bit_at(*k, g as int),
{
    let limb = (g / 64) as usize;
    let shift = g % 64;
    (k[limb] >> shift) & 1
}

/// Whether two 256-bit numbers are equal.
fn eq_limbs(a: &[u64; 4], b: &[u64; 4]) -> (r: bool)
    ensures
        r == limbs_eq(*a, *b),
{
    let r = a[0] == b[0] && a[1] == b[1] && a[2] == b[2] && a[3] == b[3];
    proof {
        if r {
            assert(a@ =~= b@);
        }
    }
    r
}

/// The complete addition of `q` to `a`: the operation to ask for, if any.
fn complete_add_op(a: &Point256, q: &Point256) -> (r: Option<CurveOp>)
    ensures
        r == complete_add(*a, *q),
{
    if !eq_limbs(&a.x, &q.x) {
        Some(CurveOp::Add(*a, *q))
    } else if eq_limbs(&a.y, &q.y) {
        Some(CurveOp::Double(*a))
    } else {
        None
    }
}

impl DoubleScalarMul {
    /// The point of an operand.
    fn operand(&self, o: Operand) -> (r: Point256)
        ensures
            r == operand_point(*self, o),
    {
        match o {
            Operand::P => self.p,
            Operand::G => Point256 { x: G_X, y: G_Y },
            Operand::Gp => self.gp,
        }
    }

    /// Scans bit positions down until one needs a doubling, or none is left.
    fn advance(&mut self) -> (r: CurveOp)
        requires
            old(self).remaining <= 256,
        ensures
            (*final(self), r) == advance(*old(self)),
            final(self).remaining <= 256,
        decreases old(self).remaining,
    {
        if self.remaining == 0 {
            self.phase = Phase::Done;
            return CurveOp::Finished(self.res_is_infinity, self.res);
        }
        let g = self.remaining - 1;
        let b1 = bit_of(&self.k1, g);
        let b2 = bit_of(&self.k2, g);
        let current = self.res;
        self.remaining = g;
        if b1 == 0 && b2 == 0 {
            if self.res_is_infinity {
                self.advance()
            } else {
                self.phase = Phase::AwaitDouble(None);
                CurveOp::Double(current)
            }
        } else {
            let o = if b1 == 0 {
                Operand::P
            } else if b2 == 0 {
                Operand::G
            } else {
                Operand::Gp
            };
            if self.res_is_infinity {
                let gp_absent = match o {
                    Operand::Gp => self.gp_is_infinity,
                    _ => false,
                };
                if !gp_absent {
                    self.res = self.operand(o);
                    self.res_is_infinity = false;
                }
                self.advance()
            } else {
                let gp_absent = match o {
                    Operand::Gp => self.gp_is_infinity,
                    _ => false,
                };
                let next = if gp_absent {
                    None
                } else {
                    Some(o)
                };
                self.phase = Phase::AwaitDouble(next);
                CurveOp::Double(current)
            }
        }
    }

    /// Starts the multiplication `k1·G + k2·P`: the state and the first operation asked
    /// for. Both scalars are scanned from their most significant bit down to bit 0.
    pub fn start(k1: &[u64; 4], k2: &[u64; 4], p: &Point256) -> (r: (DoubleScalarMul, CurveOp))
        requires
            exists|l: int| 0 <= l < 4 && (k1[l] | k2[l]) != 0,
        ensures
            exists|limb: u64, bit: u64| is_msb_pos(*k1, *k2, limb, bit) && r == start_spec(*k1, *k2, *p, limb, bit),
    {
        let (limb, bit) = msb_pos_256(k1, k2);
        let g = Point256 { x: G_X, y: G_Y };
        let mut s = DoubleScalarMul {
            k1: *k1,
            k2: *k2,
            p: *p,
            gp: g,
            gp_is_infinity: false,
            res: Point256 { x: [0u64, 0u64, 0u64, 0u64], y: [0u64, 0u64, 0u64, 0u64] },
            res_is_infinity: true,
            remaining: limb * 64 + bit + 1,
            phase: Phase::AwaitGp,
        };
        match complete_add_op(&g, p) {
            Some(op) => (s, op),
            None => {
                s.gp_is_infinity = true;
                let op = s.advance();
                (s, op)
            },
        }
    }

    /// Hands the state machine the point it asked for, appends its coordinates to `hints`,
    /// and says what it asks for next.
    pub fn feed(&mut self, result: &Point256, hints: &mut Vec<u64>) -> (r: CurveOp)
        requires
            old(self).remaining <= 256,
        ensures
            (*final(self), r) == feed_spec(*old(self), *result),
            final(self).remaining <= 256,
            final(hints)@ == (if old(self).phase == Phase::Done {
                old(hints)@
            } else {
                old(hints)@ + point_words(*result)
            }),
    {
        match self.phase {
            Phase::Done => {
                return CurveOp::Finished(self.res_is_infinity, self.res);
            },
            _ => {},
        }
        let ghost h0 = hints@;
        hints.push(result.x[0]);
        hints.push(result.x[1]);
        hints.push(result.x[2]);
        hints.push(result.x[3]);
        hints.push(result.y[0]);
        hints.push(result.y[1]);
        hints.push(result.y[2]);
        hints.push(result.y[3]);
        proof {
            assert(hints@ =~= h0 + point_words(*result));
        }
        match self.phase {
            Phase::AwaitGp => {
                self.gp = *result;
                self.advance()
            },
            Phase::AwaitDouble(next) => {
                self.res = *result;
                match next {
                    None => self.advance(),
                    Some(o) => {
                        let q = self.operand(o);
                        match complete_add_op(result, &q) {
                            Some(op) => {
                                self.phase = Phase::AwaitAdd;
                                op
                            },
                            None => {
                                self.res_is_infinity = true;
                                self.advance()
                            },
                        }
                    },
                }
            },
            Phase::AwaitAdd => {
                self.res = *result;
                self.advance()
            },
            Phase::Done => CurveOp::Finished(self.res_is_infinity, self.res),
        }
    }
}

/// Every bit set in either scalar lies at or below the most significant position, so a
/// scan from it down to bit 0 reads every set bit of both.
pub proof fn lemma_scan_covers_scalars(k1: [u64; 4], k2: [u64; 4], limb: u64, bit: u64, g: int)
    requires
        is_msb_pos(k1, k2, limb, bit),
        limb * 64 + bit < g < 256,
    ensures
        bit_at(k1, g) == 0,
        bit_at(k2, g) == 0,
{
    let l = g / 64;
    let b = (g % 64) as u64;
    let a1 = k1[l];
    let a2 = k2[l];
    if l > limb {
        assert(a1 == 0 && a2 == 0);
        assert((0u64 >> b) & 1 == 0) by (bit_vector);
    } else {
        assert(l == limb);
        assert(b > bit);
        let v = a1 | a2;
        assert(v >> bit == 1);
        assert((v >> bit == 1 && b > bit && b < 64) ==> ((a1 >> b) & 1 == 0 && (a2 >> b) & 1 == 0)) by (bit_vector)
            requires
                v == a1 | a2,
        ;
    }
}

/// The value of a 256-bit number of four little-endian limbs.
pub open spec fn limbs_value(k: [u64; 4]) -> int {
    k[0] + 0x1_0000_0000_0000_0000 * (k[1] + 0x1_0000_0000_0000_0000 * (k[2] + 0x1_0000_0000_0000_0000
        * k[3]))
}

/// The coefficient that a scan of the bits of `k` from the top down to position `g` has
/// built: each position doubles it and adds its bit (`k` divided by `2^g`, rounded down).
pub open spec fn scan_coeff(k: [u64; 4], g: int) -> int
    decreases 256 - g,
{
    if g >= 256 || g < 0 {
        0
    } else {
        2 * scan_coeff(k, g + 1) + bit_at(k, g)
    }
}

/// The coefficients of G and of P that an operand adds.
pub open spec fn operand_coeffs(o: Operand) -> (int, int) {
    match o {
        Operand::P => (0, 1),
        Operand::G => (1, 0),
        Operand::Gp => (1, 1),
    }
}

/// The operand that the scan adds at a position where `k1` has bit `b1` and `k2` bit `b2`,
/// not both zero.
pub open spec fn operand_for(b1: u64, b2: u64) -> Operand {
    if b1 == 0 {
        Operand::P
    } else if b2 == 0 {
        Operand::G
    } else {
        Operand::Gp
    }
}

/// Within limb `l`, the scan from bit `j` on holds the limb's bits from `j` up, with the
/// scan of the limbs above shifted over them.
proof fn lemma_limb_scan(k: [u64; 4], l: int, j: int)
    requires
        0 <= l < 4,
        0 <= j <= 64,
    ensures
        scan_coeff(k, 64 * l + j) == k[l] as int / pow2(j as nat) as int + pow2((64 - j) as nat) * scan_coeff(
            k,
            64 * l + 64,
        ),
    decreases 64 - j,
{
    lemma2_to64();
    if j == 64 {
        assert(k[l] as int / pow2(64) as int == 0);
    } else {
        lemma_limb_scan(k, l, j + 1);
        let g = 64 * l + j;
        let x = k[l];
        assert(g / 64 == l && g % 64 == j) by {
            vstd::arithmetic::div_mod::lemma_fundamental_div_mod_converse(g, 64, l, j);
        }
        let y = x >> (j as u64);
        vstd::bits::lemma_u64_shr_is_div(x, j as u64);
        assert(y as int == x as int / pow2(j as nat) as int);
        assert(bit_at(k, g) == y & 1);
        assert(y & 1 == y % 2) by (bit_vector);
        lemma_pow2_unfold((j + 1) as nat);
        lemma_pow2_unfold((64 - j) as nat);
        lemma_pow2_pos(j as nat);
        vstd::arithmetic::div_mod::lemma_div_denominator(x as int, pow2(j as nat) as int, 2);
        assert(pow2(j as nat) * 2 == pow2((j + 1) as nat));
        vstd::arithmetic::div_mod::lemma_fundamental_div_mod(y as int, 2);
        let s = scan_coeff(k, 64 * l + 64);
        let a = x as int / pow2((j + 1) as nat) as int;
        assert(scan_coeff(k, g) == 2 * scan_coeff(k, g + 1) + bit_at(k, g));
        assert(scan_coeff(k, g + 1) == a + pow2((63 - j) as nat) * s);
        assert(2 * (a + pow2((63 - j) as nat) * s) == 2 * a + pow2((64 - j) as nat) * s) by (nonlinear_arith)
            requires
                pow2((64 - j) as nat) == 2 * pow2((63 - j) as nat),
        ;
        assert(y as int == 2 * a + y as int % 2);
    }
}

/// The scan of all 256 bit positions gives back the number: scanning both scalars from the
/// top bit down to bit 0 builds the coefficients `k1` of G and `k2` of P.
pub proof fn lemma_scan_reconstructs_scalar(k: [u64; 4])
    ensures
        scan_coeff(k, 0) == limbs_value(k),
{
    lemma2_to64();
    assert(scan_coeff(k, 256) == 0);
    lemma_limb_scan(k, 3, 0);
    lemma_limb_scan(k, 2, 0);
    lemma_limb_scan(k, 1, 0);
    lemma_limb_scan(k, 0, 0);
    assert(k[3] as int / 1 == k[3] && k[2] as int / 1 == k[2] && k[1] as int / 1 == k[1] && k[0] as int / 1
        == k[0]);
    assert(scan_coeff(k, 192) == k[3]);
    assert(scan_coeff(k, 128) == k[2] + 0x1_0000_0000_0000_0000 * k[3]);
    assert(scan_coeff(k, 64) == k[1] + 0x1_0000_0000_0000_0000 * (k[2] + 0x1_0000_0000_0000_0000 * k[3]));
}

/// The scan starts from the most significant position with nothing built yet: no bit above
/// it is set in either scalar.
pub proof fn lemma_scan_starts_empty(k1: [u64; 4], k2: [u64; 4], limb: u64, bit: u64)
    requires
        is_msb_pos(k1, k2, limb, bit),
    ensures
        scan_coeff(k1, limb * 64 + bit + 1) == 0,
        scan_coeff(k2, limb * 64 + bit + 1) == 0,
{
    lemma_scan_zero_above(k1, k2, limb, bit, limb * 64 + bit + 1);
}

proof fn lemma_scan_zero_above(k1: [u64; 4], k2: [u64; 4], limb: u64, bit: u64, g: int)
    requires
        is_msb_pos(k1, k2, limb, bit),
        limb * 64 + bit + 1 <= g,
    ensures
        scan_coeff(k1, g) == 0,
        scan_coeff(k2, g) == 0,
    decreases 256 - g,
{
    if g < 256 {
        lemma_scan_covers_scalars(k1, k2, limb, bit, g);
        lemma_scan_zero_above(k1, k2, limb, bit, g + 1);
    }
}

/// At a position where either scalar has its bit set, the operand that the scan adds holds
/// exactly those bits as its coefficients of G and P; so each position doubles the
/// coefficients built and adds its bits, as [`scan_coeff`] does.
pub proof fn lemma_operand_adds_bits(k1: [u64; 4], k2: [u64; 4], g: int)
    requires
        0 <= g < 256,
        bit_at(k1, g) != 0 || bit_at(k2, g) != 0,
    ensures
        operand_coeffs(operand_for(bit_at(k1, g), bit_at(k2, g))) == (bit_at(k1, g) as int, bit_at(k2, g) as int),
        scan_coeff(k1, g) == 2 * scan_coeff(k1, g + 1) + operand_coeffs(operand_for(bit_at(k1, g), bit_at(k2, g))).0,
        scan_coeff(k2, g) == 2 * scan_coeff(k2, g + 1) + operand_coeffs(operand_for(bit_at(k1, g), bit_at(k2, g))).1,
{
    let a = k1[g / 64];
    let b = k2[g / 64];
    let sh = (g % 64) as u64;
    assert((a >> sh) & 1 <= 1 && (b >> sh) & 1 <= 1) by (bit_vector);
}


/// The point with coefficients `a` of G and `b` of P, for coefficients of at most one, as
/// the state holds it: G, P, or G + P (none where G + P is the point at infinity), and none
/// for no coefficient at all. Other coefficients have no point here.
pub open spec fn coeff_point(s: DoubleScalarMul, a: int, b: int) -> Option<Point256> {
    if a == 1 && b == 0 {
        Some(generator())
    } else if a == 0 && b == 1 {
        Some(s.p)
    } else if a == 1 && b == 1 && !s.gp_is_infinity {
        Some(s.gp)
    } else {
        None
    }
}

/// The accumulator of a state: none for the point at infinity.
pub open spec fn accumulator(s: DoubleScalarMul) -> Option<Point256> {
    if s.res_is_infinity {
        None
    } else {
        Some(s.res)
    }
}

/// While the scan has built no coefficient above one, the accumulator is the point of the
/// coefficients built so far (the point at infinity only while none is built): the scan skips positions with no bit set, takes as its first
/// accumulator the point of the top bits of `k1` (for G) and `k2` (for P), and the first
/// doubling it asks for is of that point; a scan that finds no more bits ends with it.
pub proof fn lemma_advance_tracks_coefficients(s: DoubleScalarMul)
    requires
        !s.gp_is_infinity,
        s.remaining <= 256,
        accumulator(s) == coeff_point(s, scan_coeff(s.k1, s.remaining as int), scan_coeff(s.k2, s.remaining as int)),
        s.res_is_infinity ==> scan_coeff(s.k1, s.remaining as int) == 0 && scan_coeff(s.k2, s.remaining as int) == 0,
    ensures
        ({
            let (t, op) = advance(s);
            match op {
                CurveOp::Double(x) => Some(x) == coeff_point(
                    s,
                    scan_coeff(s.k1, t.remaining + 1),
                    scan_coeff(s.k2, t.remaining + 1),
                ),
                CurveOp::Finished(inf, r) => (if inf {
                    None
                } else {
                    Some(r)
                }) == coeff_point(s, scan_coeff(s.k1, 0), scan_coeff(s.k2, 0)),
                CurveOp::Add(_, _) => false,
            }
        }),
    decreases s.remaining,
{
    if s.remaining > 0 {
        let g = s.remaining - 1;
        let b1 = bit_at(s.k1, g);
        let b2 = bit_at(s.k2, g);
        let s1 = DoubleScalarMul { remaining: (s.remaining - 1) as u64, ..s };
        assert(scan_coeff(s.k1, g) == 2 * scan_coeff(s.k1, g + 1) + b1);
        assert(scan_coeff(s.k2, g) == 2 * scan_coeff(s.k2, g + 1) + b2);
        if s.res_is_infinity {
            if b1 == 0 && b2 == 0 {
                lemma_advance_tracks_coefficients(s1);
            } else {
                lemma_operand_adds_bits(s.k1, s.k2, g);
                let o = operand_for(b1, b2);
                let s2 = DoubleScalarMul { res: operand_point(s, o), res_is_infinity: false, ..s1 };
                lemma_advance_tracks_coefficients(s2);
            }
        }
    }
}

/// From an accumulator that is a point, the scan of one position asks for its double, and
/// keeps for after the doubling the operand of that position's bits of `k1` and `k2`: one
/// whose coefficients of G and P are those bits and whose point is theirs, or none where
/// those bits have no point (no bit set, or G + P at infinity).
pub proof fn lemma_advance_doubles_then_adds_bits(s: DoubleScalarMul)
    requires
        !s.res_is_infinity,
        0 < s.remaining <= 256,
    ensures
        ({
            let (t, op) = advance(s);
            let g = s.remaining - 1;
            let b1 = bit_at(s.k1, g);
            let b2 = bit_at(s.k2, g);
            &&& op == CurveOp::Double(s.res)
            &&& t == DoubleScalarMul { remaining: (s.remaining - 1) as u64, phase: t.phase, ..s }
            &&& match t.phase {
                Phase::AwaitDouble(Some(o)) => {
                    &&& operand_coeffs(o) == (b1 as int, b2 as int)
                    &&& Some(operand_point(t, o)) == coeff_point(s, b1 as int, b2 as int)
                },
                Phase::AwaitDouble(None) => coeff_point(s, b1 as int, b2 as int) is None,
                _ => false,
            }
        }),
{
    let g = s.remaining - 1;
    let b1 = bit_at(s.k1, g);
    let b2 = bit_at(s.k2, g);
    if b1 != 0 || b2 != 0 {
        lemma_operand_adds_bits(s.k1, s.k2, g);
    }
}

} // verus!
