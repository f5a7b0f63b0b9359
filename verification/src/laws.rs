//! Conservation laws of the impulse model.
//!
//! The impulse acts along the contact normal, so the two-body exchange
//! is one-dimensional: `a` and `b` are the normal speed components of
//! the two bodies before the impulse, `m1` and `m2` their masses, and
//! the restitution is the fraction `en / ed`.  To keep every quantity
//! an integer, post-impulse speeds appear scaled by
//! `d = ed * (m1 + m2)`: the ideal new speeds are `scaled_a / d` and
//! `scaled_b / d`.

use vstd::prelude::*;

verus! {

/// `d` times body one's ideal speed after the impulse
/// `(1 + en/ed) * mu * (a - b)`, where `mu = m1*m2/(m1+m2)`.
pub open spec fn scaled_a(m1: int, m2: int, a: int, b: int, en: int, ed: int) -> int {
    ed * (m1 + m2) * a - (en + ed) * m2 * (a - b)
}

/// `d` times body two's ideal speed after the impulse.
pub open spec fn scaled_b(m1: int, m2: int, a: int, b: int, en: int, ed: int) -> int {
    ed * (m1 + m2) * b + (en + ed) * m1 * (a - b)
}

/// Momentum conservation: the impulse moves `m1*a + m2*b` by nothing
/// at all — the total momentum after the exchange, scaled by
/// `ed * (m1 + m2)`, equals the total momentum before, scaled the same
/// way.
pub proof fn lemma_momentum_conservation(m1: int, m2: int, a: int, b: int, en: int, ed: int)
    ensures
        m1 * scaled_a(m1, m2, a, b, en, ed) + m2 * scaled_b(m1, m2, a, b, en, ed) == ed * (m1
            + m2) * (m1 * a + m2 * b),
{
    let d = ed * (m1 + m2);
    let k = (en + ed) * (a - b);
    assert(scaled_a(m1, m2, a, b, en, ed) == d * a - k * m2) by (nonlinear_arith)
        requires
            d == ed * (m1 + m2),
            k == (en + ed) * (a - b),
    ;
    assert(scaled_b(m1, m2, a, b, en, ed) == d * b + k * m1) by (nonlinear_arith)
        requires
            d == ed * (m1 + m2),
            k == (en + ed) * (a - b),
    ;
    assert(m1 * (d * a - k * m2) + m2 * (d * b + k * m1) == d * (m1 * a + m2 * b))
        by (nonlinear_arith);
}

/// Separation: when the pair approaches (`a > b`) and the restitution
/// is not negative, the pair no longer approaches after the impulse;
/// the new closing speed is exactly `-en/ed` times the old one.
pub proof fn lemma_resolution_separates(m1: int, m2: int, a: int, b: int, en: int, ed: int)
    requires
        0 < m1,
        0 < m2,
        0 <= en,
        1 <= ed,
        b < a,
    ensures
        scaled_a(m1, m2, a, b, en, ed) - scaled_b(m1, m2, a, b, en, ed) == -(en * (m1 + m2) * (a
            - b)),
        scaled_a(m1, m2, a, b, en, ed) <= scaled_b(m1, m2, a, b, en, ed),
{
    lemma_closing_speed(m1, m2, a, b, en, ed);
    assert(en * (m1 + m2) * (a - b) >= 0) by (nonlinear_arith)
        requires
            0 <= en,
            0 < m1,
            0 < m2,
            b < a,
    ;
}

/// The closing speed flips sign and shrinks by `en/ed`: the scaled
/// relative speed after the impulse is exactly `-en * (m1+m2)` times
/// the approach speed `a - b`.
pub proof fn lemma_closing_speed(m1: int, m2: int, a: int, b: int, en: int, ed: int)
    ensures
        scaled_a(m1, m2, a, b, en, ed) - scaled_b(m1, m2, a, b, en, ed) == -(en * (m1 + m2) * (a
            - b)),
{
    let d = ed * (m1 + m2);
    let k = (en + ed) * (a - b);
    assert(scaled_a(m1, m2, a, b, en, ed) == d * a - k * m2) by (nonlinear_arith)
        requires
            d == ed * (m1 + m2),
            k == (en + ed) * (a - b),
    ;
    assert(scaled_b(m1, m2, a, b, en, ed) == d * b + k * m1) by (nonlinear_arith)
        requires
            d == ed * (m1 + m2),
            k == (en + ed) * (a - b),
    ;
    assert((d * a - k * m2) - (d * b + k * m1) == -(en * (m1 + m2) * (a - b)))
        by (nonlinear_arith)
        requires
            d == ed * (m1 + m2),
            k == (en + ed) * (a - b),
    ;
}

/// Twice the kinetic energy of the two bodies, for speeds on a common
/// scale.
pub open spec fn energy_x2(m1: int, m2: int, va: int, vb: int) -> int {
    m1 * va * va + m2 * vb * vb
}

/// Splitting energy into center-of-mass and relative parts:
/// `(m1+m2) * 2E == P^2 + m1*m2*r^2` with total momentum `P` and
/// relative speed `r`.
#[verifier::rlimit(100)]
proof fn lemma_energy_split(m1: int, m2: int, va: int, vb: int)
    ensures
        (m1 + m2) * energy_x2(m1, m2, va, vb) == (m1 * va + m2 * vb) * (m1 * va + m2 * vb) + m1
            * m2 * ((va - vb) * (va - vb)),
{
    let x = m1 * va;
    let y = m2 * vb;
    let s = va * va;
    let t = va * vb;
    let q = vb * vb;
    assert((x + y) * (x + y) == x * x + 2 * (x * y) + y * y) by (nonlinear_arith);
    assert(x * x == (m1 * m1) * s && y * y == (m2 * m2) * q && x * y == (m1 * m2) * t)
        by (nonlinear_arith)
        requires
            x == m1 * va,
            y == m2 * vb,
            s == va * va,
            t == va * vb,
            q == vb * vb,
    ;
    assert((va - vb) * (va - vb) == s - 2 * t + q) by (nonlinear_arith)
        requires
            s == va * va,
            t == va * vb,
            q == vb * vb,
    ;
    assert(m1 * m2 * (s - 2 * t + q) == (m1 * m2) * s - 2 * ((m1 * m2) * t) + (m1 * m2) * q)
        by (nonlinear_arith);
    assert(m1 * va * va == m1 * s && m2 * vb * vb == m2 * q) by (nonlinear_arith)
        requires
            s == va * va,
            q == vb * vb,
    ;
    assert((m1 + m2) * (m1 * s + m2 * q) == (m1 * m1) * s + (m1 * m2) * q + (m1 * m2) * s + (m2
        * m2) * q) by (nonlinear_arith);
    assert(m1 * m2 * ((va - vb) * (va - vb)) == m1 * m2 * (s - 2 * t + q)) by (nonlinear_arith)
        requires
            s == va * va,
            t == va * vb,
            q == vb * vb,
    ;
}

/// Energy balance: on the common scale `d = ed*(m1+m2)`, the energy
/// after the impulse differs from the energy before by a term carrying
/// the factor `en^2 - ed^2`: zero for a perfectly elastic impulse
/// (`en == ed`), negative below it.
#[verifier::rlimit(100)]
pub proof fn lemma_energy_balance(m1: int, m2: int, a: int, b: int, en: int, ed: int)
    ensures
        (m1 + m2) * energy_x2(
            m1,
            m2,
            scaled_a(m1, m2, a, b, en, ed),
            scaled_b(m1, m2, a, b, en, ed),
        ) == (ed * (m1 + m2)) * (ed * (m1 + m2)) * ((m1 + m2) * energy_x2(m1, m2, a, b)) + m1 * m2
            * ((m1 + m2) * (m1 + m2)) * (en * en - ed * ed) * ((a - b) * (a - b)),
{
    let aa = scaled_a(m1, m2, a, b, en, ed);
    let bb = scaled_b(m1, m2, a, b, en, ed);
    let mm = m1 + m2;
    let d = ed * mm;
    let c = a - b;
    let p = m1 * a + m2 * b;
    lemma_momentum_conservation(m1, m2, a, b, en, ed);
    lemma_closing_speed(m1, m2, a, b, en, ed);
    lemma_energy_split(m1, m2, aa, bb);
    lemma_energy_split(m1, m2, a, b);
    assert(m1 * aa + m2 * bb == d * p);
    assert(aa - bb == -(en * mm * c));
    assert((m1 * aa + m2 * bb) * (m1 * aa + m2 * bb) == (d * d) * (p * p)) by (nonlinear_arith)
        requires
            m1 * aa + m2 * bb == d * p,
    ;
    assert((aa - bb) * (aa - bb) == (en * en) * ((mm * mm) * (c * c))) by (nonlinear_arith)
        requires
            aa - bb == -(en * mm * c),
    ;
    assert(p * p == mm * energy_x2(m1, m2, a, b) - m1 * m2 * (c * c));
    assert((d * d) * (mm * energy_x2(m1, m2, a, b) - m1 * m2 * (c * c)) == (d * d) * (mm
        * energy_x2(m1, m2, a, b)) - (d * d) * (m1 * m2 * (c * c))) by (nonlinear_arith);
    let e2 = en * en;
    let ed2 = ed * ed;
    let mm2 = mm * mm;
    let c2 = c * c;
    let q = m1 * m2;
    assert(d * d == ed2 * mm2) by (nonlinear_arith)
        requires
            d == ed * mm,
            ed2 == ed * ed,
            mm2 == mm * mm,
    ;
    let w = q * c2;
    assert(q * (e2 * (mm2 * c2)) == (e2 * mm2) * w) by (nonlinear_arith)
        requires
            w == q * c2,
    ;
    assert((e2 * mm2) * w - (ed2 * mm2) * w == ((e2 - ed2) * mm2) * w) by (nonlinear_arith);
    assert(((e2 - ed2) * mm2) * w == q * (mm2 * (e2 - ed2)) * c2) by (nonlinear_arith)
        requires
            w == q * c2,
    ;
    assert(m1 * m2 * ((en * en) * ((mm * mm) * (c * c))) == q * (e2 * (mm2 * c2)))
        by (nonlinear_arith)
        requires
            q == m1 * m2,
            e2 == en * en,
            mm2 == mm * mm,
            c2 == c * c,
    ;
    assert((d * d) * (m1 * m2 * (c * c)) == (ed2 * mm2) * (q * c2)) by (nonlinear_arith)
        requires
            d * d == ed2 * mm2,
            q == m1 * m2,
            c2 == c * c,
    ;
    assert(q * (mm2 * (e2 - ed2)) * c2 == m1 * m2 * ((mm * mm) * (en * en - ed * ed)) * (c * c))
        by (nonlinear_arith)
        requires
            q == m1 * m2,
            e2 == en * en,
            ed2 == ed * ed,
            mm2 == mm * mm,
            c2 == c * c,
    ;
    assert((d * d) * (mm * energy_x2(m1, m2, a, b)) == d * d * (mm * energy_x2(m1, m2, a, b)))
        by (nonlinear_arith);
    assert(m1 * m2 * ((mm * mm) * (en * en - ed * ed)) * (c * c) == m1 * m2 * (mm * mm) * (en * en
        - ed * ed) * (c * c)) by (nonlinear_arith);
}

/// Energy never grows: for an admissible restitution (`en <= ed`) the
/// energy after the impulse, on the common scale, is at most the
/// energy before; a perfectly elastic impulse (`en == ed`) conserves
/// it exactly.
pub proof fn lemma_energy_non_increase(m1: int, m2: int, a: int, b: int, en: int, ed: int)
    requires
        0 < m1,
        0 < m2,
        0 <= en <= ed,
        1 <= ed,
    ensures
        (m1 + m2) * energy_x2(
            m1,
            m2,
            scaled_a(m1, m2, a, b, en, ed),
            scaled_b(m1, m2, a, b, en, ed),
        ) <= (ed * (m1 + m2)) * (ed * (m1 + m2)) * ((m1 + m2) * energy_x2(m1, m2, a, b)),
        en == ed ==> (m1 + m2) * energy_x2(
            m1,
            m2,
            scaled_a(m1, m2, a, b, en, ed),
            scaled_b(m1, m2, a, b, en, ed),
        ) == (ed * (m1 + m2)) * (ed * (m1 + m2)) * ((m1 + m2) * energy_x2(m1, m2, a, b)),
{
    lemma_energy_balance(m1, m2, a, b, en, ed);
    assert(m1 * m2 * ((m1 + m2) * (m1 + m2)) * (en * en - ed * ed) * ((a - b) * (a - b)) <= 0)
        by (nonlinear_arith)
        requires
            0 < m1,
            0 < m2,
            0 <= en <= ed,
    ;
    if en == ed {
        assert(m1 * m2 * ((m1 + m2) * (m1 + m2)) * (en * en - ed * ed) * ((a - b) * (a - b)) == 0)
            by (nonlinear_arith)
            requires
                en == ed,
        ;
    }
}

} // verus!
