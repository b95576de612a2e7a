//! Laws of the verifier, stated with the snarkjs PLONK formulas written out
//! over the integers (reduced modulo `r` once) and with the Lagrange values
//! and the public input polynomial in closed form. Each law pins what a step
//! of the verifier computes independently of how the step is written.
use vstd::prelude::*;
use crate::encoding;
use crate::errors::PlonkError;
use crate::fr::{self, Fr};
use crate::g1;
use crate::g2;
use crate::plonk::{self, Challenges, Proof, VerificationKey};
use crate::syscalls;

verus! {

// ---------------------------------------------------------------------------
// The scalars of the linearisation, as integers
// ---------------------------------------------------------------------------

/// `(a + beta*s1 + gamma) * (b + beta*s2 + gamma)`, the permutation factor
/// shared by `r0` and the scalar of `[s3]`.
pub open spec fn perm_factor(proof: Proof, ch: Challenges) -> int {
    let (a, b, s1, s2) = (
        proof.eval_a@ as int,
        proof.eval_b@ as int,
        proof.eval_s1@ as int,
        proof.eval_s2@ as int,
    );
    let (beta, gamma) = (ch.beta@ as int, ch.gamma@ as int);
    (a + beta * s1 + gamma) * (b + beta * s2 + gamma)
}

/// `r0 = PI(xi) - L1(xi)*alpha^2
///       - (a + beta*s1 + gamma)(b + beta*s2 + gamma)(c + gamma) * zw * alpha`.
pub open spec fn r0_formula(proof: Proof, ch: Challenges, l1: nat, pi: nat) -> int {
    let (c, zw) = (proof.eval_c@ as int, proof.eval_zw@ as int);
    let (alpha, gamma) = (ch.alpha@ as int, ch.gamma@ as int);
    pi - l1 * (alpha * alpha) - perm_factor(proof, ch) * (c + gamma) * zw * alpha
}

/// The scalar of `[z]` in D:
/// `(a + beta*xi + gamma)(b + beta*xi*k1 + gamma)(c + beta*xi*k2 + gamma) * alpha
///  + L1(xi)*alpha^2 + u`.
pub open spec fn z_scalar_formula(vk: VerificationKey, proof: Proof, ch: Challenges, l1: nat) -> int {
    let (a, b, c) = (proof.eval_a@ as int, proof.eval_b@ as int, proof.eval_c@ as int);
    let (beta, gamma, alpha, xi, u) = (
        ch.beta@ as int,
        ch.gamma@ as int,
        ch.alpha@ as int,
        ch.xi@ as int,
        ch.u@ as int,
    );
    let (k1, k2) = (vk.k1@ as int, vk.k2@ as int);
    (a + beta * xi + gamma) * (b + beta * xi * k1 + gamma) * (c + beta * xi * k2 + gamma) * alpha
        + l1 * (alpha * alpha) + u
}

/// The scalar of `[s3]` in D:
/// `-(a + beta*s1 + gamma)(b + beta*s2 + gamma) * alpha * beta * zw`.
pub open spec fn s3_scalar_formula(proof: Proof, ch: Challenges) -> int {
    let (alpha, beta, zw) = (ch.alpha@ as int, ch.beta@ as int, proof.eval_zw@ as int);
    -(perm_factor(proof, ch) * (alpha * beta * zw))
}

/// D = D1 + z_scalar*[z] + s3_scalar*[s3] + neg_zh*([t1] + xin*[t2] + xin_sq*[t3]),
/// with D1 = ab*[qm] + a*[ql] + b*[qr] + c*[qo] + [qc] (the scalars of `ql`,
/// `qr`, `qo` given by their encodings `eb[0..3]`), each product and sum
/// computed in this order by the curve operations.
pub open spec fn linearisation_commitment(
    vk: VerificationKey,
    proof: Proof,
    eb: Seq<Seq<u8>>,
    ab: nat,
    z_scalar: nat,
    s3_scalar: nat,
    xin: nat,
    xin_sq: nat,
    neg_zh: nat,
) -> Result<Seq<u8>, PlonkError> {
    match plonk::g1_mul_spec(vk.qm.0@, plonk::scalar_bytes(ab)) {
        Err(e) => Err(e),
        Ok(t0) => match plonk::g1_mul_spec(vk.ql.0@, eb[0]) {
            Err(e) => Err(e),
            Ok(t1) => match plonk::g1_mul_spec(vk.qr.0@, eb[1]) {
                Err(e) => Err(e),
                Ok(t2) => match plonk::g1_mul_spec(vk.qo.0@, eb[2]) {
                    Err(e) => Err(e),
                    Ok(t3) => match plonk::then_add(
                        plonk::then_add(plonk::then_add(plonk::g1_add_spec(t0, t1), t2), t3),
                        vk.qc.0@,
                    ) {
                        Err(e) => Err(e),
                        Ok(d1) => match plonk::g1_mul_spec(proof.z.0@, plonk::scalar_bytes(z_scalar)) {
                            Err(e) => Err(e),
                            Ok(d2) => match plonk::g1_mul_spec(vk.s3.0@, plonk::scalar_bytes(s3_scalar)) {
                                Err(e) => Err(e),
                                Ok(d3) => match plonk::g1_mul_spec(proof.t2.0@, plonk::scalar_bytes(xin)) {
                                    Err(e) => Err(e),
                                    Ok(x2) => match plonk::g1_mul_spec(proof.t3.0@, plonk::scalar_bytes(xin_sq)) {
                                        Err(e) => Err(e),
                                        Ok(x3) => match plonk::g1_add_spec(x2, x3) {
                                            Err(e) => Err(e),
                                            Ok(inner) => match plonk::g1_add_spec(
                                                proof.t1.0@,
                                                inner,
                                            ) {
                                                Err(e) => Err(e),
                                                Ok(t) => match plonk::g1_mul_spec(t, plonk::scalar_bytes(neg_zh)) {
                                                    Err(e) => Err(e),
                                                    Ok(d4) => plonk::then_add(
                                                        plonk::then_add(
                                                            plonk::g1_add_spec(d1, d2),
                                                            d3,
                                                        ),
                                                        d4,
                                                    ),
                                                },
                                            },
                                        },
                                    },
                                },
                            },
                        },
                    },
                },
            },
        },
    }
}

/// `calculate_r0_and_d` gives `r0` as the snarkjs formula and `D` as the sum
/// of the linearisation terms with the snarkjs scalars: `a*b` for `[qm]`,
/// `(a + beta*xi + gamma)(b + beta*xi*k1 + gamma)(c + beta*xi*k2 + gamma)*alpha
/// + L1*alpha^2 + u` for `[z]`, `-(a + beta*s1 + gamma)(b + beta*s2 + gamma)
/// *alpha*beta*zw` for `[s3]`, and `-zh`, `-zh*xin`, `-zh*xin^2` on the
/// quotient commitments.
pub proof fn law_r0_and_d(
    vk: VerificationKey,
    proof: Proof,
    ch: Challenges,
    l1: nat,
    pi: nat,
    eb: Seq<Seq<u8>>,
)
    ensures
        plonk::r0_and_d_spec(vk, proof, ch, l1, pi, eb) == match linearisation_commitment(
            vk,
            proof,
            eb,
            fr::fr_of_int(proof.eval_a@ as int * proof.eval_b@ as int),
            fr::fr_of_int(z_scalar_formula(vk, proof, ch, l1)),
            fr::fr_of_int(s3_scalar_formula(proof, ch)),
            ch.xin@,
            fr::fr_of_int(ch.xin@ as int * ch.xin@ as int),
            fr::fr_of_int(-(ch.zh@ as int)),
        ) {
            Ok(d) => Ok::<(nat, Seq<u8>), PlonkError>((fr::fr_of_int(r0_formula(proof, ch, l1, pi)), d)),
            Err(e) => Err(e),
        },
{
    let (a, b, c) = (proof.eval_a@, proof.eval_b@, proof.eval_c@);
    let (s1, s2, zw) = (proof.eval_s1@, proof.eval_s2@, proof.eval_zw@);
    let (beta, gamma, alpha, xi, u) = (ch.beta@, ch.gamma@, ch.alpha@, ch.xi@, ch.u@);
    let (k1, k2) = (vk.k1@, vk.k2@);
    let (ai, bi, ci) = (a as int, b as int, c as int);
    let (s1i, s2i, zwi) = (s1 as int, s2 as int, zw as int);
    let (bei, gai, ali, xii, ui) = (beta as int, gamma as int, alpha as int, xi as int, u as int);
    let (k1i, k2i) = (k1 as int, k2 as int);
    // the permutation factor
    fr::lemma_fr_mul_cong(beta, s1, bei, s1i);
    fr::lemma_fr_add_cong(a, fr::fr_mul(beta, s1), ai, bei * s1i);
    fr::lemma_fr_add_cong(fr::fr_add(a, fr::fr_mul(beta, s1)), gamma, ai + bei * s1i, gai);
    fr::lemma_fr_mul_cong(beta, s2, bei, s2i);
    fr::lemma_fr_add_cong(b, fr::fr_mul(beta, s2), bi, bei * s2i);
    fr::lemma_fr_add_cong(fr::fr_add(b, fr::fr_mul(beta, s2)), gamma, bi + bei * s2i, gai);
    let g1v = plonk::beta_s1_gamma_spec(proof, ch);
    let g2v = plonk::beta_s2_gamma_spec(proof, ch);
    let g1x = ai + bei * s1i + gai;
    let g2x = bi + bei * s2i + gai;
    fr::lemma_fr_mul_cong(g1v, g2v, g1x, g2x);
    let pf = fr::fr_mul(g1v, g2v);
    assert(g1x * g2x == perm_factor(proof, ch));
    // r0
    fr::lemma_fr_mul_cong(alpha, alpha, ali, ali);
    fr::lemma_fr_mul_cong(l1, fr::fr_mul(alpha, alpha), l1 as int, ali * ali);
    fr::lemma_fr_add_cong(c, gamma, ci, gai);
    fr::lemma_fr_mul_cong(pf, fr::fr_add(c, gamma), g1x * g2x, ci + gai);
    fr::lemma_fr_mul_cong(
        fr::fr_mul(pf, fr::fr_add(c, gamma)),
        zw,
        g1x * g2x * (ci + gai),
        zwi,
    );
    fr::lemma_fr_mul_cong(
        fr::fr_mul(fr::fr_mul(pf, fr::fr_add(c, gamma)), zw),
        alpha,
        g1x * g2x * (ci + gai) * zwi,
        ali,
    );
    fr::lemma_fr_sub_cong(pi, plonk::l1_alpha_sq_spec(ch, l1), pi as int, l1 * (ali * ali));
    fr::lemma_fr_sub_cong(
        fr::fr_sub(pi, plonk::l1_alpha_sq_spec(ch, l1)),
        fr::fr_mul(fr::fr_mul(fr::fr_mul(pf, fr::fr_add(c, gamma)), zw), alpha),
        pi - l1 * (ali * ali),
        g1x * g2x * (ci + gai) * zwi * ali,
    );
    assert(plonk::r0_spec(proof, ch, l1, pi) == fr::fr_of_int(r0_formula(proof, ch, l1, pi)));
    // the scalar of [z]
    let bx = fr::fr_mul(beta, xi);
    fr::lemma_fr_mul_cong(beta, xi, bei, xii);
    fr::lemma_fr_add_cong(a, bx, ai, bei * xii);
    fr::lemma_fr_add_cong(fr::fr_add(a, bx), gamma, ai + bei * xii, gai);
    fr::lemma_fr_mul_cong(bx, k1, bei * xii, k1i);
    fr::lemma_fr_add_cong(b, fr::fr_mul(bx, k1), bi, bei * xii * k1i);
    fr::lemma_fr_add_cong(fr::fr_add(b, fr::fr_mul(bx, k1)), gamma, bi + bei * xii * k1i, gai);
    fr::lemma_fr_mul_cong(bx, k2, bei * xii, k2i);
    fr::lemma_fr_add_cong(c, fr::fr_mul(bx, k2), ci, bei * xii * k2i);
    fr::lemma_fr_add_cong(fr::fr_add(c, fr::fr_mul(bx, k2)), gamma, ci + bei * xii * k2i, gai);
    let d1v = fr::fr_add(fr::fr_add(a, bx), gamma);
    let d2v = fr::fr_add(fr::fr_add(b, fr::fr_mul(bx, k1)), gamma);
    let d3v = fr::fr_add(fr::fr_add(c, fr::fr_mul(bx, k2)), gamma);
    let x1 = ai + bei * xii + gai;
    let x2 = bi + bei * xii * k1i + gai;
    let x3 = ci + bei * xii * k2i + gai;
    fr::lemma_fr_mul_cong(d1v, d2v, x1, x2);
    fr::lemma_fr_mul_cong(fr::fr_mul(d1v, d2v), d3v, x1 * x2, x3);
    fr::lemma_fr_mul_cong(fr::fr_mul(fr::fr_mul(d1v, d2v), d3v), alpha, x1 * x2 * x3, ali);
    let d2a = fr::fr_mul(fr::fr_mul(fr::fr_mul(d1v, d2v), d3v), alpha);
    fr::lemma_fr_add_cong(d2a, plonk::l1_alpha_sq_spec(ch, l1), x1 * x2 * x3 * ali, l1 * (ali * ali));
    fr::lemma_fr_add_cong(
        fr::fr_add(d2a, plonk::l1_alpha_sq_spec(ch, l1)),
        u,
        x1 * x2 * x3 * ali + l1 * (ali * ali),
        ui,
    );
    assert(plonk::d2_scalar_spec(vk, proof, ch, l1) == fr::fr_of_int(
        z_scalar_formula(vk, proof, ch, l1),
    ));
    // the scalar of [s3]
    fr::lemma_fr_mul_cong(alpha, beta, ali, bei);
    fr::lemma_fr_mul_cong(fr::fr_mul(alpha, beta), zw, ali * bei, zwi);
    fr::lemma_fr_mul_cong(pf, fr::fr_mul(fr::fr_mul(alpha, beta), zw), g1x * g2x, ali * bei * zwi);
    fr::lemma_fr_neg_cong(
        fr::fr_mul(pf, fr::fr_mul(fr::fr_mul(alpha, beta), zw)),
        g1x * g2x * (ali * bei * zwi),
    );
    assert(plonk::d3_scalar_spec(proof, ch) == fr::fr_of_int(s3_scalar_formula(proof, ch)));
    // a*b, xin^2 and -zh
    fr::lemma_fr_mul_cong(a, b, ai, bi);
    fr::lemma_fr_mul_cong(ch.xin@, ch.xin@, ch.xin@ as int, ch.xin@ as int);
    fr::lemma_fr_neg_cong(ch.zh@, ch.zh@ as int);
}

// ---------------------------------------------------------------------------
// The pairing check
// ---------------------------------------------------------------------------

/// The scalar of `[1]_1` in B1, that is `-E`:
/// `r0 - v1*a - v2*b - v3*c - v4*s1 - v5*s2 - u*zw`.
pub open spec fn neg_e_formula(proof: Proof, ch: Challenges, r0: nat) -> int {
    r0 - ch.v1@ * proof.eval_a@ - ch.v2@ * proof.eval_b@ - ch.v3@ * proof.eval_c@ - ch.v4@
        * proof.eval_s1@ - ch.v5@ * proof.eval_s2@ - ch.u@ * proof.eval_zw@
}

/// The pairing check `e(-A1, [x]_2) * e(B1, [1]_2) == 1` with
/// `A1 = [Wxi] + u*[Wxiw]` and `B1 = xi*([Wxi] + uw*[Wxiw]) + F + neg_e*[1]_1`,
/// each product and sum computed in this order by the curve operations; true
/// when byte 31 of the pairing result is 1.
pub open spec fn pairing_check(
    vk: VerificationKey,
    proof: Proof,
    u: nat,
    uw: nat,
    xi: nat,
    neg_e: nat,
    f: Seq<u8>,
) -> Result<bool, PlonkError> {
    match plonk::g1_mul_spec(proof.wxiw.0@, plonk::scalar_bytes(u)) {
        Err(e) => Err(e),
        Ok(p1) => match plonk::g1_add_spec(proof.wxi.0@, p1) {
            Err(e) => Err(e),
            Ok(a1) => match plonk::g1_mul_spec(proof.wxiw.0@, plonk::scalar_bytes(uw)) {
                Err(e) => Err(e),
                Ok(p2) => match plonk::g1_add_spec(proof.wxi.0@, p2) {
                    Err(e) => Err(e),
                    Ok(sum) => match plonk::g1_mul_spec(sum, plonk::scalar_bytes(xi)) {
                        Err(e) => Err(e),
                        Ok(p3) => match plonk::g1_add_spec(p3, f) {
                            Err(e) => Err(e),
                            Ok(p4) => match plonk::g1_mul_spec(
                                g1::G1_GENERATOR@,
                                plonk::scalar_bytes(neg_e),
                            ) {
                                Err(e) => Err(e),
                                Ok(p5) => match plonk::g1_add_spec(p4, p5) {
                                    Err(e) => Err(e),
                                    Ok(b1) => match syscalls::or_error(
                                        syscalls::bn254_pairing(
                                            plonk::g1_neg_spec(a1) + vk.x_2.0@ + b1
                                                + g2::G2_GENERATOR@,
                                        ),
                                        PlonkError::PairingFailed,
                                    ) {
                                        Err(e) => Err(e),
                                        Ok(out) => Ok(out[31] == 1),
                                    },
                                },
                            },
                        },
                    },
                },
            },
        },
    }
}

/// `is_valid_pairing` checks `e(-A1, [x]_2) * e(B1, [1]_2) == 1` with
/// `A1 = Wxi + u*Wxiw` and `B1 = xi*(Wxi + u*w*Wxiw) + F - E*[1]_1`, where `w`
/// is the key's domain generator and `-E = r0 - v1*a - v2*b - v3*c - v4*s1
/// - v5*s2 - u*zw`.
pub proof fn law_pairing(vk: VerificationKey, proof: Proof, ch: Challenges, r0: nat, f: Seq<u8>)
    ensures
        plonk::pairing_spec(vk, proof, ch, r0, f) == pairing_check(
            vk,
            proof,
            ch.u@,
            fr::fr_of_int(ch.u@ as int * vk.w@ as int),
            ch.xi@,
            fr::fr_of_int(neg_e_formula(proof, ch, r0)),
            f,
        ),
{
    let (a, b, c) = (proof.eval_a@, proof.eval_b@, proof.eval_c@);
    let (s1, s2, zw) = (proof.eval_s1@, proof.eval_s2@, proof.eval_zw@);
    let (v1, v2, v3, v4, v5, u) = (ch.v1@, ch.v2@, ch.v3@, ch.v4@, ch.v5@, ch.u@);
    fr::lemma_fr_mul_cong(u, vk.w@, u as int, vk.w@ as int);
    fr::lemma_fr_mul_cong(v1, a, v1 as int, a as int);
    fr::lemma_fr_mul_cong(v2, b, v2 as int, b as int);
    fr::lemma_fr_mul_cong(v3, c, v3 as int, c as int);
    fr::lemma_fr_mul_cong(v4, s1, v4 as int, s1 as int);
    fr::lemma_fr_mul_cong(v5, s2, v5 as int, s2 as int);
    fr::lemma_fr_mul_cong(u, zw, u as int, zw as int);
    let t1 = fr::fr_sub(r0, fr::fr_mul(v1, a));
    fr::lemma_fr_sub_cong(r0, fr::fr_mul(v1, a), r0 as int, (v1 * a) as int);
    let t2 = fr::fr_sub(t1, fr::fr_mul(v2, b));
    fr::lemma_fr_sub_cong(t1, fr::fr_mul(v2, b), r0 - v1 * a, (v2 * b) as int);
    let t3 = fr::fr_sub(t2, fr::fr_mul(v3, c));
    fr::lemma_fr_sub_cong(t2, fr::fr_mul(v3, c), r0 - v1 * a - v2 * b, (v3 * c) as int);
    let t4 = fr::fr_sub(t3, fr::fr_mul(v4, s1));
    fr::lemma_fr_sub_cong(t3, fr::fr_mul(v4, s1), r0 - v1 * a - v2 * b - v3 * c, (v4 * s1) as int);
    let t5 = fr::fr_sub(t4, fr::fr_mul(v5, s2));
    fr::lemma_fr_sub_cong(
        t4,
        fr::fr_mul(v5, s2),
        r0 - v1 * a - v2 * b - v3 * c - v4 * s1,
        (v5 * s2) as int,
    );
    fr::lemma_fr_sub_cong(
        t5,
        fr::fr_mul(u, zw),
        r0 - v1 * a - v2 * b - v3 * c - v4 * s1 - v5 * s2,
        (u * zw) as int,
    );
    assert(plonk::neg_e_scalar_spec(proof, ch, r0) == fr::fr_of_int(neg_e_formula(proof, ch, r0)));
}

// ---------------------------------------------------------------------------
// Lagrange values and the public input polynomial, in closed form
// ---------------------------------------------------------------------------

/// The denominator `n * (xi - w^i)` of `L_i(xi)`, in the field.
pub open spec fn lagrange_denominator(w: nat, xi: nat, n: nat, i: nat) -> nat {
    fr::fr_of_int(n * (xi - vstd::arithmetic::power::pow(w as int, i)))
}

/// `L_i(xi) = w^i * zh / (n * (xi - w^i))`, in the field.
pub open spec fn lagrange_value(w: nat, zh: nat, xi: nat, n: nat, i: nat) -> nat {
    fr::fr_of_int(
        vstd::arithmetic::power::pow(w as int, i) * zh * fr::fr_inv(lagrange_denominator(w, xi, n, i)),
    )
}

/// `sum_{j < k} pis[j] * L_j(xi)`, over the integers.
pub open spec fn public_input_sum(w: nat, zh: nat, xi: nat, n: nat, pis: Seq<nat>, k: nat) -> int
    decreases k,
{
    if k == 0 {
        0
    } else {
        public_input_sum(w, zh, xi, n, pis, (k - 1) as nat) + pis[k - 1] * lagrange_value(
            w,
            zh,
            xi,
            n,
            (k - 1) as nat,
        )
    }
}

/// `fr_of_int(x)` is congruent to `x`.
proof fn lemma_fr_of_int_cong(x: int)
    ensures
        fr::fr_of_int(x) as int % (fr::fr_modulus() as int) == x % (fr::fr_modulus() as int),
        fr::fr_of_int(x) < fr::fr_modulus(),
{
    vstd::arithmetic::div_mod::lemma_mod_twice(x, fr::fr_modulus() as int);
}

/// The Lagrange loop after `i` rounds, in closed form: failed as soon as a
/// denominator is zero; otherwise `l1 = L_0`, `pi = -sum_{j < min(i, len)}
/// pis[j] * L_j` and the running power `w^i`.
proof fn lemma_lagrange_rounds_closed(w: nat, zh: nat, xi: nat, n: nat, pis: Seq<nat>, i: nat)
    ensures
        (forall|j: nat| j < i ==> lagrange_denominator(w, xi, n, j) != 0) ==> plonk::lagrange_rounds(
            w,
            zh,
            xi,
            n,
            pis,
            i,
        ) == Ok::<(nat, nat, nat), PlonkError>(
            (
                if i == 0 {
                    0
                } else {
                    lagrange_value(w, zh, xi, n, 0)
                },
                fr::fr_of_int(
                    -public_input_sum(
                        w,
                        zh,
                        xi,
                        n,
                        pis,
                        if i < pis.len() {
                            i
                        } else {
                            pis.len()
                        },
                    ),
                ),
                fr::fr_of_int(vstd::arithmetic::power::pow(w as int, i)),
            ),
        ),
        (exists|j: nat| j < i && lagrange_denominator(w, xi, n, j) == 0) ==> plonk::lagrange_rounds(
            w,
            zh,
            xi,
            n,
            pis,
            i,
        ) == Err::<(nat, nat, nat), PlonkError>(PlonkError::LagrangeDivisionByZero),
    decreases i,
{
    let r = fr::fr_modulus() as int;
    if i == 0 {
        reveal(vstd::arithmetic::power::pow);
        assert(vstd::arithmetic::power::pow(w as int, 0) == 1);
        vstd::arithmetic::div_mod::lemma_small_mod(1, fr::fr_modulus());
        vstd::arithmetic::div_mod::lemma_small_mod(0, fr::fr_modulus());
        assert(fr::fr_of_int(-0int) == 0);
    } else {
        let k = (i - 1) as nat;
        lemma_lagrange_rounds_closed(w, zh, xi, n, pis, k);
        if exists|j: nat| j < k && lagrange_denominator(w, xi, n, j) == 0 {
        } else {
            let pw = vstd::arithmetic::power::pow(w as int, k);
            let wk = fr::fr_of_int(pw);
            lemma_fr_of_int_cong(pw);
            // the denominator the loop computes
            fr::lemma_fr_sub_cong(xi, wk, xi as int, pw);
            fr::lemma_fr_mul_cong(n, fr::fr_sub(xi, wk), n as int, xi - pw);
            let den = fr::fr_mul(n, fr::fr_sub(xi, wk));
            assert(den == lagrange_denominator(w, xi, n, k));
            if den != 0 {
                assert forall|j: nat| j < i implies lagrange_denominator(w, xi, n, j) != 0 by {
                    if j < k {
                    }
                }
                // L_k
                fr::lemma_fr_mul_cong(wk, zh, pw, zh as int);
                let inv = fr::fr_inv(den);
                fr::lemma_fr_mul_cong(fr::fr_mul(wk, zh), inv, pw * zh, inv as int);
                let li = fr::fr_mul(fr::fr_mul(wk, zh), inv);
                assert(li == lagrange_value(w, zh, xi, n, k));
                // the next power
                fr::lemma_fr_mul_cong(wk, w, pw, w as int);
                reveal(vstd::arithmetic::power::pow);
                assert(vstd::arithmetic::power::pow(w as int, i) == w * pw);
                vstd::arithmetic::mul::lemma_mul_is_commutative(w as int, pw);
                // PI
                let m = if k < pis.len() {
                    k
                } else {
                    pis.len()
                };
                let sum = public_input_sum(w, zh, xi, n, pis, m);
                lemma_fr_of_int_cong(-sum);
                if k < pis.len() {
                    fr::lemma_fr_mul_cong(pis[k as int], li, pis[k as int] as int, li as int);
                    fr::lemma_fr_sub_cong(
                        fr::fr_of_int(-sum),
                        fr::fr_mul(pis[k as int], li),
                        -sum,
                        (pis[k as int] * li) as int,
                    );
                    assert(public_input_sum(w, zh, xi, n, pis, (k + 1) as nat) == sum + pis[k as int]
                        * li);
                    assert(-sum - pis[k as int] * li == -(sum + pis[k as int] * li));
                }
            } else {
                assert(lagrange_denominator(w, xi, n, k) == 0);
            }
        }
    }
}

/// `calculate_l1_and_pi` evaluates the Lagrange basis in closed form: with
/// `L_i(xi) = w^i * zh / (n * (xi - w^i))` over the domain of size
/// `n = 2^power` generated by `w`, it gives `l1 = L_0(xi)` and
/// `pi = -sum_{i < N} public_inputs[i] * L_i(xi)`; it fails with
/// `LagrangeDivisionByZero` exactly when `xi` is one of the points `w^i` it
/// visits (`i < max(1, n_public)`).
pub proof fn law_l1_and_pi(vk: VerificationKey, ch: Challenges, pis: Seq<Fr>)
    ensures
        ({
            let (w, zh, xi) = (vk.w@, ch.zh@, ch.xi@);
            let n = vstd::arithmetic::power2::pow2(vk.power as nat);
            let vals = plonk::fr_values(pis);
            let count = plonk::lagrange_count(vk);
            let m = if count < pis.len() {
                count
            } else {
                pis.len()
            };
            &&& (forall|i: nat| i < count ==> lagrange_denominator(w, xi, n, i) != 0)
                ==> plonk::l1_and_pi_spec(vk, ch, pis) == Ok::<(nat, nat), PlonkError>(
                (
                    lagrange_value(w, zh, xi, n, 0),
                    fr::fr_of_int(-public_input_sum(w, zh, xi, n, vals, m)),
                ),
            )
            &&& (exists|i: nat| i < count && lagrange_denominator(w, xi, n, i) == 0)
                ==> plonk::l1_and_pi_spec(vk, ch, pis) == Err::<(nat, nat), PlonkError>(
                PlonkError::LagrangeDivisionByZero,
            )
        }),
{
    let n = vstd::arithmetic::power2::pow2(vk.power as nat);
    lemma_lagrange_rounds_closed(vk.w@, ch.zh@, ch.xi@, n, plonk::fr_values(pis), plonk::lagrange_count(vk));
}

// ---------------------------------------------------------------------------
// F and the whole verifier
// ---------------------------------------------------------------------------

/// `F = D + v1*[a] + v2*[b] + v3*[c] + v4*[s1] + v5*[s2]`, the products first,
/// then the sums in this order.
pub open spec fn batched_commitment(
    vk: VerificationKey,
    proof: Proof,
    d: Seq<u8>,
    v1: nat,
    v2: nat,
    v3: nat,
    v4: nat,
    v5: nat,
) -> Result<Seq<u8>, PlonkError> {
    match plonk::g1_mul_spec(proof.a.0@, plonk::scalar_bytes(v1)) {
        Err(e) => Err(e),
        Ok(t1) => match plonk::g1_mul_spec(proof.b.0@, plonk::scalar_bytes(v2)) {
            Err(e) => Err(e),
            Ok(t2) => match plonk::g1_mul_spec(proof.c.0@, plonk::scalar_bytes(v3)) {
                Err(e) => Err(e),
                Ok(t3) => match plonk::g1_mul_spec(vk.s1.0@, plonk::scalar_bytes(v4)) {
                    Err(e) => Err(e),
                    Ok(t4) => match plonk::g1_mul_spec(vk.s2.0@, plonk::scalar_bytes(v5)) {
                        Err(e) => Err(e),
                        Ok(t5) => plonk::then_add(
                            plonk::then_add(
                                plonk::then_add(plonk::then_add(plonk::g1_add_spec(d, t1), t2), t3),
                                t4,
                            ),
                            t5,
                        ),
                    },
                },
            },
        },
    }
}

/// `calculate_f` gives `F = D + v1*[a] + v2*[b] + v3*[c] + v4*[s1] + v5*[s2]`.
pub proof fn law_f(vk: VerificationKey, proof: Proof, ch: Challenges, d: Seq<u8>)
    ensures
        plonk::f_spec(vk, proof, ch, d) == batched_commitment(
            vk,
            proof,
            d,
            ch.v1@,
            ch.v2@,
            ch.v3@,
            ch.v4@,
            ch.v5@,
        ),
{
}

/// `verify` checks every public input: when their number is `n_public` and
/// any one of them is at least `r`, it fails with
/// `PublicInputGreaterThanFieldSize`.
pub proof fn law_verify_checks_every_input(
    vk: VerificationKey,
    proof: Proof,
    inputs: Seq<Seq<u8>>,
    i: int,
)
    requires
        inputs.len() == vk.n_public,
        0 <= i < inputs.len(),
        encoding::be_to_nat(inputs[i]) >= fr::fr_modulus(),
    ensures
        plonk::verify_spec(vk, proof, inputs) == Err::<(), PlonkError>(
            PlonkError::PublicInputGreaterThanFieldSize,
        ),
{
    assert(plonk::some_input_too_large(inputs));
}

/// The 32-byte encodings of the six evaluations of a proof, in order.
pub open spec fn evaluation_encodings(proof: Proof) -> Seq<Seq<u8>> {
    seq![
        plonk::scalar_bytes(proof.eval_a@),
        plonk::scalar_bytes(proof.eval_b@),
        plonk::scalar_bytes(proof.eval_c@),
        plonk::scalar_bytes(proof.eval_s1@),
        plonk::scalar_bytes(proof.eval_s2@),
        plonk::scalar_bytes(proof.eval_zw@),
    ]
}

/// `verify_unchecked` end to end: it fails with `InvalidPublicInputsLength`
/// when the number of inputs is not `n_public`, and with
/// `LagrangeDivisionByZero` when `xi` is a visited domain point; otherwise it
/// computes `r0` and `D` from `L_0(xi)` and `PI(xi) = -sum_i pis[i] * L_i(xi)`
/// in closed form, then `F`, and succeeds exactly when the pairing check
/// `e(-A1, [x]_2) * e(B1, [1]_2) == 1` holds, failing with
/// `ProofVerificationFailed` when it does not (or with the error of the first
/// curve operation that fails).
pub proof fn law_verify_unchecked(vk: VerificationKey, proof: Proof, pis: Seq<Fr>)
    ensures
        ({
            let eb = evaluation_encodings(proof);
            let ch = plonk::challenges_spec(vk, proof, pis, eb);
            let (w, zh, xi) = (vk.w@, ch.zh@, ch.xi@);
            let n = vstd::arithmetic::power2::pow2(vk.power as nat);
            let count = plonk::lagrange_count(vk);
            let l1 = lagrange_value(w, zh, xi, n, 0);
            let pi = fr::fr_of_int(-public_input_sum(w, zh, xi, n, plonk::fr_values(pis), pis.len()));
            let r0 = fr::fr_of_int(r0_formula(proof, ch, l1, pi));
            let res = plonk::verify_unchecked_spec(vk, proof, pis);
            &&& pis.len() != vk.n_public ==> res == Err::<(), PlonkError>(
                PlonkError::InvalidPublicInputsLength,
            )
            &&& pis.len() == vk.n_public && (exists|i: nat|
                i < count && lagrange_denominator(w, xi, n, i) == 0) ==> res == Err::<
                (),
                PlonkError,
            >(PlonkError::LagrangeDivisionByZero)
            &&& pis.len() == vk.n_public && (forall|i: nat|
                i < count ==> lagrange_denominator(w, xi, n, i) != 0) ==> res == match linearisation_commitment(
                vk,
                proof,
                eb,
                fr::fr_of_int(proof.eval_a@ as int * proof.eval_b@ as int),
                fr::fr_of_int(z_scalar_formula(vk, proof, ch, l1)),
                fr::fr_of_int(s3_scalar_formula(proof, ch)),
                ch.xin@,
                fr::fr_of_int(ch.xin@ as int * ch.xin@ as int),
                fr::fr_of_int(-(ch.zh@ as int)),
            ) {
                Err(e) => Err(e),
                Ok(d) => match batched_commitment(
                    vk,
                    proof,
                    d,
                    ch.v1@,
                    ch.v2@,
                    ch.v3@,
                    ch.v4@,
                    ch.v5@,
                ) {
                    Err(e) => Err(e),
                    Ok(f) => match pairing_check(
                        vk,
                        proof,
                        ch.u@,
                        fr::fr_of_int(ch.u@ as int * vk.w@ as int),
                        ch.xi@,
                        fr::fr_of_int(neg_e_formula(proof, ch, r0)),
                        f,
                    ) {
                        Err(e) => Err(e),
                        Ok(valid) => if valid {
                            Ok(())
                        } else {
                            Err(PlonkError::ProofVerificationFailed)
                        },
                    },
                },
            }
        }),
{
    reveal(plonk::verify_unchecked_spec);
    let eb = evaluation_encodings(proof);
    assert(plonk::eval_bytes_spec(proof) =~= eb);
    let ch = plonk::challenges_spec(vk, proof, pis, eb);
    law_l1_and_pi(vk, ch, pis);
    let n = vstd::arithmetic::power2::pow2(vk.power as nat);
    let l1 = lagrange_value(vk.w@, ch.zh@, ch.xi@, n, 0);
    let pi = fr::fr_of_int(
        -public_input_sum(vk.w@, ch.zh@, ch.xi@, n, plonk::fr_values(pis), pis.len()),
    );
    law_r0_and_d(vk, proof, ch, l1, pi, eb);
    let r0 = fr::fr_of_int(r0_formula(proof, ch, l1, pi));
    match linearisation_commitment(
        vk,
        proof,
        eb,
        fr::fr_of_int(proof.eval_a@ as int * proof.eval_b@ as int),
        fr::fr_of_int(z_scalar_formula(vk, proof, ch, l1)),
        fr::fr_of_int(s3_scalar_formula(proof, ch)),
        ch.xin@,
        fr::fr_of_int(ch.xin@ as int * ch.xin@ as int),
        fr::fr_of_int(-(ch.zh@ as int)),
    ) {
        Ok(d) => {
            law_f(vk, proof, ch, d);
            match batched_commitment(vk, proof, d, ch.v1@, ch.v2@, ch.v3@, ch.v4@, ch.v5@) {
                Ok(f) => {
                    law_pairing(vk, proof, ch, r0, f);
                },
                Err(_) => {},
            }
        },
        Err(_) => {},
    }
}

// ---------------------------------------------------------------------------
// The challenges
// ---------------------------------------------------------------------------

/// Squaring `k` times raises to the power `2^k`.
proof fn lemma_pow2k(x: nat, k: nat)
    requires
        x < fr::fr_modulus(),
    ensures
        plonk::fr_pow2k(x, k) == fr::fr_of_int(
            vstd::arithmetic::power::pow(x as int, vstd::arithmetic::power2::pow2(k)),
        ),
    decreases k,
{
    let r = fr::fr_modulus() as int;
    if k == 0 {
        reveal(vstd::arithmetic::power::pow);
        assert(vstd::arithmetic::power2::pow2(0) == 1) by {
            reveal(vstd::arithmetic::power::pow);
        }
        assert(vstd::arithmetic::power::pow(x as int, 1) == x * vstd::arithmetic::power::pow(
            x as int,
            0,
        ));
        vstd::arithmetic::div_mod::lemma_small_mod(x, fr::fr_modulus());
    } else {
        let k1 = (k - 1) as nat;
        lemma_pow2k(x, k1);
        let e = vstd::arithmetic::power2::pow2(k1);
        let p = vstd::arithmetic::power::pow(x as int, e);
        let y = plonk::fr_pow2k(x, k1);
        lemma_fr_of_int_cong(p);
        fr::lemma_fr_mul_cong(y, y, p, p);
        vstd::arithmetic::power2::lemma_pow2_unfold(k);
        vstd::arithmetic::power::lemma_pow_adds(x as int, e, e);
        assert(e + e == vstd::arithmetic::power2::pow2(k));
    }
}

/// The concatenated 32-byte encodings of the public inputs.
pub open spec fn encoded_inputs(pis: Seq<Fr>) -> Seq<u8> {
    crate::transcript::concat(pis.map_values(|x: Fr| plonk::scalar_bytes(x@)))
}

/// `calculate_challenges` follows the snarkjs transcript: `beta` hashes the
/// eight key commitments, every public input and `[a]`, `[b]`, `[c]`;
/// `gamma` hashes `beta`; `alpha` hashes `beta`, `gamma`, `[z]`; `xi` hashes
/// `alpha`, `[t1]`, `[t2]`, `[t3]`; `v1` hashes `xi` and the six evaluation
/// encodings; `u` hashes `[Wxi]`, `[Wxiw]`. Then `v_k = v1^k`,
/// `xin = xi^(2^power)` and `zh = xin - 1`.
pub proof fn law_challenges(vk: VerificationKey, proof: Proof, pis: Seq<Fr>, eb: Seq<Seq<u8>>)
    ensures
        ({
            let ch = plonk::challenges_spec(vk, proof, pis, eb);
            let h = |d: Seq<u8>| crate::transcript::challenge_of(d);
            let sb = |x: nat| plonk::scalar_bytes(x);
            let pow = |b: nat, e: nat| vstd::arithmetic::power::pow(b as int, e);
            &&& ch.beta@ == h(
                vk.qm.0@ + vk.ql.0@ + vk.qr.0@ + vk.qo.0@ + vk.qc.0@ + vk.s1.0@ + vk.s2.0@
                    + vk.s3.0@ + encoded_inputs(pis) + proof.a.0@ + proof.b.0@ + proof.c.0@,
            )
            &&& ch.gamma@ == h(sb(ch.beta@))
            &&& ch.alpha@ == h(sb(ch.beta@) + sb(ch.gamma@) + proof.z.0@)
            &&& ch.xi@ == h(sb(ch.alpha@) + proof.t1.0@ + proof.t2.0@ + proof.t3.0@)
            &&& ch.v1@ == h(
                sb(ch.xi@) + eb[0] + eb[1] + eb[2] + eb[3] + eb[4] + eb[5],
            )
            &&& ch.v2@ == fr::fr_of_int(pow(ch.v1@, 2))
            &&& ch.v3@ == fr::fr_of_int(pow(ch.v1@, 3))
            &&& ch.v4@ == fr::fr_of_int(pow(ch.v1@, 4))
            &&& ch.v5@ == fr::fr_of_int(pow(ch.v1@, 5))
            &&& ch.u@ == h(proof.wxi.0@ + proof.wxiw.0@)
            &&& ch.xin@ == fr::fr_of_int(
                pow(ch.xi@, vstd::arithmetic::power2::pow2(vk.power as nat)),
            )
            &&& ch.zh@ == fr::fr_of_int(ch.xin@ - 1)
        }),
{
    let ch = plonk::challenges_spec(vk, proof, pis, eb);
    let r = fr::fr_modulus();
    let beta = crate::transcript::challenge_of(plonk::beta_input(vk, proof, pis));
    let gamma = crate::transcript::challenge_of(plonk::scalar_bytes(beta));
    let alpha = crate::transcript::challenge_of(
        plonk::scalar_bytes(beta) + plonk::scalar_bytes(gamma) + proof.z.0@,
    );
    let xi = crate::transcript::challenge_of(
        plonk::scalar_bytes(alpha) + proof.t1.0@ + proof.t2.0@ + proof.t3.0@,
    );
    let v1 = crate::transcript::challenge_of(
        plonk::scalar_bytes(xi) + eb[0] + eb[1] + eb[2] + eb[3] + eb[4] + eb[5],
    );
    let u = crate::transcript::challenge_of(proof.wxi.0@ + proof.wxiw.0@);
    fr::lemma_fr_of_nat(beta);
    fr::lemma_fr_of_nat(gamma);
    fr::lemma_fr_of_nat(alpha);
    fr::lemma_fr_of_nat(xi);
    fr::lemma_fr_of_nat(v1);
    fr::lemma_fr_of_nat(u);
    // powers of v1
    let v2 = fr::fr_mul(v1, v1);
    let v3 = fr::fr_mul(v2, v1);
    let v4 = fr::fr_mul(v2, v2);
    let v5 = fr::fr_mul(v4, v1);
    let vi = v1 as int;
    fr::lemma_fr_mul_cong(v1, v1, vi, vi);
    fr::lemma_fr_mul_cong(v2, v1, vi * vi, vi);
    fr::lemma_fr_mul_cong(v2, v2, vi * vi, vi * vi);
    fr::lemma_fr_mul_cong(v4, v1, vi * vi * (vi * vi), vi);
    fr::lemma_fr_of_nat(v2);
    fr::lemma_fr_of_nat(v3);
    fr::lemma_fr_of_nat(v4);
    fr::lemma_fr_of_nat(v5);
    reveal_with_fuel(vstd::arithmetic::power::pow, 6);
    assert(vstd::arithmetic::power::pow(vi, 2) == vi * vi) by (nonlinear_arith)
        requires
            vstd::arithmetic::power::pow(vi, 2) == vi * (vi * vstd::arithmetic::power::pow(vi, 0)),
            vstd::arithmetic::power::pow(vi, 0) == 1,
    ;
    assert(vstd::arithmetic::power::pow(vi, 3) == vi * vi * vi) by (nonlinear_arith)
        requires
            vstd::arithmetic::power::pow(vi, 3) == vi * vstd::arithmetic::power::pow(vi, 2),
            vstd::arithmetic::power::pow(vi, 2) == vi * vi,
    ;
    assert(vstd::arithmetic::power::pow(vi, 4) == vi * vi * (vi * vi)) by (nonlinear_arith)
        requires
            vstd::arithmetic::power::pow(vi, 4) == vi * vstd::arithmetic::power::pow(vi, 3),
            vstd::arithmetic::power::pow(vi, 3) == vi * vi * vi,
    ;
    assert(vstd::arithmetic::power::pow(vi, 5) == vi * vi * (vi * vi) * vi) by (nonlinear_arith)
        requires
            vstd::arithmetic::power::pow(vi, 5) == vi * vstd::arithmetic::power::pow(vi, 4),
            vstd::arithmetic::power::pow(vi, 4) == vi * vi * (vi * vi),
    ;
    // xin and zh
    let xin = plonk::fr_pow2k(xi, vk.power as nat);
    lemma_pow2k(xi, vk.power as nat);
    fr::lemma_fr_of_nat(xin);
    let zh = fr::fr_sub(xin, 1);
    fr::lemma_fr_sub_cong(xin, 1, xin as int, 1);
    fr::lemma_fr_of_nat(zh);
    assert(encoded_inputs(pis) == plonk::public_inputs_bytes(pis));
}

} // verus!
