//! Folding: an evaluation of a polynomial of degree `d` becomes one of a
//! polynomial of degree `d / 2`, by a random combination of its even and
//! odd parts.

use vstd::prelude::*;
use vstd::arithmetic::power2::pow2;
use crate::fft::{ibutterfly, spec_ibutterfly};
use crate::fields::m31::M31;
use crate::fields::qm31::QM31;
use crate::poly::domain::CircleDomain;
use crate::poly::line::LineDomain;
use crate::utils::{bit_reverse_index, spec_bit_reverse_index};

verus! {

/// The fold of the values of `f` at `x` and `-x`: with `f0, f1` such that
/// `2 f(x) = f0(pi(x)) + x f1(pi(x))`, the value `f0 + alpha * f1`, where
/// `twiddle` is the inverse of `x`.
pub open spec fn spec_fold_pair(f_x: QM31, f_neg_x: QM31, twiddle: M31, alpha: QM31) -> QM31 {
    let (f0, f1) = spec_ibutterfly(f_x, f_neg_x, twiddle);
    f0.spec_add(alpha.spec_mul(f1))
}

/// The fold of the values of `f` at `p` and `-p` on the circle: with
/// `f0, f1` such that `2 f(p) = f0(p.x) + p.y f1(p.x)`, the value
/// `alpha * f1 + f0`, where `twiddle` is the inverse of `p.y`.
pub open spec fn spec_fold_circle_pair(f_p: QM31, f_neg_p: QM31, twiddle: M31, alpha: QM31) -> QM31 {
    let (f0, f1) = spec_ibutterfly(f_p, f_neg_p, twiddle);
    alpha.spec_mul(f1).spec_add(f0)
}

/// The first coordinate at which the `i`-th pair of a bit-reversed
/// evaluation on `domain` lives.
pub open spec fn spec_line_twiddle_point(domain: LineDomain, i: nat) -> M31 {
    domain.spec_at(spec_bit_reverse_index(2 * i, domain.spec_log_size()))
}

/// The second coordinate of the point at which the `i`-th pair of a
/// bit-reversed evaluation on `domain` lives.
pub open spec fn spec_circle_twiddle_point(domain: CircleDomain, i: nat) -> M31 {
    domain.spec_at(spec_bit_reverse_index(2 * i, domain.spec_log_size())).y
}

/// The fold of a bit-reversed evaluation on a line domain.
pub open spec fn spec_fold_line(eval: Seq<QM31>, domain: LineDomain, alpha: QM31) -> Seq<QM31> {
    Seq::new(
        eval.len() / 2,
        |i: int|
            spec_fold_pair(
                eval[2 * i],
                eval[2 * i + 1],
                spec_line_twiddle_point(domain, i as nat).spec_inverse(),
                alpha,
            ),
    )
}

/// What `dst` holds after the fold of the bit-reversed evaluation `src` on a
/// circle domain was accumulated into it: `dst * alpha^2 + fold`.
pub open spec fn spec_fold_circle_into_line(
    dst: Seq<QM31>,
    src: Seq<QM31>,
    src_domain: CircleDomain,
    alpha: QM31,
) -> Seq<QM31> {
    Seq::new(
        dst.len(),
        |i: int|
            dst[i].spec_mul(alpha.spec_mul(alpha)).spec_add(
                spec_fold_circle_pair(
                    src[2 * i],
                    src[2 * i + 1],
                    spec_circle_twiddle_point(src_domain, i as nat).spec_inverse(),
                    alpha,
                ),
            ),
    )
}

/// Folds the two values of a pair.
pub fn fold_pair(f_x: QM31, f_neg_x: QM31, twiddle: M31, alpha: QM31) -> (r: QM31)
    ensures
        r == spec_fold_pair(f_x, f_neg_x, twiddle, alpha),
{
    let mut f0 = f_x;
    let mut f1 = f_neg_x;
    ibutterfly(&mut f0, &mut f1, twiddle);
    f0.add(alpha.mul(f1))
}

/// Folds the two values of a pair of conjugate points.
pub fn fold_circle_pair(f_p: QM31, f_neg_p: QM31, twiddle: M31, alpha: QM31) -> (r: QM31)
    ensures
        r == spec_fold_circle_pair(f_p, f_neg_p, twiddle, alpha),
{
    let mut f0 = f_p;
    let mut f1 = f_neg_p;
    ibutterfly(&mut f0, &mut f1, twiddle);
    alpha.mul(f1).add(f0)
}

/// Folds an evaluation on a line domain, in bit-reversed order, into one on
/// the doubled domain.
pub fn fold_line(eval: &Vec<QM31>, domain: LineDomain, alpha: QM31) -> (r: (LineDomain, Vec<QM31>))
    requires
        eval.len() >= 2,
        domain.spec_log_size() >= 1,
    ensures
        r.0 == domain.spec_double(),
        r.0.wf(),
        r.0.spec_log_size() == domain.spec_log_size() - 1,
        r.0.spec_coset().spec_initial_index() == domain.spec_coset().spec_initial_index().spec_mul(
            2,
        ),
        r.1@ == spec_fold_line(eval@, domain, alpha),
{
    let n = eval.len() / 2;
    let log_size = domain.log_size();
    let mut folded: Vec<QM31> = Vec::with_capacity(n);
    let mut i: usize = 0;
    while i < n
        invariant
            i <= n,
            n == eval.len() / 2,
            log_size == domain.spec_log_size(),
            log_size <= 31,
            folded.len() == i,
            forall|j: int|
                0 <= j < i ==> folded[j] == spec_fold_pair(
                    eval[2 * j],
                    eval[2 * j + 1],
                    spec_line_twiddle_point(domain, j as nat).spec_inverse(),
                    alpha,
                ),
        decreases n - i,
    {
        let x = domain.at(bit_reverse_index(2 * i, log_size));
        folded.push(fold_pair(eval[2 * i], eval[2 * i + 1], x.inverse_or_zero(), alpha));
        i = i + 1;
    }
    proof {
        assert(folded@ =~= spec_fold_line(eval@, domain, alpha));
    }
    (domain.double(), folded)
}

/// Folds an evaluation on a circle domain, in bit-reversed order, and
/// accumulates it into `dst`: `dst <- dst * alpha^2 + fold`.
pub fn fold_circle_into_line(
    dst: &mut Vec<QM31>,
    src: &Vec<QM31>,
    src_domain: CircleDomain,
    alpha: QM31,
)
    requires
        src.len() / 2 == old(dst).len(),
    ensures
        final(dst)@ == spec_fold_circle_into_line(old(dst)@, src@, src_domain, alpha),
{
    let n = dst.len();
    let log_size = src_domain.log_size();
    let alpha_sq = alpha.mul(alpha);
    let mut i: usize = 0;
    while i < n
        invariant
            i <= n,
            n == dst.len(),
            n == old(dst).len(),
            src.len() / 2 == n,
            log_size == src_domain.spec_log_size(),
            log_size <= 31,
            alpha_sq == alpha.spec_mul(alpha),
            forall|j: int| i <= j < n ==> dst[j] == old(dst)[j],
            forall|j: int|
                0 <= j < i ==> dst[j] == spec_fold_circle_into_line(
                    old(dst)@,
                    src@,
                    src_domain,
                    alpha,
                )[j],
        decreases n - i,
    {
        let p = src_domain.at(bit_reverse_index(2 * i, log_size));
        let f_prime = fold_circle_pair(src[2 * i], src[2 * i + 1], p.y.inverse_or_zero(), alpha);
        let v = dst[i].mul(alpha_sq).add(f_prime);
        dst.set(i, v);
        i = i + 1;
    }
    proof {
        assert(dst@ =~= spec_fold_circle_into_line(old(dst)@, src@, src_domain, alpha));
    }
}

/// What a layer holds after the folded values of a column were accumulated
/// into it: `layer * alpha^2 + column`.
pub open spec fn spec_accumulate_line(layer: Seq<QM31>, column: Seq<QM31>, alpha: QM31) -> Seq<
    QM31,
> {
    Seq::new(layer.len(), |i: int| layer[i].spec_mul(alpha.spec_square()).spec_add(column[i]))
}

/// Accumulates the folded values of a column into those of a layer.
pub fn accumulate_line(layer_query_evals: &mut Vec<QM31>, column_query_evals: &Vec<QM31>, alpha: QM31)
    requires
        old(layer_query_evals).len() == column_query_evals.len(),
    ensures
        final(layer_query_evals)@ == spec_accumulate_line(
            old(layer_query_evals)@,
            column_query_evals@,
            alpha,
        ),
{
    let n = layer_query_evals.len();
    let alpha_sq = alpha.square();
    let mut i: usize = 0;
    while i < n
        invariant
            i <= n,
            n == layer_query_evals.len(),
            n == old(layer_query_evals).len(),
            n == column_query_evals.len(),
            alpha_sq == alpha.spec_square(),
            forall|j: int| i <= j < n ==> layer_query_evals[j] == old(layer_query_evals)[j],
            forall|j: int|
                0 <= j < i ==> layer_query_evals[j] == old(layer_query_evals)[j].spec_mul(
                    alpha_sq,
                ).spec_add(column_query_evals[j]),
        decreases n - i,
    {
        let v = layer_query_evals[i].mul(alpha_sq).add(column_query_evals[i]);
        layer_query_evals.set(i, v);
        i = i + 1;
    }
    proof {
        assert(layer_query_evals@ =~= spec_accumulate_line(
            old(layer_query_evals)@,
            column_query_evals@,
            alpha,
        ));
    }
}

} // verus!
