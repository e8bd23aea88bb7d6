//! Lookups by logarithmic derivatives: the elements that turn a tuple of
//! values into one denominator, and the fractions that a row collects.

use vstd::prelude::*;
use crate::channel::Channel;
use crate::fields::m31::M31;
use crate::fields::qm31::QM31;
use crate::fraction::Fraction;
use crate::prover::air::{generate_secure_powers, spec_powers};

verus! {

/// What a row has collected for its lookups, as plain values.
pub struct LogupModel<EF> {
    pub interaction: usize,
    pub cumsum_shift: QM31,
    pub fracs: Seq<Fraction<EF, EF>>,
    pub is_finalized: bool,
    pub log_size: u32,
}

/// The state after a fraction was written: the first one opens the lookups.
pub open spec fn spec_write_frac<EF>(logup: LogupModel<EF>, fraction: Fraction<EF, EF>) -> LogupModel<
    EF,
> {
    LogupModel {
        fracs: logup.fracs.push(fraction),
        is_finalized: if logup.fracs.len() == 0 {
            false
        } else {
            logup.is_finalized
        },
        ..logup
    }
}

/// The fractions `multiplicity / denominator` that the constraints of a row
/// wrote, to be summed into the cumulative-sum columns of an interaction.
pub struct LogupAtRow<EF> {
    /// The tree that holds the cumulative-sum columns.
    pub interaction: usize,
    /// The claimed sum of all fractions, over the number of rows.
    pub cumsum_shift: QM31,
    /// The fractions that were written and not yet constrained.
    pub fracs: Vec<Fraction<EF, EF>>,
    pub is_finalized: bool,
    pub log_size: u32,
}

impl<EF> LogupAtRow<EF> {
    pub open spec fn model(self) -> LogupModel<EF> {
        LogupModel {
            interaction: self.interaction,
            cumsum_shift: self.cumsum_shift,
            fracs: self.fracs@,
            is_finalized: self.is_finalized,
            log_size: self.log_size,
        }
    }

    /// The claimed sum over the number of rows, `2^log_size`.
    pub open spec fn spec_shift(claimed_sum: QM31, log_size: u32) -> QM31 {
        claimed_sum.spec_mul_m31(M31::from_int(vstd::arithmetic::power2::pow2(log_size as nat) as int).spec_inverse())
    }

    /// A row that has nothing to constrain yet.
    pub fn new(interaction: usize, claimed_sum: QM31, log_size: u32) -> (r: LogupAtRow<EF>)
        requires
            log_size <= 30,
        ensures
            r.model() == (LogupModel::<EF> {
                interaction,
                cumsum_shift: Self::spec_shift(claimed_sum, log_size),
                fracs: Seq::empty(),
                is_finalized: true,
                log_size,
            }),
    {
        let n = crate::utils::pow2_usize(log_size);
        proof {
            vstd::arithmetic::power2::lemma2_to64();
            crate::utils::lemma_pow2_monotone(log_size as nat, 30);
        }
        LogupAtRow {
            interaction,
            cumsum_shift: claimed_sum.mul_m31(M31::from_u32(n as u32).inverse_or_zero()),
            fracs: Vec::new(),
            is_finalized: true,
            log_size,
        }
    }

    /// A placeholder that belongs to no interaction.
    pub fn dummy() -> (r: LogupAtRow<EF>)
        ensures
            r.model() == (LogupModel::<EF> {
                interaction: 100,
                cumsum_shift: QM31::spec_one(),
                fracs: Seq::empty(),
                is_finalized: true,
                log_size: 10,
            }),
    {
        LogupAtRow {
            interaction: 100,
            cumsum_shift: QM31::one(),
            fracs: Vec::new(),
            is_finalized: true,
            log_size: 10,
        }
    }
}

/// The sum of the first `n` values, each times its power of `alpha`.
pub open spec fn spec_weighted_sum(powers: Seq<QM31>, values: Seq<M31>, n: nat) -> QM31
    decreases n,
{
    if n == 0 {
        QM31::spec_zero()
    } else {
        spec_weighted_sum(powers, values, (n - 1) as nat).spec_add(
            powers[n - 1].spec_mul_m31(values[n - 1]),
        )
    }
}

/// The denominator of a tuple of values: `z - sum_i alpha^i * values_i`.
pub open spec fn spec_combine(z: QM31, powers: Seq<QM31>, values: Seq<M31>) -> QM31 {
    z.spec_sub(spec_weighted_sum(powers, values, values.len()))
}

/// The elements drawn for a lookup over tuples of up to `N` values.
#[derive(Clone, Debug, PartialEq, Eq)]
pub struct LookupElements<const N: usize> {
    pub z: QM31,
    pub alpha: QM31,
    /// The first `N` powers of `alpha`.
    pub alpha_powers: Vec<QM31>,
}

impl<const N: usize> LookupElements<N> {
    /// Draws `z` and `alpha` from the channel, in this order.
    pub fn draw<C: Channel>(channel: &mut C) -> (r: LookupElements<N>)
        ensures
            ({
                let (after, felts) = old(channel).spec_draw_secure_felts(2);
                &&& *final(channel) == after
                &&& r.z == felts[0]
                &&& r.alpha == felts[1]
                &&& r.alpha_powers@ == spec_powers(felts[1], N as nat)
            }),
    {
        let felts = channel.draw_secure_felts(2);
        let z = felts[0];
        let alpha = felts[1];
        LookupElements { z, alpha, alpha_powers: generate_secure_powers(alpha, N) }
    }

    /// The denominator of the tuple: `z - sum_i alpha^i * values_i`.
    pub fn combine(&self, values: &Vec<M31>) -> (r: QM31)
        requires
            values.len() <= self.alpha_powers.len(),
        ensures
            r == spec_combine(self.z, self.alpha_powers@, values@),
    {
        let mut acc = QM31::zero();
        let mut i: usize = 0;
        while i < values.len()
            invariant
                i <= values.len() <= self.alpha_powers.len(),
                acc == spec_weighted_sum(self.alpha_powers@, values@, i as nat),
            decreases values.len() - i,
        {
            acc = acc.add(self.alpha_powers[i].mul_m31(values[i]));
            i = i + 1;
        }
        self.z.sub(acc)
    }

    /// Fixed elements, for a component that is only laid out.
    pub fn dummy() -> (r: LookupElements<N>)
        ensures
            r.z == QM31::spec_from_m31_array(
                seq![M31::from_int(1), M31::from_int(2), M31::from_int(3), M31::from_int(4)],
            ),
            r.alpha == QM31::spec_one(),
            r.alpha_powers@ == Seq::new(N as nat, |i: int| QM31::spec_one()),
    {
        let mut powers: Vec<QM31> = Vec::with_capacity(N);
        let mut i: usize = 0;
        while i < N
            invariant
                i <= N,
                powers.len() == i,
                forall|k: int| 0 <= k < i ==> powers[k] == QM31::spec_one(),
            decreases N - i,
        {
            powers.push(QM31::one());
            i = i + 1;
        }
        proof {
            assert(powers@ =~= Seq::new(N as nat, |i: int| QM31::spec_one()));
        }
        LookupElements { z: QM31::from_u32_unchecked(1, 2, 3, 4), alpha: QM31::one(), alpha_powers: powers }
    }
}

} // verus!
