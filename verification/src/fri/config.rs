//! The parameters of FRI, the degree bounds of its layers, its proofs and
//! the reasons for refusing one.

use vstd::prelude::*;
use vstd::arithmetic::power2::{lemma2_to64, pow2};
use crate::channel::Channel;
use crate::fields::qm31::QM31;
use crate::poly::line::LinePoly;
use crate::utils::{lemma_pow2_monotone, pow2_usize};
use crate::vcs::hasher::MerkleHasher;
use crate::vcs::merkle_verifier::{MerkleDecommitment, MerkleVerificationError};

verus! {

/// Number of foldings between two layers of line polynomials.
pub const FOLD_STEP: u32 = 1;

/// Number of foldings from a circle polynomial to a line polynomial.
pub const CIRCLE_TO_LINE_FOLD_STEP: u32 = 1;

pub const LOG_MIN_LAST_LAYER_DEGREE_BOUND: u32 = 0;

pub const LOG_MAX_LAST_LAYER_DEGREE_BOUND: u32 = 10;

pub const LOG_MIN_BLOWUP_FACTOR: u32 = 1;

pub const LOG_MAX_BLOWUP_FACTOR: u32 = 16;

/// The parameters of FRI.
#[derive(Debug, Clone, Copy, PartialEq, Eq, Structural)]
pub struct FriConfig {
    pub log_blowup_factor: u32,
    pub log_last_layer_degree_bound: u32,
    pub n_queries: usize,
}

impl FriConfig {
    /// The blow-up factor and the degree bound of the last layer are in range.
    pub open spec fn wf(self) -> bool {
        &&& LOG_MIN_BLOWUP_FACTOR <= self.log_blowup_factor <= LOG_MAX_BLOWUP_FACTOR
        &&& self.log_last_layer_degree_bound <= LOG_MAX_LAST_LAYER_DEGREE_BOUND
    }

    /// The transcript after the three parameters were absorbed.
    pub open spec fn spec_mix_into<C: Channel>(self, channel: C) -> C {
        channel.spec_mix_u64(self.log_blowup_factor as u64).spec_mix_u64(
            self.n_queries as u64,
        ).spec_mix_u64(self.log_last_layer_degree_bound as u64)
    }

    pub fn new(log_last_layer_degree_bound: u32, log_blowup_factor: u32, n_queries: usize) -> (r:
        FriConfig)
        requires
            log_last_layer_degree_bound <= LOG_MAX_LAST_LAYER_DEGREE_BOUND,
            LOG_MIN_BLOWUP_FACTOR <= log_blowup_factor <= LOG_MAX_BLOWUP_FACTOR,
        ensures
            r == (FriConfig { log_blowup_factor, log_last_layer_degree_bound, n_queries }),
            r.wf(),
    {
        FriConfig { log_blowup_factor, log_last_layer_degree_bound, n_queries }
    }

    /// The parameters, if they are in range.
    pub fn try_new(log_last_layer_degree_bound: u32, log_blowup_factor: u32, n_queries: usize) -> (r:
        Option<FriConfig>)
        ensures
            r.is_some() == (log_last_layer_degree_bound <= LOG_MAX_LAST_LAYER_DEGREE_BOUND
                && LOG_MIN_BLOWUP_FACTOR <= log_blowup_factor <= LOG_MAX_BLOWUP_FACTOR),
            r.is_some() ==> r.unwrap() == (FriConfig {
                log_blowup_factor,
                log_last_layer_degree_bound,
                n_queries,
            }),
    {
        if log_last_layer_degree_bound <= LOG_MAX_LAST_LAYER_DEGREE_BOUND && LOG_MIN_BLOWUP_FACTOR
            <= log_blowup_factor && log_blowup_factor <= LOG_MAX_BLOWUP_FACTOR {
            Some(FriConfig { log_blowup_factor, log_last_layer_degree_bound, n_queries })
        } else {
            None
        }
    }

    /// The size of the domain of the last layer: `2^(bound + blow-up)`.
    pub fn last_layer_domain_size(&self) -> (r: usize)
        requires
            self.wf(),
        ensures
            r == pow2((self.log_last_layer_degree_bound + self.log_blowup_factor) as nat),
    {
        pow2_usize(self.log_last_layer_degree_bound + self.log_blowup_factor)
    }

    /// The bits of security that the queries give: `log_blowup_factor * n_queries`.
    pub fn security_bits(&self) -> (r: u32)
        requires
            self.log_blowup_factor * self.n_queries <= u32::MAX,
        ensures
            r == self.log_blowup_factor * self.n_queries,
    {
        proof {
            if self.log_blowup_factor > 0 {
                assert(self.n_queries <= u32::MAX) by (nonlinear_arith)
                    requires
                        self.log_blowup_factor * self.n_queries <= u32::MAX,
                        self.log_blowup_factor >= 1,
                ;
            }
        }
        if self.log_blowup_factor == 0 {
            0
        } else {
            self.log_blowup_factor * (self.n_queries as u32)
        }
    }

    /// Absorbs the three parameters into the transcript.
    pub fn mix_into<C: Channel>(&self, channel: &mut C)
        ensures
            *final(channel) == self.spec_mix_into(*old(channel)),
    {
        channel.mix_u64(self.log_blowup_factor as u64);
        channel.mix_u64(self.n_queries as u64);
        channel.mix_u64(self.log_last_layer_degree_bound as u64);
    }
}

/// The logarithm of a bound on the degree of a circle polynomial.
#[derive(Debug, Clone, Copy, PartialEq, Eq, Structural)]
pub struct CirclePolyDegreeBound {
    pub log_degree_bound: u32,
}

impl CirclePolyDegreeBound {
    pub fn new(log_degree_bound: u32) -> (r: CirclePolyDegreeBound)
        ensures
            r.log_degree_bound == log_degree_bound,
    {
        CirclePolyDegreeBound { log_degree_bound }
    }

    /// The bound of the line polynomial into which the circle polynomial folds.
    pub fn fold_to_line(&self) -> (r: LinePolyDegreeBound)
        requires
            self.log_degree_bound >= CIRCLE_TO_LINE_FOLD_STEP,
        ensures
            r.log_degree_bound == self.log_degree_bound - CIRCLE_TO_LINE_FOLD_STEP,
    {
        LinePolyDegreeBound { log_degree_bound: self.log_degree_bound - CIRCLE_TO_LINE_FOLD_STEP }
    }
}

/// The logarithm of a bound on the degree of a line polynomial.
#[derive(Debug, Clone, Copy, PartialEq, Eq, Structural)]
pub struct LinePolyDegreeBound {
    pub log_degree_bound: u32,
}

impl LinePolyDegreeBound {
    /// The bound after `n_folds` foldings, if the bound allows that many.
    pub fn fold(self, n_folds: u32) -> (r: Option<LinePolyDegreeBound>)
        ensures
            r == (if self.log_degree_bound < n_folds {
                None
            } else {
                Some(
                    LinePolyDegreeBound {
                        log_degree_bound: (self.log_degree_bound - n_folds) as u32,
                    },
                )
            }),
    {
        if self.log_degree_bound < n_folds {
            return None;
        }
        Some(LinePolyDegreeBound { log_degree_bound: self.log_degree_bound - n_folds })
    }
}

/// Why a FRI proof was refused.
#[derive(Clone, Copy, Debug, PartialEq, Eq, Structural)]
pub enum FriVerificationError {
    /// The proof holds another number of layers than the bounds ask for.
    InvalidNumFriLayers,
    /// The first layer lacks evaluations, or holds too many.
    FirstLayerEvaluationsInvalid,
    /// The queries do not resolve to the commitment of the first layer.
    FirstLayerCommitmentInvalid { error: MerkleVerificationError },
    /// The queries do not resolve to the commitment of an inner layer.
    InnerLayerCommitmentInvalid { inner_layer: usize, error: MerkleVerificationError },
    /// An inner layer lacks evaluations, or holds too many.
    InnerLayerEvaluationsInvalid { inner_layer: usize },
    /// The polynomial of the last layer has too many coefficients.
    LastLayerDegreeInvalid,
    /// The polynomial of the last layer does not take the folded values.
    LastLayerEvaluationsInvalid,
}

/// The proof of one layer.
pub struct FriLayerProof<H: MerkleHasher> {
    /// The values that the verifier needs and cannot compute from the layer
    /// before, in the order in which it needs them.
    pub fri_witness: Vec<QM31>,
    pub decommitment: MerkleDecommitment<H>,
    pub commitment: H::Hash,
}

/// A FRI proof: the layers from the largest to the smallest, and the
/// coefficients of the last one.
pub struct FriProof<H: MerkleHasher> {
    pub first_layer: FriLayerProof<H>,
    pub inner_layers: Vec<FriLayerProof<H>>,
    pub last_layer_poly: LinePoly,
}

} // verus!
