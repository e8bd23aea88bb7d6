//! The settings of the prover and of the verifier of an application.

use vstd::prelude::*;

verus! {

/// The settings of the prover.
#[derive(Debug, Clone, Copy, PartialEq, Eq, Structural)]
pub struct ProverConfig {
    /// The bits of security asked for.
    pub security_level: usize,
    /// The number of bits of the field.
    pub field_size: usize,
    /// Whether a graphics processor may be used.
    pub use_gpu: bool,
}

impl Default for ProverConfig {
    fn default() -> (r: ProverConfig)
        ensures
            r == (ProverConfig { security_level: 80, field_size: 31, use_gpu: false }),
    {
        ProverConfig { security_level: 80, field_size: 31, use_gpu: false }
    }
}

/// The settings of the verifier.
#[derive(Debug, Clone, Copy, PartialEq, Eq, Structural)]
pub struct VerifierConfig {
    /// The largest proof that is accepted, in bytes.
    pub max_proof_size: usize,
    /// The time after which a verification is given up, in seconds.
    pub timeout_seconds: u64,
}

impl Default for VerifierConfig {
    fn default() -> (r: VerifierConfig)
        ensures
            r == (VerifierConfig { max_proof_size: 10485760, timeout_seconds: 30 }),
    {
        VerifierConfig { max_proof_size: 10485760, timeout_seconds: 30 }
    }
}

/// The version of the library.
pub fn version() -> (r: &'static str)
    ensures
        r@ == "0.1.0"@,
{
    "0.1.0"
}

/// The name and version of the library.
pub fn build_info() -> (r: &'static str)
    ensures
        r@ == "Zyrkom v0.1.0"@,
{
    "Zyrkom v0.1.0"
}

} // verus!
