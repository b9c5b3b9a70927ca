//! Privacy-preserving biometric verification core.
//!
//! Given a stored template and a fresh probe, the library decides match /
//! no-match while feature codes, intermediate scores and the decision
//! threshold stay inside homomorphically encrypted values; only the final
//! boolean is ever decrypted.  The crate verifies the numeric core of that
//! protocol: quantization of feature vectors into small integer codes,
//! compilation of signed classifier score tables into nonnegative fixed-radix
//! digit lookups, and the encrypt / evaluate / sum / compare pipeline.
//!
//! The lattice cryptography itself (key generation, noise, bootstrapping,
//! device kernels) is the evaluation engine's responsibility and out of scope
//! here; the engine is modelled by ciphertext values that carry their encoded
//! plaintext exactly, so every step of the protocol has a provable contract
//! relating the encrypted computation to the cleartext score it hides.

pub mod config;
pub mod compiler;
pub mod correctness;
pub mod engine;
pub mod pipeline;
pub mod quantizer;
pub mod strategy;
pub mod radix;

pub use config::Config;
