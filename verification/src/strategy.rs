//! Execution strategies.
//!
//! All strategies run the same seven-step protocol and are verified against
//! the same cleartext semantics; they differ only in where the work is
//! scheduled.  `host` keeps every step in host memory, `device` keeps the
//! batched keyswitch/evaluate/sum passes on the accelerator, and `mixed`
//! keyswitches and evaluates on the host while summing and comparing on the
//! accelerator.

pub mod device;
pub mod host;
pub mod mixed;
