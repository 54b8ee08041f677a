//! The decisions of a Quip solver, verified.
//!
//! A solver samples Ising problems for a coordinator. This library decides what
//! a session does: which jobs it admits and with what budget, what each
//! finished job is answered, when work is abandoned, and how a session ends. It
//! also holds the base Ising types, the coefficient representations, and the
//! adjacency and field statistics that backends build on. It performs no input
//! or output of its own beyond reading the clock and drawing a seed.
pub mod adapt;
pub mod beta;
pub mod binary64;
pub mod cancel;
pub mod capabilities;
pub mod cli;
pub mod coefficient;
pub mod config;
pub mod csr;
pub mod dispatch;
pub mod display;
pub mod driver;
pub mod encoding;
pub mod error;
pub mod ising;
pub mod job;
pub mod lease;
pub mod logging;
pub mod message;
pub mod pending;
pub mod sampler;
pub mod session;
pub mod stream;
pub mod text;
pub mod wire;
pub mod writer;

pub use cancel::CancelToken;
pub use capabilities::{capabilities, INITIAL_SPINS_FEATURE};
pub use cli::CommonArgs;
pub use csr::CsrGraph;
pub use error::SampleError;
pub use ising::{Algorithm, IsingGraph, SampleParams, SamplerResult, WarmStart};
pub use lease::LeaseStopped;
pub use sampler::Sampler;
pub use session::{BackendIdentity, ExitCode, OpenError};
pub use stream::{StreamJob, StreamOutcome, StreamResult, WarmStreamJob};
