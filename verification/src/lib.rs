//! Native inference for a small speech restoration model: the decisions of audio loading, the
//! geometry of its spectral transform, the bookkeeping of its checkpoints and the cutting of
//! long inputs into blocks.
//!
//! Every function states in its contract what it returns for every input that it takes. The
//! public proof functions whose names begin with `law_` state what holds of several of them
//! together.
pub mod audio;
pub mod checkpoint;
pub mod error;
pub mod laws;
pub mod names;
pub mod spectral;
pub mod streaming;
pub mod text;

pub use audio::{AudioBuffer, SAMPLE_RATE};
pub use error::Error;
pub use spectral::{SpectralTransform, HOP_LENGTH, N_FFT};
pub use streaming::TEMPORAL_RECEPTIVE_RADIUS_FRAMES;
