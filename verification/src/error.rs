//! The errors of checkpoint loading, audio decoding and spectral transforms.
use crate::text::{names_text, push_names, push_shape, shape_text, views};
use vstd::prelude::*;

verus! {

/// Errors produced by model loading and inference.
///
/// The first four variants carry the message of a failure outside this library.
#[derive(Debug)]
pub enum Error {
    /// An MLX operation failed.
    Mlx(String),
    /// MLX could not read a checkpoint.
    MlxIo(String),
    /// WAV encoding failed.
    Wav(String),
    /// Audio decoding or resampling failed.
    Babycat(String),
    /// Audio decoding failed in both the Babycat primary path and the fallback path.
    AudioDecode {
        /// Error returned by the primary Babycat decoder path.
        babycat: String,
        /// Error returned by the fallback decoder path.
        fallback: String,
    },
    /// An audio stream has no channels or samples, or an unusable layout.
    InvalidAudio(String),
    /// A required checkpoint tensor was absent.
    MissingTensor(String),
    /// A checkpoint tensor has a layout that does not match the architecture.
    TensorShape {
        /// Tensor name.
        name: String,
        /// Loaded shape.
        actual: Vec<i32>,
        /// Required shape.
        expected: Vec<i32>,
    },
    /// Safetensors metadata does not describe the required converted layout.
    CheckpointMetadata(String),
    /// The checkpoint contains tensors that the architecture did not consume.
    UnexpectedTensors(Vec<String>),
    /// Input dimensions do not match the fixed architecture.
    InputShape {
        /// Actual input shape.
        actual: Vec<i32>,
    },
}

/// What an [`Error`] says, over mathematical strings and sequences.
pub enum ErrorView {
    Mlx(Seq<char>),
    MlxIo(Seq<char>),
    Wav(Seq<char>),
    Babycat(Seq<char>),
    AudioDecode { babycat: Seq<char>, fallback: Seq<char> },
    InvalidAudio(Seq<char>),
    MissingTensor(Seq<char>),
    TensorShape { name: Seq<char>, actual: Seq<i32>, expected: Seq<i32> },
    CheckpointMetadata(Seq<char>),
    UnexpectedTensors(Seq<Seq<char>>),
    InputShape { actual: Seq<i32> },
}

impl View for Error {
    type V = ErrorView;

    open spec fn view(&self) -> ErrorView {
        match *self {
            Error::Mlx(m) => ErrorView::Mlx(m@),
            Error::MlxIo(m) => ErrorView::MlxIo(m@),
            Error::Wav(m) => ErrorView::Wav(m@),
            Error::Babycat(m) => ErrorView::Babycat(m@),
            Error::AudioDecode { babycat, fallback } => ErrorView::AudioDecode {
                babycat: babycat@,
                fallback: fallback@,
            },
            Error::InvalidAudio(m) => ErrorView::InvalidAudio(m@),
            Error::MissingTensor(name) => ErrorView::MissingTensor(name@),
            Error::TensorShape { name, actual, expected } => ErrorView::TensorShape {
                name: name@,
                actual: actual@,
                expected: expected@,
            },
            Error::CheckpointMetadata(m) => ErrorView::CheckpointMetadata(m@),
            Error::UnexpectedTensors(names) => ErrorView::UnexpectedTensors(views(names@)),
            Error::InputShape { actual } => ErrorView::InputShape { actual: actual@ },
        }
    }
}

/// The text shown to a user for an error.
pub open spec fn error_text(error: ErrorView) -> Seq<char> {
    match error {
        ErrorView::Mlx(m) => m,
        ErrorView::MlxIo(m) => m,
        ErrorView::Wav(m) => m,
        ErrorView::Babycat(m) => m,
        ErrorView::AudioDecode { babycat, fallback } => "audio decode failed; babycat: "@ + babycat
            + "; fallback: "@ + fallback,
        ErrorView::InvalidAudio(m) => "invalid audio: "@ + m,
        ErrorView::MissingTensor(name) => "checkpoint is missing tensor "@ + name,
        ErrorView::TensorShape { name, actual, expected } => "tensor "@ + name + " has shape "@
            + shape_text(actual) + ", expected "@ + shape_text(expected),
        ErrorView::CheckpointMetadata(m) => "invalid checkpoint metadata: "@ + m,
        ErrorView::UnexpectedTensors(names) => "checkpoint contains unexpected tensors: "@
            + names_text(names),
        ErrorView::InputShape { actual } => "invalid input shape "@ + shape_text(actual)
            + "; expected [batch, frames, 2049, 2]"@,
    }
}

impl Error {
    /// The text shown to a user for this error.
    pub fn message(&self) -> (r: String)
        ensures
            r@ == error_text(self@),
    {
        let mut out: String = String::new();
        match self {
            Error::Mlx(m) => out.append(m.as_str()),
            Error::MlxIo(m) => out.append(m.as_str()),
            Error::Wav(m) => out.append(m.as_str()),
            Error::Babycat(m) => out.append(m.as_str()),
            Error::AudioDecode { babycat, fallback } => {
                out.append("audio decode failed; babycat: ");
                out.append(babycat.as_str());
                out.append("; fallback: ");
                out.append(fallback.as_str());
            },
            Error::InvalidAudio(m) => {
                out.append("invalid audio: ");
                out.append(m.as_str());
            },
            Error::MissingTensor(name) => {
                out.append("checkpoint is missing tensor ");
                out.append(name.as_str());
            },
            Error::TensorShape { name, actual, expected } => {
                out.append("tensor ");
                out.append(name.as_str());
                out.append(" has shape ");
                push_shape(&mut out, actual.as_slice());
                out.append(", expected ");
                push_shape(&mut out, expected.as_slice());
            },
            Error::CheckpointMetadata(m) => {
                out.append("invalid checkpoint metadata: ");
                out.append(m.as_str());
            },
            Error::UnexpectedTensors(names) => {
                out.append("checkpoint contains unexpected tensors: ");
                push_names(&mut out, names.as_slice());
            },
            Error::InputShape { actual } => {
                out.append("invalid input shape ");
                push_shape(&mut out, actual.as_slice());
                out.append("; expected [batch, frames, 2049, 2]");
            },
        }
        out
    }
}

} // verus!
