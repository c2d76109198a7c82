use srs_inference::error::Error;

#[test]
fn outside_failures_keep_their_message() {
    assert_eq!(Error::Mlx("out of memory".to_string()).message(), "out of memory");
    assert_eq!(Error::MlxIo("no such file".to_string()).message(), "no such file");
    assert_eq!(Error::Wav("disk full".to_string()).message(), "disk full");
    assert_eq!(Error::Babycat("bad header".to_string()).message(), "bad header");
}

#[test]
fn shapes_are_written_as_lists() {
    let error = Error::TensorShape {
        name: "a".to_string(),
        actual: vec![1, -20, i32::MAX, i32::MIN, 0],
        expected: vec![],
    };
    assert_eq!(
        error.message(),
        format!("tensor a has shape {:?}, expected []", [1, -20, i32::MAX, i32::MIN, 0])
    );
    assert_eq!(
        Error::InputShape { actual: vec![1, 10, 2048, 2] }.message(),
        "invalid input shape [1, 10, 2048, 2]; expected [batch, frames, 2049, 2]"
    );
}

#[test]
fn names_are_written_in_quotes() {
    let names = vec!["a".to_string(), "b \"c\"\n".to_string(), "\u{e9}".to_string()];
    assert_eq!(
        Error::UnexpectedTensors(names.clone()).message(),
        format!("checkpoint contains unexpected tensors: {names:?}")
    );
}

#[test]
fn remaining_messages() {
    assert_eq!(Error::InvalidAudio("x".to_string()).message(), "invalid audio: x");
    assert_eq!(
        Error::MissingTensor("x".to_string()).message(),
        "checkpoint is missing tensor x"
    );
    assert_eq!(
        Error::CheckpointMetadata("x".to_string()).message(),
        "invalid checkpoint metadata: x"
    );
    let both = Error::AudioDecode { babycat: "x".to_string(), fallback: "y".to_string() };
    assert_eq!(both.message(), "audio decode failed; babycat: x; fallback: y");
}
