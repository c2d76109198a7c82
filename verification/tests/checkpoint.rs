use srs_inference::checkpoint::{groups_divide, Checkpoint, Metadata, Tensor};
use srs_inference::error::Error;

fn tensor(name: &str, shape: &[i32], array: u32) -> Tensor<u32> {
    Tensor { name: name.to_string(), shape: shape.to_vec(), array }
}

fn entry(key: &str, value: &str) -> Metadata {
    Metadata { key: key.to_string(), value: value.to_string() }
}

fn metadata() -> Vec<Metadata> {
    vec![
        entry("format", "pt"),
        entry("conv1d_weight_layout", "out_kernel_in_per_group"),
        entry("dtype", "float32"),
    ]
}

fn checkpoint(tensors: Vec<Tensor<u32>>) -> Checkpoint<u32> {
    Checkpoint::load(tensors, &metadata()).unwrap()
}

#[test]
fn layout_must_be_the_converted_one() {
    let wrong = vec![entry("conv1d_weight_layout", "out_\"in\"_kernel"), entry("dtype", "float32")];
    let error = Checkpoint::load(vec![tensor("a", &[1], 1)], &wrong).unwrap_err();
    assert_eq!(
        error.message(),
        "invalid checkpoint metadata: conv1d_weight_layout is Some(\"out_\\\"in\\\"_kernel\"), \
         expected out_kernel_in_per_group"
    );
    let error = Checkpoint::load(vec![tensor("a", &[1], 1)], &[]).unwrap_err();
    assert_eq!(
        error.message(),
        "invalid checkpoint metadata: conv1d_weight_layout is None, \
         expected out_kernel_in_per_group"
    );
}

#[test]
fn weights_must_be_float32() {
    let missing = vec![entry("conv1d_weight_layout", "out_kernel_in_per_group")];
    match Checkpoint::load(vec![tensor("a", &[1], 1)], &missing) {
        Err(Error::CheckpointMetadata(text)) => {
            assert_eq!(text, "converted checkpoint must retain float32 weights")
        }
        _ => panic!("accepted"),
    }
    let mut wrong = metadata();
    wrong.push(entry("dtype", "bfloat16"));
    assert!(Checkpoint::load(vec![tensor("a", &[1], 1)], &wrong).is_err());
}

#[test]
fn tensors_are_taken_out_by_name() {
    let mut c = checkpoint(vec![tensor("a", &[2, 3], 10), tensor("b", &[], 20)]);
    assert_eq!(c.tensor("b".to_string(), &[]).unwrap(), 20);
    assert_eq!(c.tensor("a".to_string(), &[2, 3]).unwrap(), 10);
    assert!(c.finish().is_ok());
}

#[test]
fn tensors_can_be_taken_out_once() {
    let mut c = checkpoint(vec![tensor("a", &[2], 10)]);
    assert!(c.tensor("a".to_string(), &[2]).is_ok());
    match c.tensor("a".to_string(), &[2]) {
        Err(Error::MissingTensor(name)) => assert_eq!(name, "a"),
        _ => panic!("taken twice"),
    }
}

#[test]
fn shapes_must_match() {
    let mut c = checkpoint(vec![tensor("layer.weight", &[4, 3, 2], 10)]);
    let error = c.tensor("layer.weight".to_string(), &[4, 3]).unwrap_err();
    assert_eq!(
        error.message(),
        "tensor layer.weight has shape [4, 3, 2], expected [4, 3]"
    );
    // A tensor of the wrong shape is gone as well.
    assert_eq!(
        c.tensor("layer.weight".to_string(), &[4, 3, 2]).unwrap_err().message(),
        "checkpoint is missing tensor layer.weight"
    );
    assert!(c.finish().is_ok());
}

#[test]
fn order_of_taking_makes_no_difference() {
    let all = || vec![tensor("a", &[1], 1), tensor("b", &[2], 2), tensor("c", &[3], 3)];
    let mut x = checkpoint(all());
    let mut y = checkpoint(all());
    assert_eq!(x.tensor("a".to_string(), &[1]).unwrap(), 1);
    assert_eq!(x.tensor("c".to_string(), &[3]).unwrap(), 3);
    assert_eq!(y.tensor("c".to_string(), &[3]).unwrap(), 3);
    assert_eq!(y.tensor("a".to_string(), &[1]).unwrap(), 1);
    assert_eq!(x.finish().unwrap_err().message(), y.finish().unwrap_err().message());
}

#[test]
fn later_tensors_replace_earlier_ones() {
    let mut c = checkpoint(vec![tensor("a", &[1], 1), tensor("b", &[1], 2), tensor("a", &[2], 3)]);
    assert_eq!(c.tensor("a".to_string(), &[2]).unwrap(), 3);
    assert!(c.tensor("a".to_string(), &[1]).is_err());
    assert_eq!(c.tensor("b".to_string(), &[1]).unwrap(), 2);
    assert!(c.finish().is_ok());
}

#[test]
fn convolutions_take_weight_and_bias() {
    let mut c = checkpoint(vec![
        tensor("net.0.bias", &[8], 2),
        tensor("net.0.weight", &[8, 3, 2], 1),
        tensor("net.1.weight", &[4, 1, 8], 3),
    ]);
    let grouped = c.conv1d("net.0", 4, 8, 3, true, 1, 2, 2).unwrap();
    assert_eq!(grouped.weight, 1);
    assert_eq!(grouped.bias, Some(2));
    assert_eq!(grouped.stride, 1);
    assert_eq!(grouped.padding, 1);
    assert_eq!(grouped.dilation, 2);
    assert_eq!(grouped.groups, 2);
    let plain = c.conv1d("net.1", 8, 4, 1, false, 0, 1, 1).unwrap();
    assert_eq!(plain.weight, 3);
    assert_eq!(plain.bias, None);
    assert!(c.finish().is_ok());
}

#[test]
fn convolutions_report_what_is_missing() {
    let mut c = checkpoint(vec![tensor("net.weight", &[8, 3, 4], 1)]);
    let error = c.conv1d("net", 4, 8, 3, true, 0, 1, 1).unwrap_err();
    assert_eq!(error.message(), "checkpoint is missing tensor net.bias");
    // The weight has been taken out before.
    assert!(c.finish().is_ok());

    let mut c = checkpoint(vec![tensor("net.weight", &[8, 3, 4], 1), tensor("net.bias", &[8], 2)]);
    let error = c.conv1d("net", 7, 8, 3, true, 0, 1, 2).unwrap_err();
    assert_eq!(error.message(), "tensor net.weight has shape [8, 3, 4], expected [8, 3, 3]");
    assert_eq!(
        c.finish().unwrap_err().message(),
        "checkpoint contains unexpected tensors: [\"net.bias\"]"
    );
}

#[test]
fn channels_per_group_drop_the_fraction() {
    for (channels, groups) in [(7, 2), (-7, 2), (7, -2), (-7, -2), (i32::MIN, 2), (3, 5)] {
        let mut c = checkpoint(vec![tensor("n.weight", &[1, 1, channels / groups], 1)]);
        assert!(c.conv1d("n", channels, 1, 1, false, 0, 1, groups).is_ok());
    }
}

#[test]
fn leftovers_are_listed_in_order() {
    let c = checkpoint(vec![
        tensor("b", &[1], 1),
        tensor("a.10", &[1], 2),
        tensor("a", &[1], 3),
        tensor("B", &[1], 4),
        tensor("\u{e9}", &[1], 5),
        tensor("a.2", &[1], 6),
    ]);
    match c.finish() {
        Err(Error::UnexpectedTensors(names)) => {
            let mut expected: Vec<String> =
                ["b", "a.10", "a", "B", "\u{e9}", "a.2"].iter().map(|s| s.to_string()).collect();
            expected.sort();
            assert_eq!(names, expected);
            assert_eq!(names[0], "B");
            assert_eq!(names[5], "\u{e9}");
        }
        _ => panic!("finished"),
    }
}

#[test]
fn many_leftovers_sort_like_strings() {
    let mut tensors: Vec<Tensor<u32>> = Vec::new();
    let mut expected: Vec<String> = Vec::new();
    for i in 0..200u32 {
        let name = format!("blocks.{}.conv.{}", i * 7919 % 97, i);
        tensors.push(tensor(&name, &[1], i));
        expected.push(name);
    }
    expected.sort();
    match checkpoint(tensors).finish() {
        Err(Error::UnexpectedTensors(names)) => assert_eq!(names, expected),
        _ => panic!("finished"),
    }
}

#[test]
fn empty_checkpoints_are_finished() {
    assert!(checkpoint(vec![]).finish().is_ok());
}

#[test]
fn failed_requests_count_as_taken() {
    let mut c = checkpoint(vec![tensor("a", &[1], 1), tensor("b", &[2], 2)]);
    assert!(c.tensor("a".to_string(), &[7]).is_err());
    assert!(c.tensor("missing".to_string(), &[1]).is_err());
    assert!(c.tensor("b".to_string(), &[2]).is_ok());
    assert!(c.tensor("b".to_string(), &[2]).is_err());
    assert!(c.finish().is_ok());
}

#[test]
fn groups_must_divide() {
    assert!(groups_divide(7, 2));
    assert!(groups_divide(i32::MIN, 1));
    assert!(!groups_divide(7, 0));
    assert!(!groups_divide(i32::MIN, -1));
}
