//! Laws of checkpoints.
use crate::checkpoint::{
    contents, groups_divide, looked_up, metadata_map, truncated_quotient, weight_shape, Checkpoint,
    Conv1d, Metadata, Tensor,
};
use crate::error::Error;
use crate::laws::names::law_ascending_lists_are_sorted;
use crate::names::bytes_precede;
use crate::text::{quoted, views};
use vstd::prelude::*;
use vstd::utf8::encode_utf8;

verus! {

/// Entry `i` is the last one of its key.
pub open spec fn is_last_entry(metadata: Seq<Metadata>, key: Seq<char>, i: int) -> bool {
    &&& 0 <= i < metadata.len()
    &&& metadata[i].key@ == key
    &&& forall|j: int| i < j < metadata.len() ==> (#[trigger] metadata[j]).key@ != key
}

/// The metadata says `value` under `key`: the last entry of that key does.
pub open spec fn says(metadata: Seq<Metadata>, key: Seq<char>, value: Seq<char>) -> bool {
    exists|i: int| #[trigger] is_last_entry(metadata, key, i) && metadata[i].value@ == value
}

/// The metadata has no entry of a key.
pub open spec fn is_silent(metadata: Seq<Metadata>, key: Seq<char>) -> bool {
    forall|j: int| 0 <= j < metadata.len() ==> (#[trigger] metadata[j]).key@ != key
}

/// Tensor `i` is the last one of its name.
pub open spec fn is_last_tensor<A>(tensors: Seq<Tensor<A>>, i: int) -> bool {
    &&& 0 <= i < tensors.len()
    &&& forall|j: int| i < j < tensors.len() ==> (#[trigger] tensors[j]).name@ != tensors[i].name@
}

/// What is looked up in metadata is what its last entry of that key says.
pub proof fn law_last_entries_count(metadata: Seq<Metadata>, key: Seq<char>, value: Seq<char>)
    ensures
        looked_up(metadata_map(metadata), key) == Some(value) <==> says(metadata, key, value),
        looked_up(metadata_map(metadata), key) is None <==> is_silent(metadata, key),
    decreases metadata.len(),
{
    if metadata.len() > 0 {
        let (shorter, last) = (metadata.drop_last(), metadata.len() - 1);
        law_last_entries_count(shorter, key, value);
        if metadata[last].key@ == key {
            assert(is_last_entry(metadata, key, last));
            assert forall|i: int| #[trigger] is_last_entry(metadata, key, i) implies i == last by {
                if i < last {
                    assert(metadata[last].key@ != key);
                }
            }
        } else {
            if says(shorter, key, value) {
                let i = choose|i: int| #[trigger]
                    is_last_entry(shorter, key, i) && shorter[i].value@ == value;
                assert forall|j: int| i < j < metadata.len() implies (
                #[trigger] metadata[j]).key@ != key by {
                    if j < last {
                        assert(shorter[j].key@ != key);
                    }
                }
                assert(metadata[i] == shorter[i]);
                assert(is_last_entry(metadata, key, i));
            }
            if says(metadata, key, value) {
                let i = choose|i: int| #[trigger]
                    is_last_entry(metadata, key, i) && metadata[i].value@ == value;
                assert(i < last);
                assert forall|j: int| i < j < shorter.len() implies (#[trigger] shorter[j]).key@
                    != key by {
                    assert(metadata[j].key@ != key);
                }
                assert(shorter[i] == metadata[i]);
                assert(is_last_entry(shorter, key, i));
            }
            if is_silent(shorter, key) {
                assert forall|j: int| 0 <= j < metadata.len() implies (
                #[trigger] metadata[j]).key@ != key by {
                    if j < last {
                        assert(shorter[j].key@ != key);
                    }
                }
            }
            if is_silent(metadata, key) {
                assert forall|j: int| 0 <= j < shorter.len() implies (#[trigger] shorter[j]).key@
                    != key by {
                    assert(metadata[j].key@ != key);
                }
            }
        }
    }
}

/// A list of tensors holds the last one of every name, with its shape and its array, and no name
/// that none of them has.
pub proof fn law_last_tensors_count<A>(tensors: Seq<Tensor<A>>)
    ensures
        forall|i: int| #[trigger]
            is_last_tensor(tensors, i) ==> {
                &&& contents(tensors).dom().contains(tensors[i].name@)
                &&& contents(tensors)[tensors[i].name@] == (tensors[i].shape@, tensors[i].array)
            },
        forall|n: Seq<char>| #[trigger]
            contents(tensors).dom().contains(n) <==> exists|i: int|
                0 <= i < tensors.len() && (#[trigger] tensors[i]).name@ == n,
    decreases tensors.len(),
{
    if tensors.len() > 0 {
        let (shorter, last) = (tensors.drop_last(), tensors.len() - 1);
        law_last_tensors_count(shorter);
        assert forall|i: int| #[trigger] is_last_tensor(tensors, i) implies {
            &&& contents(tensors).dom().contains(tensors[i].name@)
            &&& contents(tensors)[tensors[i].name@] == (tensors[i].shape@, tensors[i].array)
        } by {
            if i < last {
                assert(tensors[last].name@ != tensors[i].name@);
                assert forall|j: int| i < j < shorter.len() implies (#[trigger] shorter[j]).name@
                    != shorter[i].name@ by {
                    assert(tensors[j].name@ != tensors[i].name@);
                }
                assert(is_last_tensor(shorter, i));
                assert(shorter[i] == tensors[i]);
            }
        }
        assert forall|n: Seq<char>| #[trigger] contents(tensors).dom().contains(n) <==> exists|
            i: int,
        | 0 <= i < tensors.len() && (#[trigger] tensors[i]).name@ == n by {
            if contents(tensors).dom().contains(n) {
                if n == tensors[last].name@ {
                } else {
                    assert(contents(shorter).dom().contains(n));
                    let i = choose|i: int|
                        0 <= i < shorter.len() && (#[trigger] shorter[i]).name@ == n;
                    assert(tensors[i].name@ == n);
                }
            }
            if exists|i: int| 0 <= i < tensors.len() && (#[trigger] tensors[i]).name@ == n {
                let i = choose|i: int| 0 <= i < tensors.len() && (#[trigger] tensors[i]).name@ == n;
                if i < last {
                    assert(shorter[i].name@ == n);
                    assert(contents(shorter).dom().contains(n));
                }
            }
        }
    }
}

/// A checkpoint is loaded exactly where its metadata says that the weights are in the layout of
/// this library and of its type; any other value of either, or none, is refused. The layout is
/// asked for first, and the message shows what was found in its place.
pub proof fn law_only_converted_checkpoints_are_loaded<A>(
    tensors: Vec<Tensor<A>>,
    metadata: &[Metadata],
    r: Result<Checkpoint<A>, Error>,
)
    requires
        call_ensures(Checkpoint::<A>::load, (tensors, metadata), r),
    ensures
        ({
            let layout = says(
                metadata@,
                "conv1d_weight_layout"@,
                "out_kernel_in_per_group"@,
            );
            let dtype = says(metadata@, "dtype"@, "float32"@);
            &&& r is Ok <==> layout && dtype
            &&& match r {
                Ok(_) => true,
                Err(Error::CheckpointMetadata(m)) => if layout {
                    m@ == "converted checkpoint must retain float32 weights"@
                } else {
                    &&& is_silent(metadata@, "conv1d_weight_layout"@) ==> m@
                        == "conv1d_weight_layout is "@ + "None"@
                        + ", expected out_kernel_in_per_group"@
                    &&& forall|i: int| #[trigger]
                        is_last_entry(metadata@, "conv1d_weight_layout"@, i) ==> m@
                            == "conv1d_weight_layout is "@ + ("Some("@ + quoted(
                            metadata@[i].value@,
                        ) + ")"@) + ", expected out_kernel_in_per_group"@
                },
                Err(_) => false,
            }
        }),
{
    let key = "conv1d_weight_layout"@;
    law_last_entries_count(metadata@, key, "out_kernel_in_per_group"@);
    law_last_entries_count(metadata@, "dtype"@, "float32"@);
    assert forall|i: int| #[trigger] is_last_entry(metadata@, key, i) implies looked_up(
        metadata_map(metadata@),
        key,
    ) == Some(metadata@[i].value@) by {
        law_last_entries_count(metadata@, key, metadata@[i].value@);
    }
}

/// A loaded checkpoint holds every tensor that it was given, the last of each name, and no
/// others.
pub proof fn law_loaded_checkpoints_hold_their_tensors<A>(
    tensors: Vec<Tensor<A>>,
    metadata: &[Metadata],
    checkpoint: Checkpoint<A>,
    name: Seq<char>,
    i: int,
)
    requires
        call_ensures(
            Checkpoint::<A>::load,
            (tensors, metadata),
            Ok::<Checkpoint<A>, Error>(checkpoint),
        ),
    ensures
        checkpoint@.dom().contains(name) <==> exists|k: int|
            0 <= k < tensors@.len() && (#[trigger] tensors@[k]).name@ == name,
        is_last_tensor(tensors@, i) ==> checkpoint@.dom().contains(tensors@[i].name@)
            && checkpoint@[tensors@[i].name@] == (tensors@[i].shape@, tensors@[i].array),
{
    law_last_tensors_count(tensors@);
}

/// A tensor is handed out exactly where it is held in the shape that was asked for: the array
/// that stands under its name. It is gone afterwards, as it is where its shape was another one;
/// then the error holds both shapes. All other tensors stay.
pub proof fn law_tensors_are_handed_out_once<A>(
    checkpoint: &mut Checkpoint<A>,
    name: String,
    shape: &[i32],
    r: Result<A, Error>,
    other: Seq<char>,
)
    requires
        call_ensures(Checkpoint::<A>::tensor, (checkpoint, name, shape), r),
    ensures
        ({
            let (before, after) = (old(checkpoint)@, final(checkpoint)@);
            &&& r is Ok <==> before.dom().contains(name@) && before[name@].0 == shape@
            &&& !after.dom().contains(name@)
            &&& other != name@ ==> {
                &&& after.dom().contains(other) <==> before.dom().contains(other)
                &&& before.dom().contains(other) ==> after[other] == before[other]
            }
            &&& match r {
                Ok(array) => array == before[name@].1,
                Err(Error::MissingTensor(missing)) => missing@ == name@ && !before.dom().contains(
                    name@,
                ),
                Err(Error::TensorShape { name: shown, actual, expected }) => {
                    &&& before.dom().contains(name@)
                    &&& shown@ == name@
                    &&& actual@ == before[name@].0
                    &&& expected@ == shape@
                },
                Err(_) => false,
            }
        }),
{
}

/// Division without a fraction: the quotient times the divisor is as near to the dividend as it
/// gets without passing it, on the side of zero.
pub proof fn law_quotients_drop_the_fraction(a: int, b: int)
    requires
        b != 0,
    ensures
        ({
            let rest = a - truncated_quotient(a, b) * b;
            &&& -b < rest < b || b < rest < -b
            &&& a >= 0 ==> 0 <= rest <= a
            &&& a <= 0 ==> a <= rest <= 0
        }),
{
    let (x, y) = (if a < 0 { -a } else { a }, if b < 0 { -b } else { b });
    let q = x / y;
    vstd::arithmetic::div_mod::lemma_fundamental_div_mod(x, y);
    assert(0 <= q * y <= x && x - q * y < y) by (nonlinear_arith)
        requires
            x == y * q + x % y,
            0 <= x % y < y,
            x >= 0,
            q == x / y,
            y > 0,
    ;
    assert((-q) * b == -(q * b) && q * (-b) == -(q * b)) by (nonlinear_arith);
    assert(truncated_quotient(a, b) * b == if a < 0 {
        -(q * y)
    } else {
        q * y
    });
}

/// Filters have a row per output channel, of taps, each over the channels of one group.
pub proof fn law_filters_are_laid_out_by_output(
    input_channels: i32,
    output_channels: i32,
    kernel_size: i32,
    groups: i32,
)
    requires
        groups != 0,
        !(input_channels == i32::MIN && groups == -1),
    ensures
        ({
            let shape = weight_shape(input_channels, output_channels, kernel_size, groups);
            let rest = input_channels - shape[2] * groups;
            &&& shape.len() == 3
            &&& shape[0] == output_channels
            &&& shape[1] == kernel_size
            &&& -groups < rest < groups || groups < rest < -groups
            &&& input_channels >= 0 ==> 0 <= rest <= input_channels
            &&& input_channels <= 0 ==> input_channels <= rest <= 0
        }),
{
    let (a, b) = (input_channels as int, groups as int);
    let q = truncated_quotient(a, b);
    law_quotients_drop_the_fraction(a, b);
    lemma_quotient_is_small(a, b);
    assert(i32::MIN <= q <= i32::MAX);
}

/// A convolution is taken out exactly where its weight is held in the layout of filters, and its
/// bias, where it has one, with one value per output channel. It holds those arrays and is what
/// was asked for: its padding, its dilation and its groups each for itself, and its kernel moves
/// by one sample at a time. The arrays are gone afterwards, and no others.
pub proof fn law_convolutions_are_what_was_asked_for<A>(
    checkpoint: &mut Checkpoint<A>,
    prefix: &str,
    input_channels: i32,
    output_channels: i32,
    kernel_size: i32,
    bias: bool,
    padding: i32,
    dilation: i32,
    groups: i32,
    r: Result<Conv1d<A>, Error>,
    other: Seq<char>,
)
    requires
        groups != 0,
        !(input_channels == i32::MIN && groups == -1),
        call_ensures(
            Checkpoint::<A>::conv1d,
            (
                checkpoint,
                prefix,
                input_channels,
                output_channels,
                kernel_size,
                bias,
                padding,
                dilation,
                groups,
            ),
            r,
        ),
    ensures
        ({
            let (before, after) = (old(checkpoint)@, final(checkpoint)@);
            let (w, b) = (prefix@ + ".weight"@, prefix@ + ".bias"@);
            let filters = weight_shape(input_channels, output_channels, kernel_size, groups);
            let has_weight = before.dom().contains(w) && before[w].0 == filters;
            let has_bias = before.dom().contains(b) && before[b].0 == seq![output_channels];
            &&& r is Ok <==> has_weight && (bias ==> has_bias)
            &&& r matches Ok(layer) ==> {
                &&& layer.weight == before[w].1
                &&& bias ==> layer.bias == Some(before[b].1)
                &&& !bias ==> layer.bias is None
                &&& layer.stride == 1
                &&& layer.padding == padding
                &&& layer.dilation == dilation
                &&& layer.groups == groups
            }
            // What is gone: the weight, and the bias where it was asked for.
            &&& !after.dom().contains(w)
            &&& bias && has_weight ==> !after.dom().contains(b)
            &&& other != w && !(other == b && bias && has_weight) ==> {
                &&& after.dom().contains(other) <==> before.dom().contains(other)
                &&& before.dom().contains(other) ==> after[other] == before[other]
            }
            // What is said where it is not taken out: of the weight, and else of the bias.
            &&& match r {
                Ok(_) => true,
                Err(Error::MissingTensor(n)) => if !has_weight {
                    n@ == w && !before.dom().contains(w)
                } else {
                    n@ == b && !before.dom().contains(b)
                },
                Err(Error::TensorShape { name, actual, expected }) => if !has_weight {
                    &&& before.dom().contains(w)
                    &&& name@ == w && actual@ == before[w].0 && expected@ == filters
                } else {
                    &&& before.dom().contains(b)
                    &&& name@ == b && actual@ == before[b].0 && expected@ == seq![
                        output_channels,
                    ]
                },
                Err(_) => false,
            }
        }),
{
    let (w, b) = (prefix@ + ".weight"@, prefix@ + ".bias"@);
    reveal_strlit(".weight");
    reveal_strlit(".bias");
    assert(w.len() != b.len());
}

/// Channels can be divided wherever there is a number of groups and the channels of one group
/// are a number again, and only there.
pub proof fn law_groups_divide_channels(input_channels: i32, groups: i32, r: bool)
    requires
        call_ensures(groups_divide, (input_channels, groups), r),
    ensures
        r <==> groups != 0 && i32::MIN <= truncated_quotient(input_channels as int, groups as int)
            <= i32::MAX,
{
    if r {
        lemma_quotient_is_small(input_channels as int, groups as int);
    } else if groups != 0 {
        assert(truncated_quotient(i32::MIN as int, -1) == 0x8000_0000);
    }
}

/// A quotient is no larger than its dividend, and no larger than half of it where it is not
/// divided by one.
proof fn lemma_quotient_is_small(a: int, b: int)
    requires
        b != 0,
    ensures
        ({
            let q = truncated_quotient(a, b);
            let x = if a < 0 { -a } else { a };
            &&& -x <= q <= x
            &&& b < -1 || b > 1 ==> -x / 2 - 1 <= q <= x / 2
        }),
{
    let (x, y) = (if a < 0 { -a } else { a }, if b < 0 { -b } else { b });
    assert(0 <= x / y <= x) by (nonlinear_arith)
        requires
            0 <= x,
            1 <= y,
    ;
    if y >= 2 {
        assert(x / y <= x / 2) by (nonlinear_arith)
            requires
                0 <= x,
                2 <= y,
        ;
    }
}

/// A checkpoint is finished exactly where nothing is left in it. Otherwise the error names all
/// that is left, each tensor once, in the order of the bytes of their names.
pub proof fn law_leftovers_are_named<A>(checkpoint: Checkpoint<A>, r: Result<(), Error>)
    requires
        call_ensures(Checkpoint::<A>::finish, (checkpoint,), r),
    ensures
        r is Ok <==> forall|n: Seq<char>| !(#[trigger] checkpoint@.dom().contains(n)),
        match r {
            Ok(_) => true,
            Err(Error::UnexpectedTensors(names)) => {
                &&& forall|i: int|
                    0 <= i < names@.len() ==> checkpoint@.dom().contains(
                        (#[trigger] names@[i])@,
                    )
                &&& forall|n: Seq<char>| #[trigger]
                    checkpoint@.dom().contains(n) ==> exists|i: int|
                        0 <= i < names@.len() && (#[trigger] names@[i])@ == n
                &&& forall|i: int, j: int|
                    #![trigger names@[i], names@[j]]
                    0 <= i < j < names@.len() ==> bytes_precede(
                        encode_utf8(names@[i]@),
                        encode_utf8(names@[j]@),
                    )
            },
            Err(_) => false,
        },
{
    let held = checkpoint@;
    match r {
        Ok(_) => {},
        Err(e) => {
            if let Error::UnexpectedTensors(names) = e {
                let list = views(names@);
                law_ascending_lists_are_sorted(list);
                assert(list.len() == names@.len());
                assert(forall|i: int| 0 <= i < list.len() ==> list[i] == names@[i]@);
                assert forall|i: int| 0 <= i < names@.len() implies held.dom().contains(
                    (#[trigger] names@[i])@,
                ) by {
                    assert(list.contains(list[i]));
                    assert(list.to_set().contains(list[i]));
                }
                assert forall|n: Seq<char>| #[trigger] held.dom().contains(n) implies exists|
                    i: int,
                | 0 <= i < names@.len() && (#[trigger] names@[i])@ == n by {
                    assert(list.to_set().contains(n));
                    let i = choose|i: int| 0 <= i < list.len() && list[i] == n;
                    assert(names@[i]@ == n);
                }
                assert forall|i: int, j: int|
                    #![trigger names@[i], names@[j]]
                    0 <= i < j < names@.len() implies bytes_precede(
                    encode_utf8(names@[i]@),
                    encode_utf8(names@[j]@),
                ) by {
                    assert(list[i] == names@[i]@ && list[j] == names@[j]@);
                }
                if forall|n: Seq<char>| !(#[trigger] held.dom().contains(n)) {
                    assert(held.dom() =~= Set::empty());
                }
            }
        },
    }
}

} // verus!
