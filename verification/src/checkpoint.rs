//! Checkpoints: named tensors that a model takes out one by one until none is left.
use crate::error::{Error, ErrorView};
use crate::names::{ascending, lemma_distinct_in_order_is_ascending, sort_names};
use crate::text::{optional_text, some_text, views};
use vstd::prelude::*;
use vstd::slice::slice_to_vec;

verus! {

/// A named tensor of a checkpoint, its array held as an `A`.
#[derive(Debug)]
pub struct Tensor<A> {
    /// Name in the checkpoint.
    pub name: String,
    /// Dimensions of the array.
    pub shape: Vec<i32>,
    /// The array.
    pub array: A,
}

/// A key of the metadata of a checkpoint, with its value.
#[derive(Debug)]
pub struct Metadata {
    /// Name of the entry.
    pub key: String,
    /// What it says.
    pub value: String,
}

/// The tensors of a checkpoint that have not been taken out yet.
#[derive(Debug)]
pub struct Checkpoint<A> {
    tensors: Vec<Tensor<A>>,
}

/// A one-dimensional convolution made of checkpoint tensors.
#[derive(Debug)]
pub struct Conv1d<A> {
    /// Filters, laid out as `[output, kernel, input per group]`.
    pub weight: A,
    /// One value per output channel, where the layer has any.
    pub bias: Option<A>,
    /// Distance between two applications of the kernel.
    pub stride: i32,
    /// Zeros on both sides of the input.
    pub padding: i32,
    /// Distance between two taps of the kernel.
    pub dilation: i32,
    /// Number of groups that the channels are split into.
    pub groups: i32,
}

/// Tensors by name, each with its shape and its array.
pub type Contents<A> = Map<Seq<char>, (Seq<i32>, A)>;

/// What a list of tensors holds by name; of two with one name, the later.
pub open spec fn contents<A>(tensors: Seq<Tensor<A>>) -> Contents<A>
    decreases tensors.len(),
{
    if tensors.len() == 0 {
        Map::empty()
    } else {
        let t = tensors.last();
        contents(tensors.drop_last()).insert(t.name@, (t.shape@, t.array))
    }
}

/// What a list of metadata entries says by key; of two with one key, the later.
pub open spec fn metadata_map(entries: Seq<Metadata>) -> Map<Seq<char>, Seq<char>>
    decreases entries.len(),
{
    if entries.len() == 0 {
        Map::empty()
    } else {
        metadata_map(entries.drop_last()).insert(entries.last().key@, entries.last().value@)
    }
}

/// What is found under `key`.
pub open spec fn looked_up<V>(map: Map<Seq<char>, V>, key: Seq<char>) -> Option<V> {
    if map.dom().contains(key) {
        Some(map[key])
    } else {
        None
    }
}

/// Why a checkpoint with this metadata is refused; `None` where it is not.
pub open spec fn metadata_refusal(metadata: Map<Seq<char>, Seq<char>>) -> Option<ErrorView> {
    let layout = looked_up(metadata, "conv1d_weight_layout"@);
    if layout != Some("out_kernel_in_per_group"@) {
        Some(
            ErrorView::CheckpointMetadata(
                "conv1d_weight_layout is "@ + optional_text(layout)
                    + ", expected out_kernel_in_per_group"@,
            ),
        )
    } else if looked_up(metadata, "dtype"@) != Some("float32"@) {
        Some(
            ErrorView::CheckpointMetadata("converted checkpoint must retain float32 weights"@),
        )
    } else {
        None
    }
}

/// The outcome of taking out one tensor: what is answered, and what is left.
pub open spec fn take_tensor<A>(
    held: Contents<A>,
    name: Seq<char>,
    shape: Seq<i32>,
) -> (Result<A, ErrorView>, Contents<A>) {
    if !held.dom().contains(name) {
        (Err(ErrorView::MissingTensor(name)), held)
    } else if held[name].0 != shape {
        (
            Err(ErrorView::TensorShape { name, actual: held[name].0, expected: shape }),
            held.remove(name),
        )
    } else {
        (Ok(held[name].1), held.remove(name))
    }
}

/// Division of integers that drops the fraction, whatever the signs.
pub open spec fn truncated_quotient(a: int, b: int) -> int {
    if a < 0 && b < 0 {
        (-a) / (-b)
    } else if a < 0 {
        -((-a) / b)
    } else if b < 0 {
        -(a / (-b))
    } else {
        a / b
    }
}

/// The quotient of `a` and `b` exists and is an `i32` again.
pub open spec fn can_divide(a: i32, b: i32) -> bool {
    b != 0 && !(a == i32::MIN && b == -1)
}

/// The shape of the filters of a convolution.
pub open spec fn weight_shape(
    input_channels: i32,
    output_channels: i32,
    kernel_size: i32,
    groups: i32,
) -> Seq<i32> {
    seq![
        output_channels,
        kernel_size,
        truncated_quotient(input_channels as int, groups as int) as i32,
    ]
}

/// The outcome of taking out the tensors of a convolution: the weight first, then the bias
/// where there is one; what was taken out before a failure stays out.
pub open spec fn take_conv1d<A>(
    held: Contents<A>,
    prefix: Seq<char>,
    weight_shape: Seq<i32>,
    output_channels: i32,
    bias: bool,
    padding: i32,
    dilation: i32,
    groups: i32,
) -> (Result<Conv1d<A>, ErrorView>, Contents<A>) {
    let (weight, left) = take_tensor(held, prefix + ".weight"@, weight_shape);
    match weight {
        Err(e) => (Err(e), left),
        Ok(weight) => if bias {
            let (taken, left) = take_tensor(left, prefix + ".bias"@, seq![output_channels]);
            match taken {
                Err(e) => (Err(e), left),
                Ok(b) => (
                    Ok(Conv1d { weight, bias: Some(b), stride: 1, padding, dilation, groups }),
                    left,
                ),
            }
        } else {
            (Ok(Conv1d { weight, bias: None, stride: 1, padding, dilation, groups }), left)
        },
    }
}

/// A result with its error taken by its view.
pub open spec fn outcome<T>(r: Result<T, Error>) -> Result<T, ErrorView> {
    match r {
        Ok(t) => Ok(t),
        Err(e) => Err(e@),
    }
}

/// No name occurs twice.
pub open spec fn distinct<A>(tensors: Seq<Tensor<A>>) -> bool {
    forall|i: int, j: int|
        0 <= i < j < tensors.len() ==> (#[trigger] tensors[i]).name@ != (#[trigger] tensors[j]).name@
}

/// Where no name occurs twice, each tensor is found under its name, and nothing else is found.
proof fn lemma_contents<A>(tensors: Seq<Tensor<A>>)
    requires
        distinct(tensors),
    ensures
        forall|i: int|
            0 <= i < tensors.len() ==> {
                &&& contents(tensors).dom().contains((#[trigger] tensors[i]).name@)
                &&& contents(tensors)[tensors[i].name@] == (tensors[i].shape@, tensors[i].array)
            },
        forall|n: Seq<char>| #[trigger]
            contents(tensors).dom().contains(n) ==> exists|i: int|
                0 <= i < tensors.len() && (#[trigger] tensors[i]).name@ == n,
    decreases tensors.len(),
{
    if tensors.len() > 0 {
        let shorter = tensors.drop_last();
        assert forall|i: int, j: int| 0 <= i < j < shorter.len() implies (
        #[trigger] shorter[i]).name@ != (#[trigger] shorter[j]).name@ by {
            assert(tensors[i].name@ != tensors[j].name@);
        }
        lemma_contents(shorter);
        assert forall|i: int| 0 <= i < tensors.len() implies {
            &&& contents(tensors).dom().contains((#[trigger] tensors[i]).name@)
            &&& contents(tensors)[tensors[i].name@] == (tensors[i].shape@, tensors[i].array)
        } by {
            if i < tensors.len() - 1 {
                assert(shorter[i] == tensors[i]);
                assert(tensors[i].name@ != tensors[tensors.len() - 1].name@);
            }
        }
        assert forall|n: Seq<char>| #[trigger] contents(tensors).dom().contains(n) implies exists|
            i: int,
        | 0 <= i < tensors.len() && (#[trigger] tensors[i]).name@ == n by {
            if n == tensors.last().name@ {
                assert(tensors[tensors.len() - 1].name@ == n);
            } else {
                assert(contents(shorter).dom().contains(n));
                let i = choose|i: int| 0 <= i < shorter.len() && (#[trigger] shorter[i]).name@ == n;
                assert(tensors[i].name@ == n);
            }
        }
    }
}

impl<A> View for Checkpoint<A> {
    type V = Contents<A>;

    closed spec fn view(&self) -> Contents<A> {
        contents(self.tensors@)
    }
}

impl<A> Checkpoint<A> {
    #[verifier::type_invariant]
    spec fn well_formed(&self) -> bool {
        distinct(self.tensors@)
    }

    /// Where the tensor of a given name stands.
    fn find(&self, name: &String) -> (r: Option<usize>)
        ensures
            match r {
                Some(i) => {
                    &&& i < self.tensors@.len()
                    &&& self.tensors@[i as int].name@ == name@
                    &&& self@.dom().contains(name@)
                },
                None => !self@.dom().contains(name@),
            },
    {
        proof {
            use_type_invariant(self);
            lemma_contents(self.tensors@);
        }
        let mut i: usize = 0;
        while i < self.tensors.len()
            invariant
                i <= self.tensors@.len(),
                forall|k: int|
                    0 <= k < self.tensors@.len() ==> self@.dom().contains(
                        (#[trigger] self.tensors@[k]).name@,
                    ),
                forall|k: int| 0 <= k < i ==> (#[trigger] self.tensors@[k]).name@ != name@,
            decreases self.tensors@.len() - i,
        {
            if self.tensors[i].name == *name {
                return Some(i);
            }
            i += 1;
        }
        None
    }

    /// Take out a tensor of a given shape.
    pub fn tensor(&mut self, name: String, shape: &[i32]) -> (r: Result<A, Error>)
        ensures
            (outcome(r), final(self)@) == take_tensor(old(self)@, name@, shape@),
    {
        proof {
            use_type_invariant(&*self);
            lemma_contents(self.tensors@);
        }
        match self.find(&name) {
            None => Err(Error::MissingTensor(name)),
            Some(i) => {
                let ghost before = self.tensors@;
                let mut tensors: Vec<Tensor<A>> = Vec::new();
                std::mem::swap(&mut tensors, &mut self.tensors);
                let taken: Tensor<A> = tensors.remove(i);
                proof {
                    lemma_remove(before, i as int);
                }
                self.tensors = tensors;
                if same_shape(taken.shape.as_slice(), shape) {
                    Ok(taken.array)
                } else {
                    Err(
                        Error::TensorShape {
                            name,
                            actual: taken.shape,
                            expected: slice_to_vec(shape),
                        },
                    )
                }
            },
        }
    }

    /// Take in the tensors of a checkpoint whose metadata describes the converted layout.
    pub fn load(tensors: Vec<Tensor<A>>, metadata: &[Metadata]) -> (r: Result<Self, Error>)
        ensures
            match (r, metadata_refusal(metadata_map(metadata@))) {
                (Ok(checkpoint), None) => checkpoint@ == contents(tensors@),
                (Err(e), Some(refusal)) => e@ == refusal,
                _ => false,
            },
    {
        let layout: Option<usize> = look_up(metadata, "conv1d_weight_layout");
        let expected_layout: String = "out_kernel_in_per_group".to_owned();
        let layout_matches: bool = match layout {
            Some(i) => metadata[i].value == expected_layout,
            None => false,
        };
        if !layout_matches {
            let found: String = match layout {
                Some(i) => some_text(metadata[i].value.as_str()),
                None => "None".to_owned(),
            };
            let mut text: String = String::new();
            text.append("conv1d_weight_layout is ");
            text.append(found.as_str());
            text.append(", expected out_kernel_in_per_group");
            return Err(Error::CheckpointMetadata(text));
        }
        let expected_type: String = "float32".to_owned();
        let type_matches: bool = match look_up(metadata, "dtype") {
            Some(i) => metadata[i].value == expected_type,
            None => false,
        };
        if !type_matches {
            return Err(
                Error::CheckpointMetadata(
                    "converted checkpoint must retain float32 weights".to_owned(),
                ),
            );
        }
        Ok(Self::collect(tensors))
    }

    /// Hold the tensors of a list by name.
    fn collect(tensors: Vec<Tensor<A>>) -> (r: Self)
        ensures
            r@ == contents(tensors@),
    {
        let mut rest: Vec<Tensor<A>> = tensors;
        let mut kept: Checkpoint<A> = Checkpoint { tensors: Vec::new() };
        assert(contents(tensors@).union_prefer_right(kept@) =~= contents(tensors@));
        while rest.len() > 0
            invariant
                contents(rest@).union_prefer_right(kept@) == contents(tensors@),
            decreases rest.len(),
        {
            let ghost rest_before = rest@;
            let ghost kept_before = kept@;
            if let Some(t) = rest.pop() {
                assert(rest_before.drop_last() =~= rest@);
                let ghost held = (t.shape@, t.array);
                if kept.find(&t.name).is_none() {
                    kept = kept.with(t);
                    assert(kept@ == kept_before.insert(t.name@, held));
                    assert(contents(rest@).union_prefer_right(kept@) =~= contents(
                        rest_before,
                    ).union_prefer_right(kept_before));
                } else {
                    assert(contents(rest@).union_prefer_right(kept@) =~= contents(
                        rest_before,
                    ).union_prefer_right(kept_before));
                }
            }
        }
        assert(contents(rest@).union_prefer_right(kept@) =~= kept@);
        kept
    }

    /// Hold one more tensor, under a name that is free.
    fn with(self, t: Tensor<A>) -> (r: Self)
        requires
            !self@.dom().contains(t.name@),
        ensures
            r@ == self@.insert(t.name@, (t.shape@, t.array)),
    {
        proof {
            use_type_invariant(&self);
            lemma_contents(self.tensors@);
        }
        let mut tensors: Vec<Tensor<A>> = self.tensors;
        let ghost before = tensors@;
        tensors.push(t);
        assert(tensors@.drop_last() =~= before);
        assert(distinct(tensors@));
        Checkpoint { tensors }
    }

    /// Take out the tensors of a convolution.
    pub fn conv1d(
        &mut self,
        prefix: &str,
        input_channels: i32,
        output_channels: i32,
        kernel_size: i32,
        bias: bool,
        padding: i32,
        dilation: i32,
        groups: i32,
    ) -> (r: Result<Conv1d<A>, Error>)
        requires
            can_divide(input_channels, groups),
        ensures
            (outcome(r), final(self)@) == take_conv1d(
                old(self)@,
                prefix@,
                weight_shape(input_channels, output_channels, kernel_size, groups),
                output_channels,
                bias,
                padding,
                dilation,
                groups,
            ),
    {
        let mut weight_name: String = prefix.to_owned();
        weight_name.append(".weight");
        let shape: [i32; 3] = [output_channels, kernel_size, quotient(input_channels, groups)];
        assert(shape@ =~= weight_shape(input_channels, output_channels, kernel_size, groups));
        let weight: A = match self.tensor(weight_name, &shape) {
            Ok(weight) => weight,
            Err(e) => return Err(e),
        };
        let bias: Option<A> = if bias {
            let mut bias_name: String = prefix.to_owned();
            bias_name.append(".bias");
            let shape: [i32; 1] = [output_channels];
            assert(shape@ =~= seq![output_channels]);
            match self.tensor(bias_name, &shape) {
                Ok(bias) => Some(bias),
                Err(e) => return Err(e),
            }
        } else {
            None
        };
        Ok(Conv1d { weight, bias, stride: 1, padding, dilation, groups })
    }

    /// Check that every tensor has been taken out.
    pub fn finish(self) -> (r: Result<(), Error>)
        ensures
            match r {
                Ok(()) => self@ == Map::<Seq<char>, (Seq<i32>, A)>::empty(),
                Err(e) => {
                    &&& self@.dom() != Set::<Seq<char>>::empty()
                    &&& e@ matches ErrorView::UnexpectedTensors(names)
                    &&& ascending(names)
                    &&& names.to_set() == self@.dom()
                },
            },
    {
        proof {
            use_type_invariant(&self);
            lemma_contents(self.tensors@);
        }
        let ghost held = self@;
        if self.tensors.len() == 0 {
            return Ok(());
        }
        let ghost tensors = self.tensors@;
        assert(held.dom().contains(tensors[0].name@));
        let names: Vec<String> = names_of(self.tensors);
        let sorted: Vec<String> = sort_names(names);
        proof {
            let (all, list) = (views(names@), views(sorted@));
            assert(all.no_duplicates());
            lemma_same_items(all, list);
            lemma_distinct_in_order_is_ascending(list);
            assert forall|n: Seq<char>| all.to_set().contains(n) <==> held.dom().contains(n) by {
                if all.contains(n) {
                    let k = choose|k: int| 0 <= k < all.len() && all[k] == n;
                    assert(tensors[k].name@ == n);
                }
                if held.dom().contains(n) {
                    let k = choose|k: int|
                        0 <= k < tensors.len() && (#[trigger] tensors[k]).name@ == n;
                    assert(all[k] == n);
                }
            }
            assert(list.to_set() =~= held.dom());
        }
        Err(Error::UnexpectedTensors(sorted))
    }
}

/// Whether channels can be divided among this number of groups.
pub fn groups_divide(input_channels: i32, groups: i32) -> (r: bool)
    ensures
        r == can_divide(input_channels, groups),
{
    groups != 0 && !(input_channels == i32::MIN && groups == -1)
}

/// The quotient of two integers, without its fraction.
fn quotient(a: i32, b: i32) -> (r: i32)
    requires
        can_divide(a, b),
    ensures
        r == truncated_quotient(a as int, b as int),
{
    proof {
        lemma_quotient_fits(a, b);
    }
    let x: i64 = if a < 0 { -(a as i64) } else { a as i64 };
    let y: i64 = if b < 0 { -(b as i64) } else { b as i64 };
    let q: i64 = x / y;
    if (a < 0) == (b < 0) {
        q as i32
    } else {
        (-q) as i32
    }
}

/// A quotient of two integers is one again, but for the one case that overflows.
proof fn lemma_quotient_fits(a: i32, b: i32)
    requires
        can_divide(a, b),
    ensures
        i32::MIN <= truncated_quotient(a as int, b as int) <= i32::MAX,
{
    let (x, y) = (if a < 0 { -a } else { a as int }, if b < 0 { -b } else { b as int });
    assert(0 <= x / y <= x) by (nonlinear_arith)
        requires
            0 <= x,
            1 <= y,
    ;
    if y >= 2 {
        assert(x / y <= x / 2) by (nonlinear_arith)
            requires
                0 <= x,
                2 <= y,
        ;
    }
}

/// The names of a list of tensors.
fn names_of<A>(tensors: Vec<Tensor<A>>) -> (r: Vec<String>)
    ensures
        views(r@) == tensors@.map_values(|t: Tensor<A>| t.name@),
{
    let mut names: Vec<String> = Vec::new();
    let mut i: usize = 0;
    while i < tensors.len()
        invariant
            i <= tensors@.len(),
            views(names@) == tensors@.take(i as int).map_values(|t: Tensor<A>| t.name@),
        decreases tensors@.len() - i,
    {
        let name: String = tensors[i].name.clone();
        let ghost before = names@;
        names.push(name);
        i += 1;
        assert(views(names@) =~= views(before).push(name@));
        assert(tensors@.take(i as int) =~= tensors@.take(i - 1).push(tensors@[i - 1]));
        assert(views(names@) =~= tensors@.take(i as int).map_values(|t: Tensor<A>| t.name@));
    }
    assert(tensors@.take(tensors@.len() as int) =~= tensors@);
    names
}

/// Two lists of the same items: where one holds nothing twice, neither does the other.
proof fn lemma_same_items(xs: Seq<Seq<char>>, ys: Seq<Seq<char>>)
    requires
        xs.no_duplicates(),
        xs.to_multiset() == ys.to_multiset(),
    ensures
        ys.no_duplicates(),
        xs.to_set() == ys.to_set(),
{
    broadcast use vstd::seq_lib::group_to_multiset_ensures;

    xs.lemma_multiset_has_no_duplicates();
    ys.lemma_multiset_has_no_duplicates_conv();
    assert forall|n: Seq<char>| xs.to_set().contains(n) <==> ys.to_set().contains(n) by {
        assert(xs.contains(n) <==> xs.to_multiset().count(n) > 0);
        assert(ys.contains(n) <==> ys.to_multiset().count(n) > 0);
    }
    assert(xs.to_set() =~= ys.to_set());
}

/// Where the value of a metadata key stands.
fn look_up(metadata: &[Metadata], key: &str) -> (r: Option<usize>)
    ensures
        match r {
            Some(i) => i < metadata@.len() && looked_up(metadata_map(metadata@), key@) == Some(
                metadata@[i as int].value@,
            ),
            None => looked_up(metadata_map(metadata@), key@) is None,
        },
{
    let wanted: String = key.to_owned();
    let mut end: usize = metadata.len();
    assert(metadata@.take(end as int) =~= metadata@);
    while end > 0
        invariant
            end <= metadata@.len(),
            wanted@ == key@,
            looked_up(metadata_map(metadata@), key@) == looked_up(
                metadata_map(metadata@.take(end as int)),
                key@,
            ),
        decreases end,
    {
        let i: usize = end - 1;
        assert(metadata@.take(end as int).drop_last() =~= metadata@.take(i as int));
        if metadata[i].key == wanted {
            return Some(i);
        }
        end = i;
    }
    None
}

/// Removing a tensor from a list removes what is found under its name.
proof fn lemma_remove<A>(tensors: Seq<Tensor<A>>, i: int)
    requires
        distinct(tensors),
        0 <= i < tensors.len(),
    ensures
        distinct(tensors.remove(i)),
        contents(tensors.remove(i)) == contents(tensors).remove(tensors[i].name@),
{
    let rest = tensors.remove(i);
    assert(distinct(rest));
    lemma_contents(tensors);
    lemma_contents(rest);
    let (have, want) = (contents(rest), contents(tensors).remove(tensors[i].name@));
    assert forall|n: Seq<char>| have.dom().contains(n) <==> want.dom().contains(n) by {
        if have.dom().contains(n) {
            let k = choose|k: int| 0 <= k < rest.len() && (#[trigger] rest[k]).name@ == n;
            let o = if k < i { k } else { k + 1 };
            assert(tensors[o] == rest[k]);
        }
        if want.dom().contains(n) {
            let o = choose|o: int| 0 <= o < tensors.len() && (#[trigger] tensors[o]).name@ == n;
            let k = if o < i { o } else { o - 1 };
            assert(tensors[o] == rest[k]);
        }
    }
    assert forall|n: Seq<char>| have.dom().contains(n) implies have[n] == want[n] by {
        let k = choose|k: int| 0 <= k < rest.len() && (#[trigger] rest[k]).name@ == n;
        let o = if k < i { k } else { k + 1 };
        assert(tensors[o] == rest[k]);
    }
    assert(have =~= want);
}

/// Whether two shapes are equal.
fn same_shape(a: &[i32], b: &[i32]) -> (r: bool)
    ensures
        r == (a@ == b@),
{
    if a.len() != b.len() {
        return false;
    }
    let mut i: usize = 0;
    while i < a.len()
        invariant
            a.len() == b.len(),
            i <= a.len(),
            forall|k: int| 0 <= k < i ==> a@[k] == b@[k],
        decreases a.len() - i,
    {
        if a[i] != b[i] {
            return false;
        }
        i += 1;
    }
    assert(a@ =~= b@);
    true
}

/// A tensor can be taken out once: whether or not its shape matched, it is missing afterwards.
pub proof fn law_tensor_is_taken_once<A>(
    held: Contents<A>,
    name: Seq<char>,
    shape: Seq<i32>,
    shape_again: Seq<i32>,
)
    ensures
        ({
            let left = take_tensor(held, name, shape).1;
            take_tensor(left, name, shape_again) == (
                Err::<A, ErrorView>(ErrorView::MissingTensor(name)),
                left,
            )
        }),
{
}

/// Taking out a tensor leaves all others as they are.
pub proof fn law_other_tensors_stay<A>(
    held: Contents<A>,
    name: Seq<char>,
    shape: Seq<i32>,
    other: Seq<char>,
)
    requires
        other != name,
    ensures
        looked_up(take_tensor(held, name, shape).1, other) == looked_up(held, other),
{
}

/// The order in which two tensors are taken out makes no difference.
pub proof fn law_taking_commutes<A>(
    held: Contents<A>,
    first: Seq<char>,
    first_shape: Seq<i32>,
    second: Seq<char>,
    second_shape: Seq<i32>,
)
    requires
        first != second,
    ensures
        ({
            let (a, after_first) = take_tensor(held, first, first_shape);
            let (b, after_second) = take_tensor(held, second, second_shape);
            &&& take_tensor(after_first, second, second_shape).0 == b
            &&& take_tensor(after_second, first, first_shape).0 == a
            &&& take_tensor(after_first, second, second_shape).1 == take_tensor(
                after_second,
                first,
                first_shape,
            ).1
        }),
{
    assert(held.remove(first).remove(second) =~= held.remove(second).remove(first));
}

/// A convolution that was taken out holds the arrays that stood under its two names, and
/// those names, no others, are gone.
pub proof fn law_conv1d_takes_its_tensors<A>(
    held: Contents<A>,
    prefix: Seq<char>,
    weight_shape: Seq<i32>,
    output_channels: i32,
    bias: bool,
    padding: i32,
    dilation: i32,
    groups: i32,
)
    ensures
        ({
            let weight_name = prefix + ".weight"@;
            let bias_name = prefix + ".bias"@;
            let bias_shape = seq![output_channels];
            let (taken, left) = take_conv1d(
                held,
                prefix,
                weight_shape,
                output_channels,
                bias,
                padding,
                dilation,
                groups,
            );
            &&& taken is Ok <==> {
                &&& held.dom().contains(weight_name) && held[weight_name].0 == weight_shape
                &&& bias ==> held.dom().contains(bias_name) && held[bias_name].0 == bias_shape
            }
            &&& taken matches Ok(layer) ==> {
                &&& layer.weight == held[weight_name].1
                &&& layer.bias == (if bias {
                    Some(held[bias_name].1)
                } else {
                    None
                })
                &&& left == if bias {
                    held.remove(weight_name).remove(bias_name)
                } else {
                    held.remove(weight_name)
                }
            }
        }),
{
    reveal_strlit(".weight");
    reveal_strlit(".bias");
    assert((prefix + ".weight"@).len() != (prefix + ".bias"@).len());
}

/// The outcome of taking out a list of tensors, by name and shape, one after the other: what is
/// answered to each request, and what is left.
pub open spec fn take_each<A>(
    held: Contents<A>,
    requests: Seq<(Seq<char>, Seq<i32>)>,
) -> (Seq<Result<A, ErrorView>>, Contents<A>)
    decreases requests.len(),
{
    if requests.len() == 0 {
        (Seq::empty(), held)
    } else {
        let (answers, left) = take_each(held, requests.drop_last());
        let (answer, rest) = take_tensor(left, requests.last().0, requests.last().1);
        (answers.push(answer), rest)
    }
}

/// The names of a list of requests.
pub open spec fn requested(requests: Seq<(Seq<char>, Seq<i32>)>) -> Seq<Seq<char>> {
    requests.map_values(|r: (Seq<char>, Seq<i32>)| r.0)
}

/// However its requests were answered, a checkpoint is left without the tensors that were asked
/// for and with all others; so it is finished exactly where it held no others.
pub proof fn law_finished_when_all_are_taken<A>(
    held: Contents<A>,
    requests: Seq<(Seq<char>, Seq<i32>)>,
)
    ensures
        ({
            let left = take_each(held, requests).1;
            let names = requested(requests).to_set();
            &&& left == held.remove_keys(names)
            &&& left == Map::<Seq<char>, (Seq<i32>, A)>::empty() <==> held.dom().subset_of(names)
        }),
    decreases requests.len(),
{
    let left = take_each(held, requests).1;
    let names = requested(requests);
    if requests.len() == 0 {
        assert(names.to_set() =~= Set::empty());
        assert(left =~= held.remove_keys(names.to_set()));
    } else {
        let fewer = requests.drop_last();
        law_finished_when_all_are_taken(held, fewer);
        lemma_one_more_name(requests);
        assert(left =~= held.remove_keys(names.to_set()));
    }
    if left == Map::<Seq<char>, (Seq<i32>, A)>::empty() {
        assert forall|m: Seq<char>| held.dom().contains(m) implies names.to_set().contains(m) by {
            if !names.to_set().contains(m) {
                assert(left.dom().contains(m));
            }
        }
    }
    if held.dom().subset_of(names.to_set()) {
        assert(left =~= Map::<Seq<char>, (Seq<i32>, A)>::empty());
    }
}

/// A list of requests names what it names without the last one, and what that one names.
proof fn lemma_one_more_name(requests: Seq<(Seq<char>, Seq<i32>)>)
    requires
        requests.len() > 0,
    ensures
        requested(requests) == requested(requests.drop_last()).push(requests.last().0),
        requested(requests).to_set() == requested(requests.drop_last()).to_set().insert(
            requests.last().0,
        ),
{
    let (names, fewer) = (requested(requests), requested(requests.drop_last()));
    let n = requests.last().0;
    assert(names =~= fewer.push(n));
    assert forall|m: Seq<char>| names.contains(m) <==> fewer.contains(m) || m == n by {
        if fewer.contains(m) {
            let k = choose|k: int| 0 <= k < fewer.len() && fewer[k] == m;
            assert(names[k] == m);
        }
        if m == n {
            assert(names[names.len() - 1] == m);
        }
    }
    assert(names.to_set() =~= fewer.to_set().insert(n));
}

/// A model that takes out its tensors without a failure asked for each of them once, and for
/// none that the checkpoint did not hold.
pub proof fn law_successful_requests_are_distinct<A>(
    held: Contents<A>,
    requests: Seq<(Seq<char>, Seq<i32>)>,
)
    requires
        forall|i: int|
            0 <= i < requests.len() ==> (#[trigger] take_each(held, requests).0[i]) is Ok,
    ensures
        requested(requests).no_duplicates(),
        requested(requests).to_set().subset_of(held.dom()),
    decreases requests.len(),
{
    if requests.len() > 0 {
        let fewer = requests.drop_last();
        let (answers, left) = take_each(held, fewer);
        let n = requests.last().0;
        lemma_one_answer_each(held, fewer);
        assert forall|i: int| 0 <= i < fewer.len() implies (#[trigger] answers[i]) is Ok by {
            assert(take_each(held, requests).0[i] == answers[i]);
        }
        law_successful_requests_are_distinct(held, fewer);
        law_finished_when_all_are_taken(held, fewer);
        lemma_one_more_name(requests);
        assert(take_each(held, requests).0[requests.len() - 1] is Ok);
        assert(left.dom().contains(n));
        assert(!requested(fewer).to_set().contains(n));
        assert(!requested(fewer).contains(n));
    }
}

/// Every request is answered.
proof fn lemma_one_answer_each<A>(held: Contents<A>, requests: Seq<(Seq<char>, Seq<i32>)>)
    ensures
        take_each(held, requests).0.len() == requests.len(),
    decreases requests.len(),
{
    if requests.len() > 0 {
        lemma_one_answer_each(held, requests.drop_last());
    }
}

} // verus!
