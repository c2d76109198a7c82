//! Laws of messages: numbers, lists and errors as text.
use crate::error::Error;
use crate::text::{
    comma_separated, decimal, digits, names_text, optional_text, quoted, shape_text,
};
use vstd::prelude::*;

verus! {

/// The number that a string of decimal digits stands for.
pub open spec fn value_of(text: Seq<char>) -> int
    decreases text.len(),
{
    if text.len() == 0 {
        0
    } else {
        10 * value_of(text.drop_last()) + (text.last() as int - '0' as int)
    }
}

/// `text` is how the number `n` is written: by digits alone, without a zero in front of others.
pub open spec fn writes(text: Seq<char>, n: int) -> bool {
    &&& text.len() > 0
    &&& forall|i: int| 0 <= i < text.len() ==> '0' <= #[trigger] text[i] <= '9'
    &&& text.len() > 1 ==> text[0] != '0'
    &&& value_of(text) == n
}

/// A number is written by its decimal digits.
pub proof fn law_digits_write_the_number(n: nat)
    ensures
        writes(digits(n), n as int),
        n > 0 ==> digits(n)[0] != '0',
    decreases n,
{
    let text = digits(n);
    if n < 10 {
        assert(text.drop_last() =~= Seq::empty());
        assert(value_of(text.drop_last()) == 0);
    } else {
        law_digits_write_the_number(n / 10);
        assert(text.drop_last() =~= digits(n / 10));
        assert(text[0] == digits(n / 10)[0]);
    }
}

/// An integer is written by the digits of its absolute value, after a minus sign exactly where
/// it is negative.
pub proof fn law_integers_are_written_with_their_sign(i: int)
    ensures
        i >= 0 ==> writes(decimal(i), i),
        i < 0 ==> decimal(i).len() > 1 && decimal(i)[0] == '-' && writes(
            decimal(i).drop_first(),
            -i,
        ),
{
    reveal_strlit("-");
    law_digits_write_the_number((if i < 0 {
        -i
    } else {
        i
    }) as nat);
    if i < 0 {
        assert(decimal(i).drop_first() =~= digits((-i) as nat));
    }
}

/// Lists that are put together are written one after the other, with a comma and a space
/// between them.
proof fn lemma_joined(a: Seq<Seq<char>>, b: Seq<Seq<char>>)
    requires
        a.len() > 0,
        b.len() > 0,
    ensures
        comma_separated(a + b) == comma_separated(a) + ", "@ + comma_separated(b),
    decreases b.len(),
{
    assert((a + b).last() == b.last());
    if b.len() == 1 {
        assert((a + b).drop_last() =~= a);
    } else {
        lemma_joined(a, b.drop_last());
        assert((a + b).drop_last() =~= a + b.drop_last());
        assert(comma_separated(a + b) =~= comma_separated(a) + ", "@ + comma_separated(b));
    }
}

/// A shape is written in brackets: each dimension as an integer, and between what stands before
/// and what stands after any place in it a comma and a space.
pub proof fn law_shapes_are_written_as_lists(d: i32, a: Seq<i32>, b: Seq<i32>)
    requires
        a.len() > 0,
        b.len() > 0,
    ensures
        shape_text(Seq::empty()) == seq!['[', ']'],
        shape_text(seq![d]) == seq!['['] + decimal(d as int) + seq![']'],
        shape_text(a + b) == shape_text(a).drop_last() + seq![',', ' '] + shape_text(
            b,
        ).drop_first(),
{
    reveal_strlit("[");
    reveal_strlit("]");
    reveal_strlit(", ");
    let item = |d: i32| decimal(d as int);
    assert(Seq::<i32>::empty().map_values(item) =~= Seq::empty());
    assert(shape_text(Seq::empty()) =~= seq!['[', ']']);
    assert(seq![d].map_values(item) =~= seq![decimal(d as int)]);
    assert(shape_text(seq![d]) =~= seq!['['] + decimal(d as int) + seq![']']);
    assert((a + b).map_values(item) =~= a.map_values(item) + b.map_values(item));
    lemma_joined(a.map_values(item), b.map_values(item));
    assert(shape_text(a + b) =~= shape_text(a).drop_last() + seq![',', ' '] + shape_text(
        b,
    ).drop_first());
}

/// A list of names is written in brackets: each name as it is quoted, and between what stands
/// before and what stands after any place in it a comma and a space.
pub proof fn law_names_are_written_as_lists(n: Seq<char>, a: Seq<Seq<char>>, b: Seq<Seq<char>>)
    requires
        a.len() > 0,
        b.len() > 0,
    ensures
        names_text(Seq::empty()) == seq!['[', ']'],
        names_text(seq![n]) == seq!['['] + quoted(n) + seq![']'],
        names_text(a + b) == names_text(a).drop_last() + seq![',', ' '] + names_text(
            b,
        ).drop_first(),
{
    reveal_strlit("[");
    reveal_strlit("]");
    reveal_strlit(", ");
    let item = |n: Seq<char>| quoted(n);
    assert(Seq::<Seq<char>>::empty().map_values(item) =~= Seq::empty());
    assert(names_text(Seq::empty()) =~= seq!['[', ']']);
    assert(seq![n].map_values(item) =~= seq![quoted(n)]);
    assert(names_text(seq![n]) =~= seq!['['] + quoted(n) + seq![']']);
    assert((a + b).map_values(item) =~= a.map_values(item) + b.map_values(item));
    lemma_joined(a.map_values(item), b.map_values(item));
    assert(names_text(a + b) =~= names_text(a).drop_last() + seq![',', ' '] + names_text(
        b,
    ).drop_first());
}

/// What is not there is written as `None`, and what is there in quotes and brackets.
pub proof fn law_optional_names_are_told_apart(n: Seq<char>)
    ensures
        optional_text(None) == "None"@,
        optional_text(Some(n)) == "Some("@ + quoted(n) + ")"@,
{
}

/// The text of an error names what went wrong and everything that it carries, in the order of
/// its fields; a failure outside this library is passed on word for word.
pub proof fn law_errors_tell_what_they_carry(e: &Error, r: String)
    requires
        call_ensures(Error::message, (e,), r),
    ensures
        match *e {
            Error::Mlx(m) => r@ == m@,
            Error::MlxIo(m) => r@ == m@,
            Error::Wav(m) => r@ == m@,
            Error::Babycat(m) => r@ == m@,
            Error::AudioDecode { babycat, fallback } => r@ == "audio decode failed; babycat: "@
                + babycat@ + "; fallback: "@ + fallback@,
            Error::InvalidAudio(m) => r@ == "invalid audio: "@ + m@,
            Error::MissingTensor(name) => r@ == "checkpoint is missing tensor "@ + name@,
            Error::TensorShape { name, actual, expected } => r@ == "tensor "@ + name@
                + " has shape "@ + shape_text(actual@) + ", expected "@ + shape_text(expected@),
            Error::CheckpointMetadata(m) => r@ == "invalid checkpoint metadata: "@ + m@,
            Error::UnexpectedTensors(names) => r@ == "checkpoint contains unexpected tensors: "@
                + names_text(Seq::new(names@.len(), |i: int| names@[i]@)),
            Error::InputShape { actual } => r@ == "invalid input shape "@ + shape_text(actual@)
                + "; expected [batch, frames, 2049, 2]"@,
        },
{
    if let Error::UnexpectedTensors(names) = *e {
        assert(crate::text::views(names@) =~= Seq::new(names@.len(), |i: int| names@[i]@));
    }
}

} // verus!
