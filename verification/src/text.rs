//! Rendering of numbers, shapes and names in messages.
use vstd::prelude::*;
use vstd::utf8::{encode_utf8, valid_utf8};

verus! {

/// The character of a decimal digit.
pub open spec fn digit(d: nat) -> char {
    (('0' as u32) + d) as char
}

/// The decimal digits of `n`, most significant first, without leading zeros.
pub open spec fn digits(n: nat) -> Seq<char>
    decreases n,
{
    if n < 10 {
        seq![digit(n)]
    } else {
        digits(n / 10).push(digit(n % 10))
    }
}

/// An integer as `Display` writes it: its digits, after a minus sign where it is negative.
pub open spec fn decimal(i: int) -> Seq<char> {
    if i < 0 {
        "-"@ + digits((-i) as nat)
    } else {
        digits(i as nat)
    }
}

/// The items of a list, separated by a comma and a space.
pub open spec fn comma_separated(items: Seq<Seq<char>>) -> Seq<char>
    decreases items.len(),
{
    if items.len() == 0 {
        Seq::empty()
    } else if items.len() == 1 {
        items[0]
    } else {
        comma_separated(items.drop_last()) + ", "@ + items.last()
    }
}

/// A list of already rendered items as `Debug` writes it.
pub open spec fn bracketed(items: Seq<Seq<char>>) -> Seq<char> {
    "["@ + comma_separated(items) + "]"@
}

/// An array shape as `Debug` writes it, for example `[1, 2, 3]`.
pub open spec fn shape_text(shape: Seq<i32>) -> Seq<char> {
    bracketed(shape.map_values(|d: i32| decimal(d as int)))
}

/// A list of names as `Debug` writes it, for example `["a", "b"]`.
pub open spec fn names_text(names: Seq<Seq<char>>) -> Seq<char> {
    bracketed(names.map_values(|n: Seq<char>| quoted(n)))
}

/// An optional name as `Debug` writes it.
pub open spec fn optional_text(name: Option<Seq<char>>) -> Seq<char> {
    match name {
        Some(n) => "Some("@ + quoted(n) + ")"@,
        None => "None"@,
    }
}

/// A string as its `Debug` implementation writes it: in double quotes, with escapes.
pub uninterp spec fn quoted(text: Seq<char>) -> Seq<char>;

/// What `String::from_utf8_lossy` makes of a byte string.
pub uninterp spec fn lossy_text(bytes: Seq<u8>) -> Seq<char>;

/// Calls `<str as Debug>::fmt` through `format!`. The contract only says that what is
/// written depends on the string alone; which characters are escaped is left unsaid.
#[verifier::external_body]
pub(crate) fn quote(text: &str) -> (r: String)
    ensures
        r@ == quoted(text@),
{
    format!("{text:?}")
}

/// Calls `String::from_utf8_lossy`. The contract says that the text depends on the bytes
/// alone, and that valid UTF-8 comes out as the string it encodes; where the replacement
/// characters of invalid input go is left unsaid.
#[verifier::external_body]
pub(crate) fn decode_lossy(bytes: &[u8]) -> (r: String)
    ensures
        r@ == lossy_text(bytes@),
        valid_utf8(bytes@) ==> encode_utf8(r@) == bytes@,
{
    String::from_utf8_lossy(bytes).into_owned()
}

/// A present name, as `Debug` writes it.
pub(crate) fn some_text(name: &str) -> (r: String)
    ensures
        r@ == optional_text(Some(name@)),
{
    let mut out: String = String::new();
    let text: String = quote(name);
    out.append("Some(");
    out.append(text.as_str());
    out.append(")");
    out
}

/// The one-character string of a decimal digit.
fn digit_text(d: u32) -> (r: &'static str)
    requires
        d < 10,
    ensures
        r@ == seq![digit(d as nat)],
{
    proof {
        reveal_strlit("0");
        reveal_strlit("1");
        reveal_strlit("2");
        reveal_strlit("3");
        reveal_strlit("4");
        reveal_strlit("5");
        reveal_strlit("6");
        reveal_strlit("7");
        reveal_strlit("8");
        reveal_strlit("9");
    }
    if d == 0 {
        "0"
    } else if d == 1 {
        "1"
    } else if d == 2 {
        "2"
    } else if d == 3 {
        "3"
    } else if d == 4 {
        "4"
    } else if d == 5 {
        "5"
    } else if d == 6 {
        "6"
    } else if d == 7 {
        "7"
    } else if d == 8 {
        "8"
    } else {
        "9"
    }
}

/// Appends the decimal digits of a number.
pub(crate) fn push_number(out: &mut String, n: u32)
    ensures
        final(out)@ == old(out)@ + digits(n as nat),
    decreases n,
{
    if n >= 10 {
        push_number(out, n / 10);
    }
    out.append(digit_text(n % 10));
}

/// Appends an integer, with its sign where it is negative.
pub(crate) fn push_integer(out: &mut String, i: i32)
    ensures
        final(out)@ == old(out)@ + decimal(i as int),
{
    if i < 0 {
        out.append("-");
        push_number(out, (-(i as i64)) as u32);
    } else {
        push_number(out, i as u32);
    }
}

/// Appends a shape in brackets.
pub(crate) fn push_shape(out: &mut String, shape: &[i32])
    ensures
        final(out)@ == old(out)@ + shape_text(shape@),
{
    let ghost items = shape@.map_values(|d: i32| decimal(d as int));
    let ghost before = out@;
    out.append("[");
    let mut i: usize = 0;
    assert(items.take(0) =~= Seq::empty());
    while i < shape.len()
        invariant
            i <= shape.len(),
            items == shape@.map_values(|d: i32| decimal(d as int)),
            out@ == before + "["@ + comma_separated(items.take(i as int)),
        decreases shape.len() - i,
    {
        if i > 0 {
            out.append(", ");
        }
        push_integer(out, shape[i]);
        i += 1;
        proof {
            assert(items.take(i as int).drop_last() =~= items.take(i - 1));
        }
    }
    out.append("]");
    assert(items.take(shape.len() as int) =~= items);
}

/// Appends a list of names in brackets.
pub(crate) fn push_names(out: &mut String, names: &[String])
    ensures
        final(out)@ == old(out)@ + names_text(views(names@)),
{
    let ghost items = views(names@).map_values(|n: Seq<char>| quoted(n));
    let ghost before = out@;
    out.append("[");
    let mut i: usize = 0;
    assert(items.take(0) =~= Seq::empty());
    while i < names.len()
        invariant
            i <= names.len(),
            items == views(names@).map_values(|n: Seq<char>| quoted(n)),
            out@ == before + "["@ + comma_separated(items.take(i as int)),
        decreases names.len() - i,
    {
        if i > 0 {
            out.append(", ");
        }
        let name: String = quote(names[i].as_str());
        out.append(name.as_str());
        i += 1;
        proof {
            assert(items.take(i as int).drop_last() =~= items.take(i - 1));
        }
    }
    out.append("]");
    assert(items.take(names.len() as int) =~= items);
}

/// The views of a list of strings.
pub open spec fn views(names: Seq<String>) -> Seq<Seq<char>> {
    names.map_values(|n: String| n@)
}

} // verus!
