//! Laws of the order of names.
use crate::names::{ascending, bytes_precede, name_precedes};
use vstd::prelude::*;
use vstd::utf8::encode_utf8;

verus! {

/// The first place where two byte strings differ decides which comes first, by the byte there.
pub proof fn law_first_difference_decides(a: Seq<u8>, b: Seq<u8>, i: int)
    requires
        0 <= i < a.len(),
        i < b.len(),
        a.take(i) == b.take(i),
        a[i] != b[i],
    ensures
        bytes_precede(a, b) <==> a[i] < b[i],
    decreases i,
{
    if i > 0 {
        assert(a.take(i)[0] == a[0] && b.take(i)[0] == b[0]);
        assert(a[0] == b[0]);
        let (x, y) = (a.drop_first(), b.drop_first());
        assert(x.take(i - 1) =~= a.take(i).drop_first());
        assert(y.take(i - 1) =~= b.take(i).drop_first());
        law_first_difference_decides(x, y, i - 1);
    }
}

/// A byte string comes before all that are longer and start with it, and after none of them.
pub proof fn law_shorter_strings_come_first(a: Seq<u8>, rest: Seq<u8>)
    ensures
        bytes_precede(a, a + rest) <==> rest.len() > 0,
        !bytes_precede(a + rest, a),
    decreases a.len(),
{
    if a.len() > 0 {
        law_shorter_strings_come_first(a.drop_first(), rest);
        assert((a + rest).drop_first() =~= a.drop_first() + rest);
    }
}

/// Names are ordered as their UTF-8 encodings are: the first difference decides, and a name
/// comes before its continuations.
pub proof fn law_names_are_ordered_by_their_bytes(a: Seq<char>, b: Seq<char>, i: int)
    requires
        0 <= i < encode_utf8(a).len(),
        i <= encode_utf8(b).len(),
        encode_utf8(a).take(i) == encode_utf8(b).take(i),
        i < encode_utf8(b).len() ==> encode_utf8(a)[i] != encode_utf8(b)[i],
    ensures
        name_precedes(a, b) <==> i < encode_utf8(b).len() && encode_utf8(a)[i] < encode_utf8(b)[i],
        name_precedes(b, a) <==> i == encode_utf8(b).len() || encode_utf8(b)[i] < encode_utf8(a)[i],
{
    let (x, y) = (encode_utf8(a), encode_utf8(b));
    if i < y.len() {
        law_first_difference_decides(x, y, i);
        law_first_difference_decides(y, x, i);
    } else {
        let rest = x.skip(i);
        assert(y.take(i) =~= y);
        assert(y + rest =~= x);
        law_shorter_strings_come_first(y, rest);
    }
}

/// In an ascending list every name comes before every later one; lists of which that is true
/// are ascending.
pub proof fn law_ascending_lists_are_sorted(xs: Seq<Seq<char>>)
    ensures
        ascending(xs) <==> forall|i: int, j: int|
            #![trigger xs[i], xs[j]]
            0 <= i < j < xs.len() ==> bytes_precede(encode_utf8(xs[i]), encode_utf8(xs[j])),
{
    if ascending(xs) {
        assert forall|i: int, j: int|
            #![trigger xs[i], xs[j]]
            0 <= i < j < xs.len() implies bytes_precede(encode_utf8(xs[i]), encode_utf8(xs[j])) by {
            assert(name_precedes(xs[i], xs[j]));
        }
    }
}

} // verus!
