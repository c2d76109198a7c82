//! The order of names, and lists of names in that order.
use crate::text::views;
use vstd::multiset::Multiset;
use vstd::prelude::*;
use vstd::utf8::{decode_utf8, encode_utf8};

verus! {

/// The byte string `a` comes before `b` in lexicographic order.
pub open spec fn bytes_precede(a: Seq<u8>, b: Seq<u8>) -> bool
    decreases a.len(),
{
    if b.len() == 0 {
        false
    } else if a.len() == 0 {
        true
    } else if a[0] != b[0] {
        a[0] < b[0]
    } else {
        bytes_precede(a.drop_first(), b.drop_first())
    }
}

/// The name `a` comes before `b`: names are ordered by their UTF-8 bytes.
pub open spec fn name_precedes(a: Seq<char>, b: Seq<char>) -> bool {
    bytes_precede(encode_utf8(a), encode_utf8(b))
}

/// Each name comes before all that follow it.
pub open spec fn ascending(names: Seq<Seq<char>>) -> bool {
    forall|i: int, j: int| 0 <= i < j < names.len() ==> name_precedes(names[i], names[j])
}

/// No name comes before one that stands further to the front.
pub open spec fn in_order(names: Seq<Seq<char>>) -> bool {
    forall|i: int, j: int|
        0 <= i < j < names.len() ==> !name_precedes(#[trigger] names[j], #[trigger] names[i])
}

/// Lexicographic order is strict.
proof fn lemma_bytes_asymmetric(a: Seq<u8>, b: Seq<u8>)
    requires
        bytes_precede(a, b),
    ensures
        !bytes_precede(b, a),
    decreases a.len(),
{
    if a.len() > 0 && a[0] == b[0] {
        lemma_bytes_asymmetric(a.drop_first(), b.drop_first());
    }
}

/// Lexicographic order is transitive.
proof fn lemma_bytes_transitive(a: Seq<u8>, b: Seq<u8>, c: Seq<u8>)
    requires
        bytes_precede(a, b),
        bytes_precede(b, c),
    ensures
        bytes_precede(a, c),
    decreases a.len(),
{
    if a.len() > 0 && a[0] == b[0] && b[0] == c[0] {
        lemma_bytes_transitive(a.drop_first(), b.drop_first(), c.drop_first());
    }
}

/// Of two different byte strings one comes first.
proof fn lemma_bytes_total(a: Seq<u8>, b: Seq<u8>)
    ensures
        a == b || bytes_precede(a, b) || bytes_precede(b, a),
    decreases a.len(),
{
    if a.len() == 0 || b.len() == 0 {
        if a.len() == b.len() {
            assert(a =~= b);
        }
    } else if a[0] == b[0] {
        lemma_bytes_total(a.drop_first(), b.drop_first());
        if a.drop_first() == b.drop_first() {
            assert(a =~= seq![a[0]] + a.drop_first());
            assert(b =~= seq![b[0]] + b.drop_first());
        }
    }
}

/// The order of names is a strict total order.
pub proof fn law_names_are_totally_ordered(a: Seq<char>, b: Seq<char>, c: Seq<char>)
    ensures
        !name_precedes(a, a),
        name_precedes(a, b) ==> !name_precedes(b, a),
        name_precedes(a, b) && name_precedes(b, c) ==> name_precedes(a, c),
        a == b || name_precedes(a, b) || name_precedes(b, a),
{
    let (x, y, z) = (encode_utf8(a), encode_utf8(b), encode_utf8(c));
    if bytes_precede(x, x) {
        lemma_bytes_asymmetric(x, x);
    }
    if bytes_precede(x, y) {
        lemma_bytes_asymmetric(x, y);
        if bytes_precede(y, z) {
            lemma_bytes_transitive(x, y, z);
        }
    }
    lemma_bytes_total(x, y);
    if x == y {
        vstd::utf8::encode_utf8_decode_utf8(a);
        vstd::utf8::encode_utf8_decode_utf8(b);
        assert(decode_utf8(x) == a);
        assert(decode_utf8(y) == b);
    }
}

/// There is one ascending list of a given set of names.
pub proof fn law_ascending_list_is_unique(xs: Seq<Seq<char>>, ys: Seq<Seq<char>>)
    requires
        ascending(xs),
        ascending(ys),
        xs.to_set() == ys.to_set(),
    ensures
        xs == ys,
    decreases xs.len(),
{
    if xs.len() == 0 {
        if ys.len() > 0 {
            assert(ys.to_set().contains(ys[0]));
            assert(xs.to_set().contains(ys[0]));
        }
        assert(xs =~= ys);
    } else {
        assert(xs.to_set().contains(xs[0]));
        assert(ys.to_set().contains(xs[0]));
        assert(ys.len() > 0);
        let (x, y) = (xs.last(), ys.last());
        assert(ys.to_set().contains(y));
        assert(xs.to_set().contains(y));
        assert(xs.to_set().contains(x));
        assert(ys.to_set().contains(x));
        let i = choose|i: int| 0 <= i < xs.len() && xs[i] == y;
        let j = choose|j: int| 0 <= j < ys.len() && ys[j] == x;
        law_names_are_totally_ordered(x, y, x);
        assert(x == y) by {
            if i < xs.len() - 1 && j < ys.len() - 1 {
                assert(name_precedes(xs[i], xs[xs.len() - 1]));
                assert(name_precedes(ys[j], ys[ys.len() - 1]));
            }
        }
        let (xt, yt) = (xs.drop_last(), ys.drop_last());
        lemma_drop_last_set(xs);
        lemma_drop_last_set(ys);
        assert(xt.to_set() =~= yt.to_set());
        law_ascending_list_is_unique(xt, yt);
        assert(xs =~= xt.push(x));
        assert(ys =~= yt.push(y));
    }
}

/// Without its last name an ascending list holds all names but that one.
proof fn lemma_drop_last_set(xs: Seq<Seq<char>>)
    requires
        ascending(xs),
        xs.len() > 0,
    ensures
        xs.drop_last().to_set() =~= xs.to_set().remove(xs.last()),
{
    let t = xs.drop_last();
    assert forall|n: Seq<char>| t.to_set().contains(n) <==> xs.to_set().remove(
        xs.last(),
    ).contains(n) by {
        if t.to_set().contains(n) {
            let i = choose|i: int| 0 <= i < t.len() && t[i] == n;
            assert(xs[i] == n);
            assert(name_precedes(xs[i], xs[xs.len() - 1]));
            law_names_are_totally_ordered(n, n, n);
        }
        if xs.to_set().contains(n) && n != xs.last() {
            let i = choose|i: int| 0 <= i < xs.len() && xs[i] == n;
            assert(t[i] == n);
        }
    }
}

/// Whether the name `a` comes before `b`.
pub(crate) fn precedes(a: &str, b: &str) -> (r: bool)
    ensures
        r == name_precedes(a@, b@),
{
    let x: &[u8] = a.as_bytes();
    let y: &[u8] = b.as_bytes();
    let mut i: usize = 0;
    assert(x@.skip(0) =~= x@);
    assert(y@.skip(0) =~= y@);
    while i < x.len() && i < y.len() && x[i] == y[i]
        invariant
            i <= x.len(),
            i <= y.len(),
            bytes_precede(x@, y@) == bytes_precede(x@.skip(i as int), y@.skip(i as int)),
        decreases x.len() - i,
    {
        assert(x@.skip(i as int).drop_first() =~= x@.skip(i + 1));
        assert(y@.skip(i as int).drop_first() =~= y@.skip(i + 1));
        i += 1;
    }
    if i >= y.len() {
        false
    } else if i >= x.len() {
        true
    } else {
        x[i] < y[i]
    }
}

/// Sorts a list of names.
pub(crate) fn sort_names(names: Vec<String>) -> (r: Vec<String>)
    ensures
        in_order(views(r@)),
        views(r@).to_multiset() == views(names@).to_multiset(),
{
    broadcast use vstd::seq_lib::group_to_multiset_ensures;

    let mut rest: Vec<String> = names;
    let mut sorted: Vec<String> = Vec::new();
    proof {
        assert(views(sorted@) =~= Seq::empty());
        assert(views(sorted@).to_multiset() =~= Multiset::empty());
        assert(views(rest@).to_multiset() =~= views(rest@).to_multiset().add(Multiset::empty()));
    }
    while rest.len() > 0
        invariant
            in_order(views(sorted@)),
            views(rest@).to_multiset().add(views(sorted@).to_multiset()) == views(
                names@,
            ).to_multiset(),
        decreases rest.len(),
    {
        let ghost rest_before = rest@;
        let ghost sorted_before = sorted@;
        if let Some(name) = rest.pop() {
            let mut at: usize = 0;
            while at < sorted.len() && precedes(sorted[at].as_str(), name.as_str())
                invariant
                    at <= sorted.len(),
                    forall|k: int| 0 <= k < at ==> name_precedes(#[trigger] sorted@[k]@, name@),
                decreases sorted.len() - at,
            {
                at += 1;
            }
            sorted.insert(at, name);
            proof {
                let n = name@;
                let old_views = views(sorted_before);
                assert(views(sorted@) =~= old_views.insert(at as int, n));
                assert(views(rest_before) =~= views(rest@).push(n));
                lemma_insert_in_order(old_views, at as int, n);
                vstd::seq_lib::to_multiset_insert(old_views, at as int, n);
                vstd::seq_lib::to_multiset_build(views(rest@), n);
                assert(views(rest_before).to_multiset() == views(rest@).to_multiset().insert(n));
                assert(views(sorted@).to_multiset() == old_views.to_multiset().insert(n));
                assert(views(rest@).to_multiset().insert(n).add(old_views.to_multiset())
                    =~= views(rest@).to_multiset().add(old_views.to_multiset().insert(n)));
            }
        }
    }
    proof {
        assert(views(rest@) =~= Seq::empty());
        assert(views(rest@).to_multiset() =~= Multiset::empty());
        assert(views(sorted@).to_multiset() =~= Multiset::empty().add(
            views(sorted@).to_multiset(),
        ));
    }
    sorted
}

/// A list stays in order when a name is put behind all that come before it, and in front of
/// the first that does not.
proof fn lemma_insert_in_order(names: Seq<Seq<char>>, at: int, n: Seq<char>)
    requires
        in_order(names),
        0 <= at <= names.len(),
        forall|k: int| 0 <= k < at ==> name_precedes(#[trigger] names[k], n),
        at < names.len() ==> !name_precedes(names[at], n),
    ensures
        in_order(names.insert(at, n)),
{
    let longer = names.insert(at, n);
    assert forall|i: int, j: int| 0 <= i < j < longer.len() implies !name_precedes(
        #[trigger] longer[j],
        #[trigger] longer[i],
    ) by {
        if i < at && j == at {
            law_names_are_totally_ordered(names[i], n, n);
        } else if i == at {
            // Behind the new name stands what was at `at` or further back.
            let y = names[j - 1];
            let x = names[at];
            law_names_are_totally_ordered(y, n, x);
            law_names_are_totally_ordered(n, x, n);
            if j - 1 > at {
                assert(!name_precedes(names[j - 1], names[at]));
            }
            if name_precedes(y, n) {
                assert(n == x || name_precedes(n, x));
            }
        } else {
            let (oi, oj) = (if i < at { i } else { i - 1 }, if j < at { j } else { j - 1 });
            assert(!name_precedes(names[oj], names[oi]));
        }
    }
}

/// A list in order that holds no name twice is ascending.
pub(crate) proof fn lemma_distinct_in_order_is_ascending(names: Seq<Seq<char>>)
    requires
        in_order(names),
        names.no_duplicates(),
    ensures
        ascending(names),
{
    assert forall|i: int, j: int| 0 <= i < j < names.len() implies name_precedes(
        names[i],
        names[j],
    ) by {
        assert(!name_precedes(names[j], names[i]));
        law_names_are_totally_ordered(names[i], names[j], names[i]);
    }
}

} // verus!
