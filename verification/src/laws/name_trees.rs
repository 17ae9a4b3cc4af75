//! Laws of name trees and number trees: their entries are those of their leaves.

use vstd::prelude::*;
use crate::document::DocV;
use crate::nametree::{
    bytes_before, key_bytes_of, leaf_entries, leaf_value, ruled_out, tree_entries, walked,
    walked_kids, TreeKey,
};
use crate::objects::{dict_get, DictV, ObjV, ObjectId};

verus! {

/// A tree of keys and values.
pub enum KeyTree {
    Leaf(Seq<(ObjV, ObjV)>),
    Node(Seq<(ObjectId, KeyTree)>),
}

/// Pairs written one behind the other.
pub open spec fn pairs_written(pairs: Seq<(ObjV, ObjV)>) -> Seq<ObjV> {
    Seq::new(
        2 * pairs.len(),
        |i: int|
            if i % 2 == 0 {
                pairs[i / 2].0
            } else {
                pairs[i / 2].1
            },
    )
}

/// References to the kids.
pub open spec fn kid_items(kids: Seq<(ObjectId, KeyTree)>) -> Seq<ObjV> {
    Seq::new(kids.len(), |i: int| ObjV::Reference(kids[i].0))
}

/// The node shows the tree, no level of which lies more than 32 below the first.
pub open spec fn tree_shown(
    doc: DocV,
    node: DictV,
    payload: Seq<char>,
    t: KeyTree,
    depth: int,
) -> bool
    decreases t, 0int,
{
    &&& 0 <= depth <= 32
    &&& match t {
        KeyTree::Leaf(pairs) => dict_get(node, payload) matches Some(p) && doc.deref(p) == Ok::<
            ObjV,
            Seq<char>,
        >(ObjV::Array(pairs_written(pairs))),
        KeyTree::Node(kids) => dict_get(node, payload) is None && (dict_get(node, "Kids"@) matches
            Some(k) && doc.deref(k) == Ok::<ObjV, Seq<char>>(ObjV::Array(kid_items(kids))))
            && kids_shown(doc, kids, 0, payload, depth + 1),
    }
}

/// The kids from place `i` on show their trees.
pub open spec fn kids_shown(
    doc: DocV,
    kids: Seq<(ObjectId, KeyTree)>,
    i: int,
    payload: Seq<char>,
    depth: int,
) -> bool
    decreases kids, kids.len() - i,
{
    if i < 0 || i >= kids.len() {
        true
    } else {
        (doc.resolve(kids[i].0) matches Ok(ObjV::Dict(d)) && tree_shown(
            doc,
            d,
            payload,
            kids[i].1,
            depth,
        )) && kids_shown(doc, kids, i + 1, payload, depth)
    }
}

/// The numbers of the nodes below the first.
pub open spec fn tree_numbers(t: KeyTree) -> Seq<u32>
    decreases t, 0int,
{
    match t {
        KeyTree::Leaf(_) => Seq::empty(),
        KeyTree::Node(kids) => kids_numbers(kids, 0),
    }
}

/// The numbers of the kids from place `i` on and of the nodes below them.
pub open spec fn kids_numbers(kids: Seq<(ObjectId, KeyTree)>, i: int) -> Seq<u32>
    decreases kids, kids.len() - i,
{
    if i < 0 || i >= kids.len() {
        Seq::empty()
    } else {
        seq![kids[i].0.number] + tree_numbers(kids[i].1) + kids_numbers(kids, i + 1)
    }
}

/// The pairs of the leaves from left to right.
pub open spec fn tree_pairs(t: KeyTree) -> Seq<(ObjV, ObjV)>
    decreases t, 0int,
{
    match t {
        KeyTree::Leaf(pairs) => pairs,
        KeyTree::Node(kids) => kids_pairs(kids, 0),
    }
}

/// The pairs of the kids from place `i` on.
pub open spec fn kids_pairs(kids: Seq<(ObjectId, KeyTree)>, i: int) -> Seq<(ObjV, ObjV)>
    decreases kids, kids.len() - i,
{
    if i < 0 || i >= kids.len() {
        Seq::empty()
    } else {
        tree_pairs(kids[i].1) + kids_pairs(kids, i + 1)
    }
}

/// All keys are of the kind that the tree has.
pub open spec fn keys_fit<K: TreeKey>(pairs: Seq<(ObjV, ObjV)>) -> bool {
    forall|i: int| 0 <= i < pairs.len() ==> K::key_of((#[trigger] pairs[i]).0) is Some
}

/// The entries that pairs stand for.
pub open spec fn pair_entries<K: TreeKey>(pairs: Seq<(ObjV, ObjV)>) -> Seq<(K::V, ObjV)> {
    Seq::new(pairs.len(), |i: int| (K::key_of(pairs[i].0)->Some_0, pairs[i].1))
}

proof fn lemma_leaf<K: TreeKey>(pairs: Seq<(ObjV, ObjV)>, k: int, out: Seq<(K::V, ObjV)>)
    requires
        0 <= k <= pairs.len(),
        keys_fit::<K>(pairs),
        out.len() + pairs.len() - k <= 100_000,
    ensures
        leaf_entries::<K>(pairs_written(pairs), 2 * k, out) == out + pair_entries::<K>(
            pairs.skip(k),
        ),
    decreases pairs.len() - k,
{
    let items = pairs_written(pairs);
    if k < pairs.len() {
        assert(items[2 * k] == pairs[k].0);
        assert(items[2 * k + 1] == pairs[k].1);
        assert(K::key_of(pairs[k].0) is Some);
        let e = (K::key_of(pairs[k].0)->Some_0, pairs[k].1);
        lemma_leaf::<K>(pairs, k + 1, out.push(e));
        assert(out.push(e) + pair_entries::<K>(pairs.skip(k + 1)) =~= out + pair_entries::<K>(
            pairs.skip(k),
        ));
    } else {
        assert(out + pair_entries::<K>(pairs.skip(k)) =~= out);
    }
}

/// No number of `ns` was seen.
pub(crate) open spec fn numbers_unseen(seen: Set<u32>, ns: Seq<u32>) -> bool {
    forall|i: int| 0 <= i < ns.len() ==> !seen.contains(#[trigger] ns[i])
}

pub(crate) proof fn lemma_numbers_unseen(seen: Set<u32>, a: Seq<u32>, b: Seq<u32>)
    requires
        numbers_unseen(seen, a + b),
        (a + b).no_duplicates(),
    ensures
        numbers_unseen(seen, a),
        a.no_duplicates(),
        b.no_duplicates(),
        numbers_unseen(seen.union(a.to_set()), b),
        seen.union(a.to_set()).union(b.to_set()) == seen.union((a + b).to_set()),
{
    let s = a + b;
    assert forall|i: int| 0 <= i < a.len() implies !seen.contains(#[trigger] a[i]) by {
        assert(s[i] == a[i]);
    }
    assert forall|i: int, j: int| 0 <= i < a.len() && 0 <= j < a.len() && i != j implies a[i]
        != a[j] by {
        assert(s[i] == a[i] && s[j] == a[j]);
    }
    assert forall|i: int, j: int| 0 <= i < b.len() && 0 <= j < b.len() && i != j implies b[i]
        != b[j] by {
        assert(s[a.len() + i] == b[i] && s[a.len() + j] == b[j]);
    }
    assert forall|i: int| 0 <= i < b.len() implies !seen.union(a.to_set()).contains(
        #[trigger] b[i],
    ) by {
        assert(s[a.len() + i] == b[i]);
        if a.to_set().contains(b[i]) {
            let j = choose|j: int| 0 <= j < a.len() && a[j] == b[i];
            assert(s[j] == a[j]);
        }
    }
    assert forall|x: u32| s.to_set().contains(x) <==> a.to_set().contains(x) || b.to_set().contains(
        x,
    ) by {
        if a.contains(x) {
            let j = choose|j: int| 0 <= j < a.len() && a[j] == x;
            assert(s[j] == x);
        }
        if b.contains(x) {
            let j = choose|j: int| 0 <= j < b.len() && b[j] == x;
            assert(s[a.len() + j] == x);
        }
        if s.contains(x) {
            let j = choose|j: int| 0 <= j < s.len() && s[j] == x;
            if j < a.len() {
                assert(a[j] == x);
            } else {
                assert(b[j - a.len()] == x);
            }
        }
    }
    assert(seen.union(a.to_set()).union(b.to_set()) =~= seen.union(s.to_set()));
}

proof fn lemma_pairs<K: TreeKey>(a: Seq<(ObjV, ObjV)>, b: Seq<(ObjV, ObjV)>)
    ensures
        keys_fit::<K>(a + b) ==> keys_fit::<K>(a) && keys_fit::<K>(b),
        pair_entries::<K>(a + b) == pair_entries::<K>(a) + pair_entries::<K>(b),
{
    let s = a + b;
    if keys_fit::<K>(s) {
        assert forall|i: int| 0 <= i < a.len() implies K::key_of((#[trigger] a[i]).0) is Some by {
            assert(s[i] == a[i]);
        }
        assert forall|i: int| 0 <= i < b.len() implies K::key_of((#[trigger] b[i]).0) is Some by {
            assert(s[a.len() + i] == b[i]);
        }
    }
    assert(pair_entries::<K>(s) =~= pair_entries::<K>(a) + pair_entries::<K>(b));
}

proof fn lemma_tree_walk<K: TreeKey>(
    doc: DocV,
    node: DictV,
    payload: Seq<char>,
    t: KeyTree,
    seen: Set<u32>,
    depth: int,
    out: Seq<(K::V, ObjV)>,
)
    requires
        tree_shown(doc, node, payload, t, depth),
        numbers_unseen(seen, tree_numbers(t)),
        tree_numbers(t).no_duplicates(),
        keys_fit::<K>(tree_pairs(t)),
        out.len() + tree_pairs(t).len() <= 100_000,
    ensures
        walked::<K>(doc, node, payload, seen, depth, out) == Ok::<
            (Set<u32>, Seq<(K::V, ObjV)>),
            Seq<char>,
        >((seen.union(tree_numbers(t).to_set()), out + pair_entries::<K>(tree_pairs(t)))),
    decreases t, 0int,
{
    match t {
        KeyTree::Leaf(pairs) => {
            lemma_leaf::<K>(pairs, 0, out);
            assert(pairs.skip(0) =~= pairs);
            assert(seen.union(tree_numbers(t).to_set()) =~= seen);
        },
        KeyTree::Node(kids) => {
            lemma_kids_walk::<K>(doc, kids, 0, payload, seen, depth, out);
        },
    }
}

proof fn lemma_kids_walk<K: TreeKey>(
    doc: DocV,
    kids: Seq<(ObjectId, KeyTree)>,
    i: int,
    payload: Seq<char>,
    seen: Set<u32>,
    depth: int,
    out: Seq<(K::V, ObjV)>,
)
    requires
        0 <= i <= kids.len(),
        0 <= depth <= 32,
        kids_shown(doc, kids, i, payload, depth + 1),
        numbers_unseen(seen, kids_numbers(kids, i)),
        kids_numbers(kids, i).no_duplicates(),
        keys_fit::<K>(kids_pairs(kids, i)),
        out.len() + kids_pairs(kids, i).len() <= 100_000,
    ensures
        walked_kids::<K>(doc, kid_items(kids), i, payload, seen, depth, out) == Ok::<
            (Set<u32>, Seq<(K::V, ObjV)>),
            Seq<char>,
        >((seen.union(kids_numbers(kids, i).to_set()), out + pair_entries::<K>(kids_pairs(kids, i)))),
    decreases kids, kids.len() - i,
{
    if i < kids.len() {
        let id = kids[i].0;
        let t = kids[i].1;
        let d = doc.resolve(id)->Ok_0->Dict_0;
        let a = seq![id.number];
        let b = tree_numbers(t);
        let c = kids_numbers(kids, i + 1);
        assert(kids_numbers(kids, i) == a + b + c);
        lemma_numbers_unseen(seen, a + b, c);
        lemma_numbers_unseen(seen, a, b);
        let seen1 = seen.insert(id.number);
        assert(seen.union(a.to_set()) =~= seen1) by {
            assert forall|x: u32| a.to_set().contains(x) <==> x == id.number by {
                if x == id.number {
                    assert(a[0] == x);
                }
            }
        }
        assert(!seen.contains(a[0]));
        let p = tree_pairs(t);
        let q = kids_pairs(kids, i + 1);
        lemma_pairs::<K>(p, q);
        lemma_tree_walk::<K>(doc, d, payload, t, seen1, depth + 1, out);
        let next = out + pair_entries::<K>(p);
        assert(kid_items(kids)[i] == ObjV::Reference(id));
        lemma_kids_walk::<K>(doc, kids, i + 1, payload, seen1.union(b.to_set()), depth, next);
        assert(next + pair_entries::<K>(q) =~= out + (pair_entries::<K>(p) + pair_entries::<K>(
            q,
        )));
    } else {
        assert(seen.union(kids_numbers(kids, i).to_set()) =~= seen);
        assert(out + pair_entries::<K>(kids_pairs(kids, i)) =~= out);
    }
}

/// The entries of a tree are those of its leaves from left to right, as long as they
/// are no more than 100000. Lists of entries and of kids may be referred to.
pub proof fn law_tree_entries<K: TreeKey>(doc: DocV, root: DictV, payload: Seq<char>, t: KeyTree)
    requires
        tree_shown(doc, root, payload, t, 0),
        tree_numbers(t).no_duplicates(),
        keys_fit::<K>(tree_pairs(t)),
        tree_pairs(t).len() <= 100_000,
    ensures
        tree_entries::<K>(doc, root, payload) == Ok::<Seq<(K::V, ObjV)>, Seq<char>>(
            pair_entries::<K>(tree_pairs(t)),
        ),
{
    lemma_tree_walk::<K>(doc, root, payload, t, Set::empty(), 0, Seq::empty());
    assert(Seq::<(K::V, ObjV)>::empty() + pair_entries::<K>(tree_pairs(t)) =~= pair_entries::<K>(
        tree_pairs(t),
    ));
}

/// The keys of a name tree are strings, in either form, or names; those of a number
/// tree are integers.
pub proof fn law_tree_keys(b: Seq<u8>, n: Seq<char>, i: i64)
    ensures
        <Vec<u8> as TreeKey>::key_of(ObjV::LiteralString(b)) == Some(b),
        <Vec<u8> as TreeKey>::key_of(ObjV::HexString(b)) == Some(b),
        <Vec<u8> as TreeKey>::key_of(ObjV::Name(n)) == Some(vstd::utf8::encode_utf8(n)),
        <Vec<u8> as TreeKey>::key_of(ObjV::Integer(i)) is None,
        <i64 as TreeKey>::key_of(ObjV::Integer(i)) == Some(i),
        <i64 as TreeKey>::key_of(ObjV::Name(n)) is None,
{
}

/// Bytes are in order like words: where they first differ the smaller byte comes
/// first, and a beginning comes before what it is the beginning of.
pub proof fn law_byte_order(c: Seq<u8>, x: u8, y: u8, a: Seq<u8>, b: Seq<u8>)
    ensures
        x != y ==> (bytes_before(c + (seq![x] + a), c + (seq![y] + b)) <==> x < y),
        bytes_before(c, c + (seq![x] + a)),
        !bytes_before(c + (seq![x] + a), c),
        !bytes_before(c, c),
    decreases c.len(),
{
    let p = c + (seq![x] + a);
    let q = c + (seq![y] + b);
    if c.len() == 0 {
        assert(p[0] == x && q[0] == y);
    } else {
        assert(p[0] == c[0] && q[0] == c[0]);
        law_byte_order(c.skip(1), x, y, a, b);
        assert(p.skip(1) =~= c.skip(1) + (seq![x] + a));
        assert(q.skip(1) =~= c.skip(1) + (seq![y] + b));
    }
}

/// Limits rule out the keys before the first and those behind the last, and no
/// other; without limits no key is ruled out.
pub proof fn law_limits(node: DictV, lo: ObjV, hi: ObjV, a: Seq<u8>, b: Seq<u8>, key: Seq<u8>)
    requires
        key_bytes_of(lo) == Some(a),
        key_bytes_of(hi) == Some(b),
    ensures
        dict_get(node, "Limits"@) == Some(ObjV::Array(seq![lo, hi])) ==> {
            &&& bytes_before(key, a) ==> ruled_out(node, key)
            &&& bytes_before(b, key) ==> ruled_out(node, key)
            &&& !bytes_before(key, a) && !bytes_before(b, key) ==> !ruled_out(node, key)
            &&& (key == a || key == b) && !bytes_before(b, a) ==> !ruled_out(node, key)
        },
        dict_get(node, "Limits"@) is None ==> !ruled_out(node, key),
{
    let s = seq![lo, hi];
    assert(s[0] == lo && s[1] == hi && s.len() == 2);
    law_byte_order(key, 0, 0, key, key);
}

/// A leaf has under a key the value of the first pair with that key.
pub proof fn law_leaf_value(pairs: Seq<(ObjV, ObjV)>, i: int, k: int, key: Seq<u8>)
    requires
        0 <= k <= i < pairs.len(),
        key_bytes_of(pairs[i].0) == Some(key),
        forall|j: int| 0 <= j < i ==> key_bytes_of((#[trigger] pairs[j]).0) != Some(key),
    ensures
        leaf_value(pairs_written(pairs), 2 * k, key) == Some(pairs[i].1),
    decreases i - k,
{
    let items = pairs_written(pairs);
    assert(items[2 * k] == pairs[k].0);
    assert(items[2 * k + 1] == pairs[k].1);
    if k < i {
        law_leaf_value(pairs, i, k + 1, key);
    }
}

} // verus!
