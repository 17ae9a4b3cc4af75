//! Name trees and number trees.

use std::collections::HashSet;
use vstd::prelude::*;
use crate::crypt::same_bytes;
use crate::document::{DocV, DocumentReader};
use crate::error::PdfError;
use crate::filters::opt_bytes;
use crate::objects::{clone_bytes, dict_get, lemma_array_view, objs_view, Dict, DictV, ObjV, Object, ObjectId};
use crate::textstring::{decode_text_bytes, text_of_bytes};

verus! {

broadcast use vstd::std_specs::hash::group_hash_axioms;

/// Deeper nodes are left out.
pub const MAX_DEPTH: usize = 32;

/// More entries than this are not collected.
pub const MAX_ENTRIES: usize = 100_000;

/// A kind of key that a tree is ordered by.
pub trait TreeKey: View + Sized {
    /// The key that an object is.
    spec fn key_of(o: ObjV) -> Option<Self::V>;

    /// The key that an object is.
    fn read_key(o: &Object) -> (r: Option<Self>)
        ensures
            match r {
                Some(k) => Self::key_of(o@) == Some(k@),
                None => Self::key_of(o@) is None,
            },
    ;
}

/// The bytes of a name tree's key: a string, or a name.
pub open spec fn key_bytes_of(o: ObjV) -> Option<Seq<u8>> {
    match o {
        ObjV::LiteralString(b) => Some(b),
        ObjV::HexString(b) => Some(b),
        ObjV::Name(n) => Some(vstd::utf8::encode_utf8(n)),
        _ => None,
    }
}

/// The bytes of a name tree's key: a string, or a name.
pub fn key_bytes(o: &Object) -> (r: Option<Vec<u8>>)
    ensures
        opt_bytes(r) == key_bytes_of(o@),
{
    match o {
        Object::LiteralString(b) => Some(clone_bytes(b)),
        Object::HexString(b) => Some(clone_bytes(b)),
        Object::Name(n) => Some(vstd::slice::slice_to_vec(n.as_str().as_bytes())),
        _ => None,
    }
}

impl TreeKey for Vec<u8> {
    open spec fn key_of(o: ObjV) -> Option<Seq<u8>> {
        key_bytes_of(o)
    }

    fn read_key(o: &Object) -> (r: Option<Vec<u8>>) {
        key_bytes(o)
    }
}

impl TreeKey for i64 {
    open spec fn key_of(o: ObjV) -> Option<i64> {
        match o {
            ObjV::Integer(n) => Some(n),
            _ => None,
        }
    }

    fn read_key(o: &Object) -> (r: Option<i64>) {
        match o {
            Object::Integer(n) => Some(*n),
            _ => None,
        }
    }
}

/// The entries of a tree as mathematical values.
pub open spec fn entries_view<K: TreeKey>(s: Seq<(K, Object)>) -> Seq<(K::V, ObjV)> {
    s.map_values(|p: (K, Object)| (p.0@, p.1@))
}

/// The entries of a leaf from place `i` on, behind the entries `out`: keys
/// and values take turns, and a pair whose key is of another kind is left out.
pub open spec fn leaf_entries<K: TreeKey>(
    items: Seq<ObjV>,
    i: int,
    out: Seq<(K::V, ObjV)>,
) -> Seq<(K::V, ObjV)>
    decreases items.len() - i,
{
    if i < 0 || i + 1 >= items.len() || out.len() >= MAX_ENTRIES {
        out
    } else {
        match K::key_of(items[i]) {
            Some(k) => leaf_entries::<K>(items, i + 2, out.push((k, items[i + 1]))),
            None => leaf_entries::<K>(items, i + 2, out),
        }
    }
}

/// What walking a part of a tree gives: the nodes seen and the entries found
/// so far, or the description of an error.
pub type Walked<K> = Result<(Set<u32>, Seq<(K, ObjV)>), Seq<char>>;

/// The entries of a node and below, behind what was `seen` and found (`out`)
/// before. `payload` is the key under which leaves keep their entries.
pub open spec fn walked<K: TreeKey>(
    doc: DocV,
    node: DictV,
    payload: Seq<char>,
    seen: Set<u32>,
    depth: int,
    out: Seq<(K::V, ObjV)>,
) -> Walked<K::V>
    decreases MAX_DEPTH + 1 - depth, 1int, 0int,
{
    if depth > MAX_DEPTH {
        Ok((seen, out))
    } else {
        match dict_get(node, payload) {
            Some(p) => match doc.deref(p) {
                Err(e) => Err(e),
                Ok(ObjV::Array(items)) => Ok((seen, leaf_entries::<K>(items, 0, out))),
                Ok(_) => Ok((seen, out)),
            },
            None => match dict_get(node, "Kids"@) {
                None => Ok((seen, out)),
                Some(k) => match doc.deref(k) {
                    Err(e) => Err(e),
                    Ok(ObjV::Array(kids)) => walked_kids::<K>(
                        doc,
                        kids,
                        0,
                        payload,
                        seen,
                        depth,
                        out,
                    ),
                    Ok(_) => Ok((seen, out)),
                },
            },
        }
    }
}

/// The entries below the kids from place `i` on. A kid that was seen before
/// is passed over, and so is one that is no dictionary.
pub open spec fn walked_kids<K: TreeKey>(
    doc: DocV,
    kids: Seq<ObjV>,
    i: int,
    payload: Seq<char>,
    seen: Set<u32>,
    depth: int,
    out: Seq<(K::V, ObjV)>,
) -> Walked<K::V>
    decreases MAX_DEPTH + 1 - depth, 0int, kids.len() - i,
{
    if i < 0 || i >= kids.len() || depth > MAX_DEPTH {
        Ok((seen, out))
    } else {
        match kids[i] {
            ObjV::Reference(id) => if seen.contains(id.number) {
                walked_kids::<K>(doc, kids, i + 1, payload, seen, depth, out)
            } else {
                match doc.resolve(id) {
                    Err(e) => Err(e),
                    Ok(ObjV::Dict(d)) => match walked::<K>(
                        doc,
                        d,
                        payload,
                        seen.insert(id.number),
                        depth + 1,
                        out,
                    ) {
                        Err(e) => Err(e),
                        Ok((s, o)) => walked_kids::<K>(doc, kids, i + 1, payload, s, depth, o),
                    },
                    Ok(_) => walked_kids::<K>(
                        doc,
                        kids,
                        i + 1,
                        payload,
                        seen.insert(id.number),
                        depth,
                        out,
                    ),
                }
            },
            ObjV::Dict(d) => match walked::<K>(doc, d, payload, seen, depth + 1, out) {
                Err(e) => Err(e),
                Ok((s, o)) => walked_kids::<K>(doc, kids, i + 1, payload, s, depth, o),
            },
            _ => walked_kids::<K>(doc, kids, i + 1, payload, seen, depth, out),
        }
    }
}

/// The entries of a whole tree.
pub open spec fn tree_entries<K: TreeKey>(
    doc: DocV,
    root: DictV,
    payload: Seq<char>,
) -> Result<Seq<(K::V, ObjV)>, Seq<char>> {
    match walked::<K>(doc, root, payload, Set::empty(), 0, Seq::empty()) {
        Ok((_, out)) => Ok(out),
        Err(e) => Err(e),
    }
}

/// `r`, with `seen` and `out` as they are afterwards, is what `w` says.
pub open spec fn walk_agrees<K: TreeKey>(
    r: Result<(), PdfError>,
    seen: Set<u32>,
    out: Seq<(K, Object)>,
    w: Walked<K::V>,
) -> bool {
    match r {
        Ok(_) => w == Ok::<(Set<u32>, Seq<(K::V, ObjV)>), Seq<char>>((seen, entries_view(out))),
        Err(e) => w == Err::<(Set<u32>, Seq<(K::V, ObjV)>), Seq<char>>(e@),
    }
}

/// Add the entries of a leaf.
fn collect_leaf<K: TreeKey>(items: &Vec<Object>, out: &mut Vec<(K, Object)>)
    ensures
        entries_view(final(out)@) == leaf_entries::<K>(
            objs_view(items@),
            0,
            entries_view(old(out)@),
        ),
{
    let ghost view = objs_view(items@);
    let ghost goal = leaf_entries::<K>(view, 0, entries_view(out@));
    let mut i: usize = 0;
    while items.len() - i >= 2 && out.len() < MAX_ENTRIES
        invariant
            i <= items@.len(),
            view == objs_view(items@),
            goal == leaf_entries::<K>(view, i as int, entries_view(out@)),
        decreases items.len() - i,
    {
        let ghost before = entries_view(out@);
        proof {
            assert(view[i as int] == items@[i as int]@);
            assert(view[i + 1] == items@[i + 1]@);
        }
        match K::read_key(&items[i]) {
            Some(k) => {
                let v: Object = items[i + 1].clone();
                let ghost e = (k@, v@);
                out.push((k, v));
                proof {
                    assert(entries_view(out@) =~= before.push(e));
                }
            },
            None => {},
        }
        i = i + 2;
    }
}

/// Add the entries of a node and below.
fn walk<K: TreeKey>(
    reader: &mut DocumentReader,
    node: &Dict,
    payload: &str,
    seen: &mut HashSet<u32>,
    depth: usize,
    out: &mut Vec<(K, Object)>,
) -> (r: Result<(), PdfError>)
    requires
        old(reader).wf(),
        depth <= MAX_DEPTH + 1,
    ensures
        final(reader).wf(),
        final(reader).doc() == old(reader).doc(),
        walk_agrees(
            r,
            final(seen)@,
            final(out)@,
            walked::<K>(
                old(reader).doc(),
                node@,
                payload@,
                old(seen)@,
                depth as int,
                entries_view(old(out)@),
            ),
        ),
    decreases MAX_DEPTH + 1 - depth, 1int,
{
    if depth > MAX_DEPTH {
        return Ok(());
    }
    if let Some(p) = node.get(payload) {
        return match reader.deref(p.clone()) {
            Err(e) => Err(e),
            Ok(Object::Array(items)) => {
                proof {
                    lemma_array_view(items);
                }
                collect_leaf(&items, out);
                Ok(())
            },
            Ok(_) => Ok(()),
        };
    }
    let kids_obj: Object = match node.get("Kids") {
        Some(k) => k.clone(),
        None => {
            return Ok(());
        },
    };
    match reader.deref(kids_obj) {
        Err(e) => Err(e),
        Ok(Object::Array(kids)) => {
            proof {
                lemma_array_view(kids);
            }
            walk_kids(reader, &kids, payload, seen, depth, out)
        },
        Ok(_) => Ok(()),
    }
}

/// Add the entries below the kids of a node.
fn walk_kids<K: TreeKey>(
    reader: &mut DocumentReader,
    kids: &Vec<Object>,
    payload: &str,
    seen: &mut HashSet<u32>,
    depth: usize,
    out: &mut Vec<(K, Object)>,
) -> (r: Result<(), PdfError>)
    requires
        old(reader).wf(),
        depth <= MAX_DEPTH,
    ensures
        final(reader).wf(),
        final(reader).doc() == old(reader).doc(),
        walk_agrees(
            r,
            final(seen)@,
            final(out)@,
            walked_kids::<K>(
                old(reader).doc(),
                objs_view(kids@),
                0,
                payload@,
                old(seen)@,
                depth as int,
                entries_view(old(out)@),
            ),
        ),
    decreases MAX_DEPTH + 1 - depth, 0int,
{
    let ghost view = objs_view(kids@);
    let ghost doc = reader.doc();
    let ghost goal = walked_kids::<K>(
        doc,
        view,
        0,
        payload@,
        seen@,
        depth as int,
        entries_view(out@),
    );
    let mut i: usize = 0;
    while i < kids.len()
        invariant
            i <= kids@.len(),
            view == objs_view(kids@),
            reader.wf(),
            reader.doc() == doc,
            doc == old(reader).doc(),
            depth <= MAX_DEPTH,
            goal == walked_kids::<K>(
                doc,
                objs_view(kids@),
                0,
                payload@,
                old(seen)@,
                depth as int,
                entries_view(old(out)@),
            ),
            goal == walked_kids::<K>(
                doc,
                view,
                i as int,
                payload@,
                seen@,
                depth as int,
                entries_view(out@),
            ),
        decreases kids.len() - i,
    {
        proof {
            assert(view[i as int] == kids@[i as int]@);
        }
        match &kids[i] {
            Object::Reference(id) => {
                if !seen.contains(&id.number) {
                    seen.insert(id.number);
                    match reader.resolve(*id) {
                        Err(e) => {
                            return Err(e);
                        },
                        Ok(Object::Dict(d)) => {
                            match walk(reader, &d, payload, seen, depth + 1, out) {
                                Ok(_) => {},
                                Err(e) => {
                                    return Err(e);
                                },
                            }
                        },
                        Ok(_) => {},
                    }
                }
            },
            Object::Dict(d) => {
                match walk(reader, d, payload, seen, depth + 1, out) {
                    Ok(_) => {},
                    Err(e) => {
                        return Err(e);
                    },
                }
            },
            _ => {},
        }
        i = i + 1;
    }
    Ok(())
}

/// `r` holds the entries that `w` says.
pub open spec fn entries_agree<K: TreeKey>(
    r: Result<Vec<(K, Object)>, PdfError>,
    w: Result<Seq<(K::V, ObjV)>, Seq<char>>,
) -> bool {
    match r {
        Ok(v) => w == Ok::<Seq<(K::V, ObjV)>, Seq<char>>(entries_view(v@)),
        Err(e) => w == Err::<Seq<(K::V, ObjV)>, Seq<char>>(e@),
    }
}

fn all_entries<K: TreeKey>(reader: &mut DocumentReader, root: &Dict, payload: &str) -> (r: Result<
    Vec<(K, Object)>,
    PdfError,
>)
    requires
        old(reader).wf(),
    ensures
        final(reader).wf(),
        final(reader).doc() == old(reader).doc(),
        entries_agree(r, tree_entries::<K>(old(reader).doc(), root@, payload@)),
{
    let mut out: Vec<(K, Object)> = Vec::new();
    let mut seen: HashSet<u32> = HashSet::new();
    proof {
        assert(entries_view(out@) =~= Seq::<(K::V, ObjV)>::empty());
    }
    match walk(reader, root, payload, &mut seen, 0, &mut out) {
        Ok(_) => Ok(out),
        Err(e) => Err(e),
    }
}

/// The entries of a name tree, in tree order, with their keys as bytes.
pub fn name_tree_entries(reader: &mut DocumentReader, root: &Dict) -> (r: Result<
    Vec<(Vec<u8>, Object)>,
    PdfError,
>)
    requires
        old(reader).wf(),
    ensures
        final(reader).wf(),
        final(reader).doc() == old(reader).doc(),
        entries_agree(r, tree_entries::<Vec<u8>>(old(reader).doc(), root@, "Names"@)),
{
    all_entries(reader, root, "Names")
}

/// The entries of a number tree, in tree order.
pub fn number_tree_entries(reader: &mut DocumentReader, root: &Dict) -> (r: Result<
    Vec<(i64, Object)>,
    PdfError,
>)
    requires
        old(reader).wf(),
    ensures
        final(reader).wf(),
        final(reader).doc() == old(reader).doc(),
        entries_agree(r, tree_entries::<i64>(old(reader).doc(), root@, "Nums"@)),
{
    all_entries(reader, root, "Nums")
}

/// The text of a name tree's key.
pub fn decode_key_text(bytes: &[u8]) -> (r: String)
    ensures
        r@ == text_of_bytes(bytes@),
{
    decode_text_bytes(bytes)
}

// ----------------------------------------------------------------- lookup

/// `a` comes before `b`, byte by byte.
pub open spec fn bytes_before(a: Seq<u8>, b: Seq<u8>) -> bool
    decreases a.len(),
{
    if b.len() == 0 {
        false
    } else if a.len() == 0 {
        true
    } else if a[0] != b[0] {
        a[0] < b[0]
    } else {
        bytes_before(a.skip(1), b.skip(1))
    }
}

/// `a` comes before `b`, byte by byte.
pub(crate) fn comes_before(a: &[u8], b: &[u8]) -> (r: bool)
    ensures
        r == bytes_before(a@, b@),
{
    let mut i: usize = 0;
    proof {
        assert(a@.skip(0) =~= a@);
        assert(b@.skip(0) =~= b@);
    }
    while i < a.len() && i < b.len() && a[i] == b[i]
        invariant
            i <= a@.len(),
            i <= b@.len(),
            bytes_before(a@, b@) == bytes_before(a@.skip(i as int), b@.skip(i as int)),
        decreases a.len() - i,
    {
        proof {
            assert(a@.skip(i as int).skip(1) =~= a@.skip(i + 1));
            assert(b@.skip(i as int).skip(1) =~= b@.skip(i + 1));
        }
        i = i + 1;
    }
    if i >= b.len() {
        false
    } else if i >= a.len() {
        true
    } else {
        a[i] < b[i]
    }
}

/// The least and the greatest key that a node says it holds.
pub open spec fn limits_of(node: DictV) -> Option<(Seq<u8>, Seq<u8>)> {
    match dict_get(node, "Limits"@) {
        Some(ObjV::Array(items)) => if items.len() == 2 {
            match (key_bytes_of(items[0]), key_bytes_of(items[1])) {
                (Some(lo), Some(hi)) => Some((lo, hi)),
                _ => None,
            }
        } else {
            None
        },
        _ => None,
    }
}

/// A node says that it does not hold `key`.
pub open spec fn ruled_out(node: DictV, key: Seq<u8>) -> bool {
    match limits_of(node) {
        Some((lo, hi)) => bytes_before(key, lo) || bytes_before(hi, key),
        None => false,
    }
}

fn limits_rule_out(node: &Dict, key: &[u8]) -> (r: bool)
    ensures
        r == ruled_out(node@, key@),
{
    match node.get("Limits") {
        Some(Object::Array(items)) => {
            proof {
                lemma_array_view(*items);
            }
            if items.len() != 2 {
                return false;
            }
            proof {
                assert(objs_view(items@)[0] == items@[0]@);
                assert(objs_view(items@)[1] == items@[1]@);
            }
            match (key_bytes(&items[0]), key_bytes(&items[1])) {
                (Some(lo), Some(hi)) => comes_before(key, lo.as_slice()) || comes_before(
                    hi.as_slice(),
                    key,
                ),
                _ => false,
            }
        },
        _ => false,
    }
}

/// The value of the first pair with key `key` in a leaf, from place `i` on.
pub open spec fn leaf_value(items: Seq<ObjV>, i: int, key: Seq<u8>) -> Option<ObjV>
    decreases items.len() - i,
{
    if i < 0 || i + 1 >= items.len() {
        None
    } else if key_bytes_of(items[i]) == Some(key) {
        Some(items[i + 1])
    } else {
        leaf_value(items, i + 2, key)
    }
}

/// What looking a key up gives: the nodes seen so far and the value, if it was
/// found, or the description of an error.
pub type LookedUp = Result<(Set<u32>, Option<ObjV>), Seq<char>>;

/// The value of `key` in a node and below.
pub open spec fn looked_up(doc: DocV, node: DictV, key: Seq<u8>, seen: Set<u32>, depth: int) -> LookedUp
    decreases MAX_DEPTH + 1 - depth, 1int, 0int,
{
    if depth > MAX_DEPTH {
        Ok((seen, None))
    } else {
        match dict_get(node, "Names"@) {
            Some(p) => match doc.deref(p) {
                Err(e) => Err(e),
                Ok(ObjV::Array(items)) => Ok((seen, leaf_value(items, 0, key))),
                Ok(_) => Ok((seen, None)),
            },
            None => match dict_get(node, "Kids"@) {
                None => Ok((seen, None)),
                Some(k) => match doc.deref(k) {
                    Err(e) => Err(e),
                    Ok(ObjV::Array(kids)) => looked_up_kids(doc, kids, 0, key, seen, depth),
                    Ok(_) => Ok((seen, None)),
                },
            },
        }
    }
}

/// The value of `key` below the kids from place `i` on. A kid that rules the
/// key out is passed over, and so is one that was seen before.
pub open spec fn looked_up_kids(
    doc: DocV,
    kids: Seq<ObjV>,
    i: int,
    key: Seq<u8>,
    seen: Set<u32>,
    depth: int,
) -> LookedUp
    decreases MAX_DEPTH + 1 - depth, 0int, kids.len() - i,
{
    if i < 0 || i >= kids.len() || depth > MAX_DEPTH {
        Ok((seen, None))
    } else {
        match kids[i] {
            ObjV::Reference(id) => if seen.contains(id.number) {
                looked_up_kids(doc, kids, i + 1, key, seen, depth)
            } else {
                match doc.resolve(id) {
                    Err(e) => Err(e),
                    Ok(ObjV::Dict(d)) => if ruled_out(d, key) {
                        looked_up_kids(doc, kids, i + 1, key, seen.insert(id.number), depth)
                    } else {
                        match looked_up(doc, d, key, seen.insert(id.number), depth + 1) {
                            Err(e) => Err(e),
                            Ok((s, Some(v))) => Ok((s, Some(v))),
                            Ok((s, None)) => looked_up_kids(doc, kids, i + 1, key, s, depth),
                        }
                    },
                    Ok(_) => looked_up_kids(
                        doc,
                        kids,
                        i + 1,
                        key,
                        seen.insert(id.number),
                        depth,
                    ),
                }
            },
            ObjV::Dict(d) => if ruled_out(d, key) {
                looked_up_kids(doc, kids, i + 1, key, seen, depth)
            } else {
                match looked_up(doc, d, key, seen, depth + 1) {
                    Err(e) => Err(e),
                    Ok((s, Some(v))) => Ok((s, Some(v))),
                    Ok((s, None)) => looked_up_kids(doc, kids, i + 1, key, s, depth),
                }
            },
            _ => looked_up_kids(doc, kids, i + 1, key, seen, depth),
        }
    }
}

/// The value of `key` in a whole tree.
pub open spec fn tree_value(doc: DocV, root: DictV, key: Seq<u8>) -> Result<
    Option<ObjV>,
    Seq<char>,
> {
    match looked_up(doc, root, key, Set::empty(), 0) {
        Ok((_, v)) => Ok(v),
        Err(e) => Err(e),
    }
}

/// What an optional object stands for.
pub open spec fn opt_obj(o: Option<Object>) -> Option<ObjV> {
    match o {
        Some(v) => Some(v@),
        None => None,
    }
}

/// `r`, with `seen` as it is afterwards, is what `w` says.
pub open spec fn lookup_agrees(
    r: Result<Option<Object>, PdfError>,
    seen: Set<u32>,
    w: LookedUp,
) -> bool {
    match r {
        Ok(v) => w == Ok::<(Set<u32>, Option<ObjV>), Seq<char>>((seen, opt_obj(v))),
        Err(e) => w == Err::<(Set<u32>, Option<ObjV>), Seq<char>>(e@),
    }
}

fn find_in_leaf(items: &Vec<Object>, key: &[u8]) -> (r: Option<Object>)
    ensures
        opt_obj(r) == leaf_value(objs_view(items@), 0, key@),
{
    let ghost view = objs_view(items@);
    let mut i: usize = 0;
    while items.len() - i >= 2
        invariant
            i <= items@.len(),
            view == objs_view(items@),
            leaf_value(view, 0, key@) == leaf_value(view, i as int, key@),
        decreases items.len() - i,
    {
        proof {
            assert(view[i as int] == items@[i as int]@);
            assert(view[i + 1] == items@[i + 1]@);
        }
        if let Some(k) = key_bytes(&items[i]) {
            if same_bytes(k.as_slice(), key) {
                return Some(items[i + 1].clone());
            }
        }
        i = i + 2;
    }
    None
}

fn lookup_node(
    reader: &mut DocumentReader,
    node: &Dict,
    key: &[u8],
    seen: &mut HashSet<u32>,
    depth: usize,
) -> (r: Result<Option<Object>, PdfError>)
    requires
        old(reader).wf(),
        depth <= MAX_DEPTH + 1,
    ensures
        final(reader).wf(),
        final(reader).doc() == old(reader).doc(),
        lookup_agrees(
            r,
            final(seen)@,
            looked_up(old(reader).doc(), node@, key@, old(seen)@, depth as int),
        ),
    decreases MAX_DEPTH + 1 - depth, 1int,
{
    if depth > MAX_DEPTH {
        return Ok(None);
    }
    if let Some(p) = node.get("Names") {
        return match reader.deref(p.clone()) {
            Err(e) => Err(e),
            Ok(Object::Array(items)) => {
                proof {
                    lemma_array_view(items);
                }
                Ok(find_in_leaf(&items, key))
            },
            Ok(_) => Ok(None),
        };
    }
    let kids_obj: Object = match node.get("Kids") {
        Some(k) => k.clone(),
        None => {
            return Ok(None);
        },
    };
    match reader.deref(kids_obj) {
        Err(e) => Err(e),
        Ok(Object::Array(kids)) => {
            proof {
                lemma_array_view(kids);
            }
            lookup_kids(reader, &kids, key, seen, depth)
        },
        Ok(_) => Ok(None),
    }
}

fn lookup_kids(
    reader: &mut DocumentReader,
    kids: &Vec<Object>,
    key: &[u8],
    seen: &mut HashSet<u32>,
    depth: usize,
) -> (r: Result<Option<Object>, PdfError>)
    requires
        old(reader).wf(),
        depth <= MAX_DEPTH,
    ensures
        final(reader).wf(),
        final(reader).doc() == old(reader).doc(),
        lookup_agrees(
            r,
            final(seen)@,
            looked_up_kids(
                old(reader).doc(),
                objs_view(kids@),
                0,
                key@,
                old(seen)@,
                depth as int,
            ),
        ),
    decreases MAX_DEPTH + 1 - depth, 0int,
{
    let ghost view = objs_view(kids@);
    let ghost doc = reader.doc();
    let ghost goal = looked_up_kids(doc, view, 0, key@, seen@, depth as int);
    let mut i: usize = 0;
    while i < kids.len()
        invariant
            i <= kids@.len(),
            view == objs_view(kids@),
            reader.wf(),
            reader.doc() == doc,
            doc == old(reader).doc(),
            depth <= MAX_DEPTH,
            goal == looked_up_kids(doc, view, 0, key@, old(seen)@, depth as int),
            goal == looked_up_kids(doc, view, i as int, key@, seen@, depth as int),
        decreases kids.len() - i,
    {
        proof {
            assert(view[i as int] == kids@[i as int]@);
        }
        let mut kid: Option<Dict> = None;
        match &kids[i] {
            Object::Reference(id) => {
                if !seen.contains(&id.number) {
                    seen.insert(id.number);
                    match reader.resolve(*id) {
                        Err(e) => {
                            return Err(e);
                        },
                        Ok(Object::Dict(d)) => {
                            kid = Some(d);
                        },
                        Ok(_) => {},
                    }
                }
            },
            Object::Dict(d) => {
                kid = Some(d.clone());
            },
            _ => {},
        }
        if let Some(d) = kid {
            if !limits_rule_out(&d, key) {
                match lookup_node(reader, &d, key, seen, depth + 1) {
                    Ok(Some(v)) => {
                        return Ok(Some(v));
                    },
                    Ok(None) => {},
                    Err(e) => {
                        return Err(e);
                    },
                }
            }
        }
        i = i + 1;
    }
    Ok(None)
}

/// The value of one key of a name tree, found by way of the limits that nodes
/// give for their keys. A node without limits is looked into.
pub fn name_tree_lookup(reader: &mut DocumentReader, root: &Dict, key: &[u8]) -> (r: Result<
    Option<Object>,
    PdfError,
>)
    requires
        old(reader).wf(),
    ensures
        final(reader).wf(),
        final(reader).doc() == old(reader).doc(),
        match r {
            Ok(v) => tree_value(old(reader).doc(), root@, key@) == Ok::<Option<ObjV>, Seq<char>>(
                opt_obj(v),
            ),
            Err(e) => tree_value(old(reader).doc(), root@, key@) == Err::<
                Option<ObjV>,
                Seq<char>,
            >(e@),
        },
{
    let mut seen: HashSet<u32> = HashSet::new();
    lookup_node(reader, root, key, &mut seen, 0)
}

// ------------------------------------------------------------------- laws

/// No more entries are collected than the cap allows.
pub proof fn law_entries_capped<K: TreeKey>(doc: DocV, root: DictV, payload: Seq<char>)
    ensures
        tree_entries::<K>(doc, root, payload) matches Ok(out) ==> out.len() <= MAX_ENTRIES,
{
    lemma_walked_capped::<K>(doc, root, payload, Set::empty(), 0, Seq::empty());
}

proof fn lemma_leaf_capped<K: TreeKey>(items: Seq<ObjV>, i: int, out: Seq<(K::V, ObjV)>)
    requires
        out.len() <= MAX_ENTRIES,
    ensures
        leaf_entries::<K>(items, i, out).len() <= MAX_ENTRIES,
    decreases items.len() - i,
{
    if !(i < 0 || i + 1 >= items.len() || out.len() >= MAX_ENTRIES) {
        match K::key_of(items[i]) {
            Some(k) => {
                lemma_leaf_capped::<K>(items, i + 2, out.push((k, items[i + 1])));
            },
            None => {
                lemma_leaf_capped::<K>(items, i + 2, out);
            },
        }
    }
}

proof fn lemma_walked_capped<K: TreeKey>(
    doc: DocV,
    node: DictV,
    payload: Seq<char>,
    seen: Set<u32>,
    depth: int,
    out: Seq<(K::V, ObjV)>,
)
    requires
        out.len() <= MAX_ENTRIES,
    ensures
        walked::<K>(doc, node, payload, seen, depth, out) matches Ok((s, o)) ==> o.len()
            <= MAX_ENTRIES,
    decreases MAX_DEPTH + 1 - depth, 1int, 0int,
{
    if depth <= MAX_DEPTH {
        match dict_get(node, payload) {
            Some(p) => match doc.deref(p) {
                Ok(ObjV::Array(items)) => {
                    lemma_leaf_capped::<K>(items, 0, out);
                },
                _ => {},
            },
            None => match dict_get(node, "Kids"@) {
                Some(k) => match doc.deref(k) {
                    Ok(ObjV::Array(kids)) => {
                        lemma_kids_capped::<K>(doc, kids, 0, payload, seen, depth, out);
                    },
                    _ => {},
                },
                None => {},
            },
        }
    }
}

proof fn lemma_kids_capped<K: TreeKey>(
    doc: DocV,
    kids: Seq<ObjV>,
    i: int,
    payload: Seq<char>,
    seen: Set<u32>,
    depth: int,
    out: Seq<(K::V, ObjV)>,
)
    requires
        out.len() <= MAX_ENTRIES,
    ensures
        walked_kids::<K>(doc, kids, i, payload, seen, depth, out) matches Ok((s, o)) ==> o.len()
            <= MAX_ENTRIES,
    decreases MAX_DEPTH + 1 - depth, 0int, kids.len() - i,
{
    if !(i < 0 || i >= kids.len() || depth > MAX_DEPTH) {
        match kids[i] {
            ObjV::Reference(id) => {
                if seen.contains(id.number) {
                    lemma_kids_capped::<K>(doc, kids, i + 1, payload, seen, depth, out);
                } else {
                    let s2 = seen.insert(id.number);
                    match doc.resolve(id) {
                        Ok(ObjV::Dict(d)) => {
                            lemma_walked_capped::<K>(doc, d, payload, s2, depth + 1, out);
                            match walked::<K>(doc, d, payload, s2, depth + 1, out) {
                                Ok((s, o)) => {
                                    lemma_kids_capped::<K>(doc, kids, i + 1, payload, s, depth, o);
                                },
                                _ => {},
                            }
                        },
                        Ok(_) => {
                            lemma_kids_capped::<K>(doc, kids, i + 1, payload, s2, depth, out);
                        },
                        _ => {},
                    }
                }
            },
            ObjV::Dict(d) => {
                lemma_walked_capped::<K>(doc, d, payload, seen, depth + 1, out);
                match walked::<K>(doc, d, payload, seen, depth + 1, out) {
                    Ok((s, o)) => {
                        lemma_kids_capped::<K>(doc, kids, i + 1, payload, s, depth, o);
                    },
                    _ => {},
                }
            },
            _ => {
                lemma_kids_capped::<K>(doc, kids, i + 1, payload, seen, depth, out);
            },
        }
    }
}

/// The first entry with a key.
pub open spec fn first_value(entries: Seq<(Seq<u8>, ObjV)>, key: Seq<u8>, i: int) -> Option<ObjV>
    decreases entries.len() - i,
{
    if i < 0 || i >= entries.len() {
        None
    } else if entries[i].0 == key {
        Some(entries[i].1)
    } else {
        first_value(entries, key, i + 1)
    }
}

/// Enumerating a node and below, with `met` the nodes seen before, lists
/// nothing under `key`.
pub open spec fn lists_nothing(doc: DocV, node: DictV, key: Seq<u8>, met: Set<u32>, depth: int) -> bool {
    walked::<Vec<u8>>(doc, node, "Names"@, met, depth, Seq::empty()) matches Ok((s, out))
        ==> first_value(out, key, 0) is None
}

/// The limits of the nodes below `node` bound their keys, as far as `key` goes:
/// a node that rules it out lists nothing under it. The nodes that enumerating
/// the tree has met so far are `met`, and those that looking the key up has met
/// are `looked`. They part below nodes that were ruled out, and a node below one
/// of these that is met again leads to nothing under the key and nothing new.
pub open spec fn bounded(
    doc: DocV,
    node: DictV,
    key: Seq<u8>,
    met: Set<u32>,
    looked: Set<u32>,
    depth: int,
) -> bool
    decreases MAX_DEPTH + 1 - depth, 1int, 0int,
{
    depth > MAX_DEPTH || dict_get(node, "Names"@) is Some || match dict_get(node, "Kids"@) {
        None => true,
        Some(k) => match doc.deref(k) {
            Ok(ObjV::Array(kids)) => bounded_kids(doc, kids, 0, key, met, looked, depth),
            _ => true,
        },
    }
}

/// What looking a key up below a kid gives.
pub open spec fn kid_value(
    doc: DocV,
    id: ObjectId,
    key: Seq<u8>,
    looked: Set<u32>,
    depth: int,
) -> LookedUp {
    match doc.resolve(id) {
        Err(e) => Err(e),
        Ok(ObjV::Dict(d)) => if ruled_out(d, key) {
            Ok((looked, None))
        } else {
            looked_up(doc, d, key, looked, depth + 1)
        },
        Ok(_) => Ok((looked, None)),
    }
}

/// The same of the kids from place `i` on.
pub open spec fn bounded_kids(
    doc: DocV,
    kids: Seq<ObjV>,
    i: int,
    key: Seq<u8>,
    met: Set<u32>,
    looked: Set<u32>,
    depth: int,
) -> bool
    decreases MAX_DEPTH + 1 - depth, 0int, 2 * (kids.len() - i),
{
    if i < 0 || i >= kids.len() || depth > MAX_DEPTH {
        true
    } else {
        match kids[i] {
            ObjV::Reference(id) => if looked.contains(id.number) {
                bounded_kids(doc, kids, i + 1, key, met, looked, depth)
            } else if met.contains(id.number) {
                match kid_value(doc, id, key, looked.insert(id.number), depth) {
                    Ok((s, None)) => s.subset_of(met) && bounded_kids(
                        doc,
                        kids,
                        i + 1,
                        key,
                        met,
                        s,
                        depth,
                    ),
                    _ => false,
                }
            } else {
                match doc.resolve(id) {
                    Err(_) => true,
                    Ok(ObjV::Dict(d)) => bounded_kid(
                        doc,
                        d,
                        kids,
                        i,
                        key,
                        met.insert(id.number),
                        looked.insert(id.number),
                        depth,
                    ),
                    Ok(_) => bounded_kids(
                        doc,
                        kids,
                        i + 1,
                        key,
                        met.insert(id.number),
                        looked.insert(id.number),
                        depth,
                    ),
                }
            },
            ObjV::Dict(d) => bounded_kid(doc, d, kids, i, key, met, looked, depth),
            _ => bounded_kids(doc, kids, i + 1, key, met, looked, depth),
        }
    }
}

/// The same of the kid at place `i`, which is `d`, and of those behind it.
pub open spec fn bounded_kid(
    doc: DocV,
    d: DictV,
    kids: Seq<ObjV>,
    i: int,
    key: Seq<u8>,
    met: Set<u32>,
    looked: Set<u32>,
    depth: int,
) -> bool
    decreases MAX_DEPTH + 1 - depth, 0int, 2 * (kids.len() - i) - 1,
{
    let all = walked::<Vec<u8>>(doc, d, "Names"@, met, depth + 1, Seq::empty());
    if i < 0 || i >= kids.len() || depth > MAX_DEPTH || all is Err {
        true
    } else if ruled_out(d, key) {
        &&& lists_nothing(doc, d, key, met, depth + 1)
        &&& bounded_kids(doc, kids, i + 1, key, all->Ok_0.0, looked, depth)
    } else {
        &&& bounded(doc, d, key, met, looked, depth + 1)
        &&& match looked_up(doc, d, key, looked, depth + 1) {
            Ok((s, None)) => bounded_kids(doc, kids, i + 1, key, all->Ok_0.0, s, depth),
            _ => true,
        }
    }
}

/// The keys that enumerating a node lists, with `met` the nodes seen before,
/// lie within the limits that it gives. Missing or malformed limits bound
/// nothing.
pub open spec fn within_limits(doc: DocV, node: DictV, met: Set<u32>, depth: int) -> bool {
    walked::<Vec<u8>>(doc, node, "Names"@, met, depth, Seq::empty()) matches Ok((s, out))
        ==> forall|j: int| 0 <= j < out.len() ==> !ruled_out(node, #[trigger] out[j].0)
}

/// A tree: below `node` no node is met twice, and each lists only keys within
/// its limits.
pub open spec fn is_tree(doc: DocV, node: DictV, met: Set<u32>, depth: int) -> bool
    decreases MAX_DEPTH + 1 - depth, 1int, 0int,
{
    depth > MAX_DEPTH || dict_get(node, "Names"@) is Some || match dict_get(node, "Kids"@) {
        None => true,
        Some(k) => match doc.deref(k) {
            Ok(ObjV::Array(kids)) => are_trees(doc, kids, 0, met, depth),
            _ => true,
        },
    }
}

/// The same of the kids from place `i` on.
pub open spec fn are_trees(doc: DocV, kids: Seq<ObjV>, i: int, met: Set<u32>, depth: int) -> bool
    decreases MAX_DEPTH + 1 - depth, 0int, 2 * (kids.len() - i),
{
    if i < 0 || i >= kids.len() || depth > MAX_DEPTH {
        true
    } else {
        match kids[i] {
            ObjV::Reference(id) => !met.contains(id.number) && match doc.resolve(id) {
                Err(_) => true,
                Ok(ObjV::Dict(d)) => kid_is_tree(doc, d, kids, i, met.insert(id.number), depth),
                Ok(_) => are_trees(doc, kids, i + 1, met.insert(id.number), depth),
            },
            ObjV::Dict(d) => kid_is_tree(doc, d, kids, i, met, depth),
            _ => are_trees(doc, kids, i + 1, met, depth),
        }
    }
}

/// The same of the kid at place `i`, which is `d`, and of those behind it.
pub open spec fn kid_is_tree(
    doc: DocV,
    d: DictV,
    kids: Seq<ObjV>,
    i: int,
    met: Set<u32>,
    depth: int,
) -> bool
    decreases MAX_DEPTH + 1 - depth, 0int, 2 * (kids.len() - i) - 1,
{
    if i < 0 || i >= kids.len() || depth > MAX_DEPTH {
        true
    } else {
        &&& within_limits(doc, d, met, depth + 1)
        &&& is_tree(doc, d, met, depth + 1)
        &&& walked::<Vec<u8>>(doc, d, "Names"@, met, depth + 1, Seq::empty()) matches Ok((s, out))
            ==> are_trees(doc, kids, i + 1, s, depth)
    }
}

/// The limits that looking `key` up goes by can be relied on: the nodes form a
/// tree with limits that bound the keys below them, or, where nodes are met
/// twice, those that rule the key out do not hold it.
pub open spec fn orderly(doc: DocV, root: DictV, key: Seq<u8>) -> bool {
    is_tree(doc, root, Set::empty(), 0) || bounded(doc, root, key, Set::empty(), Set::empty(), 0)
}

/// Looking a key up finds what enumerating lists first under that key, in every
/// tree with fewer entries than the cap whose limits bound the keys below them.
/// Limits that are missing or malformed hide nothing.
pub proof fn law_lookup_finds_listed(
    doc: DocV,
    root: DictV,
    entries: Seq<(Seq<u8>, ObjV)>,
    key: Seq<u8>,
)
    requires
        tree_entries::<Vec<u8>>(doc, root, "Names"@) == Ok::<Seq<(Seq<u8>, ObjV)>, Seq<char>>(
            entries,
        ),
        entries.len() < MAX_ENTRIES,
        orderly(doc, root, key),
    ensures
        tree_value(doc, root, key) == Ok::<Option<ObjV>, Seq<char>>(first_value(entries, key, 0)),
{
    if is_tree(doc, root, Set::empty(), 0) {
        lemma_tree_bounded(doc, root, key, Set::empty(), Set::empty(), 0);
    }
    lemma_lookup_node(doc, root, key, Set::empty(), Set::empty(), 0);
}

/// Fewer entries are listed than the cap allows.
spec fn below_cap(w: Walked<Seq<u8>>) -> bool {
    w matches Ok((s, a)) && a.len() < MAX_ENTRIES
}

proof fn lemma_tree_bounded(
    doc: DocV,
    node: DictV,
    key: Seq<u8>,
    met: Set<u32>,
    looked: Set<u32>,
    depth: int,
)
    requires
        looked.subset_of(met),
        is_tree(doc, node, met, depth),
        below_cap(walked::<Vec<u8>>(doc, node, "Names"@, met, depth, Seq::empty())),
    ensures
        bounded(doc, node, key, met, looked, depth),
    decreases MAX_DEPTH + 1 - depth, 1int, 0int,
{
    if depth <= MAX_DEPTH && dict_get(node, "Names"@) is None {
        if let Some(k) = dict_get(node, "Kids"@) {
            if let Ok(ObjV::Array(kids)) = doc.deref(k) {
                lemma_trees_bounded(doc, kids, 0, key, met, looked, depth);
            }
        }
    }
}

proof fn lemma_trees_bounded(
    doc: DocV,
    kids: Seq<ObjV>,
    i: int,
    key: Seq<u8>,
    met: Set<u32>,
    looked: Set<u32>,
    depth: int,
)
    requires
        looked.subset_of(met),
        are_trees(doc, kids, i, met, depth),
        below_cap(walked_kids::<Vec<u8>>(doc, kids, i, "Names"@, met, depth, Seq::empty())),
    ensures
        bounded_kids(doc, kids, i, key, met, looked, depth),
    decreases MAX_DEPTH + 1 - depth, 0int, 2 * (kids.len() - i),
{
    if !(i < 0 || i >= kids.len() || depth > MAX_DEPTH) {
        match kids[i] {
            ObjV::Reference(id) => {
                let m2 = met.insert(id.number);
                let l2 = looked.insert(id.number);
                match doc.resolve(id) {
                    Ok(ObjV::Dict(d)) => {
                        lemma_kid_bounded(doc, d, kids, i, key, m2, l2, depth);
                    },
                    Ok(_) => {
                        lemma_trees_bounded(doc, kids, i + 1, key, m2, l2, depth);
                    },
                    _ => {},
                }
            },
            ObjV::Dict(d) => {
                lemma_kid_bounded(doc, d, kids, i, key, met, looked, depth);
            },
            _ => {
                lemma_trees_bounded(doc, kids, i + 1, key, met, looked, depth);
            },
        }
    }
}

proof fn lemma_kid_bounded(
    doc: DocV,
    d: DictV,
    kids: Seq<ObjV>,
    i: int,
    key: Seq<u8>,
    met: Set<u32>,
    looked: Set<u32>,
    depth: int,
)
    requires
        looked.subset_of(met),
        kid_is_tree(doc, d, kids, i, met, depth),
        0 <= i < kids.len(),
        depth <= MAX_DEPTH,
        below_cap(kid_walked::<Vec<u8>>(doc, d, kids, i, "Names"@, met, depth, Seq::empty())),
    ensures
        bounded_kid(doc, d, kids, i, key, met, looked, depth),
    decreases MAX_DEPTH + 1 - depth, 0int, 2 * (kids.len() - i) - 1,
{
    let none = Seq::<(Seq<u8>, ObjV)>::empty();
    let payload = "Names"@;
    lemma_walked_sees::<Vec<u8>>(doc, d, payload, met, depth + 1, none);
    lemma_walked_capped::<Vec<u8>>(doc, d, payload, met, depth + 1, none);
    if let Ok((m1, a)) = walked::<Vec<u8>>(doc, d, payload, met, depth + 1, none) {
        lemma_kids_behind::<Vec<u8>>(doc, kids, i + 1, payload, m1, depth, a);
        if ruled_out(d, key) {
            lemma_none_listed(a, key, 0);
            lemma_trees_bounded(doc, kids, i + 1, key, m1, looked, depth);
        } else {
            lemma_tree_bounded(doc, d, key, met, looked, depth + 1);
            lemma_lookup_node(doc, d, key, met, looked, depth + 1);
            if let Ok((l1, None)) = looked_up(doc, d, key, looked, depth + 1) {
                lemma_trees_bounded(doc, kids, i + 1, key, m1, l1, depth);
            }
        }
    }
}

proof fn lemma_none_listed(entries: Seq<(Seq<u8>, ObjV)>, key: Seq<u8>, i: int)
    requires
        0 <= i,
        forall|j: int| 0 <= j < entries.len() ==> (#[trigger] entries[j].0) != key,
    ensures
        first_value(entries, key, i) is None,
    decreases entries.len() - i,
{
    if i < entries.len() {
        lemma_none_listed(entries, key, i + 1);
    }
}

proof fn lemma_leaf_grows<K: TreeKey>(items: Seq<ObjV>, i: int, out: Seq<(K::V, ObjV)>)
    ensures
        out.len() <= leaf_entries::<K>(items, i, out).len(),
    decreases items.len() - i,
{
    if !(i < 0 || i + 1 >= items.len() || out.len() >= MAX_ENTRIES) {
        match K::key_of(items[i]) {
            Some(k) => {
                lemma_leaf_grows::<K>(items, i + 2, out.push((k, items[i + 1])));
            },
            None => {
                lemma_leaf_grows::<K>(items, i + 2, out);
            },
        }
    }
}

/// The first entry that a leaf adds under a key is its first pair with it.
proof fn lemma_leaf_lookup(items: Seq<ObjV>, i: int, out: Seq<(Seq<u8>, ObjV)>, key: Seq<u8>)
    requires
        0 <= i,
        leaf_entries::<Vec<u8>>(items, i, out).len() < MAX_ENTRIES,
    ensures
        first_value(leaf_entries::<Vec<u8>>(items, i, out), key, 0) == match first_value(
            out,
            key,
            0,
        ) {
            Some(v) => Some(v),
            None => leaf_value(items, i, key),
        },
    decreases items.len() - i,
{
    lemma_leaf_grows::<Vec<u8>>(items, i, out);
    if i + 1 < items.len() {
        match key_bytes_of(items[i]) {
            Some(k) => {
                let next = out.push((k, items[i + 1]));
                lemma_first_value_push(out, (k, items[i + 1]), key, 0);
                lemma_leaf_lookup(items, i + 2, next, key);
            },
            None => {
                lemma_leaf_lookup(items, i + 2, out, key);
            },
        }
    }
}

proof fn lemma_first_value_concat(
    a: Seq<(Seq<u8>, ObjV)>,
    b: Seq<(Seq<u8>, ObjV)>,
    key: Seq<u8>,
)
    ensures
        first_value(a + b, key, 0) == match first_value(a, key, 0) {
            Some(v) => Some(v),
            None => first_value(b, key, 0),
        },
    decreases b.len(),
{
    if b.len() == 0 {
        assert(a + b =~= a);
    } else {
        let front = b.drop_last();
        lemma_first_value_concat(a, front, key);
        lemma_first_value_push(front, b.last(), key, 0);
        lemma_first_value_push(a + front, b.last(), key, 0);
        assert(front.push(b.last()) =~= b);
        assert((a + front).push(b.last()) =~= a + b);
    }
}

/// As many entries as the cap allows.
spec fn cut<T>(s: Seq<T>) -> Seq<T> {
    if s.len() > MAX_ENTRIES {
        s.take(MAX_ENTRIES as int)
    } else {
        s
    }
}

proof fn lemma_cut<T>(a: Seq<T>, b: Seq<T>, c: Seq<T>)
    ensures
        cut(cut(a + b) + c) == cut(a + cut(b + c)),
        cut(a).len() <= MAX_ENTRIES,
{
    assert(cut(cut(a + b) + c) =~= cut(a + cut(b + c)));
}

/// What `w` lists behind `out`, if it lists `a` behind nothing.
spec fn behind<K>(w: Walked<K>, w0: Walked<K>, out: Seq<(K, ObjV)>) -> bool {
    match w0 {
        Err(e) => w == Err::<(Set<u32>, Seq<(K, ObjV)>), Seq<char>>(e),
        Ok((s, a)) => w == Ok::<(Set<u32>, Seq<(K, ObjV)>), Seq<char>>((s, cut(out + a))),
    }
}

proof fn lemma_leaf_behind<K: TreeKey>(items: Seq<ObjV>, i: int, out: Seq<(K::V, ObjV)>)
    requires
        out.len() <= MAX_ENTRIES,
    ensures
        leaf_entries::<K>(items, i, out) == cut(
            out + leaf_entries::<K>(items, i, Seq::empty()),
        ),
    decreases items.len() - i,
{
    let none = Seq::<(K::V, ObjV)>::empty();
    lemma_leaf_capped::<K>(items, i, none);
    if i < 0 || i + 1 >= items.len() {
        assert(cut(out + none) =~= out);
    } else if out.len() >= MAX_ENTRIES {
        assert(cut(out + leaf_entries::<K>(items, i, none)) =~= out);
    } else {
        match K::key_of(items[i]) {
            Some(k) => {
                let e = (k, items[i + 1]);
                let rest = leaf_entries::<K>(items, i + 2, none);
                lemma_leaf_behind::<K>(items, i + 2, out.push(e));
                lemma_leaf_behind::<K>(items, i + 2, none.push(e));
                lemma_cut(out, seq![e], rest);
                assert(out.push(e) =~= cut(out + seq![e]));
                assert(none.push(e) =~= seq![e]);
            },
            None => {
                lemma_leaf_behind::<K>(items, i + 2, out);
            },
        }
    }
}

/// What is listed below a node does not depend on what was listed before, but
/// for the cap.
proof fn lemma_walked_behind<K: TreeKey>(
    doc: DocV,
    node: DictV,
    payload: Seq<char>,
    seen: Set<u32>,
    depth: int,
    out: Seq<(K::V, ObjV)>,
)
    requires
        out.len() <= MAX_ENTRIES,
    ensures
        behind(
            walked::<K>(doc, node, payload, seen, depth, out),
            walked::<K>(doc, node, payload, seen, depth, Seq::empty()),
            out,
        ),
    decreases MAX_DEPTH + 1 - depth, 1int, 0int,
{
    let none = Seq::<(K::V, ObjV)>::empty();
    assert(cut(out + none) =~= out);
    if depth <= MAX_DEPTH {
        match dict_get(node, payload) {
            Some(p) => match doc.deref(p) {
                Ok(ObjV::Array(items)) => {
                    lemma_leaf_behind::<K>(items, 0, out);
                },
                _ => {},
            },
            None => match dict_get(node, "Kids"@) {
                Some(k) => match doc.deref(k) {
                    Ok(ObjV::Array(kids)) => {
                        lemma_kids_behind::<K>(doc, kids, 0, payload, seen, depth, out);
                    },
                    _ => {},
                },
                None => {},
            },
        }
    }
}

proof fn lemma_kids_behind<K: TreeKey>(
    doc: DocV,
    kids: Seq<ObjV>,
    i: int,
    payload: Seq<char>,
    seen: Set<u32>,
    depth: int,
    out: Seq<(K::V, ObjV)>,
)
    requires
        out.len() <= MAX_ENTRIES,
    ensures
        behind(
            walked_kids::<K>(doc, kids, i, payload, seen, depth, out),
            walked_kids::<K>(doc, kids, i, payload, seen, depth, Seq::empty()),
            out,
        ),
    decreases MAX_DEPTH + 1 - depth, 0int, 2 * (kids.len() - i),
{
    let none = Seq::<(K::V, ObjV)>::empty();
    assert(cut(out + none) =~= out);
    if !(i < 0 || i >= kids.len() || depth > MAX_DEPTH) {
        match kids[i] {
            ObjV::Reference(id) => {
                if seen.contains(id.number) {
                    lemma_kids_behind::<K>(doc, kids, i + 1, payload, seen, depth, out);
                } else {
                    let s2 = seen.insert(id.number);
                    match doc.resolve(id) {
                        Ok(ObjV::Dict(d)) => {
                            lemma_kid_behind::<K>(doc, d, kids, i, payload, s2, depth, out);
                        },
                        Ok(_) => {
                            lemma_kids_behind::<K>(doc, kids, i + 1, payload, s2, depth, out);
                        },
                        _ => {},
                    }
                }
            },
            ObjV::Dict(d) => {
                lemma_kid_behind::<K>(doc, d, kids, i, payload, seen, depth, out);
            },
            _ => {
                lemma_kids_behind::<K>(doc, kids, i + 1, payload, seen, depth, out);
            },
        }
    }
}

/// What a kid and those behind it list.
spec fn kid_walked<K: TreeKey>(
    doc: DocV,
    d: DictV,
    kids: Seq<ObjV>,
    i: int,
    payload: Seq<char>,
    seen: Set<u32>,
    depth: int,
    out: Seq<(K::V, ObjV)>,
) -> Walked<K::V> {
    match walked::<K>(doc, d, payload, seen, depth + 1, out) {
        Err(e) => Err(e),
        Ok((s, o)) => walked_kids::<K>(doc, kids, i + 1, payload, s, depth, o),
    }
}

proof fn lemma_kid_behind<K: TreeKey>(
    doc: DocV,
    d: DictV,
    kids: Seq<ObjV>,
    i: int,
    payload: Seq<char>,
    seen: Set<u32>,
    depth: int,
    out: Seq<(K::V, ObjV)>,
)
    requires
        out.len() <= MAX_ENTRIES,
        0 <= i < kids.len(),
        depth <= MAX_DEPTH,
    ensures
        behind(
            kid_walked::<K>(doc, d, kids, i, payload, seen, depth, out),
            kid_walked::<K>(doc, d, kids, i, payload, seen, depth, Seq::empty()),
            out,
        ),
    decreases MAX_DEPTH + 1 - depth, 0int, 2 * (kids.len() - i) - 1,
{
    let none = Seq::<(K::V, ObjV)>::empty();
    lemma_walked_behind::<K>(doc, d, payload, seen, depth + 1, out);
    lemma_walked_capped::<K>(doc, d, payload, seen, depth + 1, none);
    if let Ok((s, a)) = walked::<K>(doc, d, payload, seen, depth + 1, none) {
        let o = cut(out + a);
        lemma_kids_behind::<K>(doc, kids, i + 1, payload, s, depth, o);
        lemma_kids_behind::<K>(doc, kids, i + 1, payload, s, depth, a);
        if let Ok((_, b)) = walked_kids::<K>(doc, kids, i + 1, payload, s, depth, none) {
            lemma_cut(out, a, b);
        }
    }
}

/// Nodes that were seen stay seen.
proof fn lemma_walked_sees<K: TreeKey>(
    doc: DocV,
    node: DictV,
    payload: Seq<char>,
    seen: Set<u32>,
    depth: int,
    out: Seq<(K::V, ObjV)>,
)
    ensures
        walked::<K>(doc, node, payload, seen, depth, out) matches Ok((s, o)) ==> seen.subset_of(s),
    decreases MAX_DEPTH + 1 - depth, 1int, 0int,
{
    if depth <= MAX_DEPTH && dict_get(node, payload) is None {
        if let Some(k) = dict_get(node, "Kids"@) {
            if let Ok(ObjV::Array(kids)) = doc.deref(k) {
                lemma_kids_see::<K>(doc, kids, 0, payload, seen, depth, out);
            }
        }
    }
}

proof fn lemma_kids_see<K: TreeKey>(
    doc: DocV,
    kids: Seq<ObjV>,
    i: int,
    payload: Seq<char>,
    seen: Set<u32>,
    depth: int,
    out: Seq<(K::V, ObjV)>,
)
    ensures
        walked_kids::<K>(doc, kids, i, payload, seen, depth, out) matches Ok((s, o))
            ==> seen.subset_of(s),
    decreases MAX_DEPTH + 1 - depth, 0int, kids.len() - i,
{
    if !(i < 0 || i >= kids.len() || depth > MAX_DEPTH) {
        match kids[i] {
            ObjV::Reference(id) => {
                if seen.contains(id.number) {
                    lemma_kids_see::<K>(doc, kids, i + 1, payload, seen, depth, out);
                } else {
                    let s2 = seen.insert(id.number);
                    match doc.resolve(id) {
                        Ok(ObjV::Dict(d)) => {
                            lemma_walked_sees::<K>(doc, d, payload, s2, depth + 1, out);
                            if let Ok((s, o)) = walked::<K>(doc, d, payload, s2, depth + 1, out) {
                                lemma_kids_see::<K>(doc, kids, i + 1, payload, s, depth, o);
                            }
                        },
                        Ok(_) => {
                            lemma_kids_see::<K>(doc, kids, i + 1, payload, s2, depth, out);
                        },
                        _ => {},
                    }
                }
            },
            ObjV::Dict(d) => {
                lemma_walked_sees::<K>(doc, d, payload, seen, depth + 1, out);
                if let Ok((s, o)) = walked::<K>(doc, d, payload, seen, depth + 1, out) {
                    lemma_kids_see::<K>(doc, kids, i + 1, payload, s, depth, o);
                }
            },
            _ => {
                lemma_kids_see::<K>(doc, kids, i + 1, payload, seen, depth, out);
            },
        }
    }
}

/// Looking a key up agrees with what was listed: it finds the first value, and
/// has met no node that was not met when listing.
spec fn finds(l: LookedUp, w: Walked<Seq<u8>>, key: Seq<u8>) -> bool {
    w matches Ok((met, a)) ==> a.len() < MAX_ENTRIES ==> {
        &&& l matches Ok((looked, v))
        &&& v == first_value(a, key, 0)
        &&& v is None ==> looked.subset_of(met)
    }
}

proof fn lemma_lookup_node(
    doc: DocV,
    node: DictV,
    key: Seq<u8>,
    met: Set<u32>,
    looked: Set<u32>,
    depth: int,
)
    requires
        looked.subset_of(met),
        bounded(doc, node, key, met, looked, depth),
    ensures
        finds(
            looked_up(doc, node, key, looked, depth),
            walked::<Vec<u8>>(doc, node, "Names"@, met, depth, Seq::empty()),
            key,
        ),
    decreases MAX_DEPTH + 1 - depth, 1int, 0int,
{
    let none = Seq::<(Seq<u8>, ObjV)>::empty();
    assert(first_value(none, key, 0) is None);
    if depth <= MAX_DEPTH {
        match dict_get(node, "Names"@) {
            Some(p) => match doc.deref(p) {
                Ok(ObjV::Array(items)) => {
                    if leaf_entries::<Vec<u8>>(items, 0, none).len() < MAX_ENTRIES {
                        lemma_leaf_lookup(items, 0, none, key);
                    }
                },
                _ => {},
            },
            None => match dict_get(node, "Kids"@) {
                Some(k) => match doc.deref(k) {
                    Ok(ObjV::Array(kids)) => {
                        lemma_lookup_kids(doc, kids, 0, key, met, looked, depth);
                    },
                    _ => {},
                },
                None => {},
            },
        }
    }
}

proof fn lemma_lookup_kids(
    doc: DocV,
    kids: Seq<ObjV>,
    i: int,
    key: Seq<u8>,
    met: Set<u32>,
    looked: Set<u32>,
    depth: int,
)
    requires
        looked.subset_of(met),
        bounded_kids(doc, kids, i, key, met, looked, depth),
    ensures
        finds(
            looked_up_kids(doc, kids, i, key, looked, depth),
            walked_kids::<Vec<u8>>(doc, kids, i, "Names"@, met, depth, Seq::empty()),
            key,
        ),
    decreases MAX_DEPTH + 1 - depth, 0int, 2 * (kids.len() - i),
{
    let none = Seq::<(Seq<u8>, ObjV)>::empty();
    assert(first_value(none, key, 0) is None);
    if !(i < 0 || i >= kids.len() || depth > MAX_DEPTH) {
        match kids[i] {
            ObjV::Reference(id) => {
                let m2 = met.insert(id.number);
                let l2 = looked.insert(id.number);
                if looked.contains(id.number) {
                    lemma_lookup_kids(doc, kids, i + 1, key, met, looked, depth);
                } else if met.contains(id.number) {
                    if let Ok((s, None)) = kid_value(doc, id, key, l2, depth) {
                        lemma_lookup_kids(doc, kids, i + 1, key, met, s, depth);
                    }
                } else {
                    match doc.resolve(id) {
                        Ok(ObjV::Dict(d)) => {
                            lemma_lookup_kid(doc, d, kids, i, key, m2, l2, depth);
                        },
                        Ok(_) => {
                            lemma_lookup_kids(doc, kids, i + 1, key, m2, l2, depth);
                        },
                        _ => {},
                    }
                }
            },
            ObjV::Dict(d) => {
                lemma_lookup_kid(doc, d, kids, i, key, met, looked, depth);
            },
            _ => {
                lemma_lookup_kids(doc, kids, i + 1, key, met, looked, depth);
            },
        }
    }
}

/// What looking a key up in a kid and in those behind it gives.
spec fn kid_looked_up(
    doc: DocV,
    d: DictV,
    kids: Seq<ObjV>,
    i: int,
    key: Seq<u8>,
    seen: Set<u32>,
    depth: int,
) -> LookedUp {
    if ruled_out(d, key) {
        looked_up_kids(doc, kids, i + 1, key, seen, depth)
    } else {
        match looked_up(doc, d, key, seen, depth + 1) {
            Err(e) => Err(e),
            Ok((s, Some(v))) => Ok((s, Some(v))),
            Ok((s, None)) => looked_up_kids(doc, kids, i + 1, key, s, depth),
        }
    }
}

proof fn lemma_lookup_kid(
    doc: DocV,
    d: DictV,
    kids: Seq<ObjV>,
    i: int,
    key: Seq<u8>,
    met: Set<u32>,
    looked: Set<u32>,
    depth: int,
)
    requires
        looked.subset_of(met),
        bounded_kid(doc, d, kids, i, key, met, looked, depth),
        0 <= i < kids.len(),
        depth <= MAX_DEPTH,
    ensures
        finds(
            kid_looked_up(doc, d, kids, i, key, looked, depth),
            kid_walked::<Vec<u8>>(doc, d, kids, i, "Names"@, met, depth, Seq::empty()),
            key,
        ),
    decreases MAX_DEPTH + 1 - depth, 0int, 2 * (kids.len() - i) - 1,
{
    let none = Seq::<(Seq<u8>, ObjV)>::empty();
    let payload = "Names"@;
    lemma_walked_sees::<Vec<u8>>(doc, d, payload, met, depth + 1, none);
    lemma_walked_capped::<Vec<u8>>(doc, d, payload, met, depth + 1, none);
    if let Ok((m1, a)) = walked::<Vec<u8>>(doc, d, payload, met, depth + 1, none) {
        lemma_kids_behind::<Vec<u8>>(doc, kids, i + 1, payload, m1, depth, a);
        if let Ok((_, b)) = walked_kids::<Vec<u8>>(doc, kids, i + 1, payload, m1, depth, none) {
            lemma_first_value_concat(a, b, key);
            if a.len() + b.len() < MAX_ENTRIES {
                if ruled_out(d, key) {
                    lemma_lookup_kids(doc, kids, i + 1, key, m1, looked, depth);
                } else {
                    lemma_lookup_node(doc, d, key, met, looked, depth + 1);
                    if let Ok((l1, None)) = looked_up(doc, d, key, looked, depth + 1) {
                        lemma_lookup_kids(doc, kids, i + 1, key, m1, l1, depth);
                    }
                }
            }
        }
    }
}

proof fn lemma_first_value_push(
    out: Seq<(Seq<u8>, ObjV)>,
    e: (Seq<u8>, ObjV),
    key: Seq<u8>,
    i: int,
)
    requires
        0 <= i <= out.len(),
    ensures
        first_value(out.push(e), key, i) == match first_value(out, key, i) {
            Some(v) => Some(v),
            None => if e.0 == key {
                Some(e.1)
            } else {
                None
            },
        },
    decreases out.len() - i,
{
    if i < out.len() {
        lemma_first_value_push(out, e, key, i + 1);
    } else {
        assert(first_value(out.push(e), key, i + 1) is None);
    }
}

} // verus!
