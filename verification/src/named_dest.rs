//! Named destinations: the names that a document gives to places in it.

use std::collections::HashMap;
use vstd::prelude::*;
use vstd::utf8::encode_utf8;
use crate::crypt::same_bytes;
use crate::destination::{decode_dest_value, dest_value, is_target, named_from, named_place, opt_dest, DestV, NamedDestination, NamedDests, NamesV, OutlineDestination, TargetV};
use crate::document::{DocV, DocumentReader};
use crate::error::PdfError;
use crate::nametree::{bytes_before, comes_before, decode_key_text, entries_view, first_value, law_lookup_finds_listed, name_tree_entries, name_tree_lookup, opt_obj, orderly, tree_entries, tree_value, MAX_ENTRIES};
use crate::objects::{dict_get, Dict, DictV, ObjV, Object};
use crate::pages::{build_page_index_map, clone_opt, page_index};
use crate::textstring::text_of_bytes;

verus! {

/// The names with `name` leading to `t`: in its place by byte order, or in
/// place of what it led to before.
pub open spec fn with_name(names: NamesV, name: Seq<u8>, t: TargetV) -> NamesV
    decreases names.len(),
{
    if names.len() == 0 || bytes_before(names.last().0, name) {
        names.push((name, t))
    } else if names.last().0 == name {
        names.drop_last().push((name, t))
    } else {
        with_name(names.drop_last(), name, t).push(names.last())
    }
}

/// What the value of a name leads to: an array or a dictionary with an array
/// under `/D`.
pub open spec fn target_of(doc: DocV, value: ObjV, pages: Map<u32, usize>) -> TargetV {
    match doc.deref(value) {
        Err(_) => (None, Some("<unresolvable>"@)),
        Ok(ObjV::Dict(d)) => match dict_get(d, "D"@) {
            Some(inner) => dest_value(doc, inner, pages, None),
            None => (None, Some("<dict without /D>"@)),
        },
        Ok(o) => dest_value(doc, o, pages, None),
    }
}

/// One entry of the catalogue, as it is written.
pub open spec fn catalog_value(doc: DocV, key: Seq<char>) -> Result<Option<ObjV>, Seq<char>> {
    match doc.catalog() {
        Err(e) => Err(e),
        Ok(ObjV::Dict(d)) => Ok(dict_get(d, key)),
        Ok(_) => Ok(None),
    }
}

/// The catalogue's dictionary of names.
pub open spec fn dests_dict(doc: DocV) -> Result<Option<DictV>, Seq<char>> {
    match catalog_value(doc, "Dests"@) {
        Err(e) => Err(e),
        Ok(None) => Ok(None),
        Ok(Some(o)) => match doc.deref(o) {
            Err(e) => Err(e),
            Ok(ObjV::Dict(d)) => Ok(Some(d)),
            Ok(_) => Ok(None),
        },
    }
}

/// The root of the tree of names.
pub open spec fn dests_tree(doc: DocV) -> Result<Option<DictV>, Seq<char>> {
    match catalog_value(doc, "Names"@) {
        Err(e) => Err(e),
        Ok(None) => Ok(None),
        Ok(Some(o)) => match doc.deref(o) {
            Err(e) => Err(e),
            Ok(ObjV::Dict(d)) => match dict_get(d, "Dests"@) {
                None => Ok(None),
                Some(o) => match doc.deref(o) {
                    Err(e) => Err(e),
                    Ok(ObjV::Dict(d)) => Ok(Some(d)),
                    Ok(_) => Ok(None),
                },
            },
            Ok(_) => Ok(None),
        },
    }
}

/// The names of the first `n` entries of the dictionary; of two equal names
/// the first counts.
pub open spec fn names_of_dict(doc: DocV, d: DictV, n: int, pages: Map<u32, usize>) -> NamesV
    decreases n,
{
    if n <= 0 || n > d.len() {
        Seq::empty()
    } else {
        let names = names_of_dict(doc, d, n - 1, pages);
        let name = encode_utf8(d[n - 1].0);
        if named_from(names, name, 0) is Some {
            names
        } else {
            with_name(names, name, target_of(doc, d[n - 1].1, pages))
        }
    }
}

/// The names with the first `n` entries of the tree added; a name of the tree
/// takes the place of an equal one.
pub open spec fn names_with_tree(
    doc: DocV,
    names: NamesV,
    entries: Seq<(Seq<u8>, ObjV)>,
    n: int,
    pages: Map<u32, usize>,
) -> NamesV
    decreases n,
{
    if n <= 0 || n > entries.len() {
        names
    } else {
        with_name(
            names_with_tree(doc, names, entries, n - 1, pages),
            entries[n - 1].0,
            target_of(doc, entries[n - 1].1, pages),
        )
    }
}

/// All names of a document: those of the dictionary, and over them those of
/// the tree.
pub open spec fn all_names(doc: DocV, pages: Map<u32, usize>) -> Result<NamesV, Seq<char>> {
    match dests_dict(doc) {
        Err(e) => Err(e),
        Ok(dict) => {
            let names = match dict {
                Some(d) => names_of_dict(doc, d, d.len() as int, pages),
                None => Seq::empty(),
            };
            match dests_tree(doc) {
                Err(e) => Err(e),
                Ok(None) => Ok(names),
                Ok(Some(root)) => match tree_entries::<Vec<u8>>(doc, root, "Names"@) {
                    Err(e) => Err(e),
                    Ok(entries) => Ok(
                        names_with_tree(doc, names, entries, entries.len() as int, pages),
                    ),
                },
            }
        },
    }
}

/// The text of each name is that of its bytes.
pub open spec fn names_readable(s: Seq<NamedDestination>) -> bool {
    forall|i: int| 0 <= i < s.len() ==> (#[trigger] s[i]).name@ == text_of_bytes(s[i].raw_name@)
}

/// Let a name lead somewhere.
fn add_name(
    names: &mut NamedDests,
    name: Vec<u8>,
    target: (Option<OutlineDestination>, Option<String>),
    t: Ghost<TargetV>,
)
    requires
        is_target(target, t@),
        names_readable(old(names).entries@),
    ensures
        final(names)@ == with_name(old(names)@, name@, t@),
        names_readable(final(names).entries@),
{
    let ghost before = names@;
    let n: usize = names.entries.len();
    let mut p: usize = n;
    proof {
        assert(before.take(n as int) =~= before);
        assert(before.skip(n as int) =~= Seq::empty());
        let w = with_name(before, name@, t@);
        assert(w + Seq::<(Seq<u8>, TargetV)>::empty() =~= w);
    }
    while p > 0 && !comes_before(names.entries[p - 1].raw_name.as_slice(), name.as_slice())
        && !same_bytes(names.entries[p - 1].raw_name.as_slice(), name.as_slice())
        invariant
            p <= n,
            n == names.entries@.len(),
            before == names@,
            names_readable(names.entries@),
            with_name(before, name@, t@) == with_name(before.take(p as int), name@, t@)
                + before.skip(p as int),
        decreases p,
    {
        proof {
            let b = before.take(p as int);
            assert(b.last() == before[p - 1]);
            assert(before[p - 1] == names.entries@[p - 1]@);
            assert(b.drop_last() =~= before.take(p - 1));
            assert(before.skip(p - 1) =~= seq![before[p - 1]] + before.skip(p as int));
            let w = with_name(before.take(p - 1), name@, t@);
            assert(w.push(before[p - 1]) + before.skip(p as int) =~= w + before.skip(p - 1));
        }
        p = p - 1;
    }
    proof {
        if p > 0 {
            assert(before.take(p as int).last() == before[p - 1]);
            assert(before[p - 1] == names.entries@[p - 1]@);
        }
    }
    let text: String = decode_key_text(name.as_slice());
    if p > 0 && same_bytes(names.entries[p - 1].raw_name.as_slice(), name.as_slice()) {
        proof {
            lemma_not_before_itself(name@);
        }
        let e: NamedDestination = NamedDestination {
            name: text,
            raw_name: name,
            destination: target.0,
            raw_dest: target.1,
        };
        let ghost v = e@;
        names.entries.set(p - 1, e);
        proof {
            let b = before.take(p as int);
            assert(names@ =~= b.drop_last().push(v) + before.skip(p as int));
        }
        return;
    }
    let e: NamedDestination = NamedDestination {
        name: text,
        raw_name: name,
        destination: target.0,
        raw_dest: target.1,
    };
    let ghost v = e@;
    names.entries.insert(p, e);
    proof {
        assert(names@ =~= before.take(p as int).push(v) + before.skip(p as int));
    }
}

/// No name comes before itself.
proof fn lemma_not_before_itself(a: Seq<u8>)
    ensures
        !bytes_before(a, a),
    decreases a.len(),
{
    if a.len() > 0 {
        lemma_not_before_itself(a.skip(1));
    }
}

/// What the value of a name leads to.
fn decode_target(reader: &mut DocumentReader, value: Object, pages: &HashMap<u32, usize>) -> (r: (
    Option<OutlineDestination>,
    Option<String>,
))
    requires
        old(reader).wf(),
    ensures
        final(reader).wf(),
        final(reader).doc() == old(reader).doc(),
        is_target(r, target_of(old(reader).doc(), value@, pages@)),
{
    match reader.deref(value) {
        Err(_) => (None, Some("<unresolvable>".to_owned())),
        Ok(Object::Dict(d)) => match d.get("D") {
            Some(inner) => decode_dest_value(reader, inner.clone(), pages, None),
            None => (None, Some("<dict without /D>".to_owned())),
        },
        Ok(o) => decode_dest_value(reader, o, pages, None),
    }
}

fn catalog_entry(reader: &mut DocumentReader, key: &str) -> (r: Result<Option<Object>, PdfError>)
    requires
        old(reader).wf(),
    ensures
        final(reader).wf(),
        final(reader).doc() == old(reader).doc(),
        crate::pages::opt_agrees(r, catalog_value(old(reader).doc(), key@)),
{
    match reader.catalog() {
        Err(e) => Err(e),
        Ok(Object::Dict(d)) => Ok(clone_opt(d.get(key))),
        Ok(_) => Ok(None),
    }
}

/// `r` is the optional dictionary that `w` says.
pub open spec fn dict_agrees(
    r: Result<Option<Dict>, PdfError>,
    w: Result<Option<DictV>, Seq<char>>,
) -> bool {
    match r {
        Ok(Some(d)) => w == Ok::<Option<DictV>, Seq<char>>(Some(d@)),
        Ok(None) => w == Ok::<Option<DictV>, Seq<char>>(None),
        Err(e) => w == Err::<Option<DictV>, Seq<char>>(e@),
    }
}

fn catalog_dests_dict(reader: &mut DocumentReader) -> (r: Result<Option<Dict>, PdfError>)
    requires
        old(reader).wf(),
    ensures
        final(reader).wf(),
        final(reader).doc() == old(reader).doc(),
        dict_agrees(r, dests_dict(old(reader).doc())),
{
    match catalog_entry(reader, "Dests") {
        Err(e) => Err(e),
        Ok(None) => Ok(None),
        Ok(Some(o)) => match reader.deref(o) {
            Err(e) => Err(e),
            Ok(Object::Dict(d)) => Ok(Some(d)),
            Ok(_) => Ok(None),
        },
    }
}

fn names_dests_root(reader: &mut DocumentReader) -> (r: Result<Option<Dict>, PdfError>)
    requires
        old(reader).wf(),
    ensures
        final(reader).wf(),
        final(reader).doc() == old(reader).doc(),
        dict_agrees(r, dests_tree(old(reader).doc())),
{
    let names: Object = match catalog_entry(reader, "Names") {
        Err(e) => {
            return Err(e);
        },
        Ok(None) => {
            return Ok(None);
        },
        Ok(Some(o)) => o,
    };
    let d: Dict = match reader.deref(names) {
        Err(e) => {
            return Err(e);
        },
        Ok(Object::Dict(d)) => d,
        Ok(_) => {
            return Ok(None);
        },
    };
    let dests: Object = match d.get("Dests") {
        None => {
            return Ok(None);
        },
        Some(o) => o.clone(),
    };
    match reader.deref(dests) {
        Err(e) => Err(e),
        Ok(Object::Dict(d)) => Ok(Some(d)),
        Ok(_) => Ok(None),
    }
}

/// All names of a document with what they lead to.
pub fn named_dest_map(reader: &mut DocumentReader, pages: &HashMap<u32, usize>) -> (r: Result<
    NamedDests,
    PdfError,
>)
    requires
        old(reader).wf(),
    ensures
        final(reader).wf(),
        final(reader).doc() == old(reader).doc(),
        match r {
            Ok(n) => all_names(old(reader).doc(), pages@) == Ok::<NamesV, Seq<char>>(n@)
                && names_readable(n.entries@),
            Err(e) => all_names(old(reader).doc(), pages@) == Err::<NamesV, Seq<char>>(e@),
        },
{
    let ghost doc = reader.doc();
    let mut names: NamedDests = NamedDests::new();
    match catalog_dests_dict(reader) {
        Err(e) => {
            return Err(e);
        },
        Ok(None) => {},
        Ok(Some(d)) => {
            let mut i: usize = 0;
            while i < d.entries.len()
                invariant
                    i <= d.entries@.len(),
                    reader.wf(),
                    reader.doc() == doc,
                    names_readable(names.entries@),
                    names@ == names_of_dict(doc, d@, i as int, pages@),
                decreases d.entries.len() - i,
            {
                let name: Vec<u8> = vstd::slice::slice_to_vec(
                    d.entries[i].0.as_str().as_bytes(),
                );
                let mut known: bool = false;
                let mut k: usize = 0;
                while k < names.entries.len()
                    invariant
                        k <= names.entries@.len(),
                        !known ==> named_from(names@, name@, 0) == named_from(
                            names@,
                            name@,
                            k as int,
                        ),
                        known ==> named_from(names@, name@, 0) is Some,
                    ensures
                        known == (named_from(names@, name@, 0) is Some),
                    decreases names.entries.len() - k,
                {
                    proof {
                        assert(names@[k as int] == names.entries@[k as int]@);
                    }
                    if same_bytes(names.entries[k].raw_name.as_slice(), name.as_slice()) {
                        known = true;
                        break;
                    }
                    k = k + 1;
                }
                if !known {
                    let t: (Option<OutlineDestination>, Option<String>) = decode_target(
                        reader,
                        d.entries[i].1.clone(),
                        pages,
                    );
                    add_name(
                        &mut names,
                        name,
                        t,
                        Ghost(target_of(doc, d@[i as int].1, pages@)),
                    );
                }
                i = i + 1;
            }
        },
    }
    let ghost base = names@;
    match names_dests_root(reader) {
        Err(e) => {
            return Err(e);
        },
        Ok(None) => {},
        Ok(Some(root)) => {
            let entries: Vec<(Vec<u8>, Object)> = match name_tree_entries(reader, &root) {
                Ok(v) => v,
                Err(e) => {
                    return Err(e);
                },
            };
            let ghost view = entries_view(entries@);
            let mut i: usize = 0;
            while i < entries.len()
                invariant
                    i <= entries@.len(),
                    view == entries_view(entries@),
                    reader.wf(),
                    reader.doc() == doc,
                    names_readable(names.entries@),
                    names@ == names_with_tree(doc, base, view, i as int, pages@),
                decreases entries.len() - i,
            {
                proof {
                    assert(view[i as int] == (entries@[i as int].0@, entries@[i as int].1@));
                }
                let t: (Option<OutlineDestination>, Option<String>) = decode_target(
                    reader,
                    entries[i].1.clone(),
                    pages,
                );
                let name: Vec<u8> = crate::objects::clone_bytes(&entries[i].0);
                add_name(
                    &mut names,
                    name,
                    t,
                    Ghost(target_of(doc, view[i as int].1, pages@)),
                );
                i = i + 1;
            }
        },
    }
    Ok(names)
}

/// All names of a document with what they lead to.
pub open spec fn document_names(doc: DocV) -> Result<NamesV, Seq<char>> {
    match page_index(doc) {
        Err(e) => Err(e),
        Ok(pages) => all_names(doc, pages),
    }
}

/// All names of a document in byte order, with what they lead to.
pub fn named_destinations(reader: &mut DocumentReader) -> (r: Result<
    Vec<NamedDestination>,
    PdfError,
>)
    requires
        old(reader).wf(),
    ensures
        final(reader).wf(),
        final(reader).doc() == old(reader).doc(),
        match r {
            Ok(v) => document_names(old(reader).doc()) == Ok::<NamesV, Seq<char>>(
                v@.map_values(|e: NamedDestination| e@),
            ) && names_readable(v@),
            Err(e) => document_names(old(reader).doc()) == Err::<NamesV, Seq<char>>(e@),
        },
{
    let pages: HashMap<u32, usize> = match build_page_index_map(reader) {
        Ok(m) => m,
        Err(e) => {
            return Err(e);
        },
    };
    match named_dest_map(reader, &pages) {
        Ok(n) => Ok(n.entries),
        Err(e) => Err(e),
    }
}

/// The place that one name leads to: by way of the tree, and where that gives
/// none by way of the dictionary.
pub open spec fn resolved_name(doc: DocV, name: Seq<u8>) -> Result<Option<DestV>, Seq<char>> {
    match page_index(doc) {
        Err(e) => Err(e),
        Ok(pages) => match dests_tree(doc) {
            Err(e) => Err(e),
            Ok(None) => dict_place(doc, name, pages),
            Ok(Some(root)) => match tree_value(doc, root, name) {
                Err(e) => Err(e),
                Ok(None) => dict_place(doc, name, pages),
                Ok(Some(v)) => match target_of(doc, v, pages).0 {
                    Some(d) => Ok(Some(d)),
                    None => dict_place(doc, name, pages),
                },
            },
        },
    }
}

/// The first entry of the dictionary with a given name, from place `i` on.
pub open spec fn dict_entry_named(d: DictV, name: Seq<u8>, i: int) -> Option<ObjV>
    decreases d.len() - i,
{
    if i < 0 || i >= d.len() {
        None
    } else if encode_utf8(d[i].0) == name {
        Some(d[i].1)
    } else {
        dict_entry_named(d, name, i + 1)
    }
}

/// The place that a name leads to by way of the dictionary.
pub open spec fn dict_place(doc: DocV, name: Seq<u8>, pages: Map<u32, usize>) -> Result<
    Option<DestV>,
    Seq<char>,
> {
    match dests_dict(doc) {
        Err(e) => Err(e),
        Ok(None) => Ok(None),
        Ok(Some(d)) => match dict_entry_named(d, name, 0) {
            Some(v) => Ok(target_of(doc, v, pages).0),
            None => Ok(None),
        },
    }
}

fn find_dict_entry(d: &Dict, name: &[u8]) -> (r: Option<Object>)
    ensures
        opt_obj(r) == dict_entry_named(d@, name@, 0),
{
    let mut i: usize = 0;
    while i < d.entries.len()
        invariant
            i <= d.entries@.len(),
            dict_entry_named(d@, name@, 0) == dict_entry_named(d@, name@, i as int),
        decreases d.entries.len() - i,
    {
        if same_bytes(d.entries[i].0.as_str().as_bytes(), name) {
            return Some(d.entries[i].1.clone());
        }
        i = i + 1;
    }
    None
}

/// The place that one name leads to, found without listing all names.
pub fn resolve_named_destination(reader: &mut DocumentReader, name: &[u8]) -> (r: Result<
    Option<OutlineDestination>,
    PdfError,
>)
    requires
        old(reader).wf(),
    ensures
        final(reader).wf(),
        final(reader).doc() == old(reader).doc(),
        match r {
            Ok(d) => resolved_name(old(reader).doc(), name@) == Ok::<Option<DestV>, Seq<char>>(
                opt_dest(d),
            ),
            Err(e) => resolved_name(old(reader).doc(), name@) == Err::<Option<DestV>, Seq<char>>(
                e@,
            ),
        },
{
    let pages: HashMap<u32, usize> = match build_page_index_map(reader) {
        Ok(m) => m,
        Err(e) => {
            return Err(e);
        },
    };
    match names_dests_root(reader) {
        Err(e) => {
            return Err(e);
        },
        Ok(None) => {},
        Ok(Some(root)) => {
            match name_tree_lookup(reader, &root, name) {
                Err(e) => {
                    return Err(e);
                },
                Ok(None) => {},
                Ok(Some(v)) => {
                    let (dest, _raw) = decode_target(reader, v, &pages);
                    if dest.is_some() {
                        return Ok(dest);
                    }
                },
            }
        },
    }
    match catalog_dests_dict(reader) {
        Err(e) => Err(e),
        Ok(None) => Ok(None),
        Ok(Some(d)) => match find_dict_entry(&d, name) {
            Some(v) => {
                let (dest, _raw) = decode_target(reader, v, &pages);
                Ok(dest)
            },
            None => Ok(None),
        },
    }
}

// ------------------------------------------------------------------- laws

/// The names are in byte order, and no name occurs twice.
pub open spec fn names_in_order(s: NamesV) -> bool {
    forall|i: int, j: int|
        0 <= i < j < s.len() ==> bytes_before((#[trigger] s[i]).0, (#[trigger] s[j]).0)
}

/// What comes before something that comes before a third comes before the
/// third.
proof fn lemma_before_transitive(a: Seq<u8>, b: Seq<u8>, c: Seq<u8>)
    requires
        bytes_before(a, b),
        bytes_before(b, c),
    ensures
        bytes_before(a, c),
    decreases a.len(),
{
    if a.len() > 0 && b.len() > 0 && c.len() > 0 && a[0] == b[0] && b[0] == c[0] {
        lemma_before_transitive(a.skip(1), b.skip(1), c.skip(1));
    }
}

/// Of two different byte strings one comes before the other.
proof fn lemma_before_total(a: Seq<u8>, b: Seq<u8>)
    ensures
        a == b || bytes_before(a, b) || bytes_before(b, a),
    decreases a.len(),
{
    if a.len() == 0 {
        if b.len() == 0 {
            assert(a =~= b);
        }
    } else if b.len() > 0 && a[0] == b[0] {
        lemma_before_total(a.skip(1), b.skip(1));
        if a.skip(1) == b.skip(1) {
            assert(a =~= seq![a[0]] + a.skip(1));
            assert(b =~= seq![b[0]] + b.skip(1));
        }
    }
}

/// A name that is added stands in its place, leads where it was let lead, and
/// leaves every other name as it was.
pub(crate) proof fn lemma_with_name(names: NamesV, name: Seq<u8>, t: TargetV)
    requires
        names_in_order(names),
    ensures
        names_in_order(with_name(names, name, t)),
        with_name(names, name, t).contains((name, t)),
        forall|x: (Seq<u8>, TargetV)|
            #[trigger] with_name(names, name, t).contains(x) ==> x == (name, t) || names.contains(
                x,
            ),
        forall|x: (Seq<u8>, TargetV)| #[trigger]
            names.contains(x) && x.0 != name ==> with_name(names, name, t).contains(x),
    decreases names.len(),
{
    let w = with_name(names, name, t);
    if names.len() == 0 || bytes_before(names.last().0, name) {
        assert(w[names.len() as int] == (name, t));
        assert forall|i: int, j: int| 0 <= i < j < w.len() implies bytes_before(
            (#[trigger] w[i]).0,
            (#[trigger] w[j]).0,
        ) by {
            if j == names.len() && i < names.len() - 1 {
                lemma_before_transitive(names[i].0, names.last().0, name);
            }
        }
        assert forall|x: (Seq<u8>, TargetV)| #[trigger] w.contains(x) implies x == (name, t)
            || names.contains(x) by {
            let k = choose|k: int| 0 <= k < w.len() && w[k] == x;
            if k < names.len() {
                assert(names[k] == x);
            }
        }
        assert forall|x: (Seq<u8>, TargetV)| #[trigger]
            names.contains(x) && x.0 != name implies w.contains(x) by {
            let k = choose|k: int| 0 <= k < names.len() && names[k] == x;
            assert(w[k] == x);
        }
    } else if names.last().0 == name {
        let n = names.len() - 1;
        assert(w[n] == (name, t));
        assert forall|x: (Seq<u8>, TargetV)| #[trigger] w.contains(x) implies x == (name, t)
            || names.contains(x) by {
            let k = choose|k: int| 0 <= k < w.len() && w[k] == x;
            if k < n {
                assert(names[k] == x);
            }
        }
        assert forall|x: (Seq<u8>, TargetV)| #[trigger]
            names.contains(x) && x.0 != name implies w.contains(x) by {
            let k = choose|k: int| 0 <= k < names.len() && names[k] == x;
            assert(w[k] == x);
        }
    } else {
        let d = names.drop_last();
        let last = names.last();
        lemma_with_name(d, name, t);
        let v = with_name(d, name, t);
        lemma_before_total(last.0, name);
        assert(w == v.push(last));
        let m = choose|m: int| 0 <= m < v.len() && v[m] == (name, t);
        assert(w[m] == (name, t));
        assert forall|i: int| 0 <= i < v.len() implies bytes_before(
            (#[trigger] v[i]).0,
            last.0,
        ) by {
            assert(v.contains(v[i]));
            if v[i] != (name, t) {
                let k = choose|k: int| 0 <= k < d.len() && d[k] == v[i];
                assert(bytes_before(names[k].0, names[names.len() - 1].0));
            }
        }
        assert forall|x: (Seq<u8>, TargetV)| #[trigger] w.contains(x) implies x == (name, t)
            || names.contains(x) by {
            let k = choose|k: int| 0 <= k < w.len() && w[k] == x;
            if k < v.len() {
                assert(v.contains(x));
                if x != (name, t) {
                    let q = choose|q: int| 0 <= q < d.len() && d[q] == x;
                    assert(names[q] == x);
                }
            } else {
                assert(names[names.len() - 1] == x);
            }
        }
        assert forall|x: (Seq<u8>, TargetV)| #[trigger]
            names.contains(x) && x.0 != name implies w.contains(x) by {
            let k = choose|k: int| 0 <= k < names.len() && names[k] == x;
            if k < d.len() {
                assert(d[k] == x);
                assert(d.contains(x));
                let q = choose|q: int| 0 <= q < v.len() && v[q] == x;
                assert(w[q] == x);
            } else {
                assert(w[v.len() as int] == x);
            }
        }
    }
}

/// Among names in order, an entry is what its name leads to.
pub(crate) proof fn lemma_named_from(names: NamesV, x: (Seq<u8>, TargetV))
    requires
        names_in_order(names),
        names.contains(x),
    ensures
        named_from(names, x.0, 0) == Some(x.1),
{
    let k = choose|k: int| 0 <= k < names.len() && names[k] == x;
    assert forall|j: int| 0 <= j < k implies (#[trigger] names[j]).0 != x.0 by {
        assert(bytes_before(names[j].0, names[k].0));
        lemma_not_before_itself(x.0);
    }
    lemma_named_from_at(names, x.0, 0, k);
}

proof fn lemma_named_from_at(names: NamesV, name: Seq<u8>, i: int, k: int)
    requires
        0 <= i <= k < names.len(),
        names[k].0 == name,
        forall|j: int| i <= j < k ==> (#[trigger] names[j]).0 != name,
    ensures
        named_from(names, name, i) == Some(names[k].1),
    decreases k - i,
{
    if i < k {
        lemma_named_from_at(names, name, i + 1, k);
    }
}

/// The names of a document come in byte order, and none occurs twice.
pub proof fn law_names_in_order(doc: DocV, pages: Map<u32, usize>)
    ensures
        all_names(doc, pages) matches Ok(names) ==> names_in_order(names),
{
    match dests_dict(doc) {
        Ok(Some(d)) => {
            lemma_dict_names_in_order(doc, d, d.len() as int, pages);
        },
        _ => {},
    }
    match (dests_dict(doc), dests_tree(doc)) {
        (Ok(dict), Ok(Some(root))) => match tree_entries::<Vec<u8>>(doc, root, "Names"@) {
            Ok(entries) => {
                let names = match dict {
                    Some(d) => names_of_dict(doc, d, d.len() as int, pages),
                    None => Seq::empty(),
                };
                lemma_tree_names_in_order(doc, names, entries, entries.len() as int, pages);
            },
            _ => {},
        },
        _ => {},
    }
}

pub(crate) proof fn lemma_dict_names_in_order(doc: DocV, d: DictV, n: int, pages: Map<u32, usize>)
    ensures
        names_in_order(names_of_dict(doc, d, n, pages)),
    decreases n,
{
    if 0 < n <= d.len() {
        lemma_dict_names_in_order(doc, d, n - 1, pages);
        lemma_with_name(
            names_of_dict(doc, d, n - 1, pages),
            encode_utf8(d[n - 1].0),
            target_of(doc, d[n - 1].1, pages),
        );
    }
}

proof fn lemma_tree_names_in_order(
    doc: DocV,
    names: NamesV,
    entries: Seq<(Seq<u8>, ObjV)>,
    n: int,
    pages: Map<u32, usize>,
)
    requires
        names_in_order(names),
    ensures
        names_in_order(names_with_tree(doc, names, entries, n, pages)),
    decreases n,
{
    if 0 < n <= entries.len() {
        lemma_tree_names_in_order(doc, names, entries, n - 1, pages);
        lemma_with_name(
            names_with_tree(doc, names, entries, n - 1, pages),
            entries[n - 1].0,
            target_of(doc, entries[n - 1].1, pages),
        );
    }
}

/// On a name that both sources have, the tree counts: a name leads where its
/// last entry in the tree says, whatever the dictionary says of it.
pub proof fn law_tree_counts(
    doc: DocV,
    names: NamesV,
    entries: Seq<(Seq<u8>, ObjV)>,
    n: int,
    i: int,
    pages: Map<u32, usize>,
)
    requires
        names_in_order(names),
        0 <= i < n <= entries.len(),
        forall|j: int| i < j < n ==> (#[trigger] entries[j]).0 != entries[i].0,
    ensures
        named_from(names_with_tree(doc, names, entries, n, pages), entries[i].0, 0) == Some(
            target_of(doc, entries[i].1, pages),
        ),
{
    lemma_tree_entry_kept(doc, names, entries, n, i, pages);
    lemma_tree_names_in_order(doc, names, entries, n, pages);
    lemma_named_from(
        names_with_tree(doc, names, entries, n, pages),
        (entries[i].0, target_of(doc, entries[i].1, pages)),
    );
}

proof fn lemma_tree_entry_kept(
    doc: DocV,
    names: NamesV,
    entries: Seq<(Seq<u8>, ObjV)>,
    n: int,
    i: int,
    pages: Map<u32, usize>,
)
    requires
        names_in_order(names),
        0 <= i < n <= entries.len(),
        forall|j: int| i < j < n ==> (#[trigger] entries[j]).0 != entries[i].0,
    ensures
        names_with_tree(doc, names, entries, n, pages).contains(
            (entries[i].0, target_of(doc, entries[i].1, pages)),
        ),
    decreases n,
{
    let before = names_with_tree(doc, names, entries, n - 1, pages);
    lemma_tree_names_in_order(doc, names, entries, n - 1, pages);
    lemma_with_name(before, entries[n - 1].0, target_of(doc, entries[n - 1].1, pages));
    if i < n - 1 {
        lemma_tree_entry_kept(doc, names, entries, n - 1, i, pages);
        assert(entries[n - 1].0 != entries[i].0);
        assert(before.contains((entries[i].0, target_of(doc, entries[i].1, pages))));
    }
}

/// The first place with a name, or the number of places.
proof fn lemma_named_place(names: NamesV, name: Seq<u8>, i: int) -> (k: int)
    requires
        0 <= i <= names.len(),
    ensures
        i <= k <= names.len(),
        forall|j: int| i <= j < k ==> (#[trigger] names[j]).0 != name,
        k < names.len() ==> names[k].0 == name && named_from(names, name, i) == Some(names[k].1),
        k == names.len() ==> named_from(names, name, i) is None,
    decreases names.len() - i,
{
    if i == names.len() || names[i].0 == name {
        i
    } else {
        lemma_named_place(names, name, i + 1)
    }
}

/// A name that is added leads where it is said to, and the others as before.
proof fn lemma_named_with(names: NamesV, name: Seq<u8>, t: TargetV, q: Seq<u8>)
    requires
        names_in_order(names),
    ensures
        named_from(with_name(names, name, t), q, 0) == if q == name {
            Some(t)
        } else {
            named_from(names, q, 0)
        },
{
    let w = with_name(names, name, t);
    lemma_with_name(names, name, t);
    if q == name {
        lemma_named_from(w, (name, t));
    } else {
        let k = lemma_named_place(names, q, 0);
        if k < names.len() {
            assert(names.contains(names[k]));
            lemma_named_from(w, names[k]);
        } else {
            let m = lemma_named_place(w, q, 0);
            if m < w.len() {
                assert(w.contains(w[m]));
                assert(names.contains(w[m]));
                lemma_named_from(names, w[m]);
            }
        }
    }
}

/// The first entry of the dictionary with a name, or the number of entries.
proof fn lemma_dict_place(d: DictV, name: Seq<u8>, i: int) -> (k: int)
    requires
        0 <= i <= d.len(),
    ensures
        i <= k <= d.len(),
        forall|j: int| i <= j < k ==> encode_utf8((#[trigger] d[j]).0) != name,
        k < d.len() ==> encode_utf8(d[k].0) == name && dict_entry_named(d, name, i) == Some(d[k].1),
        k == d.len() ==> dict_entry_named(d, name, i) is None,
    decreases d.len() - i,
{
    if i == d.len() || encode_utf8(d[i].0) == name {
        i
    } else {
        lemma_dict_place(d, name, i + 1)
    }
}

/// A name of the dictionary leads where the first entry with it says.
proof fn lemma_dict_named(
    doc: DocV,
    d: DictV,
    n: int,
    pages: Map<u32, usize>,
    name: Seq<u8>,
    k: int,
)
    requires
        0 <= n <= d.len(),
        0 <= k <= d.len(),
        forall|j: int| 0 <= j < k ==> encode_utf8((#[trigger] d[j]).0) != name,
        k < d.len() ==> encode_utf8(d[k].0) == name,
    ensures
        named_from(names_of_dict(doc, d, n, pages), name, 0) == if k < n {
            Some(target_of(doc, d[k].1, pages))
        } else {
            None
        },
    decreases n,
{
    if n > 0 {
        let before = names_of_dict(doc, d, n - 1, pages);
        let last = encode_utf8(d[n - 1].0);
        lemma_dict_named(doc, d, n - 1, pages, name, k);
        lemma_dict_names_in_order(doc, d, n - 1, pages);
        if named_from(before, last, 0) is None {
            lemma_named_with(before, last, target_of(doc, d[n - 1].1, pages), name);
        }
    }
}

/// The first entry of a tree with a name, or the number of entries.
proof fn lemma_listed_place(entries: Seq<(Seq<u8>, ObjV)>, name: Seq<u8>, i: int) -> (k: int)
    requires
        0 <= i <= entries.len(),
    ensures
        i <= k <= entries.len(),
        forall|j: int| i <= j < k ==> (#[trigger] entries[j]).0 != name,
        k < entries.len() ==> entries[k].0 == name && first_value(entries, name, i) == Some(
            entries[k].1,
        ),
        k == entries.len() ==> first_value(entries, name, i) is None,
    decreases entries.len() - i,
{
    if i == entries.len() || entries[i].0 == name {
        i
    } else {
        lemma_listed_place(entries, name, i + 1)
    }
}

/// A name that the tree does not have leads where it did before.
proof fn lemma_not_in_tree(
    doc: DocV,
    names: NamesV,
    entries: Seq<(Seq<u8>, ObjV)>,
    n: int,
    pages: Map<u32, usize>,
    name: Seq<u8>,
)
    requires
        names_in_order(names),
        0 <= n <= entries.len(),
        forall|j: int| 0 <= j < n ==> (#[trigger] entries[j]).0 != name,
    ensures
        named_from(names_with_tree(doc, names, entries, n, pages), name, 0) == named_from(
            names,
            name,
            0,
        ),
    decreases n,
{
    if n > 0 {
        lemma_not_in_tree(doc, names, entries, n - 1, pages, name);
        lemma_tree_names_in_order(doc, names, entries, n - 1, pages);
        assert(entries[n - 1].0 != name);
        lemma_named_with(
            names_with_tree(doc, names, entries, n - 1, pages),
            entries[n - 1].0,
            target_of(doc, entries[n - 1].1, pages),
            name,
        );
    }
}

/// The tree of names tells one place for `name` however it is read: its limits
/// can be relied on, it has fewer entries than the cap, it lists the name once
/// at most, and what the name leads to there, if it is listed, is a place.
pub open spec fn tells_one_place(
    doc: DocV,
    root: DictV,
    name: Seq<u8>,
    pages: Map<u32, usize>,
) -> bool {
    &&& orderly(doc, root, name)
    &&& tree_entries::<Vec<u8>>(doc, root, "Names"@) matches Ok(entries) ==> {
        &&& entries.len() < MAX_ENTRIES
        &&& forall|i: int, j: int|
            0 <= i < j < entries.len() ==> !((#[trigger] entries[i]).0 == name && (
            #[trigger] entries[j]).0 == name)
        &&& first_value(entries, name, 0) matches Some(v) ==> target_of(doc, v, pages).0 is Some
    }
}

/// Resolving one name gives the place that enumerating all names has under it,
/// and none where they do not have it.
pub proof fn law_resolved_as_listed(doc: DocV, name: Seq<u8>, pages: Map<u32, usize>, names: NamesV)
    requires
        page_index(doc) == Ok::<Map<u32, usize>, Seq<char>>(pages),
        all_names(doc, pages) == Ok::<NamesV, Seq<char>>(names),
        dests_tree(doc) matches Ok(Some(root)) ==> tells_one_place(doc, root, name, pages),
    ensures
        resolved_name(doc, name) == Ok::<Option<DestV>, Seq<char>>(named_place(names, name)),
{
    let dict = dests_dict(doc)->Ok_0;
    let base: NamesV = match dict {
        Some(d) => names_of_dict(doc, d, d.len() as int, pages),
        None => Seq::empty(),
    };
    if let Some(d) = dict {
        let k = lemma_dict_place(d, name, 0);
        lemma_dict_named(doc, d, d.len() as int, pages, name, k);
        lemma_dict_names_in_order(doc, d, d.len() as int, pages);
    }
    if let Ok(Some(root)) = dests_tree(doc) {
        let entries = tree_entries::<Vec<u8>>(doc, root, "Names"@)->Ok_0;
        law_lookup_finds_listed(doc, root, entries, name);
        let k = lemma_listed_place(entries, name, 0);
        if k < entries.len() {
            assert forall|j: int| k < j < entries.len() implies (#[trigger] entries[j]).0
                != entries[k].0 by {
                assert(entries[k].0 == name);
            }
            law_tree_counts(doc, base, entries, entries.len() as int, k, pages);
        } else {
            lemma_not_in_tree(doc, base, entries, entries.len() as int, pages, name);
        }
    }
}

} // verus!
