//! The resources that content refers to, with what they refer to themselves
//! put in place of the references.

use vstd::prelude::*;
use crate::document::{DocV, DocumentReader};
use crate::error::{outcome, PdfError};
use crate::objects::{
    dict_get, dict_set, distinct_keys, law_set_get, law_set_keeps_distinct, law_set_keeps_others,
    lemma_array_view, lemma_key_pos, objs_view, Dict, DictV, ObjV, Object, ObjectId, Stream,
};
use crate::pages::{cyclic, hop_dict, read_hop_dict};
use crate::stream::{decode_stream, dict_integer, get_integer, stream_data};
use crate::text::same_text;

verus! {

// --------------------------------------------------------------- functions

/// The dictionary of a function. The data of a sampled function, and the
/// program of a calculator function, are entries of it.
pub open spec fn function_dict(v: ObjV) -> Option<Result<DictV, Seq<char>>> {
    match v {
        ObjV::Dict(d) => Some(Ok(d)),
        ObjV::Stream(d, data) => if dict_integer(d, "FunctionType"@) == Some(0i64) {
            Some(folded(d, data, "__Samples"@))
        } else if dict_integer(d, "FunctionType"@) == Some(4i64) {
            Some(folded(d, data, "__Program"@))
        } else {
            Some(Ok(d))
        },
        _ => None,
    }
}

/// The dictionary of a stream with the data of the stream as an entry.
pub open spec fn folded(d: DictV, data: Seq<u8>, key: Seq<char>) -> Result<DictV, Seq<char>> {
    match stream_data(d, data) {
        Err(e) => Err(e),
        Ok(b) => Ok(dict_set(d, key, ObjV::HexString(b))),
    }
}

fn fold(s: &Stream, key: &str) -> (r: Result<Dict, PdfError>)
    ensures
        outcome(r) == folded(s.dict@, s.data@, key@),
{
    match decode_stream(s) {
        Err(e) => Err(e),
        Ok(b) => {
            let mut d: Dict = s.dict.clone();
            d.set(key, Object::HexString(b));
            Ok(d)
        },
    }
}

/// The dictionary of an object that is one, or of a stream.
pub open spec fn own_dict(v: ObjV) -> Option<DictV> {
    match v {
        ObjV::Dict(d) => Some(d),
        ObjV::Stream(d, _) => Some(d),
        _ => None,
    }
}

/// The functions that a stitching function joins.
pub open spec fn joined(v: ObjV) -> Option<Seq<ObjV>> {
    match own_dict(v) {
        Some(d) => match dict_get(d, "Functions"@) {
            Some(ObjV::Array(items)) => Some(items),
            _ => None,
        },
        None => None,
    }
}

/// What is in the dictionary of an object is smaller than the object.
pub proof fn lemma_entry_smaller(v: ObjV, d: DictV, key: Seq<char>, e: ObjV)
    requires
        own_dict(v) == Some(d),
        dict_get(d, key) == Some(e),
    ensures
        decreases_to!(v => e),
{
    lemma_key_pos(d, key, 0);
    let p = crate::objects::key_pos(d, key, 0);
    assert(e == d[p].1);
    assert(decreases_to!(d => d[p]));
    match v {
        ObjV::Dict(x) => {
            assert(x == d);
            assert(decreases_to!(v => x));
        },
        ObjV::Stream(x, _) => {
            assert(x == d);
            assert(decreases_to!(v => x));
        },
        _ => {},
    }
}

#[via_fn]
proof fn function_body_decreases(doc: DocV, v: ObjV, fuel: int) {
    if let Some(items) = joined(v) {
        let d = own_dict(v)->Some_0;
        lemma_entry_smaller(v, d, "Functions"@, ObjV::Array(items));
    }
}

/// A function with all that it refers to in place of the references. As many
/// references may follow one another as `fuel` says.
pub open spec fn function_value(doc: DocV, o: ObjV, fuel: int) -> Result<ObjV, Seq<char>>
    decreases fuel, o, 1int,
{
    match o {
        ObjV::Reference(id) => if fuel <= 0 {
            Err(cyclic())
        } else {
            match doc.resolve(id) {
                Err(e) => Err(e),
                Ok(v) => function_body(doc, v, fuel - 1),
            }
        },
        _ => function_body(doc, o, fuel),
    }
}

/// The same of a function that is not a reference.
pub open spec fn function_body(doc: DocV, v: ObjV, fuel: int) -> Result<ObjV, Seq<char>>
    decreases fuel, v, 0int,
    via function_body_decreases
{
    match function_dict(v) {
        None => Ok(v),
        Some(Err(e)) => Err(e),
        Some(Ok(d)) => match joined(v) {
            Some(items) => match function_list(doc, items, items.len() as int, fuel) {
                Err(e) => Err(e),
                Ok(list) => Ok(ObjV::Dict(dict_set(d, "Functions"@, ObjV::Array(list)))),
            },
            None => Ok(ObjV::Dict(d)),
        },
    }
}

/// The same of the first `n` functions of a list.
pub open spec fn function_list(doc: DocV, items: Seq<ObjV>, n: int, fuel: int) -> Result<
    Seq<ObjV>,
    Seq<char>,
>
    decreases fuel, items, n,
{
    if n <= 0 || n > items.len() {
        Ok(Seq::empty())
    } else {
        match function_list(doc, items, n - 1, fuel) {
            Err(e) => Err(e),
            Ok(before) => match function_value(doc, items[n - 1], fuel) {
                Err(e) => Err(e),
                Ok(v) => Ok(before.push(v)),
            },
        }
    }
}

proof fn lemma_functions_error(doc: DocV, items: Seq<ObjV>, n: int, m: int, fuel: int)
    requires
        0 <= n <= m <= items.len(),
        function_list(doc, items, n, fuel) is Err,
    ensures
        function_list(doc, items, m, fuel) == function_list(doc, items, n, fuel),
    decreases m - n,
{
    if n < m {
        lemma_functions_error(doc, items, n, m - 1, fuel);
    }
}

/// Prepare the functions of a list.
fn functions_from(reader: &mut DocumentReader, items: &Vec<Object>, fuel: usize) -> (r: Result<
    Vec<Object>,
    PdfError,
>)
    requires
        old(reader).wf(),
    ensures
        final(reader).wf(),
        final(reader).doc() == old(reader).doc(),
        match r {
            Ok(v) => function_list(
                old(reader).doc(),
                objs_view(items@),
                items@.len() as int,
                fuel as int,
            ) == Ok::<Seq<ObjV>, Seq<char>>(objs_view(v@)),
            Err(e) => function_list(
                old(reader).doc(),
                objs_view(items@),
                items@.len() as int,
                fuel as int,
            ) == Err::<Seq<ObjV>, Seq<char>>(e@),
        },
    decreases fuel, objs_view(items@), 0int,
{
    let ghost doc = reader.doc();
    let ghost view = objs_view(items@);
    let mut out: Vec<Object> = Vec::new();
    proof {
        assert(objs_view(out@) =~= Seq::empty());
    }
    let mut i: usize = 0;
    while i < items.len()
        invariant
            i <= items@.len(),
            view == objs_view(items@),
            reader.wf(),
            reader.doc() == doc,
            doc == old(reader).doc(),
            function_list(doc, view, i as int, fuel as int) == Ok::<Seq<ObjV>, Seq<char>>(
                objs_view(out@),
            ),
        decreases items.len() - i,
    {
        let ghost before = objs_view(out@);
        proof {
            assert(view[i as int] == items@[i as int]@);
            assert(decreases_to!(view => view[i as int]));
        }
        match function_from(reader, &items[i], fuel) {
            Err(e) => {
                proof {
                    lemma_functions_error(doc, view, i + 1, view.len() as int, fuel as int);
                }
                return Err(e);
            },
            Ok(o) => {
                let ghost v = o@;
                out.push(o);
                proof {
                    assert(objs_view(out@) =~= before.push(v));
                }
            },
        }
        i = i + 1;
    }
    Ok(out)
}

fn function_body_from(reader: &mut DocumentReader, obj: &Object, fuel: usize) -> (r: Result<
    Object,
    PdfError,
>)
    requires
        old(reader).wf(),
    ensures
        final(reader).wf(),
        final(reader).doc() == old(reader).doc(),
        outcome(r) == function_body(old(reader).doc(), obj@, fuel as int),
    decreases fuel, obj@, 0int,
{
    let (mut dict, own): (Dict, &Dict) = match obj {
        Object::Dict(d) => (d.clone(), d),
        Object::Stream(s) => {
            let ty: Option<i64> = get_integer(&s.dict, "FunctionType");
            let d: Dict = match ty {
                Some(0) => match fold(s, "__Samples") {
                    Ok(d) => d,
                    Err(e) => {
                        return Err(e);
                    },
                },
                Some(4) => match fold(s, "__Program") {
                    Ok(d) => d,
                    Err(e) => {
                        return Err(e);
                    },
                },
                _ => s.dict.clone(),
            };
            (d, &s.dict)
        },
        _ => {
            return Ok(obj.clone());
        },
    };
    if let Some(Object::Array(items)) = own.get("Functions") {
        proof {
            lemma_array_view(*items);
            lemma_entry_smaller(obj@, own@, "Functions"@, ObjV::Array(objs_view(items@)));
            assert(joined(obj@) == Some(objs_view(items@)));
        }
        match functions_from(reader, items, fuel) {
            Err(e) => {
                return Err(e);
            },
            Ok(list) => {
                proof {
                    lemma_array_view(list);
                }
                dict.set("Functions", Object::Array(list));
            },
        }
    } else {
        proof {
            assert(joined(obj@) is None);
        }
    }
    Ok(Object::Dict(dict))
}

fn function_from(reader: &mut DocumentReader, obj: &Object, fuel: usize) -> (r: Result<
    Object,
    PdfError,
>)
    requires
        old(reader).wf(),
    ensures
        final(reader).wf(),
        final(reader).doc() == old(reader).doc(),
        outcome(r) == function_value(old(reader).doc(), obj@, fuel as int),
    decreases fuel, obj@, 1int,
{
    match obj {
        Object::Reference(id) => {
            if fuel == 0 {
                return Err(PdfError::other("PDF reader: references form a cycle"));
            }
            match reader.resolve(*id) {
                Err(e) => Err(e),
                Ok(v) => function_body_from(reader, &v, fuel - 1),
            }
        },
        _ => function_body_from(reader, obj, fuel),
    }
}

/// A function with all that it refers to in place of the references.
pub fn prepare_function_object(reader: &mut DocumentReader, obj: Object) -> (r: Result<
    Object,
    PdfError,
>)
    requires
        old(reader).wf(),
    ensures
        final(reader).wf(),
        final(reader).doc() == old(reader).doc(),
        outcome(r) == function_value(
            old(reader).doc(),
            obj@,
            old(reader).doc().longest_chain(),
        ),
{
    let fuel: usize = reader.chain_limit();
    function_from(reader, &obj, fuel)
}

// ------------------------------------------------------------ colour spaces

/// The family of a colour space that is an array.
pub open spec fn family(items: Seq<ObjV>) -> Option<Seq<char>> {
    if items.len() == 0 {
        None
    } else {
        match items[0] {
            ObjV::Name(n) => Some(n),
            _ => None,
        }
    }
}

/// The item at place `i`, or the object that it refers to directly; the null
/// object where there is no such item.
pub open spec fn item_value(doc: DocV, items: Seq<ObjV>, i: int) -> Result<ObjV, Seq<char>> {
    if 0 <= i < items.len() {
        doc.one_hop(items[i])
    } else {
        Ok(ObjV::Null)
    }
}

/// The first `n` items, each with a direct reference followed.
pub open spec fn items_values(doc: DocV, items: Seq<ObjV>, n: int) -> Result<Seq<ObjV>, Seq<char>>
    decreases n,
{
    if n <= 0 || n > items.len() {
        Ok(Seq::empty())
    } else {
        match items_values(doc, items, n - 1) {
            Err(e) => Err(e),
            Ok(before) => match doc.one_hop(items[n - 1]) {
                Err(e) => Err(e),
                Ok(v) => Ok(before.push(v)),
            },
        }
    }
}

proof fn lemma_values_error(doc: DocV, items: Seq<ObjV>, n: int, m: int)
    requires
        0 <= n <= m <= items.len(),
        items_values(doc, items, n) is Err,
    ensures
        items_values(doc, items, m) == items_values(doc, items, n),
    decreases m - n,
{
    if n < m {
        lemma_values_error(doc, items, n, m - 1);
    }
}

/// A colour space with all that it refers to in place of the references: a
/// profile is its dictionary, and a table of colours its bytes.
pub open spec fn color_value(doc: DocV, o: ObjV, fuel: int) -> Result<ObjV, Seq<char>>
    decreases fuel, o, 1int,
{
    match o {
        ObjV::Reference(id) => if fuel <= 0 {
            Err(cyclic())
        } else {
            match doc.resolve(id) {
                Err(e) => Err(e),
                Ok(v) => color_value(doc, v, fuel - 1),
            }
        },
        ObjV::Array(items) => match family(items) {
            Some(f) => if f == "ICCBased"@ {
                icc_value(doc, items, fuel)
            } else if f == "Indexed"@ {
                indexed_value(doc, items, fuel)
            } else if f == "Separation"@ {
                separation_value(doc, items, fuel)
            } else if f == "DeviceN"@ {
                device_n_value(doc, items, fuel)
            } else {
                Ok(o)
            },
            None => Ok(o),
        },
        _ => Ok(o),
    }
}

/// `[/ICCBased profile]`.
pub open spec fn icc_value(doc: DocV, items: Seq<ObjV>, fuel: int) -> Result<ObjV, Seq<char>>
    decreases fuel, items, 0int,
{
    if items.len() < 2 {
        Ok(ObjV::Array(seq![ObjV::Name("ICCBased"@)]))
    } else {
        let profile = match items[1] {
            ObjV::Reference(id) => if fuel <= 0 {
                Err(cyclic())
            } else {
                match doc.resolve(id) {
                    Err(e) => Err(e),
                    Ok(v) => profile_dict(doc, v, fuel - 1),
                }
            },
            _ => profile_dict(doc, items[1], fuel),
        };
        match profile {
            Err(e) => Err(e),
            Ok(Some(d)) => Ok(ObjV::Array(seq![ObjV::Name("ICCBased"@), ObjV::Dict(d)])),
            Ok(None) => Ok(ObjV::Array(seq![ObjV::Name("ICCBased"@)])),
        }
    }
}

/// The dictionary of a profile.
pub open spec fn profile_dict(doc: DocV, v: ObjV, fuel: int) -> Result<Option<DictV>, Seq<char>>
    decreases fuel, v, 0int,
    via profile_dict_decreases
{
    match v {
        ObjV::Stream(d, _) => match dict_get(d, "Alternate"@) {
            Some(alt) => match color_value(doc, alt, fuel) {
                Err(e) => Err(e),
                Ok(a) => Ok(Some(dict_set(d, "Alternate"@, a))),
            },
            None => Ok(Some(d)),
        },
        ObjV::Dict(d) => Ok(Some(d)),
        _ => Ok(None),
    }
}

#[via_fn]
proof fn profile_dict_decreases(doc: DocV, v: ObjV, fuel: int) {
    if let ObjV::Stream(d, _) = v {
        if let Some(alt) = dict_get(d, "Alternate"@) {
            lemma_entry_smaller(v, d, "Alternate"@, alt);
        }
    }
}

/// `[/Indexed base hival lookup]`.
pub open spec fn indexed_value(doc: DocV, items: Seq<ObjV>, fuel: int) -> Result<ObjV, Seq<char>>
    decreases fuel, items, 0int,
{
    if items.len() < 2 {
        Ok(ObjV::Array(seq![ObjV::Name("Indexed"@)]))
    } else {
        match color_value(doc, items[1], fuel) {
            Err(e) => Err(e),
            Ok(base) => match item_value(doc, items, 2) {
                Err(e) => Err(e),
                Ok(hival) => match lookup_value(doc, items) {
                    Err(e) => Err(e),
                    Ok(lookup) => Ok(
                        ObjV::Array(seq![ObjV::Name("Indexed"@), base, hival, lookup]),
                    ),
                },
            },
        }
    }
}

/// The table of an indexed colour space; that of a stream as a string.
pub open spec fn lookup_value(doc: DocV, items: Seq<ObjV>) -> Result<ObjV, Seq<char>> {
    match item_value(doc, items, 3) {
        Err(e) => Err(e),
        Ok(ObjV::Stream(d, data)) => match stream_data(d, data) {
            Err(e) => Err(e),
            Ok(b) => Ok(ObjV::HexString(b)),
        },
        Ok(v) => Ok(v),
    }
}

/// The alternate space and the tint transform of a colour space.
pub open spec fn alternate_and_tint(doc: DocV, items: Seq<ObjV>, fuel: int) -> Result<
    (ObjV, ObjV),
    Seq<char>,
>
    decreases fuel, items, 0int,
{
    let alternate = if items.len() > 2 {
        color_value(doc, items[2], fuel)
    } else {
        Ok(ObjV::Null)
    };
    match alternate {
        Err(e) => Err(e),
        Ok(alt) => {
            let tint = if items.len() > 3 {
                function_value(doc, items[3], fuel)
            } else {
                Ok(ObjV::Null)
            };
            match tint {
                Err(e) => Err(e),
                Ok(t) => Ok((alt, t)),
            }
        },
    }
}

/// `[/Separation name alternate tint]`.
pub open spec fn separation_value(doc: DocV, items: Seq<ObjV>, fuel: int) -> Result<
    ObjV,
    Seq<char>,
>
    decreases fuel, items, 1int,
{
    if items.len() < 2 {
        Ok(ObjV::Array(seq![ObjV::Name("Separation"@)]))
    } else {
        match item_value(doc, items, 1) {
            Err(e) => Err(e),
            Ok(name) => match alternate_and_tint(doc, items, fuel) {
                Err(e) => Err(e),
                Ok((alt, tint)) => Ok(
                    ObjV::Array(seq![ObjV::Name("Separation"@), name, alt, tint]),
                ),
            },
        }
    }
}

/// The names of colorants, each with a direct reference followed.
pub open spec fn colorants(doc: DocV, items: Seq<ObjV>) -> Result<ObjV, Seq<char>> {
    match item_value(doc, items, 1) {
        Err(e) => Err(e),
        Ok(ObjV::Array(names)) => match items_values(doc, names, names.len() as int) {
            Err(e) => Err(e),
            Ok(v) => Ok(ObjV::Array(v)),
        },
        Ok(v) => Ok(v),
    }
}

/// `[/DeviceN names alternate tint]`; attributes behind these are left out.
pub open spec fn device_n_value(doc: DocV, items: Seq<ObjV>, fuel: int) -> Result<ObjV, Seq<char>>
    decreases fuel, items, 1int,
{
    if items.len() < 2 {
        Ok(ObjV::Array(seq![ObjV::Name("DeviceN"@)]))
    } else {
        match colorants(doc, items) {
            Err(e) => Err(e),
            Ok(names) => match alternate_and_tint(doc, items, fuel) {
                Err(e) => Err(e),
                Ok((alt, tint)) => Ok(ObjV::Array(seq![ObjV::Name("DeviceN"@), names, alt, tint])),
            },
        }
    }
}

/// An object, or the object that it refers to directly.
pub(crate) fn hop(reader: &mut DocumentReader, o: &Object) -> (r: Result<Object, PdfError>)
    requires
        old(reader).wf(),
    ensures
        final(reader).wf(),
        final(reader).doc() == old(reader).doc(),
        outcome(r) == old(reader).doc().one_hop(o@),
{
    match o {
        Object::Reference(id) => reader.resolve(*id),
        _ => Ok(o.clone()),
    }
}

fn hop_item(reader: &mut DocumentReader, items: &Vec<Object>, i: usize) -> (r: Result<
    Object,
    PdfError,
>)
    requires
        old(reader).wf(),
    ensures
        final(reader).wf(),
        final(reader).doc() == old(reader).doc(),
        outcome(r) == item_value(old(reader).doc(), objs_view(items@), i as int),
{
    if i < items.len() {
        proof {
            assert(objs_view(items@)[i as int] == items@[i as int]@);
        }
        hop(reader, &items[i])
    } else {
        Ok(Object::Null)
    }
}

fn hop_items(reader: &mut DocumentReader, items: &Vec<Object>) -> (r: Result<Vec<Object>, PdfError>)
    requires
        old(reader).wf(),
    ensures
        final(reader).wf(),
        final(reader).doc() == old(reader).doc(),
        match r {
            Ok(v) => items_values(old(reader).doc(), objs_view(items@), items@.len() as int) == Ok::<
                Seq<ObjV>,
                Seq<char>,
            >(objs_view(v@)),
            Err(e) => items_values(old(reader).doc(), objs_view(items@), items@.len() as int)
                == Err::<Seq<ObjV>, Seq<char>>(e@),
        },
{
    let ghost doc = reader.doc();
    let ghost view = objs_view(items@);
    let mut out: Vec<Object> = Vec::new();
    proof {
        assert(objs_view(out@) =~= Seq::empty());
    }
    let mut i: usize = 0;
    while i < items.len()
        invariant
            i <= items@.len(),
            view == objs_view(items@),
            reader.wf(),
            reader.doc() == doc,
            doc == old(reader).doc(),
            items_values(doc, view, i as int) == Ok::<Seq<ObjV>, Seq<char>>(objs_view(out@)),
        decreases items.len() - i,
    {
        let ghost before = objs_view(out@);
        proof {
            assert(view[i as int] == items@[i as int]@);
        }
        match hop(reader, &items[i]) {
            Err(e) => {
                proof {
                    lemma_values_error(doc, view, i + 1, view.len() as int);
                }
                return Err(e);
            },
            Ok(o) => {
                let ghost v = o@;
                out.push(o);
                proof {
                    assert(objs_view(out@) =~= before.push(v));
                }
            },
        }
        i = i + 1;
    }
    Ok(out)
}

/// An array of up to four objects.
fn array_of(a: Object, b: Option<Object>, c: Option<Object>, d: Option<Object>) -> (r: Object)
    requires
        c is Some ==> b is Some,
        d is Some ==> c is Some,
    ensures
        b is None ==> r@ == ObjV::Array(seq![a@]),
        b is Some && c is None ==> r@ == ObjV::Array(seq![a@, b->Some_0@]),
        b is Some && c is Some && d is Some ==> r@ == ObjV::Array(
            seq![a@, b->Some_0@, c->Some_0@, d->Some_0@],
        ),
{
    let mut v: Vec<Object> = Vec::new();
    v.push(a);
    if let Some(o) = b {
        v.push(o);
    }
    if let Some(o) = c {
        v.push(o);
    }
    if let Some(o) = d {
        v.push(o);
    }
    proof {
        lemma_array_view(v);
        if b is None {
            assert(objs_view(v@) =~= seq![a@]);
        } else if c is None {
            assert(objs_view(v@) =~= seq![a@, b->Some_0@]);
        } else if d is Some {
            assert(objs_view(v@) =~= seq![a@, b->Some_0@, c->Some_0@, d->Some_0@]);
        }
    }
    Object::Array(v)
}

fn named(name: &str) -> (r: Object)
    ensures
        r@ == ObjV::Name(name@),
{
    Object::Name(name.to_owned())
}

fn profile_from(reader: &mut DocumentReader, v: &Object, fuel: usize) -> (r: Result<
    Option<Dict>,
    PdfError,
>)
    requires
        old(reader).wf(),
    ensures
        final(reader).wf(),
        final(reader).doc() == old(reader).doc(),
        crate::named_dest::dict_agrees(r, profile_dict(old(reader).doc(), v@, fuel as int)),
    decreases fuel, v@, 0int,
{
    match v {
        Object::Stream(s) => {
            let mut d: Dict = s.dict.clone();
            if let Some(alt) = s.dict.get("Alternate") {
                proof {
                    lemma_entry_smaller(v@, s.dict@, "Alternate"@, alt@);
                }
                match color_from(reader, alt, fuel) {
                    Err(e) => {
                        return Err(e);
                    },
                    Ok(a) => {
                        d.set("Alternate", a);
                    },
                }
            }
            Ok(Some(d))
        },
        Object::Dict(d) => Ok(Some(d.clone())),
        _ => Ok(None),
    }
}

fn icc_from(reader: &mut DocumentReader, items: &Vec<Object>, fuel: usize) -> (r: Result<
    Object,
    PdfError,
>)
    requires
        old(reader).wf(),
    ensures
        final(reader).wf(),
        final(reader).doc() == old(reader).doc(),
        outcome(r) == icc_value(old(reader).doc(), objs_view(items@), fuel as int),
    decreases fuel, objs_view(items@), 0int,
{
    if items.len() < 2 {
        return Ok(array_of(named("ICCBased"), None, None, None));
    }
    proof {
        let view = objs_view(items@);
        assert(view[1] == items@[1]@);
        assert(decreases_to!(view => view[1]));
    }
    let profile: Result<Option<Dict>, PdfError> = match &items[1] {
        Object::Reference(id) => {
            if fuel == 0 {
                return Err(PdfError::other("PDF reader: references form a cycle"));
            }
            match reader.resolve(*id) {
                Err(e) => {
                    return Err(e);
                },
                Ok(v) => profile_from(reader, &v, fuel - 1),
            }
        },
        o => profile_from(reader, o, fuel),
    };
    match profile {
        Err(e) => Err(e),
        Ok(Some(d)) => Ok(array_of(named("ICCBased"), Some(Object::Dict(d)), None, None)),
        Ok(None) => Ok(array_of(named("ICCBased"), None, None, None)),
    }
}

fn lookup_from(reader: &mut DocumentReader, items: &Vec<Object>) -> (r: Result<Object, PdfError>)
    requires
        old(reader).wf(),
    ensures
        final(reader).wf(),
        final(reader).doc() == old(reader).doc(),
        outcome(r) == lookup_value(old(reader).doc(), objs_view(items@)),
{
    match hop_item(reader, items, 3) {
        Err(e) => Err(e),
        Ok(Object::Stream(s)) => match decode_stream(&s) {
            Err(e) => Err(e),
            Ok(b) => Ok(Object::HexString(b)),
        },
        Ok(o) => Ok(o),
    }
}

fn indexed_from(reader: &mut DocumentReader, items: &Vec<Object>, fuel: usize) -> (r: Result<
    Object,
    PdfError,
>)
    requires
        old(reader).wf(),
    ensures
        final(reader).wf(),
        final(reader).doc() == old(reader).doc(),
        outcome(r) == indexed_value(old(reader).doc(), objs_view(items@), fuel as int),
    decreases fuel, objs_view(items@), 0int,
{
    if items.len() < 2 {
        return Ok(array_of(named("Indexed"), None, None, None));
    }
    proof {
        let view = objs_view(items@);
        assert(view[1] == items@[1]@);
        assert(decreases_to!(view => view[1]));
    }
    let base: Object = match color_from(reader, &items[1], fuel) {
        Ok(o) => o,
        Err(e) => {
            return Err(e);
        },
    };
    let hival: Object = match hop_item(reader, items, 2) {
        Ok(o) => o,
        Err(e) => {
            return Err(e);
        },
    };
    match lookup_from(reader, items) {
        Err(e) => Err(e),
        Ok(lookup) => Ok(array_of(named("Indexed"), Some(base), Some(hival), Some(lookup))),
    }
}

fn alternate_and_tint_from(
    reader: &mut DocumentReader,
    items: &Vec<Object>,
    fuel: usize,
) -> (r: Result<(Object, Object), PdfError>)
    requires
        old(reader).wf(),
    ensures
        final(reader).wf(),
        final(reader).doc() == old(reader).doc(),
        match r {
            Ok((a, t)) => alternate_and_tint(old(reader).doc(), objs_view(items@), fuel as int)
                == Ok::<(ObjV, ObjV), Seq<char>>((a@, t@)),
            Err(e) => alternate_and_tint(old(reader).doc(), objs_view(items@), fuel as int) == Err::<
                (ObjV, ObjV),
                Seq<char>,
            >(e@),
        },
    decreases fuel, objs_view(items@), 0int,
{
    let ghost view = objs_view(items@);
    let alt: Object = if items.len() > 2 {
        proof {
            assert(view[2] == items@[2]@);
            assert(decreases_to!(view => view[2]));
        }
        match color_from(reader, &items[2], fuel) {
            Ok(o) => o,
            Err(e) => {
                return Err(e);
            },
        }
    } else {
        Object::Null
    };
    let tint: Object = if items.len() > 3 {
        proof {
            assert(view[3] == items@[3]@);
            assert(decreases_to!(view => view[3]));
        }
        match function_from(reader, &items[3], fuel) {
            Ok(o) => o,
            Err(e) => {
                return Err(e);
            },
        }
    } else {
        Object::Null
    };
    Ok((alt, tint))
}

fn separation_from(reader: &mut DocumentReader, items: &Vec<Object>, fuel: usize) -> (r: Result<
    Object,
    PdfError,
>)
    requires
        old(reader).wf(),
    ensures
        final(reader).wf(),
        final(reader).doc() == old(reader).doc(),
        outcome(r) == separation_value(old(reader).doc(), objs_view(items@), fuel as int),
    decreases fuel, objs_view(items@), 1int,
{
    if items.len() < 2 {
        return Ok(array_of(named("Separation"), None, None, None));
    }
    let name: Object = match hop_item(reader, items, 1) {
        Ok(o) => o,
        Err(e) => {
            return Err(e);
        },
    };
    match alternate_and_tint_from(reader, items, fuel) {
        Err(e) => Err(e),
        Ok((alt, tint)) => Ok(array_of(named("Separation"), Some(name), Some(alt), Some(tint))),
    }
}

fn colorants_from(reader: &mut DocumentReader, items: &Vec<Object>) -> (r: Result<Object, PdfError>)
    requires
        old(reader).wf(),
    ensures
        final(reader).wf(),
        final(reader).doc() == old(reader).doc(),
        outcome(r) == colorants(old(reader).doc(), objs_view(items@)),
{
    match hop_item(reader, items, 1) {
        Err(e) => Err(e),
        Ok(Object::Array(names)) => {
            proof {
                lemma_array_view(names);
            }
            match hop_items(reader, &names) {
                Err(e) => Err(e),
                Ok(v) => {
                    proof {
                        lemma_array_view(v);
                    }
                    Ok(Object::Array(v))
                },
            }
        },
        Ok(o) => Ok(o),
    }
}

fn device_n_from(reader: &mut DocumentReader, items: &Vec<Object>, fuel: usize) -> (r: Result<
    Object,
    PdfError,
>)
    requires
        old(reader).wf(),
    ensures
        final(reader).wf(),
        final(reader).doc() == old(reader).doc(),
        outcome(r) == device_n_value(old(reader).doc(), objs_view(items@), fuel as int),
    decreases fuel, objs_view(items@), 1int,
{
    if items.len() < 2 {
        return Ok(array_of(named("DeviceN"), None, None, None));
    }
    let names: Object = match colorants_from(reader, items) {
        Ok(o) => o,
        Err(e) => {
            return Err(e);
        },
    };
    match alternate_and_tint_from(reader, items, fuel) {
        Err(e) => Err(e),
        Ok((alt, tint)) => Ok(array_of(named("DeviceN"), Some(names), Some(alt), Some(tint))),
    }
}

fn color_from(reader: &mut DocumentReader, obj: &Object, fuel: usize) -> (r: Result<
    Object,
    PdfError,
>)
    requires
        old(reader).wf(),
    ensures
        final(reader).wf(),
        final(reader).doc() == old(reader).doc(),
        outcome(r) == color_value(old(reader).doc(), obj@, fuel as int),
    decreases fuel, obj@, 1int,
{
    match obj {
        Object::Reference(id) => {
            if fuel == 0 {
                return Err(PdfError::other("PDF reader: references form a cycle"));
            }
            match reader.resolve(*id) {
                Err(e) => Err(e),
                Ok(v) => color_from(reader, &v, fuel - 1),
            }
        },
        Object::Array(items) => {
            proof {
                lemma_array_view(*items);
                let view = objs_view(items@);
                assert(obj@ == ObjV::Array(view));
                assert(decreases_to!(obj@ => view));
                if items@.len() > 0 {
                    assert(view[0] == items@[0]@);
                }
            }
            if items.len() == 0 {
                return Ok(obj.clone());
            }
            match &items[0] {
                Object::Name(f) => {
                    if same_text(f.as_str(), "ICCBased") {
                        icc_from(reader, items, fuel)
                    } else if same_text(f.as_str(), "Indexed") {
                        indexed_from(reader, items, fuel)
                    } else if same_text(f.as_str(), "Separation") {
                        separation_from(reader, items, fuel)
                    } else if same_text(f.as_str(), "DeviceN") {
                        device_n_from(reader, items, fuel)
                    } else {
                        Ok(obj.clone())
                    }
                },
                _ => Ok(obj.clone()),
            }
        },
        _ => Ok(obj.clone()),
    }
}

/// A colour space with all that it refers to in place of the references.
pub fn prepare_color_space_object(reader: &mut DocumentReader, obj: Object) -> (r: Result<
    Object,
    PdfError,
>)
    requires
        old(reader).wf(),
    ensures
        final(reader).wf(),
        final(reader).doc() == old(reader).doc(),
        outcome(r) == color_value(old(reader).doc(), obj@, old(reader).doc().longest_chain()),
{
    let fuel: usize = reader.chain_limit();
    color_from(reader, &obj, fuel)
}

// ------------------------------------------------------------------- fonts

/// A dictionary with an entry that is a reference replaced by what it refers
/// to.
pub open spec fn with_followed(doc: DocV, d: DictV, key: Seq<char>) -> Result<DictV, Seq<char>> {
    match dict_get(d, key) {
        Some(ObjV::Reference(id)) => match doc.resolve(id) {
            Err(e) => Err(e),
            Ok(v) => Ok(dict_set(d, key, v)),
        },
        _ => Ok(d),
    }
}

fn follow(reader: &mut DocumentReader, d: &mut Dict, key: &str) -> (r: Result<(), PdfError>)
    requires
        old(reader).wf(),
    ensures
        final(reader).wf(),
        final(reader).doc() == old(reader).doc(),
        match r {
            Ok(_) => with_followed(old(reader).doc(), old(d)@, key@) == Ok::<DictV, Seq<char>>(
                final(d)@,
            ),
            Err(e) => with_followed(old(reader).doc(), old(d)@, key@) == Err::<DictV, Seq<char>>(
                e@,
            ),
        },
{
    let id: ObjectId = match d.get(key) {
        Some(Object::Reference(id)) => *id,
        _ => {
            return Ok(());
        },
    };
    match reader.resolve(id) {
        Err(e) => Err(e),
        Ok(v) => {
            d.set(key, v);
            Ok(())
        },
    }
}

/// A font with its descriptor in place of a reference to it, where that can be
/// read and is a dictionary.
pub open spec fn with_descriptor(doc: DocV, font: DictV) -> DictV {
    match dict_get(font, "FontDescriptor"@) {
        Some(ObjV::Reference(id)) => match doc.resolve(id) {
            Ok(ObjV::Dict(d)) => dict_set(font, "FontDescriptor"@, ObjV::Dict(d)),
            _ => font,
        },
        _ => font,
    }
}

/// The descendant of a composite font: the first of an array, or the entry
/// itself.
pub open spec fn descendant(v: ObjV) -> Option<ObjV> {
    match v {
        ObjV::Array(items) => if items.len() > 0 {
            Some(items[0])
        } else {
            None
        },
        ObjV::Dict(d) => Some(ObjV::Dict(d)),
        _ => None,
    }
}

/// A font with its descendant, and the widths of that, in place of references.
pub open spec fn with_descendant(doc: DocV, font: DictV) -> Result<DictV, Seq<char>> {
    match dict_get(font, "DescendantFonts"@) {
        None => Ok(font),
        Some(o) => match doc.one_hop(o) {
            Err(e) => Err(e),
            Ok(v) => match descendant(v) {
                None => Ok(font),
                Some(c) => match doc.one_hop(c) {
                    Err(e) => Err(e),
                    Ok(ObjV::Dict(cid)) => match with_followed(doc, cid, "W"@) {
                        Err(e) => Err(e),
                        Ok(cid) => Ok(dict_set(font, "DescendantFonts"@, ObjV::Dict(cid))),
                    },
                    Ok(_) => Ok(font),
                },
            },
        },
    }
}

/// A font with its widths, its descriptor and its descendant in place of
/// references to them.
pub open spec fn font_value(doc: DocV, font: DictV) -> Result<DictV, Seq<char>> {
    match with_followed(doc, font, "Widths"@) {
        Err(e) => Err(e),
        Ok(f) => with_descendant(doc, with_descriptor(doc, f)),
    }
}

/// Put the widths, the descriptor and the descendant of a font in place of
/// references to them.
pub fn resolve_font_widths(reader: &mut DocumentReader, font: &mut Dict) -> (r: Result<
    (),
    PdfError,
>)
    requires
        old(reader).wf(),
    ensures
        final(reader).wf(),
        final(reader).doc() == old(reader).doc(),
        match r {
            Ok(_) => font_value(old(reader).doc(), old(font)@) == Ok::<DictV, Seq<char>>(
                final(font)@,
            ),
            Err(e) => font_value(old(reader).doc(), old(font)@) == Err::<DictV, Seq<char>>(e@),
        },
{
    match follow(reader, font, "Widths") {
        Ok(_) => {},
        Err(e) => {
            return Err(e);
        },
    }
    let descriptor: Option<ObjectId> = match font.get("FontDescriptor") {
        Some(Object::Reference(id)) => Some(*id),
        _ => None,
    };
    if let Some(id) = descriptor {
        match reader.resolve(id) {
            Ok(Object::Dict(d)) => {
                font.set("FontDescriptor", Object::Dict(d));
            },
            _ => {},
        }
    }
    let entry: Object = match font.get("DescendantFonts") {
        None => {
            return Ok(());
        },
        Some(o) => o.clone(),
    };
    let first: Object = match hop(reader, &entry) {
        Err(e) => {
            return Err(e);
        },
        Ok(Object::Array(items)) => {
            proof {
                lemma_array_view(items);
                if items@.len() > 0 {
                    assert(objs_view(items@)[0] == items@[0]@);
                }
            }
            if items.len() == 0 {
                return Ok(());
            }
            items[0].clone()
        },
        Ok(Object::Dict(d)) => Object::Dict(d),
        Ok(_) => {
            return Ok(());
        },
    };
    match hop(reader, &first) {
        Err(e) => Err(e),
        Ok(Object::Dict(cid)) => {
            let mut cid: Dict = cid;
            match follow(reader, &mut cid, "W") {
                Ok(_) => {},
                Err(e) => {
                    return Err(e);
                },
            }
            font.set("DescendantFonts", Object::Dict(cid));
            Ok(())
        },
        Ok(_) => Ok(()),
    }
}

// ---------------------------------------------------- shadings and patterns

/// The one function or the list of functions of a shading, with all that they
/// refer to in place of the references.
pub open spec fn shading_function(doc: DocV, o: ObjV) -> Result<ObjV, Seq<char>> {
    match doc.one_hop(o) {
        Err(e) => Err(e),
        Ok(ObjV::Array(items)) => match function_list(
            doc,
            items,
            items.len() as int,
            doc.longest_chain(),
        ) {
            Err(e) => Err(e),
            Ok(list) => Ok(ObjV::Array(list)),
        },
        Ok(v) => function_value(doc, v, doc.longest_chain()),
    }
}

/// A shading with its function prepared.
pub open spec fn with_function(doc: DocV, d: DictV) -> Result<DictV, Seq<char>> {
    match dict_get(d, "Function"@) {
        None => Ok(d),
        Some(o) => match shading_function(doc, o) {
            Err(e) => Err(e),
            Ok(f) => Ok(dict_set(d, "Function"@, f)),
        },
    }
}

fn prepare_function_entry(reader: &mut DocumentReader, d: &mut Dict) -> (r: Result<(), PdfError>)
    requires
        old(reader).wf(),
    ensures
        final(reader).wf(),
        final(reader).doc() == old(reader).doc(),
        match r {
            Ok(_) => with_function(old(reader).doc(), old(d)@) == Ok::<DictV, Seq<char>>(final(d)@),
            Err(e) => with_function(old(reader).doc(), old(d)@) == Err::<DictV, Seq<char>>(e@),
        },
{
    let o: Object = match d.get("Function") {
        None => {
            return Ok(());
        },
        Some(o) => o.clone(),
    };
    let fuel: usize = reader.chain_limit();
    let f: Object = match hop(reader, &o) {
        Err(e) => {
            return Err(e);
        },
        Ok(Object::Array(items)) => {
            proof {
                lemma_array_view(items);
            }
            match functions_from(reader, &items, fuel) {
                Err(e) => {
                    return Err(e);
                },
                Ok(list) => {
                    proof {
                        lemma_array_view(list);
                    }
                    Object::Array(list)
                },
            }
        },
        Ok(v) => match function_from(reader, &v, fuel) {
            Err(e) => {
                return Err(e);
            },
            Ok(f) => f,
        },
    };
    d.set("Function", f);
    Ok(())
}

/// A shading: a dictionary, or a stream whose data are the entry `__MeshData`.
pub open spec fn shading_value(doc: DocV, v: ObjV) -> Result<Option<ObjV>, Seq<char>> {
    let dict = match v {
        ObjV::Dict(d) => Some(Ok(d)),
        ObjV::Stream(d, data) => Some(folded(d, data, "__MeshData"@)),
        _ => None,
    };
    match dict {
        None => Ok(None),
        Some(Err(e)) => Err(e),
        Some(Ok(d)) => match with_function(doc, d) {
            Err(e) => Err(e),
            Ok(d) => Ok(Some(ObjV::Dict(d))),
        },
    }
}

/// A pattern: the dictionary of a tiling pattern, or a shading pattern with its
/// shading in place of a reference.
pub open spec fn pattern_value(doc: DocV, v: ObjV) -> Result<Option<ObjV>, Seq<char>> {
    match own_dict(v) {
        None => Ok(None),
        Some(d) => match dict_get(d, "Shading"@) {
            None => Ok(Some(ObjV::Dict(d))),
            Some(o) => match doc.one_hop(o) {
                Err(e) => Err(e),
                Ok(ObjV::Dict(shading)) => match with_function(doc, shading) {
                    Err(e) => Err(e),
                    Ok(s) => Ok(Some(ObjV::Dict(dict_set(d, "Shading"@, ObjV::Dict(s))))),
                },
                Ok(_) => Ok(Some(ObjV::Dict(d))),
            },
        },
    }
}

// -------------------------------------------------------------- categories

/// A category of resources.
#[derive(Debug, Clone, Copy, PartialEq, Eq, Structural)]
pub enum ResourceKind {
    ExtGState,
    Font,
    Shading,
    Pattern,
    ColorSpace,
    Properties,
}

/// The entry of a resource dictionary that holds a category.
pub open spec fn kind_key(kind: ResourceKind) -> Seq<char> {
    match kind {
        ResourceKind::ExtGState => "ExtGState"@,
        ResourceKind::Font => "Font"@,
        ResourceKind::Shading => "Shading"@,
        ResourceKind::Pattern => "Pattern"@,
        ResourceKind::ColorSpace => "ColorSpace"@,
        ResourceKind::Properties => "Properties"@,
    }
}

/// One resource of a category; none where it is not of a shape that the
/// category knows.
pub open spec fn resource_value(doc: DocV, kind: ResourceKind, v: ObjV) -> Result<
    Option<ObjV>,
    Seq<char>,
> {
    match kind {
        ResourceKind::ExtGState => match v {
            ObjV::Dict(d) => Ok(Some(v)),
            _ => Ok(None),
        },
        ResourceKind::Font => match v {
            ObjV::Dict(d) => match font_value(doc, d) {
                Err(e) => Err(e),
                Ok(f) => Ok(Some(ObjV::Dict(f))),
            },
            _ => Ok(None),
        },
        ResourceKind::Shading => shading_value(doc, v),
        ResourceKind::Pattern => pattern_value(doc, v),
        ResourceKind::ColorSpace => match color_value(doc, v, doc.longest_chain()) {
            Err(e) => Err(e),
            Ok(c) => Ok(Some(c)),
        },
        ResourceKind::Properties => match own_dict(v) {
            Some(d) => Ok(Some(ObjV::Dict(d))),
            None => Ok(None),
        },
    }
}

/// `r` is the optional object that `w` says.
pub open spec fn value_agrees(
    r: Result<Option<Object>, PdfError>,
    w: Result<Option<ObjV>, Seq<char>>,
) -> bool {
    match r {
        Ok(Some(o)) => w == Ok::<Option<ObjV>, Seq<char>>(Some(o@)),
        Ok(None) => w == Ok::<Option<ObjV>, Seq<char>>(None),
        Err(e) => w == Err::<Option<ObjV>, Seq<char>>(e@),
    }
}

fn prepare_shading(reader: &mut DocumentReader, v: Object) -> (r: Result<Option<Object>, PdfError>)
    requires
        old(reader).wf(),
    ensures
        final(reader).wf(),
        final(reader).doc() == old(reader).doc(),
        value_agrees(r, shading_value(old(reader).doc(), v@)),
{
    let mut d: Dict = match v {
        Object::Dict(d) => d,
        Object::Stream(s) => match fold(&s, "__MeshData") {
            Ok(d) => d,
            Err(e) => {
                return Err(e);
            },
        },
        _ => {
            return Ok(None);
        },
    };
    match prepare_function_entry(reader, &mut d) {
        Ok(_) => Ok(Some(Object::Dict(d))),
        Err(e) => Err(e),
    }
}

fn prepare_pattern(reader: &mut DocumentReader, v: Object) -> (r: Result<Option<Object>, PdfError>)
    requires
        old(reader).wf(),
    ensures
        final(reader).wf(),
        final(reader).doc() == old(reader).doc(),
        value_agrees(r, pattern_value(old(reader).doc(), v@)),
{
    let mut d: Dict = match v {
        Object::Dict(d) => d,
        Object::Stream(s) => s.dict,
        _ => {
            return Ok(None);
        },
    };
    let o: Object = match d.get("Shading") {
        None => {
            return Ok(Some(Object::Dict(d)));
        },
        Some(o) => o.clone(),
    };
    match hop(reader, &o) {
        Err(e) => Err(e),
        Ok(Object::Dict(shading)) => {
            let mut shading: Dict = shading;
            match prepare_function_entry(reader, &mut shading) {
                Ok(_) => {},
                Err(e) => {
                    return Err(e);
                },
            }
            d.set("Shading", Object::Dict(shading));
            Ok(Some(Object::Dict(d)))
        },
        Ok(_) => Ok(Some(Object::Dict(d))),
    }
}

fn prepare_resource(reader: &mut DocumentReader, kind: ResourceKind, v: Object) -> (r: Result<
    Option<Object>,
    PdfError,
>)
    requires
        old(reader).wf(),
    ensures
        final(reader).wf(),
        final(reader).doc() == old(reader).doc(),
        value_agrees(r, resource_value(old(reader).doc(), kind, v@)),
{
    match kind {
        ResourceKind::ExtGState => match v {
            Object::Dict(d) => Ok(Some(Object::Dict(d))),
            _ => Ok(None),
        },
        ResourceKind::Font => match v {
            Object::Dict(d) => {
                let mut font: Dict = d;
                match resolve_font_widths(reader, &mut font) {
                    Ok(_) => Ok(Some(Object::Dict(font))),
                    Err(e) => Err(e),
                }
            },
            _ => Ok(None),
        },
        ResourceKind::Shading => prepare_shading(reader, v),
        ResourceKind::Pattern => prepare_pattern(reader, v),
        ResourceKind::ColorSpace => match prepare_color_space_object(reader, v) {
            Ok(c) => Ok(Some(c)),
            Err(e) => Err(e),
        },
        ResourceKind::Properties => match v {
            Object::Dict(d) => Ok(Some(Object::Dict(d))),
            Object::Stream(s) => Ok(Some(Object::Dict(s.dict))),
            _ => Ok(None),
        },
    }
}

/// The first `n` resources of a category, by their names.
pub open spec fn resources_among(doc: DocV, kind: ResourceKind, d: DictV, n: int) -> Result<
    DictV,
    Seq<char>,
>
    decreases n,
{
    if n <= 0 || n > d.len() {
        Ok(Seq::empty())
    } else {
        match resources_among(doc, kind, d, n - 1) {
            Err(e) => Err(e),
            Ok(before) => match doc.one_hop(d[n - 1].1) {
                Err(e) => Err(e),
                Ok(v) => match resource_value(doc, kind, v) {
                    Err(e) => Err(e),
                    Ok(Some(o)) => Ok(dict_set(before, d[n - 1].0, o)),
                    Ok(None) => Ok(before),
                },
            },
        }
    }
}

proof fn lemma_resources_error(doc: DocV, kind: ResourceKind, d: DictV, n: int, m: int)
    requires
        0 <= n <= m <= d.len(),
        resources_among(doc, kind, d, n) is Err,
    ensures
        resources_among(doc, kind, d, m) == resources_among(doc, kind, d, n),
    decreases m - n,
{
    if n < m {
        lemma_resources_error(doc, kind, d, n, m - 1);
    }
}

/// The resources of a category; none where the dictionary does not have it.
pub open spec fn category(doc: DocV, kind: ResourceKind, resources: DictV) -> Result<
    Option<DictV>,
    Seq<char>,
> {
    match hop_dict(doc, resources, kind_key(kind)) {
        Err(e) => Err(e),
        Ok(None) => Ok(None),
        Ok(Some(d)) => match resources_among(doc, kind, d, d.len() as int) {
            Err(e) => Err(e),
            Ok(v) => Ok(Some(v)),
        },
    }
}

fn kind_name(kind: ResourceKind) -> (r: &'static str)
    ensures
        r@ == kind_key(kind),
{
    match kind {
        ResourceKind::ExtGState => "ExtGState",
        ResourceKind::Font => "Font",
        ResourceKind::Shading => "Shading",
        ResourceKind::Pattern => "Pattern",
        ResourceKind::ColorSpace => "ColorSpace",
        ResourceKind::Properties => "Properties",
    }
}

/// Read the resources of a category.
pub fn resolve_category(reader: &mut DocumentReader, kind: ResourceKind, resources: &Dict) -> (r:
    Result<Option<Dict>, PdfError>)
    requires
        old(reader).wf(),
    ensures
        final(reader).wf(),
        final(reader).doc() == old(reader).doc(),
        crate::named_dest::dict_agrees(r, category(old(reader).doc(), kind, resources@)),
{
    let ghost doc = reader.doc();
    let d: Dict = match read_hop_dict(reader, resources, kind_name(kind)) {
        Err(e) => {
            return Err(e);
        },
        Ok(None) => {
            return Ok(None);
        },
        Ok(Some(d)) => d,
    };
    let mut out: Dict = Dict::new();
    let mut i: usize = 0;
    while i < d.entries.len()
        invariant
            i <= d.entries@.len(),
            d@.len() == d.entries@.len(),
            reader.wf(),
            reader.doc() == doc,
            doc == old(reader).doc(),
            hop_dict(doc, resources@, kind_key(kind)) == Ok::<Option<DictV>, Seq<char>>(Some(d@)),
            resources_among(doc, kind, d@, i as int) == Ok::<DictV, Seq<char>>(out@),
        decreases d.entries.len() - i,
    {
        proof {
            assert(d@[i as int] == (d.entries@[i as int].0@, d.entries@[i as int].1@));
        }
        let v: Object = match hop(reader, &d.entries[i].1) {
            Ok(o) => o,
            Err(e) => {
                proof {
                    lemma_resources_error(doc, kind, d@, i + 1, d@.len() as int);
                }
                return Err(e);
            },
        };
        match prepare_resource(reader, kind, v) {
            Err(e) => {
                proof {
                    lemma_resources_error(doc, kind, d@, i + 1, d@.len() as int);
                }
                return Err(e);
            },
            Ok(Some(o)) => {
                out.set(d.entries[i].0.as_str(), o);
            },
            Ok(None) => {},
        }
        i = i + 1;
    }
    Ok(Some(out))
}

/// The graphics state parameters among the resources of a page.
pub fn resolve_ext_gstate(reader: &mut DocumentReader, resources: &Dict) -> (r: Result<
    Option<Dict>,
    PdfError,
>)
    requires
        old(reader).wf(),
    ensures
        final(reader).wf(),
        final(reader).doc() == old(reader).doc(),
        crate::named_dest::dict_agrees(
            r,
            category(old(reader).doc(), ResourceKind::ExtGState, resources@),
        ),
{
    resolve_category(reader, ResourceKind::ExtGState, resources)
}

/// The fonts among the resources of a page.
pub fn resolve_font_resources(reader: &mut DocumentReader, resources: &Dict) -> (r: Result<
    Option<Dict>,
    PdfError,
>)
    requires
        old(reader).wf(),
    ensures
        final(reader).wf(),
        final(reader).doc() == old(reader).doc(),
        crate::named_dest::dict_agrees(
            r,
            category(old(reader).doc(), ResourceKind::Font, resources@),
        ),
{
    resolve_category(reader, ResourceKind::Font, resources)
}

/// The shadings among the resources of a page.
pub fn resolve_shading_resources(reader: &mut DocumentReader, resources: &Dict) -> (r: Result<
    Option<Dict>,
    PdfError,
>)
    requires
        old(reader).wf(),
    ensures
        final(reader).wf(),
        final(reader).doc() == old(reader).doc(),
        crate::named_dest::dict_agrees(
            r,
            category(old(reader).doc(), ResourceKind::Shading, resources@),
        ),
{
    resolve_category(reader, ResourceKind::Shading, resources)
}

/// The patterns among the resources of a page.
pub fn resolve_pattern_resources(reader: &mut DocumentReader, resources: &Dict) -> (r: Result<
    Option<Dict>,
    PdfError,
>)
    requires
        old(reader).wf(),
    ensures
        final(reader).wf(),
        final(reader).doc() == old(reader).doc(),
        crate::named_dest::dict_agrees(
            r,
            category(old(reader).doc(), ResourceKind::Pattern, resources@),
        ),
{
    resolve_category(reader, ResourceKind::Pattern, resources)
}

/// The colour spaces among the resources of a page.
pub fn resolve_color_space_resources(reader: &mut DocumentReader, resources: &Dict) -> (r: Result<
    Option<Dict>,
    PdfError,
>)
    requires
        old(reader).wf(),
    ensures
        final(reader).wf(),
        final(reader).doc() == old(reader).doc(),
        crate::named_dest::dict_agrees(
            r,
            category(old(reader).doc(), ResourceKind::ColorSpace, resources@),
        ),
{
    resolve_category(reader, ResourceKind::ColorSpace, resources)
}

/// The property lists among the resources of a page.
pub fn resolve_properties_resources(reader: &mut DocumentReader, resources: &Dict) -> (r: Result<
    Option<Dict>,
    PdfError,
>)
    requires
        old(reader).wf(),
    ensures
        final(reader).wf(),
        final(reader).doc() == old(reader).doc(),
        crate::named_dest::dict_agrees(
            r,
            category(old(reader).doc(), ResourceKind::Properties, resources@),
        ),
{
    resolve_category(reader, ResourceKind::Properties, resources)
}

// ------------------------------------------------------------------- laws

/// The resources of a category have names that occur once each.
pub proof fn law_resource_names_distinct(
    doc: DocV,
    kind: ResourceKind,
    resources: DictV,
    d: DictV,
)
    requires
        category(doc, kind, resources) == Ok::<Option<DictV>, Seq<char>>(Some(d)),
    ensures
        distinct_keys(d),
{
    let all = hop_dict(doc, resources, kind_key(kind))->Ok_0->Some_0;
    lemma_names_distinct(doc, kind, all, all.len() as int);
}

proof fn lemma_names_distinct(doc: DocV, kind: ResourceKind, d: DictV, n: int)
    ensures
        match resources_among(doc, kind, d, n) {
            Ok(v) => distinct_keys(v),
            Err(_) => true,
        },
    decreases n,
{
    if 0 < n <= d.len() {
        lemma_names_distinct(doc, kind, d, n - 1);
        if let Ok(before) = resources_among(doc, kind, d, n - 1) {
            if let Ok(v) = doc.one_hop(d[n - 1].1) {
                if let Ok(Some(o)) = resource_value(doc, kind, v) {
                    law_set_keeps_distinct(before, d[n - 1].0, o);
                }
            }
        }
    }
}

/// The data of a sampled function are an entry of its dictionary.
pub proof fn law_samples_folded(doc: DocV, d: DictV, data: Seq<u8>, fuel: int, b: Seq<u8>)
    requires
        dict_integer(d, "FunctionType"@) == Some(0i64),
        dict_get(d, "Functions"@) is None,
        stream_data(d, data) == Ok::<Seq<u8>, Seq<char>>(b),
    ensures
        function_value(doc, ObjV::Stream(d, data), fuel) == Ok::<ObjV, Seq<char>>(
            ObjV::Dict(dict_set(d, "__Samples"@, ObjV::HexString(b))),
        ),
        dict_get(dict_set(d, "__Samples"@, ObjV::HexString(b)), "__Samples"@) == Some(
            ObjV::HexString(b),
        ),
{
    law_set_get(d, "__Samples"@, ObjV::HexString(b));
}

/// The data of a mesh are an entry of its dictionary.
pub proof fn law_mesh_folded(doc: DocV, d: DictV, data: Seq<u8>, b: Seq<u8>)
    requires
        stream_data(d, data) == Ok::<Seq<u8>, Seq<char>>(b),
        dict_get(d, "Function"@) is None,
    ensures
        shading_value(doc, ObjV::Stream(d, data)) == Ok::<Option<ObjV>, Seq<char>>(
            Some(ObjV::Dict(dict_set(d, "__MeshData"@, ObjV::HexString(b)))),
        ),
{
    reveal_strlit("__MeshData");
    reveal_strlit("Function");
    assert("__MeshData"@.len() != "Function"@.len());
    law_set_keeps_others(d, "__MeshData"@, ObjV::HexString(b), "Function"@);
}

/// A colour space that is a name is left as it is.
pub proof fn law_named_space_kept(doc: DocV, name: Seq<char>, fuel: int)
    ensures
        color_value(doc, ObjV::Name(name), fuel) == Ok::<ObjV, Seq<char>>(ObjV::Name(name)),
{
}

/// A profile is handed out as its dictionary alone.
pub proof fn law_profile_is_dictionary(
    doc: DocV,
    d: DictV,
    data: Seq<u8>,
    rest: Seq<ObjV>,
    fuel: int,
)
    requires
        dict_get(d, "Alternate"@) is None,
    ensures
        color_value(
            doc,
            ObjV::Array(seq![ObjV::Name("ICCBased"@), ObjV::Stream(d, data)] + rest),
            fuel,
        ) == Ok::<ObjV, Seq<char>>(ObjV::Array(seq![ObjV::Name("ICCBased"@), ObjV::Dict(d)])),
{
    let items = seq![ObjV::Name("ICCBased"@), ObjV::Stream(d, data)] + rest;
    assert(items[0] == ObjV::Name("ICCBased"@));
    assert(items[1] == ObjV::Stream(d, data));
    assert(profile_dict(doc, items[1], fuel) == Ok::<Option<DictV>, Seq<char>>(Some(d)));
    assert(icc_value(doc, items, fuel) == Ok::<ObjV, Seq<char>>(
        ObjV::Array(seq![ObjV::Name("ICCBased"@), ObjV::Dict(d)]),
    ));
}

} // verus!
