//! Laws of resources: what stands by reference is put in place, and what is data of a
//! stream becomes an entry.

use vstd::prelude::*;
use crate::document::DocV;
use crate::objects::{dict_get, dict_set, distinct_keys, lemma_key_pos, DictV, ObjV};
use crate::pages::hop_dict;
use crate::resources::{
    category, color_value, font_value, function_list, function_value, items_values, kind_key,
    pattern_value, resource_value, resources_among, shading_value, ResourceKind,
};
use crate::stream::stream_data;

verus! {

/// An object is the value, or refers to it directly.
pub open spec fn leads(doc: DocV, o: ObjV, v: ObjV) -> bool {
    !(v is Reference) && match o {
        ObjV::Reference(id) => doc.resolve(id) == Ok::<ObjV, Seq<char>>(v),
        _ => o == v,
    }
}

/// The categories of resources by their names.
pub proof fn law_category_names()
    ensures
        kind_key(ResourceKind::ExtGState) == "ExtGState"@,
        kind_key(ResourceKind::Font) == "Font"@,
        kind_key(ResourceKind::Shading) == "Shading"@,
        kind_key(ResourceKind::Pattern) == "Pattern"@,
        kind_key(ResourceKind::ColorSpace) == "ColorSpace"@,
        kind_key(ResourceKind::Properties) == "Properties"@,
{
}

proof fn lemma_new_entry(d: DictV, key: Seq<char>, v: ObjV)
    requires
        forall|i: int| 0 <= i < d.len() ==> (#[trigger] d[i]).0 != key,
    ensures
        dict_set(d, key, v) == d.push((key, v)),
{
    lemma_key_pos(d, key, 0);
}

/// What a resource is made ready as.
#[verifier::opaque]
spec fn ready(doc: DocV, kind: ResourceKind, o: ObjV) -> Result<Option<ObjV>, Seq<char>> {
    match doc.one_hop(o) {
        Err(e) => Err(e),
        Ok(v) => resource_value(doc, kind, v),
    }
}

#[verifier::rlimit(50)]
proof fn lemma_resources_step(doc: DocV, kind: ResourceKind, d: DictV, n: int, before: DictV)
    requires
        0 < n <= d.len(),
        resources_among(doc, kind, d, n - 1) == Ok::<DictV, Seq<char>>(before),
    ensures
        ready(doc, kind, d[n - 1].1) matches Ok(Some(o)) ==> resources_among(doc, kind, d, n)
            == Ok::<DictV, Seq<char>>(dict_set(before, d[n - 1].0, o)),
{
    reveal(ready);
}

#[verifier::rlimit(50)]
proof fn lemma_resources(doc: DocV, kind: ResourceKind, d: DictV, vals: DictV, n: int)
    requires
        d.len() == vals.len(),
        0 <= n <= d.len(),
        distinct_keys(d),
        forall|i: int| 0 <= i < d.len() ==> (#[trigger] vals[i]).0 == d[i].0,
        forall|i: int|
            0 <= i < d.len() ==> ready(doc, kind, d[i].1) == Ok::<Option<ObjV>, Seq<char>>(
                Some((#[trigger] vals[i]).1),
            ),
    ensures
        resources_among(doc, kind, d, n) == Ok::<DictV, Seq<char>>(vals.take(n)),
    decreases n,
{
    if n > 0 {
        lemma_resources(doc, kind, d, vals, n - 1);
        let before = vals.take(n - 1);
        let here = vals[n - 1];
        lemma_resources_step(doc, kind, d, n, before);
        assert forall|i: int| 0 <= i < before.len() implies (#[trigger] before[i]).0
            != here.0 by {
            assert(before[i] == vals[i]);
            assert(d[i].0 != d[n - 1].0);
        }
        lemma_new_entry(before, here.0, here.1);
        assert(before.push((here.0, here.1)) =~= vals.take(n));
    } else {
        assert(vals.take(0) =~= Seq::empty());
    }
}

/// A category holds each of its resources under its name and in its place, made
/// ready; the category and each resource may be referred to.
#[verifier::rlimit(50)]
pub proof fn law_category(
    doc: DocV,
    kind: ResourceKind,
    resources: DictV,
    o: ObjV,
    d: DictV,
    found: Seq<ObjV>,
    vals: DictV,
)
    requires
        dict_get(resources, kind_key(kind)) == Some(o),
        leads(doc, o, ObjV::Dict(d)),
        distinct_keys(d),
        d.len() == found.len(),
        d.len() == vals.len(),
        forall|i: int| 0 <= i < d.len() ==> leads(doc, (#[trigger] d[i]).1, found[i]),
        forall|i: int| 0 <= i < d.len() ==> (#[trigger] vals[i]).0 == d[i].0,
        forall|i: int|
            0 <= i < d.len() ==> resource_value(doc, kind, #[trigger] found[i]) == Ok::<
                Option<ObjV>,
                Seq<char>,
            >(Some(vals[i].1)),
    ensures
        category(doc, kind, resources) == Ok::<Option<DictV>, Seq<char>>(Some(vals)),
{
    assert forall|i: int| 0 <= i < d.len() implies ready(doc, kind, d[i].1) == Ok::<
        Option<ObjV>,
        Seq<char>,
    >(Some((#[trigger] vals[i]).1)) by {
        reveal(ready);
        assert(leads(doc, d[i].1, found[i]));
        assert(resource_value(doc, kind, found[i]) == Ok::<Option<ObjV>, Seq<char>>(
            Some(vals[i].1),
        ));
    }
    lemma_resources(doc, kind, d, vals, d.len() as int);
    assert(vals.take(d.len() as int) =~= vals);
}

/// A category that resources lack is none.
pub proof fn law_no_category(doc: DocV, kind: ResourceKind, resources: DictV)
    requires
        dict_get(resources, kind_key(kind)) is None,
    ensures
        category(doc, kind, resources) == Ok::<Option<DictV>, Seq<char>>(None),
{
}

/// Graphics states and property lists are their dictionaries.
pub proof fn law_plain_resources(doc: DocV, d: DictV, data: Seq<u8>)
    ensures
        resource_value(doc, ResourceKind::ExtGState, ObjV::Dict(d)) == Ok::<
            Option<ObjV>,
            Seq<char>,
        >(Some(ObjV::Dict(d))),
        resource_value(doc, ResourceKind::Properties, ObjV::Dict(d)) == Ok::<
            Option<ObjV>,
            Seq<char>,
        >(Some(ObjV::Dict(d))),
        resource_value(doc, ResourceKind::Properties, ObjV::Stream(d, data)) == Ok::<
            Option<ObjV>,
            Seq<char>,
        >(Some(ObjV::Dict(d))),
        resource_value(doc, ResourceKind::ColorSpace, ObjV::Dict(d)) == Ok::<
            Option<ObjV>,
            Seq<char>,
        >(Some(ObjV::Dict(d))),
{
}

/// A resource is made ready by what its category asks for.
pub proof fn law_resource_kinds(doc: DocV, v: ObjV, d: DictV)
    ensures
        resource_value(doc, ResourceKind::Shading, v) == shading_value(doc, v),
        resource_value(doc, ResourceKind::Pattern, v) == pattern_value(doc, v),
        font_value(doc, d) matches Ok(f) ==> resource_value(
            doc,
            ResourceKind::Font,
            ObjV::Dict(d),
        ) == Ok::<Option<ObjV>, Seq<char>>(Some(ObjV::Dict(f))),
        color_value(doc, v, doc.longest_chain()) matches Ok(c) ==> resource_value(
            doc,
            ResourceKind::ColorSpace,
            v,
        ) == Ok::<Option<ObjV>, Seq<char>>(Some(c)),
{
}

// ------------------------------------------------------------ colour spaces

proof fn lemma_families()
    ensures
        "ICCBased"@ != "Indexed"@,
        "ICCBased"@ != "Separation"@,
        "ICCBased"@ != "DeviceN"@,
        "Indexed"@ != "Separation"@,
        "Indexed"@ != "DeviceN"@,
        "Separation"@ != "DeviceN"@,
{
    reveal_strlit("ICCBased");
    reveal_strlit("Indexed");
    reveal_strlit("Separation");
    reveal_strlit("DeviceN");
    assert("ICCBased"@.len() == 8 && "Indexed"@.len() == 7 && "Separation"@.len() == 10
        && "DeviceN"@.len() == 7);
    assert("Indexed"@[0] == 'I' && "DeviceN"@[0] == 'D');
}

/// A colour space may be referred to.
pub proof fn law_space_by_reference(doc: DocV, o: ObjV, v: ObjV, fuel: int)
    requires
        leads(doc, o, v),
        fuel > 0,
    ensures
        o is Reference ==> color_value(doc, o, fuel) == color_value(doc, v, fuel - 1),
        !(o is Reference) ==> color_value(doc, o, fuel) == color_value(doc, v, fuel),
{
}

/// A colour space of profiles is its family and the dictionary of the profile, with
/// the alternate space put in place.
pub proof fn law_icc(
    doc: DocV,
    o: ObjV,
    d: DictV,
    data: Seq<u8>,
    alt: ObjV,
    a: ObjV,
    fuel: int,
)
    requires
        leads(doc, o, ObjV::Stream(d, data)),
        fuel > 0,
        dict_get(d, "Alternate"@) is None || (dict_get(d, "Alternate"@) == Some(alt) && color_value(
            doc,
            alt,
            if o is Reference { fuel - 1 } else { fuel },
        ) == Ok::<ObjV, Seq<char>>(a)),
    ensures
        color_value(doc, ObjV::Array(seq![ObjV::Name("ICCBased"@), o]), fuel) == Ok::<
            ObjV,
            Seq<char>,
        >(
            ObjV::Array(
                seq![
                    ObjV::Name("ICCBased"@),
                    ObjV::Dict(
                        if dict_get(d, "Alternate"@) is None {
                            d
                        } else {
                            dict_set(d, "Alternate"@, a)
                        },
                    ),
                ],
            ),
        ),
{
    lemma_families();
    reveal_with_fuel(color_value, 2);
    let items = seq![ObjV::Name("ICCBased"@), o];
    assert(items[0] == ObjV::Name("ICCBased"@) && items[1] == o);
    assert(color_value(doc, ObjV::Array(items), fuel) == crate::resources::icc_value(
        doc,
        items,
        fuel,
    ));
    let below = if o is Reference {
        fuel - 1
    } else {
        fuel
    };
    let p = crate::resources::profile_dict(doc, ObjV::Stream(d, data), below);
    assert(p matches Ok(Some(_)));
}

/// An indexed colour space is its family, its base, its highest index and its table
/// of colours, all put in place; a table that is a stream becomes a string.
pub proof fn law_indexed(
    doc: DocV,
    base: ObjV,
    b: ObjV,
    hival: ObjV,
    h: ObjV,
    table: ObjV,
    t: ObjV,
    d: DictV,
    data: Seq<u8>,
    bytes: Seq<u8>,
    fuel: int,
)
    requires
        color_value(doc, base, fuel) == Ok::<ObjV, Seq<char>>(b),
        leads(doc, hival, h),
        leads(doc, table, t),
        t == ObjV::Stream(d, data) ==> stream_data(d, data) == Ok::<Seq<u8>, Seq<char>>(bytes),
        t is Stream ==> t == ObjV::Stream(d, data),
    ensures
        color_value(
            doc,
            ObjV::Array(seq![ObjV::Name("Indexed"@), base, hival, table]),
            fuel,
        ) == Ok::<ObjV, Seq<char>>(
            ObjV::Array(
                seq![
                    ObjV::Name("Indexed"@),
                    b,
                    h,
                    if t is Stream {
                        ObjV::HexString(bytes)
                    } else {
                        t
                    },
                ],
            ),
        ),
{
    lemma_families();
    let items = seq![ObjV::Name("Indexed"@), base, hival, table];
    assert(items[0] == ObjV::Name("Indexed"@) && items[1] == base && items[2] == hival && items[3]
        == table);
    assert(color_value(doc, ObjV::Array(items), fuel) == crate::resources::indexed_value(
        doc,
        items,
        fuel,
    ));
}

/// A colour space of one colorant or of several is its family, the names, the
/// alternate space and the tint transform, all put in place.
pub proof fn law_colorants(
    doc: DocV,
    names: ObjV,
    n: ObjV,
    alt: ObjV,
    a: ObjV,
    tint: ObjV,
    t: ObjV,
    fuel: int,
)
    requires
        leads(doc, names, n),
        color_value(doc, alt, fuel) == Ok::<ObjV, Seq<char>>(a),
        function_value(doc, tint, fuel) == Ok::<ObjV, Seq<char>>(t),
    ensures
        color_value(
            doc,
            ObjV::Array(seq![ObjV::Name("Separation"@), names, alt, tint]),
            fuel,
        ) == Ok::<ObjV, Seq<char>>(ObjV::Array(seq![ObjV::Name("Separation"@), n, a, t])),
        n matches ObjV::Array(list) ==> (items_values(doc, list, list.len() as int) matches Ok(v)
            ==> color_value(
            doc,
            ObjV::Array(seq![ObjV::Name("DeviceN"@), names, alt, tint]),
            fuel,
        ) == Ok::<ObjV, Seq<char>>(
            ObjV::Array(seq![ObjV::Name("DeviceN"@), ObjV::Array(v), a, t]),
        )),
{
    lemma_families();
    let s = seq![ObjV::Name("Separation"@), names, alt, tint];
    let d = seq![ObjV::Name("DeviceN"@), names, alt, tint];
    assert(s[0] == ObjV::Name("Separation"@) && s[1] == names && s[2] == alt && s[3] == tint);
    assert(d[0] == ObjV::Name("DeviceN"@) && d[1] == names && d[2] == alt && d[3] == tint);
    assert(crate::resources::alternate_and_tint(doc, s, fuel) == Ok::<(ObjV, ObjV), Seq<char>>(
        (a, t),
    ));
    assert(crate::resources::alternate_and_tint(doc, d, fuel) == Ok::<(ObjV, ObjV), Seq<char>>(
        (a, t),
    ));
    assert(color_value(doc, ObjV::Array(s), fuel) == crate::resources::separation_value(
        doc,
        s,
        fuel,
    ));
    assert(color_value(doc, ObjV::Array(d), fuel) == crate::resources::device_n_value(
        doc,
        d,
        fuel,
    ));
}

/// Items of a list are what they lead to, in order.
pub proof fn law_items_in_place(doc: DocV, items: Seq<ObjV>, vals: Seq<ObjV>, n: int)
    requires
        items.len() == vals.len(),
        0 <= n <= items.len(),
        forall|i: int| 0 <= i < items.len() ==> leads(doc, #[trigger] items[i], vals[i]),
    ensures
        items_values(doc, items, n) == Ok::<Seq<ObjV>, Seq<char>>(vals.take(n)),
    decreases n,
{
    if n > 0 {
        law_items_in_place(doc, items, vals, n - 1);
        assert(leads(doc, items[n - 1], vals[n - 1]));
        assert(vals.take(n) =~= vals.take(n - 1).push(vals[n - 1]));
    } else {
        assert(vals.take(0) =~= Seq::empty());
    }
}

// ---------------------------------------------------------------- functions

/// A function that is a dictionary is kept; the samples of a sampled function and the
/// program of a calculator function become entries. A function may be referred to.
pub proof fn law_function(doc: DocV, o: ObjV, d: DictV, data: Seq<u8>, b: Seq<u8>, fuel: int)
    requires
        fuel > 0,
        dict_get(d, "Functions"@) is None,
    ensures
        leads(doc, o, ObjV::Dict(d)) ==> function_value(doc, o, fuel) == Ok::<ObjV, Seq<char>>(
            ObjV::Dict(d),
        ),
        leads(doc, o, ObjV::Stream(d, data)) && stream_data(d, data) == Ok::<Seq<u8>, Seq<char>>(b)
            && dict_get(d, "FunctionType"@) == Some(ObjV::Integer(0)) ==> function_value(
            doc,
            o,
            fuel,
        ) == Ok::<ObjV, Seq<char>>(ObjV::Dict(dict_set(d, "__Samples"@, ObjV::HexString(b)))),
        leads(doc, o, ObjV::Stream(d, data)) && stream_data(d, data) == Ok::<Seq<u8>, Seq<char>>(b)
            && dict_get(d, "FunctionType"@) == Some(ObjV::Integer(4)) ==> function_value(
            doc,
            o,
            fuel,
        ) == Ok::<ObjV, Seq<char>>(ObjV::Dict(dict_set(d, "__Program"@, ObjV::HexString(b)))),
{
    let below = if o is Reference {
        fuel - 1
    } else {
        fuel
    };
    assert(crate::resources::function_body(doc, ObjV::Dict(d), below) == Ok::<ObjV, Seq<char>>(
        ObjV::Dict(d),
    ));
    let f = crate::resources::function_body(doc, ObjV::Stream(d, data), below);
    assert(f is Ok || f is Err);
}

/// A list of functions is made ready one by one, in order.
pub proof fn law_function_list(doc: DocV, items: Seq<ObjV>, vals: Seq<ObjV>, n: int, fuel: int)
    requires
        items.len() == vals.len(),
        0 <= n <= items.len(),
        forall|i: int|
            0 <= i < items.len() ==> function_value(doc, #[trigger] items[i], fuel) == Ok::<
                ObjV,
                Seq<char>,
            >(vals[i]),
    ensures
        function_list(doc, items, n, fuel) == Ok::<Seq<ObjV>, Seq<char>>(vals.take(n)),
    decreases n,
{
    if n > 0 {
        law_function_list(doc, items, vals, n - 1, fuel);
        assert(vals.take(n) =~= vals.take(n - 1).push(vals[n - 1]));
    } else {
        assert(vals.take(0) =~= Seq::empty());
    }
}

/// A stitching function holds the functions that it joins, made ready.
pub proof fn law_stitching(
    doc: DocV,
    o: ObjV,
    d: DictV,
    items: Seq<ObjV>,
    vals: Seq<ObjV>,
    fuel: int,
)
    requires
        fuel > 0,
        leads(doc, o, ObjV::Dict(d)),
        dict_get(d, "Functions"@) == Some(ObjV::Array(items)),
        items.len() == vals.len(),
        forall|i: int|
            0 <= i < items.len() ==> function_value(
                doc,
                #[trigger] items[i],
                if o is Reference { fuel - 1 } else { fuel },
            ) == Ok::<ObjV, Seq<char>>(vals[i]),
    ensures
        function_value(doc, o, fuel) == Ok::<ObjV, Seq<char>>(
            ObjV::Dict(dict_set(d, "Functions"@, ObjV::Array(vals))),
        ),
{
    let below = if o is Reference {
        fuel - 1
    } else {
        fuel
    };
    law_function_list(doc, items, vals, items.len() as int, below);
    assert(vals.take(items.len() as int) =~= vals);
    assert(crate::resources::function_body(doc, ObjV::Dict(d), below) == Ok::<ObjV, Seq<char>>(
        ObjV::Dict(dict_set(d, "Functions"@, ObjV::Array(vals))),
    ));
}

// ----------------------------------------------------- shadings and patterns

/// A shading holds its function, or its list of functions, made ready; the data of a
/// mesh become an entry.
pub proof fn law_shading(
    doc: DocV,
    d: DictV,
    o: ObjV,
    f: ObjV,
    v: ObjV,
    items: Seq<ObjV>,
    vals: Seq<ObjV>,
)
    requires
        dict_get(d, "Function"@) == Some(o),
        leads(doc, o, f),
    ensures
        !(f is Array) && function_value(doc, f, doc.longest_chain()) == Ok::<ObjV, Seq<char>>(v)
            ==> shading_value(doc, ObjV::Dict(d)) == Ok::<Option<ObjV>, Seq<char>>(
            Some(ObjV::Dict(dict_set(d, "Function"@, v))),
        ),
        f == ObjV::Array(items) && items.len() == vals.len() && (forall|i: int|
            0 <= i < items.len() ==> function_value(doc, #[trigger] items[i], doc.longest_chain())
                == Ok::<ObjV, Seq<char>>(vals[i])) ==> shading_value(doc, ObjV::Dict(d)) == Ok::<
            Option<ObjV>,
            Seq<char>,
        >(Some(ObjV::Dict(dict_set(d, "Function"@, ObjV::Array(vals))))),
{
    if f == ObjV::Array(items) && items.len() == vals.len() && (forall|i: int|
        0 <= i < items.len() ==> function_value(doc, #[trigger] items[i], doc.longest_chain())
            == Ok::<ObjV, Seq<char>>(vals[i])) {
        law_function_list(doc, items, vals, items.len() as int, doc.longest_chain());
        assert(vals.take(items.len() as int) =~= vals);
    }
}

/// A shading without a function is kept, and so is a pattern without a shading; a
/// shading pattern holds its shading, made ready as a shading of its own is.
pub proof fn law_pattern(doc: DocV, d: DictV, data: Seq<u8>, o: ObjV, s: DictV, v: DictV)
    ensures
        dict_get(d, "Function"@) is None ==> shading_value(doc, ObjV::Dict(d)) == Ok::<
            Option<ObjV>,
            Seq<char>,
        >(Some(ObjV::Dict(d))),
        dict_get(d, "Shading"@) is None ==> pattern_value(doc, ObjV::Dict(d)) == Ok::<
            Option<ObjV>,
            Seq<char>,
        >(Some(ObjV::Dict(d))),
        pattern_value(doc, ObjV::Stream(d, data)) == pattern_value(doc, ObjV::Dict(d)),
        dict_get(d, "Shading"@) == Some(o) && leads(doc, o, ObjV::Dict(s)) && shading_value(
            doc,
            ObjV::Dict(s),
        ) == Ok::<Option<ObjV>, Seq<char>>(Some(ObjV::Dict(v))) ==> pattern_value(
            doc,
            ObjV::Dict(d),
        ) == Ok::<Option<ObjV>, Seq<char>>(Some(ObjV::Dict(dict_set(d, "Shading"@, ObjV::Dict(v))))),
{
}

// -------------------------------------------------------------------- fonts

proof fn lemma_set_other(d: DictV, key: Seq<char>, v: ObjV, other: Seq<char>)
    requires
        key != other,
    ensures
        dict_get(dict_set(d, key, v), other) == dict_get(d, other),
{
    crate::objects::law_set_keeps_others(d, key, v, other);
}

/// A font that refers to nothing is kept; widths and a descriptor that it refers to
/// are put in place.
#[verifier::rlimit(50)]
pub proof fn law_simple_font(doc: DocV, font: DictV, w: ObjV, wv: ObjV, fd: ObjV, fv: DictV)
    requires
        dict_get(font, "DescendantFonts"@) is None,
        dict_get(font, "Widths"@) == Some(w),
        leads(doc, w, wv),
        dict_get(font, "FontDescriptor"@) == Some(fd),
        leads(doc, fd, ObjV::Dict(fv)),
    ensures
        font_value(doc, font) matches Ok(f) && dict_get(f, "Widths"@) == Some(wv) && dict_get(
            f,
            "FontDescriptor"@,
        ) == Some(ObjV::Dict(fv)) && forall|k: Seq<char>|
            k != "Widths"@ && k != "FontDescriptor"@ ==> #[trigger] dict_get(f, k) == dict_get(
                font,
                k,
            ),
{
    reveal_strlit("Widths");
    reveal_strlit("FontDescriptor");
    reveal_strlit("DescendantFonts");
    assert("Widths"@.len() == 6 && "FontDescriptor"@.len() == 14 && "DescendantFonts"@.len() == 15);
    let a = dict_set(font, "Widths"@, wv);
    crate::objects::law_set_get(font, "Widths"@, wv);
    lemma_set_other(font, "Widths"@, wv, "FontDescriptor"@);
    lemma_set_other(font, "Widths"@, wv, "DescendantFonts"@);
    let f0 = if w is Reference {
        a
    } else {
        font
    };
    let f1 = if fd is Reference {
        dict_set(f0, "FontDescriptor"@, ObjV::Dict(fv))
    } else {
        f0
    };
    crate::objects::law_set_get(f0, "FontDescriptor"@, ObjV::Dict(fv));
    lemma_set_other(f0, "FontDescriptor"@, ObjV::Dict(fv), "Widths"@);
    lemma_set_other(f0, "FontDescriptor"@, ObjV::Dict(fv), "DescendantFonts"@);
    assert(font_value(doc, font) == Ok::<DictV, Seq<char>>(f1));
    assert forall|k: Seq<char>| k != "Widths"@ && k != "FontDescriptor"@ implies #[trigger] dict_get(
        f1,
        k,
    ) == dict_get(font, k) by {
        lemma_set_other(font, "Widths"@, wv, k);
        lemma_set_other(f0, "FontDescriptor"@, ObjV::Dict(fv), k);
    }
}

/// A composite font holds its descendant, the first of a list or the one that is
/// named, with the widths of that put in place.
pub proof fn law_composite_font(
    doc: DocV,
    font: DictV,
    o: ObjV,
    v: ObjV,
    rest: Seq<ObjV>,
    c: ObjV,
    cid: DictV,
    w: ObjV,
    wv: ObjV,
)
    requires
        dict_get(font, "Widths"@) is None,
        dict_get(font, "FontDescriptor"@) is None,
        dict_get(font, "DescendantFonts"@) == Some(o),
        leads(doc, o, v),
        v == ObjV::Dict(cid) || (v == ObjV::Array(seq![c] + rest) && leads(
            doc,
            c,
            ObjV::Dict(cid),
        )),
        dict_get(cid, "W"@) == Some(w),
        leads(doc, w, wv),
    ensures
        font_value(doc, font) matches Ok(f) && dict_get(f, "DescendantFonts"@) == Some(
            ObjV::Dict(
                if w is Reference {
                    dict_set(cid, "W"@, wv)
                } else {
                    cid
                },
            ),
        ),
{
    assert((seq![c] + rest)[0] == c);
    let d = if w is Reference {
        dict_set(cid, "W"@, wv)
    } else {
        cid
    };
    crate::objects::law_set_get(font, "DescendantFonts"@, ObjV::Dict(d));
}

/// Resources that are no dictionary are none; references are followed once.
pub proof fn law_entry_dict(doc: DocV, d: DictV, key: Seq<char>, o: ObjV, v: ObjV)
    requires
        dict_get(d, key) == Some(o),
        leads(doc, o, v),
    ensures
        v matches ObjV::Dict(e) ==> hop_dict(doc, d, key) == Ok::<Option<DictV>, Seq<char>>(
            Some(e),
        ),
        !(v is Dict) ==> hop_dict(doc, d, key) == Ok::<Option<DictV>, Seq<char>>(None),
{
}

} // verus!
