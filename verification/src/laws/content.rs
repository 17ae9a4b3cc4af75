//! Laws of content: the forms, patterns, fonts and masks that it names.

use vstd::prelude::*;
use crate::content::{
    content_value, entered, entering, font_encoding, font_matrix_of, font_part, form_part,
    forms_from, forms_value, glyph_resources, glyphs_from, mask_dict, mask_part, mask_subtype,
    masks_from, masks_value, matrix_of, names_glyph, shape_from, step_of, tiling_part,
    tilings_from, tilings_value, type3_from, type3_value, cell_box, KindV, PartV, ResV, Scope,
};
use crate::document::{cache_key, lemma_key, DocV};
use crate::encoding::differences_from;
use crate::laws::pages::{law_numbers, numbers_written, written};
use crate::laws::resources::leads;
use crate::number::{number_is_finite, number_is_zero, NumV};
use crate::objects::{dict_get, DictV, ObjV, ObjectId};
use crate::resources::{category, ResourceKind};
use crate::stream::stream_data;

verus! {

/// The resources of content are its categories, each under its own name, and its
/// parts are the forms, the tiling patterns, the fonts and the masks, in this order.
/// Inside the cell of a pattern fonts are not looked for, and masks only in forms.
#[verifier::rlimit(50)]
pub proof fn law_content(
    doc: DocV,
    r: DictV,
    depth: int,
    visited: Seq<u64>,
    scope: Scope,
    forms: Seq<PartV>,
    tilings: Seq<PartV>,
    fonts: Seq<PartV>,
    masks: Seq<PartV>,
    res: ResV,
)
    requires
        forms_value(doc, r, depth, visited) == Ok::<Seq<PartV>, Seq<char>>(forms),
        tilings_value(doc, r, depth) == Ok::<Seq<PartV>, Seq<char>>(tilings),
        type3_value(doc, r, depth) == Ok::<Seq<PartV>, Seq<char>>(fonts),
        masks_value(doc, r, depth, visited) == Ok::<Seq<PartV>, Seq<char>>(masks),
        category(doc, ResourceKind::ExtGState, r) == Ok::<Option<DictV>, Seq<char>>(
            res.ext_gstate,
        ),
        category(doc, ResourceKind::Font, r) == Ok::<Option<DictV>, Seq<char>>(res.fonts),
        category(doc, ResourceKind::Shading, r) == Ok::<Option<DictV>, Seq<char>>(res.shading),
        category(doc, ResourceKind::ColorSpace, r) == Ok::<Option<DictV>, Seq<char>>(
            res.color_space,
        ),
        category(doc, ResourceKind::Properties, r) == Ok::<Option<DictV>, Seq<char>>(
            res.properties,
        ),
        category(doc, ResourceKind::Pattern, r) == Ok::<Option<DictV>, Seq<char>>(res.pattern),
    ensures
        content_value(doc, Some(r), depth, visited, Scope::Form) == Ok::<
            (ResV, Seq<PartV>),
            Seq<char>,
        >((res, forms + tilings + fonts + masks)),
        content_value(doc, Some(r), depth, visited, Scope::Glyph) == Ok::<
            (ResV, Seq<PartV>),
            Seq<char>,
        >((res, forms + tilings + fonts)),
        content_value(doc, Some(r), depth, visited, Scope::Cell) == Ok::<
            (ResV, Seq<PartV>),
            Seq<char>,
        >((res, forms + tilings)),
{
    let none = Seq::<PartV>::empty();
    assert(forms + tilings + fonts + none =~= forms + tilings + fonts);
    assert(forms + tilings + none + none =~= forms + tilings);
}

/// Content without resources names no part.
pub proof fn law_no_content_resources(doc: DocV, depth: int, visited: Seq<u64>, scope: Scope)
    ensures
        content_value(doc, None, depth, visited, scope) matches Ok((res, parts)) && parts.len() == 0
            && res.ext_gstate is None && res.fonts is None && res.shading is None
            && res.color_space is None && res.properties is None && res.pattern is None,
{
}

/// The entry is the dictionary, or refers to it; or there is none.
pub open spec fn has_dict(doc: DocV, d: DictV, key: Seq<char>, v: Option<DictV>) -> bool {
    match (dict_get(d, key), v) {
        (None, None) => true,
        (Some(o), Some(v)) => leads(doc, o, ObjV::Dict(v)),
        _ => false,
    }
}

/// Numbers of an optional array.
pub open spec fn says_numbers(d: DictV, key: Seq<char>, ns: Option<Seq<NumV>>) -> bool {
    match ns {
        Some(ns) => dict_get(d, key) == Some(numbers_written(ns)),
        None => dict_get(d, key) is None,
    }
}

/// A form is its content with its matrix, its box, and what its resources, which it
/// may refer to, give one level further down; from level 12 on there is none. A form
/// whose data cannot be decoded is left out.
pub proof fn law_form(
    doc: DocV,
    name: Seq<char>,
    kind: KindV,
    d: DictV,
    data: Seq<u8>,
    depth: int,
    visited: Seq<u64>,
    content: Seq<u8>,
    r: Option<DictV>,
    matrix: Option<Seq<NumV>>,
    bbox: Option<Seq<NumV>>,
    res: ResV,
    parts: Seq<PartV>,
)
    requires
        says_numbers(d, "Matrix"@, matrix),
        matrix matches Some(m) ==> m.len() == 6,
        says_numbers(d, "BBox"@, bbox),
        bbox matches Some(b) ==> b.len() == 4,
        has_dict(doc, d, "Resources"@, r),
    ensures
        depth < 12 && stream_data(d, data) == Ok::<Seq<u8>, Seq<char>>(content) && content_value(
            doc,
            r,
            depth + 1,
            visited,
            Scope::Form,
        ) == Ok::<(ResV, Seq<PartV>), Seq<char>>((res, parts)) ==> form_part(
            doc,
            name,
            kind,
            d,
            data,
            depth,
            visited,
        ) == Ok::<Option<PartV>, Seq<char>>(
            Some(
                PartV {
                    name,
                    kind,
                    matrix: match matrix {
                        Some(m) => m,
                        None => seq![
                            NumV::Integer(1),
                            NumV::Integer(0),
                            NumV::Integer(0),
                            NumV::Integer(1),
                            NumV::Integer(0),
                            NumV::Integer(0),
                        ],
                    },
                    bbox,
                    content,
                    resources: res,
                    parts,
                },
            ),
        ),
        depth >= 12 || stream_data(d, data) is Err ==> form_part(
            doc,
            name,
            kind,
            d,
            data,
            depth,
            visited,
        ) == Ok::<Option<PartV>, Seq<char>>(None),
{
    if let Some(m) = matrix {
        law_numbers(m, Seq::empty(), 0, 6);
    }
    if let Some(b) = bbox {
        law_numbers(b, Seq::empty(), 0, 4);
    }
}

/// What is being read is known by its number and generation; what is held directly
/// never counts as being read.
pub proof fn law_entered(a: ObjectId, b: ObjectId, visited: Seq<u64>)
    ensures
        entered(Some(a), entering(Some(a), visited)),
        a != b ==> (entered(Some(a), entering(Some(b), visited)) <==> entered(Some(a), visited)),
        !entered(Some(a), Seq::empty()),
        !entered(None, visited),
        entering(None, visited) == visited,
{
    assert(visited.push(cache_key(a)).last() == cache_key(a));
    assert(visited.push(cache_key(a)).contains(cache_key(a)));
    if a != b {
        if cache_key(a) == cache_key(b) {
            lemma_key(a, b);
        }
        let w = visited.push(cache_key(b));
        if w.contains(cache_key(a)) {
            let i = choose|i: int| 0 <= i < w.len() && w[i] == cache_key(a);
            assert(visited[i] == cache_key(a));
        }
        if visited.contains(cache_key(a)) {
            let i = choose|i: int| 0 <= i < visited.len() && visited[i] == cache_key(a);
            assert(w[i] == cache_key(a));
        }
    }
}

// ------------------------------------------------------ parts among entries

/// A part, if there is one.
pub open spec fn opt_part(p: Option<PartV>) -> Seq<PartV> {
    match p {
        Some(p) => seq![p],
        None => Seq::empty(),
    }
}

/// The form that an entry of `/XObject` is: a stream of the subtype `Form` that is
/// not being read around it.
pub open spec fn form_here(
    doc: DocV,
    e: (Seq<char>, ObjV),
    depth: int,
    visited: Seq<u64>,
) -> Result<Option<PartV>, Seq<char>> {
    let v = match e.1 {
        ObjV::Reference(id) => doc.resolve(id),
        o => Ok(o),
    };
    let inside = match e.1 {
        ObjV::Reference(id) => visited.contains(cache_key(id)),
        _ => false,
    };
    match v {
        Ok(ObjV::Stream(d, data)) => if dict_get(d, "Subtype"@) == Some(ObjV::Name("Form"@))
            && !inside {
            form_part(
                doc,
                e.0,
                KindV::Form,
                d,
                data,
                depth,
                match e.1 {
                    ObjV::Reference(id) => visited.push(cache_key(id)),
                    _ => visited,
                },
            )
        } else {
            Ok(None)
        },
        _ => Ok(None),
    }
}

/// The forms among resources are those of `/XObject`, which may be referred to, in
/// order; from level 12 on there are none.
pub proof fn law_forms(
    doc: DocV,
    r: DictV,
    d: DictV,
    depth: int,
    visited: Seq<u64>,
    found: Seq<Option<PartV>>,
)
    requires
        has_dict(doc, r, "XObject"@, Some(d)),
        found.len() == d.len(),
        forall|i: int|
            0 <= i < d.len() ==> form_here(doc, d[i], depth, visited) == Ok::<
                Option<PartV>,
                Seq<char>,
            >(#[trigger] found[i]),
    ensures
        depth < 12 ==> forms_value(doc, r, depth, visited) == Ok::<Seq<PartV>, Seq<char>>(
            Seq::new(found.len(), |k: int| opt_part(found[k])).flatten_alt(),
        ),
        depth >= 12 ==> forms_value(doc, r, depth, visited) == Ok::<Seq<PartV>, Seq<char>>(
            Seq::empty(),
        ),
{
    let all = Seq::new(found.len(), |k: int| opt_part(found[k]));
    assert(all.take(0).flatten_alt() =~= Seq::empty());
    lemma_forms(doc, d, 0, depth, visited, found, Seq::empty());
}

proof fn lemma_forms(
    doc: DocV,
    d: DictV,
    i: int,
    depth: int,
    visited: Seq<u64>,
    found: Seq<Option<PartV>>,
    out: Seq<PartV>,
)
    requires
        found.len() == d.len(),
        0 <= i <= d.len(),
        forall|i: int|
            0 <= i < d.len() ==> form_here(doc, d[i], depth, visited) == Ok::<
                Option<PartV>,
                Seq<char>,
            >(#[trigger] found[i]),
        out == Seq::new(found.len(), |k: int| opt_part(found[k])).take(i).flatten_alt(),
    ensures
        forms_from(doc, d, i, depth, visited, out) == Ok::<Seq<PartV>, Seq<char>>(
            Seq::new(found.len(), |k: int| opt_part(found[k])).flatten_alt(),
        ),
    decreases d.len() - i,
{
    let all = Seq::new(found.len(), |k: int| opt_part(found[k]));
    if i < d.len() {
        let next = out + opt_part(found[i]);
        lemma_next_part(found, i, out);
        assert(form_here(doc, d[i], depth, visited) == Ok::<Option<PartV>, Seq<char>>(found[i]));
        lemma_forms(doc, d, i + 1, depth, visited, found, next);
    } else {
        assert(all.take(i) =~= all);
    }
}

proof fn lemma_next_part(found: Seq<Option<PartV>>, i: int, out: Seq<PartV>)
    requires
        0 <= i < found.len(),
        out == Seq::new(found.len(), |k: int| opt_part(found[k])).take(i).flatten_alt(),
    ensures
        out + opt_part(found[i]) == Seq::new(found.len(), |k: int| opt_part(found[k])).take(
            i + 1,
        ).flatten_alt(),
        out + opt_part(found[i]) == crate::content::with_part(out, found[i]),
{
    let all = Seq::new(found.len(), |k: int| opt_part(found[k]));
    assert(all.take(i + 1).drop_last() =~= all.take(i));
    assert(all.take(i + 1).last() == opt_part(found[i]));
    assert(out + opt_part(found[i]) =~= crate::content::with_part(out, found[i]));
}

/// The pattern that an entry of `/Pattern` is: a stream whose type is 1.
pub open spec fn tiling_here(doc: DocV, e: (Seq<char>, ObjV), depth: int) -> Result<
    Option<PartV>,
    Seq<char>,
> {
    let v = match e.1 {
        ObjV::Reference(id) => doc.resolve(id),
        o => Ok(o),
    };
    match v {
        Err(e) => Err(e),
        Ok(ObjV::Stream(d, data)) => if dict_get(d, "PatternType"@) == Some(ObjV::Integer(1)) {
            tiling_part(doc, e.0, d, data, depth)
        } else {
            Ok(None)
        },
        Ok(_) => Ok(None),
    }
}

/// The tiling patterns among resources are those of `/Pattern`, in order.
pub proof fn law_tilings(doc: DocV, r: DictV, d: DictV, depth: int, found: Seq<Option<PartV>>)
    requires
        has_dict(doc, r, "Pattern"@, Some(d)),
        found.len() == d.len(),
        forall|i: int|
            0 <= i < d.len() ==> tiling_here(doc, d[i], depth) == Ok::<Option<PartV>, Seq<char>>(
                #[trigger] found[i],
            ),
    ensures
        depth < 12 ==> tilings_value(doc, r, depth) == Ok::<Seq<PartV>, Seq<char>>(
            Seq::new(found.len(), |k: int| opt_part(found[k])).flatten_alt(),
        ),
        depth >= 12 ==> tilings_value(doc, r, depth) == Ok::<Seq<PartV>, Seq<char>>(Seq::empty()),
{
    let all = Seq::new(found.len(), |k: int| opt_part(found[k]));
    assert(all.take(0).flatten_alt() =~= Seq::empty());
    lemma_tilings(doc, d, 0, depth, found, Seq::empty());
}

proof fn lemma_tilings(
    doc: DocV,
    d: DictV,
    i: int,
    depth: int,
    found: Seq<Option<PartV>>,
    out: Seq<PartV>,
)
    requires
        found.len() == d.len(),
        0 <= i <= d.len(),
        forall|i: int|
            0 <= i < d.len() ==> tiling_here(doc, d[i], depth) == Ok::<Option<PartV>, Seq<char>>(
                #[trigger] found[i],
            ),
        out == Seq::new(found.len(), |k: int| opt_part(found[k])).take(i).flatten_alt(),
    ensures
        tilings_from(doc, d, i, depth, out) == Ok::<Seq<PartV>, Seq<char>>(
            Seq::new(found.len(), |k: int| opt_part(found[k])).flatten_alt(),
        ),
    decreases d.len() - i,
{
    let all = Seq::new(found.len(), |k: int| opt_part(found[k]));
    if i < d.len() {
        lemma_next_part(found, i, out);
        assert(tiling_here(doc, d[i], depth) == Ok::<Option<PartV>, Seq<char>>(found[i]));
        lemma_tilings(doc, d, i + 1, depth, found, out + opt_part(found[i]));
    } else {
        assert(all.take(i) =~= all);
    }
}

/// A tiling pattern is its content with its steps, its box, its paint type, 1 where it
/// says none, and its matrix. One without steps or with a step of 0, one without a box,
/// and one that cannot be decoded, is left out.
pub proof fn law_tiling(
    doc: DocV,
    name: Seq<char>,
    d: DictV,
    data: Seq<u8>,
    depth: int,
    content: Seq<u8>,
    r: Option<DictV>,
    bbox: Seq<NumV>,
    xstep: NumV,
    ystep: NumV,
    paint: Option<i64>,
    res: ResV,
    parts: Seq<PartV>,
)
    requires
        dict_get(d, "BBox"@) == Some(numbers_written(bbox)),
        bbox.len() == 4,
        forall|i: int| 0 <= i < 4 ==> number_is_finite(#[trigger] bbox[i]),
        dict_get(d, "XStep"@) == Some(written(xstep)),
        dict_get(d, "YStep"@) == Some(written(ystep)),
        number_is_finite(xstep),
        number_is_finite(ystep),
        has_dict(doc, d, "Resources"@, r),
        dict_get(d, "PaintType"@) == match paint {
            Some(n) => Some(ObjV::Integer(n)),
            None => None,
        },
    ensures
        !number_is_zero(xstep) && !number_is_zero(ystep) && depth < 12 && stream_data(d, data)
            == Ok::<Seq<u8>, Seq<char>>(content) && content_value(
            doc,
            r,
            depth + 1,
            Seq::empty(),
            Scope::Cell,
        ) == Ok::<(ResV, Seq<PartV>), Seq<char>>((res, parts)) ==> tiling_part(
            doc,
            name,
            d,
            data,
            depth,
        ) == Ok::<Option<PartV>, Seq<char>>(
            Some(
                PartV {
                    name,
                    kind: KindV::Tiling {
                        xstep,
                        ystep,
                        paint_type: match paint {
                            Some(n) => n,
                            None => 1,
                        },
                    },
                    matrix: matrix_of(d),
                    bbox: Some(bbox),
                    content,
                    resources: res,
                    parts,
                },
            ),
        ),
        number_is_zero(xstep) || number_is_zero(ystep) || depth >= 12 || stream_data(d, data) is Err
            ==> tiling_part(doc, name, d, data, depth) == Ok::<Option<PartV>, Seq<char>>(None),
{
    law_numbers(bbox, Seq::empty(), 0, 4);
    assert(cell_box(d) == Some(bbox));
    assert(step_of(d, "XStep"@) == (if number_is_zero(xstep) {
        None
    } else {
        Some(xstep)
    }));
    assert(step_of(d, "YStep"@) == (if number_is_zero(ystep) {
        None
    } else {
        Some(ystep)
    }));
}

/// A matrix is the six numbers that are written, or the one that changes nothing; the
/// matrix of a font is one thousandth where none is written.
pub proof fn law_matrix(d: DictV, m: Seq<NumV>)
    ensures
        m.len() == 6 && dict_get(d, "Matrix"@) == Some(numbers_written(m)) ==> matrix_of(d) == m,
        dict_get(d, "Matrix"@) is None ==> matrix_of(d) == seq![
            NumV::Integer(1),
            NumV::Integer(0),
            NumV::Integer(0),
            NumV::Integer(1),
            NumV::Integer(0),
            NumV::Integer(0),
        ],
        m.len() == 6 && dict_get(d, "FontMatrix"@) == Some(numbers_written(m)) ==> font_matrix_of(d)
            == m,
        dict_get(d, "FontMatrix"@) is None ==> font_matrix_of(d) == seq![
            NumV::Real(seq![0x30u8, 0x2E, 0x30, 0x30, 0x31]),
            NumV::Integer(0),
            NumV::Integer(0),
            NumV::Real(seq![0x30u8, 0x2E, 0x30, 0x30, 0x31]),
            NumV::Integer(0),
            NumV::Integer(0),
        ],
{
    law_numbers(m, Seq::empty(), 0, 6);
}

// -------------------------------------------------------------------- fonts

/// The font that an entry of `/Font` is: a dictionary of the subtype `Type3`.
pub open spec fn font_here(
    doc: DocV,
    e: (Seq<char>, ObjV),
    enclosing: DictV,
    depth: int,
) -> Result<Option<PartV>, Seq<char>> {
    let v = match e.1 {
        ObjV::Reference(id) => doc.resolve(id),
        o => Ok(o),
    };
    match v {
        Err(e) => Err(e),
        Ok(ObjV::Dict(d)) => if dict_get(d, "Subtype"@) == Some(ObjV::Name("Type3"@)) {
            font_part(doc, e.0, d, enclosing, depth)
        } else {
            Ok(None)
        },
        Ok(_) => Ok(None),
    }
}

/// The fonts whose glyphs are content are those of `/Font` of that subtype, in order.
pub proof fn law_fonts(doc: DocV, r: DictV, d: DictV, depth: int, found: Seq<Option<PartV>>)
    requires
        has_dict(doc, r, "Font"@, Some(d)),
        found.len() == d.len(),
        forall|i: int|
            0 <= i < d.len() ==> font_here(doc, d[i], r, depth) == Ok::<Option<PartV>, Seq<char>>(
                #[trigger] found[i],
            ),
    ensures
        depth < 12 ==> type3_value(doc, r, depth) == Ok::<Seq<PartV>, Seq<char>>(
            Seq::new(found.len(), |k: int| opt_part(found[k])).flatten_alt(),
        ),
        depth >= 12 ==> type3_value(doc, r, depth) == Ok::<Seq<PartV>, Seq<char>>(Seq::empty()),
{
    let all = Seq::new(found.len(), |k: int| opt_part(found[k]));
    assert(all.take(0).flatten_alt() =~= Seq::empty());
    lemma_fonts(doc, d, 0, r, depth, found, Seq::empty());
}

proof fn lemma_fonts(
    doc: DocV,
    d: DictV,
    i: int,
    r: DictV,
    depth: int,
    found: Seq<Option<PartV>>,
    out: Seq<PartV>,
)
    requires
        found.len() == d.len(),
        0 <= i <= d.len(),
        forall|i: int|
            0 <= i < d.len() ==> font_here(doc, d[i], r, depth) == Ok::<Option<PartV>, Seq<char>>(
                #[trigger] found[i],
            ),
        out == Seq::new(found.len(), |k: int| opt_part(found[k])).take(i).flatten_alt(),
    ensures
        type3_from(doc, d, i, r, depth, out) == Ok::<Seq<PartV>, Seq<char>>(
            Seq::new(found.len(), |k: int| opt_part(found[k])).flatten_alt(),
        ),
    decreases d.len() - i,
{
    let all = Seq::new(found.len(), |k: int| opt_part(found[k]));
    if i < d.len() {
        lemma_next_part(found, i, out);
        assert(font_here(doc, d[i], r, depth) == Ok::<Option<PartV>, Seq<char>>(found[i]));
        lemma_fonts(doc, d, i + 1, r, depth, found, out + opt_part(found[i]));
    } else {
        assert(all.take(i) =~= all);
    }
}

/// The encoding of such a font is its differences, each step to which may be a
/// reference; the resources of its glyphs are its own, or those around it.
pub proof fn law_font_entries(
    doc: DocV,
    fd: DictV,
    enc: DictV,
    o: ObjV,
    items: Seq<ObjV>,
    r: DictV,
    enclosing: DictV,
)
    ensures
        has_dict(doc, fd, "Encoding"@, Some(enc)) && dict_get(enc, "Differences"@) == Some(o)
            && leads(doc, o, ObjV::Array(items)) ==> font_encoding(doc, fd) == Ok::<
            Seq<(u8, Seq<char>)>,
            Seq<char>,
        >(differences_from(items, 0, None)),
        has_dict(doc, fd, "Resources"@, Some(r)) ==> glyph_resources(doc, fd, enclosing) == Ok::<
            DictV,
            Seq<char>,
        >(r),
        dict_get(fd, "Resources"@) is None ==> glyph_resources(doc, fd, enclosing) == Ok::<
            DictV,
            Seq<char>,
        >(enclosing),
{
}

/// The glyph that an entry of `/CharProcs` is, if the encoding names it.
pub open spec fn glyph_here(
    doc: DocV,
    e: (Seq<char>, ObjV),
    encoding: Seq<(u8, Seq<char>)>,
    r: DictV,
    depth: int,
) -> Result<Option<PartV>, Seq<char>> {
    let v = match e.1 {
        ObjV::Reference(id) => doc.resolve(id),
        o => Ok(o),
    };
    if !names_glyph(encoding, e.0) {
        Ok(None)
    } else {
        match v {
            Err(e) => Err(e),
            Ok(ObjV::Stream(d, data)) => match stream_data(d, data) {
                Err(_) => Ok(None),
                Ok(content) => match content_value(
                    doc,
                    Some(r),
                    depth + 1,
                    Seq::empty(),
                    Scope::Glyph,
                ) {
                    Err(e) => Err(e),
                    Ok((resources, parts)) => Ok(
                        Some(
                            PartV {
                                name: e.0,
                                kind: KindV::Glyph { shape_only: shape_from(content, 0) },
                                matrix: crate::content::identity_matrix(),
                                bbox: None,
                                content,
                                resources,
                                parts,
                            },
                        ),
                    ),
                },
            },
            Ok(_) => Ok(None),
        }
    }
}

proof fn lemma_glyphs(
    doc: DocV,
    d: DictV,
    i: int,
    encoding: Seq<(u8, Seq<char>)>,
    r: DictV,
    depth: int,
    found: Seq<Option<PartV>>,
    out: Seq<PartV>,
)
    requires
        depth < 12,
        found.len() == d.len(),
        0 <= i <= d.len(),
        forall|i: int|
            0 <= i < d.len() ==> glyph_here(doc, d[i], encoding, r, depth) == Ok::<
                Option<PartV>,
                Seq<char>,
            >(#[trigger] found[i]),
        out == Seq::new(found.len(), |k: int| opt_part(found[k])).take(i).flatten_alt(),
    ensures
        glyphs_from(doc, d, i, encoding, r, depth, out) == Ok::<Seq<PartV>, Seq<char>>(
            Seq::new(found.len(), |k: int| opt_part(found[k])).flatten_alt(),
        ),
    decreases d.len() - i,
{
    let all = Seq::new(found.len(), |k: int| opt_part(found[k]));
    if i < d.len() {
        lemma_next_part(found, i, out);
        assert(glyph_here(doc, d[i], encoding, r, depth) == Ok::<Option<PartV>, Seq<char>>(
            found[i],
        ));
        lemma_glyphs(doc, d, i + 1, encoding, r, depth, found, out + opt_part(found[i]));
    } else {
        assert(all.take(i) =~= all);
    }
}

/// A font whose glyphs are content is its glyphs, in order, with its encoding and its
/// matrix; without an encoding or without glyphs it is left out.
pub proof fn law_font(
    doc: DocV,
    name: Seq<char>,
    fd: DictV,
    enclosing: DictV,
    depth: int,
    encoding: Seq<(u8, Seq<char>)>,
    r: DictV,
    procs: DictV,
    found: Seq<Option<PartV>>,
)
    requires
        depth < 12,
        font_encoding(doc, fd) == Ok::<Seq<(u8, Seq<char>)>, Seq<char>>(encoding),
        glyph_resources(doc, fd, enclosing) == Ok::<DictV, Seq<char>>(r),
        has_dict(doc, fd, "CharProcs"@, Some(procs)),
        found.len() == procs.len(),
        forall|i: int|
            0 <= i < procs.len() ==> glyph_here(doc, procs[i], encoding, r, depth) == Ok::<
                Option<PartV>,
                Seq<char>,
            >(#[trigger] found[i]),
    ensures
        ({
            let glyphs = Seq::new(found.len(), |k: int| opt_part(found[k])).flatten_alt();
            if encoding.len() > 0 && glyphs.len() > 0 {
                font_part(doc, name, fd, enclosing, depth) matches Ok(Some(p)) && p.name == name
                    && p.kind == (KindV::Type3Font { encoding }) && p.matrix == font_matrix_of(fd)
                    && p.parts == glyphs && p.bbox is None && p.content.len() == 0
            } else {
                font_part(doc, name, fd, enclosing, depth) == Ok::<Option<PartV>, Seq<char>>(None)
            }
        }),
{
    let all = Seq::new(found.len(), |k: int| opt_part(found[k]));
    assert(all.take(0).flatten_alt() =~= Seq::empty());
    lemma_glyphs(doc, procs, 0, encoding, r, depth, found, Seq::empty());
}

/// An encoding names the glyphs of its entries, but for an entry whose code a later
/// one takes.
pub proof fn law_names_glyph(
    before: Seq<(u8, Seq<char>)>,
    code: u8,
    name: Seq<char>,
    other: Seq<char>,
)
    ensures
        names_glyph(before.push((code, name)), name),
        names_glyph(Seq::empty(), name) == false,
        other != name ==> !names_glyph(seq![(code, other), (code, name)], other),
{
    let e = before.push((code, name));
    assert(crate::content::names_at(e, before.len() as int, name));
    if other != name {
        let s = seq![(code, other), (code, name)];
        if names_glyph(s, other) {
            let i = choose|i: int| #[trigger] crate::content::names_at(s, i, other);
            assert(i == 0);
            assert(s[1].0 != s[0].0);
        }
    }
}

/// A glyph is a shape alone if its first operator, behind numbers and white space, is
/// `d1`.
pub proof fn law_shape(operands: Seq<u8>, rest: Seq<u8>, x: u8, y: u8)
    requires
        forall|i: int|
            0 <= i < operands.len() ==> seq![
                0x09u8,
                0x0A,
                0x0C,
                0x0D,
                0x20,
                0x2B,
                0x2D,
                0x2E,
                0x30,
                0x31,
                0x32,
                0x33,
                0x34,
                0x35,
                0x36,
                0x37,
                0x38,
                0x39,
            ].contains(#[trigger] operands[i]),
    ensures
        shape_from(operands + (seq![0x64u8, 0x31] + rest), 0),
        y != 0x31 ==> !shape_from(operands + (seq![0x64u8, y] + rest), 0),
        0x41 <= x <= 0x7A && x != 0x45 && x != 0x65 && x != 0x64 ==> !shape_from(
            operands + (seq![x, y] + rest),
            0,
        ),
        !shape_from(operands, 0),
{
    lemma_shape(operands, seq![0x64u8, 0x31] + rest, 0);
    lemma_shape(operands, seq![0x64u8, y] + rest, 0);
    lemma_shape(operands, seq![x, y] + rest, 0);
    lemma_shape(operands, Seq::empty(), 0);
    assert(operands + Seq::<u8>::empty() =~= operands);
    let a = seq![0x64u8, 0x31] + rest;
    let b = seq![0x64u8, y] + rest;
    let c = seq![x, y] + rest;
    assert(a[0] == 0x64 && a[1] == 0x31 && b[0] == 0x64 && b[1] == y && c[0] == x && c[1] == y);
}

proof fn lemma_shape(operands: Seq<u8>, rest: Seq<u8>, p: int)
    requires
        0 <= p <= operands.len(),
        forall|i: int|
            0 <= i < operands.len() ==> seq![
                0x09u8,
                0x0A,
                0x0C,
                0x0D,
                0x20,
                0x2B,
                0x2D,
                0x2E,
                0x30,
                0x31,
                0x32,
                0x33,
                0x34,
                0x35,
                0x36,
                0x37,
                0x38,
                0x39,
            ].contains(#[trigger] operands[i]),
        rest.len() != 1,
    ensures
        rest.len() >= 2 && !crate::content::is_operand_byte(rest[0]) ==> shape_from(
            operands + rest,
            p,
        ) == (rest[0] == 0x64 && rest[1] == 0x31),
        rest.len() == 0 ==> !shape_from(operands + rest, p),
    decreases operands.len() - p,
{
    let s = operands + rest;
    if p < operands.len() {
        assert(s[p] == operands[p]);
        assert(crate::content::is_operand_byte(operands[p]));
        lemma_shape(operands, rest, p + 1);
    } else if rest.len() >= 2 {
        assert(s[p] == rest[0] && s[p + 1] == rest[1]);
    }
}

// -------------------------------------------------------------------- masks

/// A mask goes by luminosity or by opacity, as it says.
pub proof fn law_mask_subtype(sm: DictV)
    ensures
        dict_get(sm, "S"@) == Some(ObjV::Name("Luminosity"@)) ==> mask_subtype(sm) == Some(true),
        dict_get(sm, "S"@) == Some(ObjV::Name("Alpha"@)) ==> mask_subtype(sm) == Some(false),
        dict_get(sm, "S"@) is None ==> mask_subtype(sm) is None,
{
    reveal_strlit("Luminosity");
    reveal_strlit("Alpha");
    assert("Luminosity"@.len() == 10 && "Alpha"@.len() == 5);
}

/// A mask is the form of its group, which may be referred to, unless that is being
/// read around it.
pub proof fn law_mask(
    doc: DocV,
    name: Seq<char>,
    sm: DictV,
    luminosity: bool,
    g: ObjV,
    d: DictV,
    data: Seq<u8>,
    depth: int,
    visited: Seq<u64>,
)
    requires
        mask_subtype(sm) == Some(luminosity),
        dict_get(sm, "G"@) == Some(g),
        leads(doc, g, ObjV::Stream(d, data)),
    ensures
        g matches ObjV::Reference(id) ==> {
            &&& visited.contains(cache_key(id)) ==> mask_part(doc, name, sm, depth, visited) == Ok::<
                Option<PartV>,
                Seq<char>,
            >(None)
            &&& !visited.contains(cache_key(id)) ==> mask_part(doc, name, sm, depth, visited)
                == form_part(
                doc,
                name,
                KindV::SoftMask { luminosity },
                d,
                data,
                depth,
                visited.push(cache_key(id)),
            )
        },
        g is Stream ==> mask_part(doc, name, sm, depth, visited) == form_part(
            doc,
            name,
            KindV::SoftMask { luminosity },
            d,
            data,
            depth,
            visited,
        ),
{
}

/// The mask of a graphics state is its `/SMask`; state and mask may be referred to.
pub proof fn law_mask_dict(doc: DocV, o: ObjV, gs: DictV, sm: DictV)
    requires
        leads(doc, o, ObjV::Dict(gs)),
    ensures
        has_dict(doc, gs, "SMask"@, Some(sm)) ==> mask_dict(doc, o) == Ok::<
            Option<DictV>,
            Seq<char>,
        >(Some(sm)),
        dict_get(gs, "SMask"@) is None ==> mask_dict(doc, o) == Ok::<Option<DictV>, Seq<char>>(None),
{
}

/// The mask of an entry of `/ExtGState`.
pub open spec fn mask_here(
    doc: DocV,
    e: (Seq<char>, ObjV),
    depth: int,
    visited: Seq<u64>,
) -> Result<Option<PartV>, Seq<char>> {
    match mask_dict(doc, e.1) {
        Err(e) => Err(e),
        Ok(None) => Ok(None),
        Ok(Some(sm)) => mask_part(doc, e.0, sm, depth, visited),
    }
}

/// The masks among resources are those of `/ExtGState`, in order.
pub proof fn law_masks(
    doc: DocV,
    r: DictV,
    d: DictV,
    depth: int,
    visited: Seq<u64>,
    found: Seq<Option<PartV>>,
)
    requires
        has_dict(doc, r, "ExtGState"@, Some(d)),
        found.len() == d.len(),
        forall|i: int|
            0 <= i < d.len() ==> mask_here(doc, d[i], depth, visited) == Ok::<
                Option<PartV>,
                Seq<char>,
            >(#[trigger] found[i]),
    ensures
        depth < 12 ==> masks_value(doc, r, depth, visited) == Ok::<Seq<PartV>, Seq<char>>(
            Seq::new(found.len(), |k: int| opt_part(found[k])).flatten_alt(),
        ),
        depth >= 12 ==> masks_value(doc, r, depth, visited) == Ok::<Seq<PartV>, Seq<char>>(
            Seq::empty(),
        ),
{
    let all = Seq::new(found.len(), |k: int| opt_part(found[k]));
    assert(all.take(0).flatten_alt() =~= Seq::empty());
    lemma_masks(doc, d, 0, depth, visited, found, Seq::empty());
}

proof fn lemma_masks(
    doc: DocV,
    d: DictV,
    i: int,
    depth: int,
    visited: Seq<u64>,
    found: Seq<Option<PartV>>,
    out: Seq<PartV>,
)
    requires
        found.len() == d.len(),
        0 <= i <= d.len(),
        forall|i: int|
            0 <= i < d.len() ==> mask_here(doc, d[i], depth, visited) == Ok::<
                Option<PartV>,
                Seq<char>,
            >(#[trigger] found[i]),
        out == Seq::new(found.len(), |k: int| opt_part(found[k])).take(i).flatten_alt(),
    ensures
        masks_from(doc, d, i, depth, visited, out) == Ok::<Seq<PartV>, Seq<char>>(
            Seq::new(found.len(), |k: int| opt_part(found[k])).flatten_alt(),
        ),
    decreases d.len() - i,
{
    let all = Seq::new(found.len(), |k: int| opt_part(found[k]));
    if i < d.len() {
        lemma_next_part(found, i, out);
        assert(mask_here(doc, d[i], depth, visited) == Ok::<Option<PartV>, Seq<char>>(found[i]));
        lemma_masks(doc, d, i + 1, depth, visited, found, out + opt_part(found[i]));
    } else {
        assert(all.take(i) =~= all);
    }
}

} // verus!
