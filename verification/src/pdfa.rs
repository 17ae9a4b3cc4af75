//! Whether a document claims to be PDF/A, and whether it has the structure
//! that the claim asks for.

use vstd::prelude::*;
use crate::document::{DocV, DocumentReader};
use crate::encoding::opt_text;
use crate::error::PdfError;
use crate::objects::{dict_get, Dict, DictV, ObjV, Object};
use crate::text::{cat, cat_nat, decode_utf8_lossy, dec, same_text, texts, utf8_lossy};

verus! {

// ----------------------------------------------------------------- signals

/// What the catalog of a document says that matters for PDF/A.
#[derive(Debug, Clone, PartialEq, Eq)]
pub struct PdfACatalogSignals {
    /// `/MarkInfo /Marked`.
    pub mark_info_marked: bool,
    /// `/MarkInfo /UserProperties`.
    pub mark_info_user_properties: bool,
    /// `/MarkInfo /Suspects`.
    pub mark_info_suspects: bool,
    /// Whether there is a `/StructTreeRoot`.
    pub has_struct_tree_root: bool,
    /// `/Lang`.
    pub catalog_lang: Option<String>,
    /// How many `/OutputIntents` there are.
    pub output_intent_count: usize,
    /// Whether there is `/Metadata`.
    pub has_xmp_metadata: bool,
}

/// Signals as a mathematical value.
pub struct SignalsV {
    pub mark_info_marked: bool,
    pub mark_info_user_properties: bool,
    pub mark_info_suspects: bool,
    pub has_struct_tree_root: bool,
    pub catalog_lang: Option<Seq<char>>,
    pub output_intent_count: nat,
    pub has_xmp_metadata: bool,
}

impl View for PdfACatalogSignals {
    type V = SignalsV;

    open spec fn view(&self) -> SignalsV {
        SignalsV {
            mark_info_marked: self.mark_info_marked,
            mark_info_user_properties: self.mark_info_user_properties,
            mark_info_suspects: self.mark_info_suspects,
            has_struct_tree_root: self.has_struct_tree_root,
            catalog_lang: opt_text(self.catalog_lang),
            output_intent_count: self.output_intent_count as nat,
            has_xmp_metadata: self.has_xmp_metadata,
        }
    }
}

/// The signals of a catalog that says nothing.
pub open spec fn no_signals() -> SignalsV {
    SignalsV {
        mark_info_marked: false,
        mark_info_user_properties: false,
        mark_info_suspects: false,
        has_struct_tree_root: false,
        catalog_lang: None,
        output_intent_count: 0,
        has_xmp_metadata: false,
    }
}

impl Default for PdfACatalogSignals {
    fn default() -> (r: PdfACatalogSignals)
        ensures
            r@ == no_signals(),
    {
        PdfACatalogSignals {
            mark_info_marked: false,
            mark_info_user_properties: false,
            mark_info_suspects: false,
            has_struct_tree_root: false,
            catalog_lang: None,
            output_intent_count: 0,
            has_xmp_metadata: false,
        }
    }
}

/// What the metadata of a document claims.
#[derive(Debug, Clone, PartialEq, Eq)]
pub struct XmpPacket {
    /// `pdfaid:part`.
    pub pdfaid_part: Option<u8>,
    /// `pdfaid:conformance`.
    pub pdfaid_conformance: Option<String>,
}

impl Default for XmpPacket {
    fn default() -> (r: XmpPacket)
        ensures
            r.pdfaid_part is None,
            r.pdfaid_conformance is None,
    {
        XmpPacket { pdfaid_part: None, pdfaid_conformance: None }
    }
}

// ------------------------------------------------------------- conformance

/// What a document claims, held against its structure.
#[derive(Debug, Clone, PartialEq, Eq)]
pub struct PdfAConformance {
    /// The part and the level that the document claims, if it claims any.
    pub declared: Option<(u8, String)>,
    /// Whether the document has all that its claim requires.
    pub structurally_sound: bool,
    /// Whether a claim and the structure do not agree.
    pub claim_inconsistent: bool,
    /// Where they do not agree.
    pub inconsistencies: Vec<String>,
}

/// A conformance as a mathematical value.
pub struct ConformanceV {
    pub declared: Option<(u8, Seq<char>)>,
    pub structurally_sound: bool,
    pub claim_inconsistent: bool,
    pub inconsistencies: Seq<Seq<char>>,
}

impl View for PdfAConformance {
    type V = ConformanceV;

    open spec fn view(&self) -> ConformanceV {
        ConformanceV {
            declared: match self.declared {
                Some(d) => Some((d.0, d.1@)),
                None => None,
            },
            structurally_sound: self.structurally_sound,
            claim_inconsistent: self.claim_inconsistent,
            inconsistencies: texts(self.inconsistencies@),
        }
    }
}

/// The part and the level that metadata claims. Without a part there is no
/// claim; a level that is missing is empty.
pub open spec fn claim_of(xmp: Option<&XmpPacket>) -> Option<(u8, Seq<char>)> {
    match xmp {
        Some(x) => match x.pdfaid_part {
            Some(part) => Some(
                (
                    part,
                    match x.pdfaid_conformance {
                        Some(level) => level@,
                        None => Seq::empty(),
                    },
                ),
            ),
            None => None,
        },
        None => None,
    }
}

/// The level of accessible documents.
pub open spec fn is_accessible(level: Seq<char>) -> bool {
    level == "A"@ || level == "a"@
}

/// `s` with one more text where the condition holds.
pub open spec fn push_if(s: Seq<Seq<char>>, holds: bool, text: Seq<char>) -> Seq<Seq<char>> {
    if holds {
        s.push(text)
    } else {
        s
    }
}

/// What is missing for a claim: metadata and output intents for every level,
/// and marks, a structure tree and a language for the accessible one.
pub open spec fn missing_for(sig: SignalsV, part: u8, level: Seq<char>) -> Seq<Seq<char>> {
    let basic = push_if(
        push_if(
            Seq::empty(),
            !sig.has_xmp_metadata,
            "PDF/A claim in XMP but Catalog /Metadata reference is absent (§6.7)"@,
        ),
        sig.output_intent_count == 0,
        "PDF/A-"@ + dec(part as int) + level + ": Catalog /OutputIntents missing (§6.2.2)"@,
    );
    if is_accessible(level) {
        push_if(
            push_if(
                push_if(
                    basic,
                    !sig.mark_info_marked,
                    "PDF/A-"@ + dec(part as int)
                        + "A claims accessibility but Catalog /MarkInfo /Marked is not true (§6.8.3)"@,
                ),
                !sig.has_struct_tree_root,
                "PDF/A-"@ + dec(part as int)
                    + "A claims accessibility but Catalog /StructTreeRoot is absent (§6.8.2)"@,
            ),
            sig.catalog_lang is None,
            "PDF/A-"@ + dec(part as int)
                + "A claims accessibility but Catalog /Lang is absent (recommended)"@,
        )
    } else {
        basic
    }
}

/// A document that has all that a level requires. A language is only
/// recommended.
pub open spec fn sound(sig: SignalsV, level: Seq<char>) -> bool {
    &&& sig.has_xmp_metadata
    &&& sig.output_intent_count > 0
    &&& is_accessible(level) ==> sig.mark_info_marked && sig.has_struct_tree_root
}

/// A claim held against the structure of a document.
pub open spec fn conformance(
    sig: SignalsV,
    declared: Option<(u8, Seq<char>)>,
) -> ConformanceV {
    match declared {
        None => ConformanceV {
            declared: None,
            structurally_sound: true,
            claim_inconsistent: false,
            inconsistencies: Seq::empty(),
        },
        Some((part, level)) => {
            let missing = missing_for(sig, part, level);
            ConformanceV {
                declared,
                structurally_sound: sound(sig, level),
                claim_inconsistent: missing.len() > 0,
                inconsistencies: missing,
            }
        },
    }
}

fn note(out: &mut Vec<String>, holds: bool, text: String)
    ensures
        texts(final(out)@) == push_if(texts(old(out)@), holds, text@),
{
    if holds {
        let ghost before = texts(out@);
        out.push(text);
        proof {
            assert(texts(out@) =~= before.push(text@));
        }
    }
}

fn part_message(part: u8, level: &str, tail: &str) -> (r: String)
    ensures
        r@ == "PDF/A-"@ + dec(part as int) + level@ + tail@,
{
    cat(cat(cat_nat("PDF/A-".to_owned(), part as u64), level), tail)
}

fn part_note(part: u8, tail: &str) -> (r: String)
    ensures
        r@ == "PDF/A-"@ + dec(part as int) + tail@,
{
    cat(cat_nat("PDF/A-".to_owned(), part as u64), tail)
}

impl PdfAConformance {
    /// Hold the claim of the metadata against the structure of the document.
    pub fn from_signals_and_xmp(sig: &PdfACatalogSignals, xmp: Option<&XmpPacket>) -> (r:
        PdfAConformance)
        ensures
            r@ == conformance(sig@, claim_of(xmp)),
    {
        let declared: Option<(u8, String)> = match xmp {
            Some(x) => match x.pdfaid_part {
                Some(part) => {
                    let level: String = match &x.pdfaid_conformance {
                        Some(level) => level.clone(),
                        None => String::new(),
                    };
                    Some((part, level))
                },
                None => None,
            },
            None => None,
        };
        let mut out: Vec<String> = Vec::new();
        proof {
            assert(texts(out@) =~= Seq::empty());
        }
        let mut is_sound: bool = true;
        if let Some((part, level)) = &declared {
            note(
                &mut out,
                !sig.has_xmp_metadata,
                "PDF/A claim in XMP but Catalog /Metadata reference is absent (§6.7)".to_owned(),
            );
            note(
                &mut out,
                sig.output_intent_count == 0,
                part_message(*part, level.as_str(), ": Catalog /OutputIntents missing (§6.2.2)"),
            );
            is_sound = sig.has_xmp_metadata && sig.output_intent_count > 0;
            if same_text(level.as_str(), "A") || same_text(level.as_str(), "a") {
                note(
                    &mut out,
                    !sig.mark_info_marked,
                    part_note(
                        *part,
                        "A claims accessibility but Catalog /MarkInfo /Marked is not true (§6.8.3)",
                    ),
                );
                note(
                    &mut out,
                    !sig.has_struct_tree_root,
                    part_note(
                        *part,
                        "A claims accessibility but Catalog /StructTreeRoot is absent (§6.8.2)",
                    ),
                );
                note(
                    &mut out,
                    sig.catalog_lang.is_none(),
                    part_note(
                        *part,
                        "A claims accessibility but Catalog /Lang is absent (recommended)",
                    ),
                );
                is_sound = is_sound && sig.mark_info_marked && sig.has_struct_tree_root;
            }
        }
        let claim_inconsistent: bool = declared.is_some() && out.len() > 0;
        PdfAConformance {
            declared,
            structurally_sound: is_sound,
            claim_inconsistent,
            inconsistencies: out,
        }
    }

    /// Whether the document claims to be PDF/A.
    pub fn is_declared(&self) -> (r: bool)
        ensures
            r == (self@.declared is Some),
    {
        self.declared.is_some()
    }

    /// The part and the level in one word, where both are known.
    pub fn designator(&self) -> (r: Option<String>)
        ensures
            opt_text(r) == (match self@.declared {
                Some((part, level)) => if level.len() == 0 {
                    None
                } else {
                    Some(dec(part as int) + level)
                },
                None => None,
            }),
    {
        match &self.declared {
            Some((part, level)) => {
                if same_text(level.as_str(), "") {
                    proof {
                        reveal_strlit("");
                    }
                    None
                } else {
                    let r: String = cat(cat_nat(String::new(), *part as u64), level.as_str());
                    proof {
                        reveal_strlit("");
                        if level@.len() == 0 {
                            assert(level@ =~= ""@);
                        }
                        assert(r@ =~= dec(*part as int) + level@);
                    }
                    Some(r)
                }
            },
            None => None,
        }
    }
}

// ----------------------------------------------------------------- reading

/// Whether an entry is the boolean `true`.
pub open spec fn is_true(d: DictV, key: Seq<char>) -> bool {
    dict_get(d, key) == Some(ObjV::Bool(true))
}

fn get_true(d: &Dict, key: &str) -> (r: bool)
    ensures
        r == is_true(d@, key@),
{
    match d.get(key) {
        Some(Object::Bool(b)) => *b,
        _ => false,
    }
}

/// The mark information of a catalog, if it is a dictionary.
pub open spec fn mark_info(doc: DocV, catalog: DictV) -> Result<Option<DictV>, Seq<char>> {
    match dict_get(catalog, "MarkInfo"@) {
        None => Ok(None),
        Some(o) => match doc.deref(o) {
            Err(e) => Err(e),
            Ok(ObjV::Dict(d)) => Ok(Some(d)),
            Ok(_) => Ok(None),
        },
    }
}

/// How many output intents a catalog lists.
pub open spec fn output_intents(doc: DocV, catalog: DictV) -> Result<nat, Seq<char>> {
    match dict_get(catalog, "OutputIntents"@) {
        None => Ok(0),
        Some(o) => match doc.deref(o) {
            Err(e) => Err(e),
            Ok(ObjV::Array(items)) => Ok(items.len()),
            Ok(_) => Ok(0),
        },
    }
}

/// The language of a catalog.
pub open spec fn catalog_lang(catalog: DictV) -> Option<Seq<char>> {
    match dict_get(catalog, "Lang"@) {
        Some(ObjV::LiteralString(b)) => Some(utf8_lossy(b)),
        Some(ObjV::HexString(b)) => Some(utf8_lossy(b)),
        _ => None,
    }
}

/// The signals of a catalog.
pub open spec fn catalog_signals(doc: DocV, catalog: DictV) -> Result<SignalsV, Seq<char>> {
    match mark_info(doc, catalog) {
        Err(e) => Err(e),
        Ok(marks) => match output_intents(doc, catalog) {
            Err(e) => Err(e),
            Ok(n) => Ok(
                SignalsV {
                    mark_info_marked: marks is Some && is_true(marks->Some_0, "Marked"@),
                    mark_info_user_properties: marks is Some && is_true(
                        marks->Some_0,
                        "UserProperties"@,
                    ),
                    mark_info_suspects: marks is Some && is_true(marks->Some_0, "Suspects"@),
                    has_struct_tree_root: dict_get(catalog, "StructTreeRoot"@) is Some,
                    catalog_lang: catalog_lang(catalog),
                    output_intent_count: n,
                    has_xmp_metadata: dict_get(catalog, "Metadata"@) is Some,
                },
            ),
        },
    }
}

/// The signals of a document. A catalog that is no dictionary says nothing.
pub open spec fn document_signals(doc: DocV) -> Result<SignalsV, Seq<char>> {
    match doc.catalog() {
        Err(e) => Err(e),
        Ok(ObjV::Dict(catalog)) => catalog_signals(doc, catalog),
        Ok(_) => Ok(no_signals()),
    }
}

/// What the catalog of a document says that matters for PDF/A.
pub fn pdfa_signals(reader: &mut DocumentReader) -> (r: Result<PdfACatalogSignals, PdfError>)
    requires
        old(reader).wf(),
    ensures
        final(reader).wf(),
        final(reader).doc() == old(reader).doc(),
        crate::error::outcome(r) == document_signals(old(reader).doc()),
{
    let mut sig: PdfACatalogSignals = PdfACatalogSignals::default();
    let catalog: Dict = match reader.catalog() {
        Err(e) => {
            return Err(e);
        },
        Ok(Object::Dict(d)) => d,
        Ok(_) => {
            return Ok(sig);
        },
    };
    if let Some(o) = catalog.get("MarkInfo") {
        match reader.deref(o.clone()) {
            Err(e) => {
                return Err(e);
            },
            Ok(Object::Dict(d)) => {
                sig.mark_info_marked = get_true(&d, "Marked");
                sig.mark_info_user_properties = get_true(&d, "UserProperties");
                sig.mark_info_suspects = get_true(&d, "Suspects");
            },
            Ok(_) => {},
        }
    }
    sig.has_struct_tree_root = catalog.get("StructTreeRoot").is_some();
    sig.catalog_lang = match catalog.get("Lang") {
        Some(Object::LiteralString(b)) => Some(decode_utf8_lossy(b.as_slice())),
        Some(Object::HexString(b)) => Some(decode_utf8_lossy(b.as_slice())),
        _ => None,
    };
    if let Some(o) = catalog.get("OutputIntents") {
        match reader.deref(o.clone()) {
            Err(e) => {
                return Err(e);
            },
            Ok(Object::Array(items)) => {
                proof {
                    crate::objects::lemma_array_view(items);
                }
                sig.output_intent_count = items.len();
            },
            Ok(_) => {},
        }
    }
    sig.has_xmp_metadata = catalog.get("Metadata").is_some();
    Ok(sig)
}

/// What `r` has to be where `parse` reads the metadata of a document.
pub open spec fn conforms<F: Fn(&[u8]) -> XmpPacket>(
    r: Result<PdfAConformance, PdfError>,
    doc: DocV,
    parse: F,
) -> bool {
    match document_signals(doc) {
        Err(e) => r is Err && r->Err_0@ == e,
        Ok(sig) => match doc.metadata() {
            Err(e) => r is Err && r->Err_0@ == e,
            Ok(None) => r is Ok && r->Ok_0@ == conformance(sig, None),
            Ok(Some(bytes)) => r is Ok && exists|b: &[u8], x: XmpPacket| #[trigger]
                parse.ensures((b,), x) && b@ == bytes && r->Ok_0@ == conformance(
                    sig,
                    claim_of(Some(&x)),
                ),
        },
    }
}

impl<'a> DocumentReader<'a> {
    /// What the catalog says that matters for PDF/A.
    pub fn pdfa_signals(&mut self) -> (r: Result<PdfACatalogSignals, PdfError>)
        requires
            old(self).wf(),
        ensures
            final(self).wf(),
            final(self).doc() == old(self).doc(),
            crate::error::outcome(r) == document_signals(old(self).doc()),
    {
        pdfa_signals(self)
    }

    /// What the metadata of the document claims, as `parse` reads it; `None` if
    /// the document has none.
    pub fn xmp_packet<F: Fn(&[u8]) -> XmpPacket>(&mut self, parse: F) -> (r: Result<
        Option<XmpPacket>,
        PdfError,
    >)
        requires
            old(self).wf(),
            forall|b: &[u8]| #[trigger] parse.requires((b,)),
        ensures
            final(self).wf(),
            final(self).doc() == old(self).doc(),
            match r {
                Err(e) => old(self).doc().metadata() == Err::<Option<Seq<u8>>, Seq<char>>(e@),
                Ok(None) => old(self).doc().metadata() == Ok::<Option<Seq<u8>>, Seq<char>>(None),
                Ok(Some(x)) => exists|b: &[u8]| #[trigger]
                    parse.ensures((b,), x) && old(self).doc().metadata() == Ok::<
                        Option<Seq<u8>>,
                        Seq<char>,
                    >(Some(b@)),
            },
    {
        match self.xmp_metadata() {
            Err(e) => Err(e),
            Ok(None) => Ok(None),
            Ok(Some(bytes)) => {
                let b: &[u8] = bytes.as_slice();
                let x: XmpPacket = parse(b);
                proof {
                    assert(parse.ensures((b,), x));
                }
                Ok(Some(x))
            },
        }
    }

    /// Hold the claim of the metadata, as `parse` reads it, against the
    /// structure of the document.
    pub fn pdfa_conformance<F: Fn(&[u8]) -> XmpPacket>(&mut self, parse: F) -> (r: Result<
        PdfAConformance,
        PdfError,
    >)
        requires
            old(self).wf(),
            forall|b: &[u8]| #[trigger] parse.requires((b,)),
        ensures
            final(self).wf(),
            final(self).doc() == old(self).doc(),
            conforms(r, old(self).doc(), parse),
    {
        let sig: PdfACatalogSignals = match self.pdfa_signals() {
            Ok(s) => s,
            Err(e) => {
                return Err(e);
            },
        };
        match self.xmp_packet(parse) {
            Err(e) => Err(e),
            Ok(None) => Ok(PdfAConformance::from_signals_and_xmp(&sig, None)),
            Ok(Some(x)) => Ok(PdfAConformance::from_signals_and_xmp(&sig, Some(&x))),
        }
    }
}

// ------------------------------------------------------------------- laws

/// A document that claims nothing is never inconsistent.
pub proof fn law_no_claim(sig: SignalsV)
    ensures
        conformance(sig, None).structurally_sound,
        !conformance(sig, None).claim_inconsistent,
        conformance(sig, None).inconsistencies.len() == 0,
{
}

/// A claim is inconsistent exactly where something is missing, and whatever is
/// not sound is inconsistent.
pub proof fn law_unsound_is_inconsistent(sig: SignalsV, part: u8, level: Seq<char>)
    ensures
        ({
            let c = conformance(sig, Some((part, level)));
            &&& c.claim_inconsistent == (c.inconsistencies.len() > 0)
            &&& !c.structurally_sound ==> c.claim_inconsistent
            &&& c.claim_inconsistent && c.structurally_sound ==> is_accessible(level)
                && sig.catalog_lang is None
        }),
{
}

/// For a level other than the accessible one, marks, structure and language do
/// not matter.
pub proof fn law_basic_level(sig: SignalsV, part: u8, level: Seq<char>)
    requires
        !is_accessible(level),
        sig.has_xmp_metadata,
        sig.output_intent_count > 0,
    ensures
        conformance(sig, Some((part, level))).structurally_sound,
        !conformance(sig, Some((part, level))).claim_inconsistent,
{
}

} // verus!
