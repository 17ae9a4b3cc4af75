//! Linearized files: the dictionary at the head of a file that is laid out for
//! reading over a network.

use vstd::prelude::*;
use crate::describe::{cat_got, got, unexpected};
use crate::document::DocumentReader;
use crate::error::{outcome, PdfError};
use crate::lex::is_digit;
use crate::number::{number_of, object_number, NumV, Number};
use crate::objects::{dict_get, lemma_array_view, objs_view, Dict, DictV, ObjV, Object};
use crate::parse::{indirect_at, lengths_of, NoLengths, Parser};
use crate::text::{cat, cat_int, cat_nat, dec};

verus! {

// ------------------------------------------------------------------ values

/// What the dictionary at the head of a linearized file says.
#[derive(Debug, Clone, PartialEq)]
pub struct LinearizationParams {
    /// `/Linearized`: the version.
    pub linearized: Number,
    /// `/L`: the length of the file.
    pub file_length: u64,
    /// `/H`: where the hint stream is.
    pub hint_offset: u64,
    /// `/H`: how long the hint stream is.
    pub hint_length: u64,
    /// `/H`: where the second hint stream is, and how long, if there is one.
    pub hint_overflow: Option<(u64, u64)>,
    /// `/O`: the object number of the first page.
    pub first_page_object_number: u32,
    /// `/E`: where the first page ends.
    pub end_of_first_page: u64,
    /// `/N`: how many pages there are.
    pub page_count: u32,
    /// `/T`: where the main cross-reference section is.
    pub main_xref_offset: u64,
}

/// The same as a mathematical value.
pub struct LinV {
    pub linearized: NumV,
    pub file_length: u64,
    pub hint_offset: u64,
    pub hint_length: u64,
    pub hint_overflow: Option<(u64, u64)>,
    pub first_page_object_number: u32,
    pub end_of_first_page: u64,
    pub page_count: u32,
    pub main_xref_offset: u64,
}

impl View for LinearizationParams {
    type V = LinV;

    open spec fn view(&self) -> LinV {
        LinV {
            linearized: self.linearized@,
            file_length: self.file_length,
            hint_offset: self.hint_offset,
            hint_length: self.hint_length,
            hint_overflow: self.hint_overflow,
            first_page_object_number: self.first_page_object_number,
            end_of_first_page: self.end_of_first_page,
            page_count: self.page_count,
            main_xref_offset: self.main_xref_offset,
        }
    }
}

// ---------------------------------------------------------- the first object

/// White space of ASCII text.
pub open spec fn is_blank(b: u8) -> bool {
    b == 9 || b == 10 || b == 12 || b == 13 || b == 32
}

fn blank(b: u8) -> (r: bool)
    ensures
        r == is_blank(b),
{
    b == 9 || b == 10 || b == 12 || b == 13 || b == 32
}

fn digit(b: u8) -> (r: bool)
    ensures
        r == is_digit(b),
{
    48 <= b && b <= 57
}

/// Back from place `p` past digits, but not past the first byte.
pub open spec fn before_digits(s: Seq<u8>, p: int) -> int
    decreases p,
{
    if p > 0 && is_digit(s[p]) {
        before_digits(s, p - 1)
    } else {
        p
    }
}

/// Back from place `p` past white space, but not past the first byte.
pub open spec fn before_blanks(s: Seq<u8>, p: int) -> int
    decreases p,
{
    if p > 0 && is_blank(s[p]) {
        before_blanks(s, p - 1)
    } else {
        p
    }
}

fn skip_digits_back(s: &[u8], from: usize) -> (r: usize)
    requires
        from < s@.len(),
    ensures
        r == before_digits(s@, from as int),
        r <= from,
{
    let mut p: usize = from;
    while p > 0 && digit(s[p])
        invariant
            p <= from < s@.len(),
            before_digits(s@, p as int) == before_digits(s@, from as int),
        decreases p,
    {
        p = p - 1;
    }
    p
}

fn skip_blanks_back(s: &[u8], from: usize) -> (r: usize)
    requires
        from < s@.len(),
    ensures
        r == before_blanks(s@, from as int),
        r <= from,
{
    let mut p: usize = from;
    while p > 0 && blank(s[p])
        invariant
            p <= from < s@.len(),
            before_blanks(s@, p as int) == before_blanks(s@, from as int),
        decreases p,
    {
        p = p - 1;
    }
    p
}

/// Where the two numbers begin that stand in front of place `p`: digits, white
/// space and digits again, read backwards.
pub open spec fn header_before(s: Seq<u8>, p: int) -> Option<int> {
    if p <= 0 {
        None
    } else {
        let gap = before_digits(s, p - 1);
        let end = before_blanks(s, gap);
        if gap == p - 1 || !is_blank(s[gap]) || !is_digit(s[end]) {
            None
        } else {
            let q = before_digits(s, end);
            if is_digit(s[q]) {
                Some(q)
            } else {
                Some(q + 1)
            }
        }
    }
}

/// Where the two numbers begin that stand in front of a place.
pub fn scan_back_two_ints(input: &[u8], space_before_obj_pos: usize) -> (r: Option<usize>)
    requires
        space_before_obj_pos <= input@.len(),
    ensures
        match r {
            Some(q) => header_before(input@, space_before_obj_pos as int) == Some(q as int) && q
                < space_before_obj_pos,
            None => header_before(input@, space_before_obj_pos as int) is None,
        },
{
    if space_before_obj_pos == 0 {
        return None;
    }
    let gap: usize = skip_digits_back(input, space_before_obj_pos - 1);
    if gap == space_before_obj_pos - 1 || !blank(input[gap]) {
        return None;
    }
    let end: usize = skip_blanks_back(input, gap);
    if !digit(input[end]) {
        return None;
    }
    let q: usize = skip_digits_back(input, end);
    if digit(input[q]) {
        Some(q)
    } else {
        proof {
            assert(q < end);
        }
        Some(q + 1)
    }
}

/// The word ` obj` stands at place `p`.
pub open spec fn obj_at(s: Seq<u8>, p: int) -> bool {
    0 <= p && p + 4 <= s.len() && s[p] == 32 && s[p + 1] == 111 && s[p + 2] == 98 && s[p + 3] == 106
}

/// Where the first header of an object begins whose word ` obj` stands at
/// place `p` or behind it.
pub open spec fn header_from(s: Seq<u8>, p: int) -> Option<int>
    decreases s.len() - p,
{
    if p < 0 || p + 4 > s.len() {
        None
    } else if obj_at(s, p) && header_before(s, p) is Some {
        header_before(s, p)
    } else {
        header_from(s, p + 1)
    }
}

fn find_first_obj_header(head: &[u8]) -> (r: Option<usize>)
    ensures
        match r {
            Some(q) => header_from(head@, 0) == Some(q as int) && q < head@.len(),
            None => header_from(head@, 0) is None,
        },
{
    let mut p: usize = 0;
    while p < head.len() && head.len() - p >= 4
        invariant
            p <= head@.len(),
            header_from(head@, p as int) == header_from(head@, 0),
        decreases head.len() - p,
    {
        if head[p] == 32 && head[p + 1] == 111 && head[p + 2] == 98 && head[p + 3] == 106 {
            match scan_back_two_ints(head, p) {
                Some(q) => {
                    return Some(q);
                },
                None => {},
            }
        }
        p = p + 1;
    }
    None
}

// ------------------------------------------------------------- the entries

/// An entry that has to be a number.
pub open spec fn needed_number(d: DictV, k: Seq<char>) -> Result<NumV, Seq<char>> {
    match dict_get(d, k) {
        Some(o) => match number_of(o) {
            Some(n) => Ok(n),
            None => Err("PDF linearization: /"@ + k + " must be a number"@ + got(o)),
        },
        None => Err("PDF linearization: missing required /"@ + k),
    }
}

fn require_number(d: &Dict, k: &str) -> (r: Result<Number, PdfError>)
    ensures
        outcome(r) == needed_number(d@, k@),
{
    match d.get(k) {
        Some(o) => match object_number(o) {
            Some(n) => Ok(n),
            None => Err(
                PdfError::Other(
                    cat_got(cat(cat("PDF linearization: /".to_owned(), k), " must be a number"), o),
                ),
            ),
        },
        None => Err(PdfError::Other(cat("PDF linearization: missing required /".to_owned(), k))),
    }
}

/// An entry that has to be an integer and not negative.
pub open spec fn needed_uint(d: DictV, k: Seq<char>) -> Result<u64, Seq<char>> {
    match dict_get(d, k) {
        Some(ObjV::Integer(n)) => if n >= 0 {
            Ok(n as u64)
        } else {
            Err(
                "PDF linearization: /"@ + k + " must be non-negative (got "@ + dec(n as int) + ")"@,
            )
        },
        Some(o) => Err("PDF linearization: /"@ + k + " must be an integer"@ + got(o)),
        None => Err("PDF linearization: missing required /"@ + k),
    }
}

/// `r` is what `w` says.
pub open spec fn agrees<T>(r: Result<T, PdfError>, w: Result<T, Seq<char>>) -> bool {
    match r {
        Ok(v) => w == Ok::<T, Seq<char>>(v),
        Err(e) => w == Err::<T, Seq<char>>(e@),
    }
}

fn require_uint(d: &Dict, k: &str) -> (r: Result<u64, PdfError>)
    ensures
        agrees(r, needed_uint(d@, k@)),
{
    match d.get(k) {
        Some(Object::Integer(n)) => if *n >= 0 {
            Ok(*n as u64)
        } else {
            let m: String = cat(
                cat("PDF linearization: /".to_owned(), k),
                " must be non-negative (got ",
            );
            Err(PdfError::Other(cat(cat_int(m, *n), ")")))
        },
        Some(o) => Err(
            PdfError::Other(
                cat_got(cat(cat("PDF linearization: /".to_owned(), k), " must be an integer"), o),
            ),
        ),
        None => Err(PdfError::Other(cat("PDF linearization: missing required /".to_owned(), k))),
    }
}

/// An item of `/H`.
pub open spec fn hint_item(items: Seq<ObjV>, i: int) -> Result<u64, Seq<char>> {
    match items[i] {
        ObjV::Integer(n) => if n >= 0 {
            Ok(n as u64)
        } else {
            Err(bad_hint(i, items[i]))
        },
        _ => Err(bad_hint(i, items[i])),
    }
}

/// An item of `/H` is not a number that can be.
pub open spec fn bad_hint(i: int, o: ObjV) -> Seq<char> {
    "PDF linearization: /H["@ + dec(i) + "] must be a non-negative integer"@ + got(o)
}

fn require_hint(items: &Vec<Object>, i: usize) -> (r: Result<u64, PdfError>)
    requires
        i < items@.len(),
    ensures
        agrees(r, hint_item(objs_view(items@), i as int)),
{
    proof {
        assert(objs_view(items@)[i as int] == items@[i as int]@);
    }
    if let Object::Integer(n) = &items[i] {
        if *n >= 0 {
            return Ok(*n as u64);
        }
    }
    let m: String = cat_nat("PDF linearization: /H[".to_owned(), i as u64);
    Err(PdfError::Other(cat_got(cat(m, "] must be a non-negative integer"), &items[i])))
}

/// The one or two pairs of a place and a length in `/H`.
pub open spec fn hints(d: DictV) -> Result<(u64, u64, Option<(u64, u64)>), Seq<char>> {
    match dict_get(d, "H"@) {
        None => Err("PDF linearization: missing required /H"@),
        Some(ObjV::Array(items)) => if items.len() != 2 && items.len() != 4 {
            Err(
                "PDF linearization: /H must have 2 or 4 elements (got "@ + dec(items.len() as int)
                    + ")"@,
            )
        } else {
            match hint_item(items, 0) {
                Err(e) => Err(e),
                Ok(offset) => match hint_item(items, 1) {
                    Err(e) => Err(e),
                    Ok(length) => if items.len() == 2 {
                        Ok((offset, length, None))
                    } else {
                        match hint_item(items, 2) {
                            Err(e) => Err(e),
                            Ok(offset2) => match hint_item(items, 3) {
                                Err(e) => Err(e),
                                Ok(length2) => Ok((offset, length, Some((offset2, length2)))),
                            },
                        }
                    },
                },
            }
        },
        Some(o) => Err("PDF linearization: /H must be an array"@ + got(o)),
    }
}

fn require_hint_array(d: &Dict) -> (r: Result<(u64, u64, Option<(u64, u64)>), PdfError>)
    ensures
        agrees(r, hints(d@)),
{
    let items: &Vec<Object> = match d.get("H") {
        None => {
            return Err(PdfError::other("PDF linearization: missing required /H"));
        },
        Some(Object::Array(items)) => items,
        Some(o) => {
            return Err(unexpected("PDF linearization: /H must be an array", o));
        },
    };
    proof {
        lemma_array_view(*items);
    }
    if items.len() != 2 && items.len() != 4 {
        let m: String = cat_nat(
            "PDF linearization: /H must have 2 or 4 elements (got ".to_owned(),
            items.len() as u64,
        );
        return Err(PdfError::Other(cat(m, ")")));
    }
    let offset: u64 = match require_hint(items, 0) {
        Ok(n) => n,
        Err(e) => {
            return Err(e);
        },
    };
    let length: u64 = match require_hint(items, 1) {
        Ok(n) => n,
        Err(e) => {
            return Err(e);
        },
    };
    if items.len() == 2 {
        return Ok((offset, length, None));
    }
    let offset2: u64 = match require_hint(items, 2) {
        Ok(n) => n,
        Err(e) => {
            return Err(e);
        },
    };
    let length2: u64 = match require_hint(items, 3) {
        Ok(n) => n,
        Err(e) => {
            return Err(e);
        },
    };
    Ok((offset, length, Some((offset2, length2))))
}

/// What a dictionary says that has `/Linearized`. The entries are looked at in
/// order, and the first that is missing or malformed is an error.
pub open spec fn params_of(d: DictV) -> Result<LinV, Seq<char>> {
    match needed_number(d, "Linearized"@) {
        Err(e) => Err(e),
        Ok(linearized) => match needed_uint(d, "L"@) {
            Err(e) => Err(e),
            Ok(file_length) => match hints(d) {
                Err(e) => Err(e),
                Ok((hint_offset, hint_length, hint_overflow)) => match needed_uint(d, "O"@) {
                    Err(e) => Err(e),
                    Ok(first) => match needed_uint(d, "E"@) {
                        Err(e) => Err(e),
                        Ok(end_of_first_page) => match needed_uint(d, "N"@) {
                            Err(e) => Err(e),
                            Ok(pages) => match needed_uint(d, "T"@) {
                                Err(e) => Err(e),
                                Ok(main_xref_offset) => Ok(
                                    LinV {
                                        linearized,
                                        file_length,
                                        hint_offset,
                                        hint_length,
                                        hint_overflow,
                                        first_page_object_number: (first % 0x1_0000_0000) as u32,
                                        end_of_first_page,
                                        page_count: (pages % 0x1_0000_0000) as u32,
                                        main_xref_offset,
                                    },
                                ),
                            },
                        },
                    },
                },
            },
        },
    }
}

fn read_params(d: &Dict) -> (r: Result<LinearizationParams, PdfError>)
    ensures
        outcome(r) == params_of(d@),
{
    let linearized: Number = match require_number(d, "Linearized") {
        Ok(n) => n,
        Err(e) => {
            return Err(e);
        },
    };
    let file_length: u64 = match require_uint(d, "L") {
        Ok(n) => n,
        Err(e) => {
            return Err(e);
        },
    };
    let (hint_offset, hint_length, hint_overflow): (u64, u64, Option<(u64, u64)>) =
        match require_hint_array(d) {
        Ok(h) => h,
        Err(e) => {
            return Err(e);
        },
    };
    let first: u64 = match require_uint(d, "O") {
        Ok(n) => n,
        Err(e) => {
            return Err(e);
        },
    };
    let end_of_first_page: u64 = match require_uint(d, "E") {
        Ok(n) => n,
        Err(e) => {
            return Err(e);
        },
    };
    let pages: u64 = match require_uint(d, "N") {
        Ok(n) => n,
        Err(e) => {
            return Err(e);
        },
    };
    let main_xref_offset: u64 = match require_uint(d, "T") {
        Ok(n) => n,
        Err(e) => {
            return Err(e);
        },
    };
    Ok(
        LinearizationParams {
            linearized,
            file_length,
            hint_offset,
            hint_length,
            hint_overflow,
            first_page_object_number: (first % 0x1_0000_0000) as u32,
            end_of_first_page,
            page_count: (pages % 0x1_0000_0000) as u32,
            main_xref_offset,
        },
    )
}

// ----------------------------------------------------------------- the file

/// How many bytes at the head of a file are searched for its first object.
pub const HEAD_LENGTH: usize = 2048;

/// The first bytes of a file.
pub open spec fn head_of(s: Seq<u8>) -> Seq<u8> {
    if s.len() < HEAD_LENGTH {
        s
    } else {
        s.take(HEAD_LENGTH as int)
    }
}

/// The dictionary that is the first object of a file and has `/Linearized`.
pub open spec fn first_dict(s: Seq<u8>) -> Option<DictV> {
    if s.len() < 16 {
        None
    } else {
        match header_from(head_of(s), 0) {
            None => None,
            Some(p) => match indirect_at(s, p, lengths_of(NoLengths)) {
                Ok((_, ObjV::Dict(d), _)) => if dict_get(d, "Linearized"@) is Some {
                    Some(d)
                } else {
                    None
                },
                _ => None,
            },
        }
    }
}

/// What a file says of how it is linearized: nothing where it is not, and an
/// error where it says that it is and something is missing.
pub open spec fn linearization_of(s: Seq<u8>) -> Result<Option<LinV>, Seq<char>> {
    match first_dict(s) {
        None => Ok(None),
        Some(d) => match params_of(d) {
            Err(e) => Err(e),
            Ok(p) => Ok(Some(p)),
        },
    }
}

/// `r` is the optional value that `w` says.
pub open spec fn lin_agrees(
    r: Result<Option<LinearizationParams>, PdfError>,
    w: Result<Option<LinV>, Seq<char>>,
) -> bool {
    match r {
        Ok(Some(p)) => w == Ok::<Option<LinV>, Seq<char>>(Some(p@)),
        Ok(None) => w == Ok::<Option<LinV>, Seq<char>>(None),
        Err(e) => w == Err::<Option<LinV>, Seq<char>>(e@),
    }
}

/// Read the dictionary at the head of a linearized file; none where the file is
/// not linearized.
pub fn parse_linearization_dict(input: &[u8]) -> (r: Result<
    Option<LinearizationParams>,
    PdfError,
>)
    ensures
        lin_agrees(r, linearization_of(input@)),
{
    if input.len() < 16 {
        return Ok(None);
    }
    let scan_end: usize = if input.len() < HEAD_LENGTH {
        input.len()
    } else {
        HEAD_LENGTH
    };
    let head: &[u8] = vstd::slice::slice_subrange(input, 0, scan_end);
    proof {
        assert(head@ =~= head_of(input@));
    }
    let p: usize = match find_first_obj_header(head) {
        Some(p) => p,
        None => {
            return Ok(None);
        },
    };
    let mut parser: Parser = Parser::new(input);
    parser.lexer_mut().seek(p);
    match parser.parse_indirect() {
        Ok((_, Object::Dict(d))) => {
            if d.get("Linearized").is_none() {
                return Ok(None);
            }
            match read_params(&d) {
                Ok(v) => Ok(Some(v)),
                Err(e) => Err(e),
            }
        },
        _ => Ok(None),
    }
}

/// The first thing in which the dictionary does not fit a file of `n` bytes.
pub open spec fn mismatch(p: LinV, n: int) -> Option<Seq<char>> {
    if p.file_length != n {
        Some(
            "PDF linearization: /L = "@ + dec(p.file_length as int) + " but file is "@ + dec(n)
                + " bytes (truncated or extended?)"@,
        )
    } else if p.main_xref_offset >= n {
        Some(past_end("PDF linearization: /T = "@, p.main_xref_offset as int, n))
    } else if p.end_of_first_page > n {
        Some(past_end("PDF linearization: /E = "@, p.end_of_first_page as int, n))
    } else if p.hint_offset >= n {
        Some(past_end("PDF linearization: /H[0] = "@, p.hint_offset as int, n))
    } else if p.hint_offset + p.hint_length > n {
        Some(
            "PDF linearization: /H stream extends past end of file ("@ + dec(p.hint_offset as int)
                + " + "@ + dec(p.hint_length as int) + " > "@ + dec(n) + ")"@,
        )
    } else if p.page_count == 0 {
        Some("PDF linearization: /N = 0 — linearized file must declare ≥1 page"@)
    } else {
        None
    }
}

/// A place behind the end of a file.
pub open spec fn past_end(head: Seq<char>, place: int, n: int) -> Seq<char> {
    head + dec(place) + " points past end of file ("@ + dec(n) + " bytes)"@
}

fn past_end_error(head: &str, place: u64, n: u64) -> (r: PdfError)
    ensures
        r@ == past_end(head@, place as int, n as int),
{
    let m: String = cat(cat_nat(head.to_owned(), place), " points past end of file (");
    PdfError::Other(cat(cat_nat(m, n), " bytes)"))
}

impl LinearizationParams {
    /// Read the dictionary at the head of a linearized file.
    pub fn parse(input: &[u8]) -> (r: Result<Option<LinearizationParams>, PdfError>)
        ensures
            lin_agrees(r, linearization_of(input@)),
    {
        parse_linearization_dict(input)
    }

    /// Hold the dictionary against the file: the length is that of the file, and
    /// what it points at lies in it.
    pub fn verify(&self, input: &[u8]) -> (r: Result<(), PdfError>)
        ensures
            match r {
                Ok(_) => mismatch(self@, input@.len() as int) is None,
                Err(e) => mismatch(self@, input@.len() as int) == Some(e@),
            },
    {
        let n: u64 = input.len() as u64;
        if self.file_length != n {
            let m: String = cat_nat("PDF linearization: /L = ".to_owned(), self.file_length);
            let m: String = cat_nat(cat(m, " but file is "), n);
            return Err(PdfError::Other(cat(m, " bytes (truncated or extended?)")));
        }
        if self.main_xref_offset >= n {
            return Err(past_end_error("PDF linearization: /T = ", self.main_xref_offset, n));
        }
        if self.end_of_first_page > n {
            return Err(past_end_error("PDF linearization: /E = ", self.end_of_first_page, n));
        }
        if self.hint_offset >= n {
            return Err(past_end_error("PDF linearization: /H[0] = ", self.hint_offset, n));
        }
        if self.hint_length > n - self.hint_offset {
            let m: String = cat_nat(
                "PDF linearization: /H stream extends past end of file (".to_owned(),
                self.hint_offset,
            );
            let m: String = cat_nat(cat(m, " + "), self.hint_length);
            let m: String = cat_nat(cat(m, " > "), n);
            return Err(PdfError::Other(cat(m, ")")));
        }
        if self.page_count == 0 {
            return Err(
                PdfError::other(
                    "PDF linearization: /N = 0 — linearized file must declare ≥1 page",
                ),
            );
        }
        Ok(())
    }
}

impl<'a> DocumentReader<'a> {
    /// The dictionary at the head of the file, if the file is linearized.
    pub fn linearization(&self) -> (r: Result<Option<LinearizationParams>, PdfError>)
        requires
            self.wf(),
        ensures
            lin_agrees(r, linearization_of(self.doc().input)),
    {
        LinearizationParams::parse(self.input())
    }
}

// ------------------------------------------------------------------- laws

/// A file whose head holds no header of an object is not linearized, and that
/// is no error.
pub proof fn law_no_object_no_error(s: Seq<u8>)
    requires
        s.len() < 16 || header_from(head_of(s), 0) is None,
    ensures
        linearization_of(s) == Ok::<Option<LinV>, Seq<char>>(None),
{
}

/// What fits a file fits no file of another length.
pub proof fn law_fits_one_length(p: LinV, n: int, m: int)
    requires
        mismatch(p, n) is None,
        m != n,
    ensures
        mismatch(p, m) is Some,
{
}

/// Where the dictionary fits the file, all that it points at lies in the file.
pub proof fn law_fitting_places(p: LinV, n: int)
    requires
        mismatch(p, n) is None,
    ensures
        p.main_xref_offset < n,
        p.end_of_first_page <= n,
        p.hint_offset + p.hint_length <= n,
        p.page_count > 0,
{
}

} // verus!
