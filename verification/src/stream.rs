//! Streams: undoing the filters that a stream's dictionary names.

use vstd::prelude::*;
use crate::describe::{got, unexpected};
use crate::error::{outcome, PdfError};
use crate::filters::{a85, apply_predictor, ascii85_decode, ascii_hex_decode, flate, flate_decompress, hex_data, lzw_decode_with_early_change, lzw_stream, predicted, run_length, run_length_decode, Decoded, PredictorParams};
use crate::objects::{clone_bytes, dict_get, lemma_array_view, objs_view, opt_view, Dict, DictV, ObjV, Object, Stream};
use crate::text::{cat, same_text};

verus! {

/// The entry `key` of a dictionary, if it is an integer.
pub open spec fn dict_integer(d: DictV, key: Seq<char>) -> Option<i64> {
    match dict_get(d, key) {
        Some(ObjV::Integer(n)) => Some(n),
        _ => None,
    }
}

/// The entry `key` of a dictionary, if it is an integer.
pub(crate) fn get_integer(d: &Dict, key: &str) -> (r: Option<i64>)
    ensures
        r == dict_integer(d@, key@),
{
    match d.get(key) {
        Some(Object::Integer(n)) => Some(*n),
        _ => None,
    }
}

/// `n` as near as the range of `usize` allows.
pub open spec fn clamp_usize(n: i64) -> usize {
    if n < 0 {
        0
    } else if n > usize::MAX {
        usize::MAX
    } else {
        n as usize
    }
}

fn to_usize(n: i64) -> (r: usize)
    ensures
        r == clamp_usize(n),
{
    if n < 0 {
        0
    } else if (n as u64) > usize::MAX as u64 {
        usize::MAX
    } else {
        n as usize
    }
}

/// An optional size, or its default.
pub open spec fn size_or(n: Option<i64>, default: usize) -> usize {
    match n {
        Some(n) => clamp_usize(n),
        None => default,
    }
}

fn size_or_default(n: Option<i64>, default: usize) -> (r: usize)
    ensures
        r == size_or(n, default),
{
    match n {
        Some(n) => to_usize(n),
        None => default,
    }
}

/// The predictor that a parameter dictionary asks for; entries that are
/// missing or not integers take their defaults.
pub open spec fn predictor_of(d: DictV) -> PredictorParams {
    PredictorParams {
        predictor: match dict_integer(d, "Predictor"@) {
            Some(n) => n,
            None => 1,
        },
        colors: size_or(dict_integer(d, "Colors"@), 1),
        bits_per_component: size_or(dict_integer(d, "BitsPerComponent"@), 8),
        columns: size_or(dict_integer(d, "Columns"@), 1),
    }
}

/// Decompressed data with the predictor of its parameters undone.
pub open spec fn unpredicted(data: Seq<u8>, parms: Option<DictV>) -> Decoded {
    match parms {
        None => Ok(data),
        Some(d) => predicted(data, predictor_of(d)),
    }
}

/// What an optional dictionary stands for.
pub open spec fn opt_dict(d: Option<&Dict>) -> Option<DictV> {
    match d {
        Some(v) => Some(v@),
        None => None,
    }
}

/// Undo the predictor that the parameters of an LZW or Flate filter ask for.
pub fn apply_predictor_post(data: Vec<u8>, parms: Option<&Dict>) -> (r: Result<Vec<u8>, PdfError>)
    ensures
        outcome(r) == unpredicted(data@, opt_dict(parms)),
{
    let d: &Dict = match parms {
        Some(d) => d,
        None => {
            return Ok(data);
        },
    };
    let predictor: i64 = match get_integer(d, "Predictor") {
        Some(n) => n,
        None => 1,
    };
    let params: PredictorParams = PredictorParams {
        predictor,
        colors: size_or_default(get_integer(d, "Colors"), 1),
        bits_per_component: size_or_default(get_integer(d, "BitsPerComponent"), 8),
        columns: size_or_default(get_integer(d, "Columns"), 1),
    };
    apply_predictor(data.as_slice(), &params)
}

/// The `/EarlyChange` of a parameter dictionary: on unless it is 0.
pub open spec fn early_change(parms: Option<DictV>) -> bool {
    match parms {
        Some(d) => match dict_integer(d, "EarlyChange"@) {
            Some(n) => n != 0,
            None => true,
        },
        None => true,
    }
}

/// `r` with the predictor of its parameters undone.
pub open spec fn and_unpredicted(r: Decoded, parms: Option<DictV>) -> Decoded {
    match r {
        Ok(v) => unpredicted(v, parms),
        Err(e) => Err(e),
    }
}

/// A name is one of two.
pub open spec fn either(name: Seq<char>, a: Seq<char>, b: Seq<char>) -> bool {
    name == a || name == b
}

pub(crate) fn is_either(name: &str, a: &str, b: &str) -> (r: bool)
    ensures
        r == either(name@, a@, b@),
{
    same_text(name, a) || same_text(name, b)
}

/// Data with one named filter undone.
pub open spec fn filtered(name: Seq<char>, data: Seq<u8>, parms: Option<DictV>) -> Decoded {
    if either(name, "FlateDecode"@, "Fl"@) {
        and_unpredicted(flate(data), parms)
    } else if either(name, "LZWDecode"@, "LZW"@) {
        and_unpredicted(lzw_stream(data, early_change(parms)), parms)
    } else if either(name, "ASCII85Decode"@, "A85"@) {
        a85(data, Seq::empty())
    } else if either(name, "ASCIIHexDecode"@, "AHx"@) {
        hex_data(data, None)
    } else if either(name, "RunLengthDecode"@, "RL"@) {
        run_length(data)
    } else {
        Err(
            "PDF reader: filter `"@ + name
                + "` not yet supported by decode_stream (image codec filters DCT/JPX/JBIG2/CCITTFax route through the image walkers)"@,
        )
    }
}

/// Undo one named filter.
pub fn apply_filter(name: &str, data: &[u8], parms: Option<&Dict>) -> (r: Result<
    Vec<u8>,
    PdfError,
>)
    ensures
        outcome(r) == filtered(name@, data@, opt_dict(parms)),
{
    if is_either(name, "FlateDecode", "Fl") {
        match flate_decompress(data) {
            Ok(v) => apply_predictor_post(v, parms),
            Err(e) => Err(e),
        }
    } else if is_either(name, "LZWDecode", "LZW") {
        let early: bool = match parms {
            Some(d) => match get_integer(d, "EarlyChange") {
                Some(n) => n != 0,
                None => true,
            },
            None => true,
        };
        match lzw_decode_with_early_change(data, early) {
            Ok(v) => apply_predictor_post(v, parms),
            Err(e) => Err(e),
        }
    } else if is_either(name, "ASCII85Decode", "A85") {
        ascii85_decode(data)
    } else if is_either(name, "ASCIIHexDecode", "AHx") {
        ascii_hex_decode(data)
    } else if is_either(name, "RunLengthDecode", "RL") {
        run_length_decode(data)
    } else {
        let m: String = cat("PDF reader: filter `".to_owned(), name);
        Err(
            PdfError::Other(
                cat(
                    m,
                    "` not yet supported by decode_stream (image codec filters DCT/JPX/JBIG2/CCITTFax route through the image walkers)",
                ),
            ),
        )
    }
}

/// A filter that is undone byte by byte, by its long or its short name.
pub open spec fn is_byte_filter(name: Seq<char>) -> bool {
    either(name, "FlateDecode"@, "Fl"@) || either(name, "LZWDecode"@, "LZW"@) || either(
        name,
        "ASCII85Decode"@,
        "A85"@,
    ) || either(name, "ASCIIHexDecode"@, "AHx"@) || either(name, "RunLengthDecode"@, "RL"@)
}

/// Whether a filter is undone byte by byte.
pub(crate) fn byte_filter(name: &str) -> (r: bool)
    ensures
        r == is_byte_filter(name@),
{
    is_either(name, "FlateDecode", "Fl") || is_either(name, "LZWDecode", "LZW") || is_either(
        name,
        "ASCII85Decode",
        "A85",
    ) || is_either(name, "ASCIIHexDecode", "AHx") || is_either(name, "RunLengthDecode", "RL")
}

/// The parameters of the filter at place `idx`: a single dictionary belongs
/// to the first filter, and an array goes with the filters one by one.
pub open spec fn parms_at(parms: Option<ObjV>, idx: int) -> Option<DictV> {
    match parms {
        Some(ObjV::Dict(d)) => if idx == 0 {
            Some(d)
        } else {
            None
        },
        Some(ObjV::Array(items)) => if 0 <= idx < items.len() {
            match items[idx] {
                ObjV::Dict(d) => Some(d),
                _ => None,
            }
        } else {
            None
        },
        _ => None,
    }
}

fn parms_for_index<'a>(parms: Option<&'a Object>, idx: usize) -> (r: Option<&'a Dict>)
    ensures
        opt_dict(r) == parms_at(opt_view(parms), idx as int),
{
    match parms {
        Some(Object::Dict(d)) => if idx == 0 {
            Some(d)
        } else {
            None
        },
        Some(Object::Array(items)) => {
            proof {
                lemma_array_view(*items);
            }
            if idx < items.len() {
                proof {
                    assert(objs_view(items@)[idx as int] == items@[idx as int]@);
                }
                match &items[idx] {
                    Object::Dict(d) => Some(d),
                    _ => None,
                }
            } else {
                None
            }
        },
        _ => None,
    }
}

/// The first entry that is `/DecodeParms` or its short form `/DP`.
pub open spec fn parms_entry(d: DictV, from: int) -> Option<ObjV>
    decreases d.len() - from,
{
    if from < 0 || from >= d.len() {
        None
    } else if either(d[from].0, "DecodeParms"@, "DP"@) {
        Some(d[from].1)
    } else {
        parms_entry(d, from + 1)
    }
}

fn find_parms(d: &Dict) -> (r: Option<&Object>)
    ensures
        opt_view(r) == parms_entry(d@, 0),
{
    let mut i: usize = 0;
    while i < d.entries.len()
        invariant
            i <= d.entries@.len(),
            parms_entry(d@, 0) == parms_entry(d@, i as int),
        decreases d.entries.len() - i,
    {
        if is_either(d.entries[i].0.as_str(), "DecodeParms", "DP") {
            return Some(&d.entries[i].1);
        }
        i = i + 1;
    }
    None
}

/// Data with the filters from place `i` on undone, in array order.
pub open spec fn chain_from(
    filters: Seq<ObjV>,
    i: int,
    data: Seq<u8>,
    parms: Option<ObjV>,
) -> Decoded
    decreases filters.len() - i,
{
    if i < 0 || i >= filters.len() {
        Ok(data)
    } else {
        match filters[i] {
            ObjV::Name(name) => match filtered(name, data, parms_at(parms, i)) {
                Ok(v) => chain_from(filters, i + 1, v, parms),
                Err(e) => Err(e),
            },
            o => Err("PDF reader: /Filter chain item must be a Name"@ + got(o)),
        }
    }
}

/// What the data of a stream stands for.
pub open spec fn stream_data(d: DictV, data: Seq<u8>) -> Decoded {
    let parms = parms_entry(d, 0);
    match dict_get(d, "Filter"@) {
        None => Ok(data),
        Some(ObjV::Name(name)) => filtered(name, data, parms_at(parms, 0)),
        Some(ObjV::Array(filters)) => chain_from(filters, 0, data, parms),
        Some(o) => Err("PDF reader: /Filter must be a Name or array of Names"@ + got(o)),
    }
}

/// Undo the filters of a stream, in the order in which they are named.
pub fn decode_stream(stream: &Stream) -> (r: Result<Vec<u8>, PdfError>)
    ensures
        outcome(r) == stream_data(stream.dict@, stream.data@),
{
    let parms: Option<&Object> = find_parms(&stream.dict);
    match stream.dict.get("Filter") {
        None => Ok(clone_bytes(&stream.data)),
        Some(Object::Name(name)) => apply_filter(
            name.as_str(),
            stream.data.as_slice(),
            parms_for_index(parms, 0),
        ),
        Some(Object::Array(items)) => {
            let mut data: Vec<u8> = clone_bytes(&stream.data);
            let ghost view = objs_view(items@);
            let ghost goal = chain_from(view, 0, data@, opt_view(parms));
            proof {
                lemma_array_view(*items);
            }
            let mut i: usize = 0;
            while i < items.len()
                invariant
                    i <= items@.len(),
                    view == objs_view(items@),
                    goal == stream_data(stream.dict@, stream.data@),
                    goal == chain_from(view, i as int, data@, opt_view(parms)),
                decreases items.len() - i,
            {
                proof {
                    assert(view[i as int] == items@[i as int]@);
                }
                match &items[i] {
                    Object::Name(name) => {
                        match apply_filter(
                            name.as_str(),
                            data.as_slice(),
                            parms_for_index(parms, i),
                        ) {
                            Ok(v) => {
                                data = v;
                            },
                            Err(e) => {
                                return Err(e);
                            },
                        }
                    },
                    o => {
                        return Err(unexpected("PDF reader: /Filter chain item must be a Name", o));
                    },
                }
                i = i + 1;
            }
            Ok(data)
        },
        Some(o) => Err(unexpected("PDF reader: /Filter must be a Name or array of Names", o)),
    }
}

// ------------------------------------------------------------------- laws

/// A chain of filters is undone in array order: undoing the first `k` and
/// then the others on what came out is undoing them all.
pub proof fn law_chain_order(
    filters: Seq<ObjV>,
    k: int,
    data: Seq<u8>,
    parms: Option<ObjV>,
)
    requires
        0 <= k <= filters.len(),
    ensures
        chain_from(filters, 0, data, parms) == match chain_from(filters.take(k), 0, data, parms) {
            Ok(v) => chain_from(filters, k, v, parms),
            Err(e) => Err(e),
        },
{
    lemma_chain_split(filters, 0, k, data, parms);
}

proof fn lemma_chain_split(
    filters: Seq<ObjV>,
    i: int,
    k: int,
    data: Seq<u8>,
    parms: Option<ObjV>,
)
    requires
        0 <= i <= k <= filters.len(),
    ensures
        chain_from(filters, i, data, parms) == match chain_from(filters.take(k), i, data, parms) {
            Ok(v) => chain_from(filters, k, v, parms),
            Err(e) => Err(e),
        },
    decreases k - i,
{
    if i < k {
        assert(filters.take(k)[i] == filters[i]);
        match filters[i] {
            ObjV::Name(name) => match filtered(name, data, parms_at(parms, i)) {
                Ok(v) => {
                    lemma_chain_split(filters, i + 1, k, v, parms);
                },
                Err(_) => {},
            },
            _ => {},
        }
    }
}

/// A chain of one filter is that filter.
pub proof fn law_single_filter(d: DictV, name: Seq<char>, data: Seq<u8>)
    requires
        dict_get(d, "Filter"@) == Some(ObjV::Array(seq![ObjV::Name(name)])),
    ensures
        stream_data(d, data) == filtered(name, data, parms_at(parms_entry(d, 0), 0)),
{
    let filters = seq![ObjV::Name(name)];
    let parms = parms_entry(d, 0);
    assert(filters[0] == ObjV::Name(name));
    match filtered(name, data, parms_at(parms, 0)) {
        Ok(v) => {
            assert(chain_from(filters, 1, v, parms) == Ok::<Seq<u8>, Seq<char>>(v));
        },
        Err(_) => {},
    }
}

} // verus!
