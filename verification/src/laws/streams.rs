//! Laws of streams: which filters there are, what they are given, and in which
//! order they are undone.

use vstd::prelude::*;
use crate::filters::{
    a85_encoded, inflated, law_ascii85_round_trip, lzw_stream, predicted, PredictorParams,
};
use crate::laws::filters::{hex_written, law_hex_any_case, law_literal_run, law_run_length_end};
use crate::objects::{dict_get, key_pos, lemma_key_pos, DictV, ObjV};
use crate::stream::{filtered, parms_at, parms_entry, stream_data, unpredicted};

verus! {

/// The text of the names of filters and of their entries.
proof fn lemma_names()
    ensures
        "FlateDecode"@.len() == 11,
        "Fl"@.len() == 2 && "Fl"@[0] == 'F',
        "LZWDecode"@.len() == 9,
        "LZW"@.len() == 3,
        "ASCII85Decode"@.len() == 13,
        "A85"@.len() == 3 && "A85"@[0] == 'A' && "A85"@[1] == '8',
        "LZW"@[0] == 'L',
        "ASCIIHexDecode"@.len() == 14,
        "AHx"@.len() == 3 && "AHx"@[0] == 'A' && "AHx"@[1] == 'H',
        "RunLengthDecode"@.len() == 15,
        "RL"@.len() == 2 && "RL"@[0] == 'R',
        "DCTDecode"@.len() == 9 && "DCTDecode"@[0] == 'D' && "LZWDecode"@[0] == 'L',
        "JPXDecode"@.len() == 9 && "JPXDecode"@[0] == 'J',
        "JBIG2Decode"@.len() == 11 && "JBIG2Decode"@[0] == 'J' && "FlateDecode"@[0] == 'F',
        "CCITTFaxDecode"@.len() == 14 && "CCITTFaxDecode"@[0] == 'C' && "ASCIIHexDecode"@[0] == 'A',
{
    reveal_strlit("FlateDecode");
    reveal_strlit("Fl");
    reveal_strlit("LZWDecode");
    reveal_strlit("LZW");
    reveal_strlit("ASCII85Decode");
    reveal_strlit("A85");
    reveal_strlit("ASCIIHexDecode");
    reveal_strlit("AHx");
    reveal_strlit("RunLengthDecode");
    reveal_strlit("RL");
    reveal_strlit("DCTDecode");
    reveal_strlit("JPXDecode");
    reveal_strlit("JBIG2Decode");
    reveal_strlit("CCITTFaxDecode");
}

/// Data in hexadecimal, with digits of either case, are read under both names of
/// their filter, whatever the parameters.
pub proof fn law_hex_filter(data: Seq<u8>, upper: spec_fn(int) -> bool, parms: Option<DictV>)
    ensures
        filtered("ASCIIHexDecode"@, hex_written(data, upper) + seq![0x3Eu8], parms) == Ok::<
            Seq<u8>,
            Seq<char>,
        >(data),
        filtered("AHx"@, hex_written(data, upper) + seq![0x3Eu8], parms) == Ok::<
            Seq<u8>,
            Seq<char>,
        >(data),
{
    lemma_names();
    law_hex_any_case(data, upper, seq![0x3Eu8]);
}

/// Data in base 85 are read under both names of their filter.
pub proof fn law_a85_filter(data: Seq<u8>, parms: Option<DictV>)
    requires
        data.len() % 4 == 0,
    ensures
        filtered("ASCII85Decode"@, a85_encoded(data), parms) == Ok::<Seq<u8>, Seq<char>>(data),
        filtered("A85"@, a85_encoded(data), parms) == Ok::<Seq<u8>, Seq<char>>(data),
{
    lemma_names();
    law_ascii85_round_trip(data);
}

/// A literal run is read under both names of its filter.
pub proof fn law_run_length_filter(run: Seq<u8>, parms: Option<DictV>)
    requires
        1 <= run.len() <= 128,
    ensures
        filtered("RunLengthDecode"@, seq![(run.len() - 1) as u8] + run + seq![128u8], parms)
            == Ok::<Seq<u8>, Seq<char>>(run),
        filtered("RL"@, seq![(run.len() - 1) as u8] + run + seq![128u8], parms) == Ok::<
            Seq<u8>,
            Seq<char>,
        >(run),
{
    lemma_names();
    law_run_length_end(Seq::empty(), 0);
    assert(seq![128u8] + Seq::<u8>::empty() =~= seq![128u8]);
    law_literal_run(run, seq![128u8], Seq::empty());
    assert(run + Seq::<u8>::empty() =~= run);
}

/// Data that inflate are read under both names of their filter, as they are
/// where there is no predictor; data that do not inflate are refused.
pub proof fn law_flate_filter(data: Seq<u8>, parms: Option<DictV>)
    ensures
        inflated(data) matches Some(v) ==> filtered("FlateDecode"@, data, None) == Ok::<
            Seq<u8>,
            Seq<char>,
        >(v) && filtered("Fl"@, data, parms) == unpredicted(v, parms) && filtered(
            "FlateDecode"@,
            data,
            parms,
        ) == unpredicted(v, parms),
        inflated(data) is None ==> filtered("FlateDecode"@, data, parms) is Err && filtered(
            "Fl"@,
            data,
            parms,
        ) is Err,
{
    lemma_names();
}

/// LZW data are read under both names of their filter. The width of codes grows
/// early unless `/EarlyChange` is 0.
pub proof fn law_lzw_filter(data: Seq<u8>, d: DictV)
    ensures
        filtered("LZWDecode"@, data, None) == lzw_stream(data, true),
        filtered("LZW"@, data, Some(d)) == filtered("LZWDecode"@, data, Some(d)),
        dict_get(d, "EarlyChange"@) == Some(ObjV::Integer(0)) ==> (match lzw_stream(data, false) {
            Ok(v) => filtered("LZWDecode"@, data, Some(d)) == unpredicted(v, Some(d)),
            Err(_) => filtered("LZWDecode"@, data, Some(d)) is Err,
        }),
        dict_get(d, "EarlyChange"@) is None || dict_get(d, "EarlyChange"@) == Some(
            ObjV::Integer(1),
        ) ==> (match lzw_stream(data, true) {
            Ok(v) => filtered("LZWDecode"@, data, Some(d)) == unpredicted(v, Some(d)),
            Err(_) => filtered("LZWDecode"@, data, Some(d)) is Err,
        }),
{
    lemma_names();
}

/// The filters of image codecs are not undone, nor is any that is not known.
pub proof fn law_codec_filters_refused(data: Seq<u8>, parms: Option<DictV>)
    ensures
        filtered("DCTDecode"@, data, parms) is Err,
        filtered("JPXDecode"@, data, parms) is Err,
        filtered("JBIG2Decode"@, data, parms) is Err,
        filtered("CCITTFaxDecode"@, data, parms) is Err,
{
    lemma_names();
}

/// Whether an entry is a number that is not negative.
pub open spec fn entry_is(d: DictV, key: Seq<char>, n: int) -> bool {
    dict_get(d, key) matches Some(ObjV::Integer(v)) && v == n
}

/// The predictor of parameters goes by their entries: the predictor itself, the
/// colours, the bits of a component and the columns. Each that is missing has its
/// default, 1, 1, 8 and 1.
pub proof fn law_predictor_entries(data: Seq<u8>, d: DictV, p: PredictorParams)
    requires
        p.colors <= i64::MAX,
        p.bits_per_component <= i64::MAX,
        p.columns <= i64::MAX,
        entry_is(d, "Predictor"@, p.predictor as int) || (dict_get(d, "Predictor"@) is None
            && p.predictor == 1),
        entry_is(d, "Colors"@, p.colors as int) || (dict_get(d, "Colors"@) is None && p.colors
            == 1),
        entry_is(d, "BitsPerComponent"@, p.bits_per_component as int) || (dict_get(
            d,
            "BitsPerComponent"@,
        ) is None && p.bits_per_component == 8),
        entry_is(d, "Columns"@, p.columns as int) || (dict_get(d, "Columns"@) is None && p.columns
            == 1),
    ensures
        unpredicted(data, Some(d)) == predicted(data, p),
        unpredicted(data, None) == Ok::<Seq<u8>, Seq<char>>(data),
{
}

/// A stream without a filter is as it is.
pub proof fn law_no_filter(d: DictV, data: Seq<u8>)
    requires
        dict_get(d, "Filter"@) is None,
    ensures
        stream_data(d, data) == Ok::<Seq<u8>, Seq<char>>(data),
{
}

proof fn lemma_parms_entry(d: DictV, from: int)
    requires
        0 <= from <= d.len(),
    ensures
        ({
            let a = key_pos(d, "DecodeParms"@, from);
            let b = key_pos(d, "DP"@, from);
            parms_entry(d, from) == if a < d.len() && a <= b {
                Some(d[a].1)
            } else if b < d.len() && b <= a {
                Some(d[b].1)
            } else {
                None
            }
        }),
    decreases d.len() - from,
{
    if from < d.len() {
        lemma_key_pos(d, "DecodeParms"@, from);
        lemma_key_pos(d, "DP"@, from);
        if d[from].0 != "DecodeParms"@ && d[from].0 != "DP"@ {
            lemma_parms_entry(d, from + 1);
        } else {
            reveal_strlit("DP");
            reveal_strlit("DecodeParms");
        }
    }
}

/// A stream with one filter gives it its parameters, be they under the long or
/// the short name, alone or as the only item of an array.
pub proof fn law_one_filter(
    d: DictV,
    name: Seq<char>,
    data: Seq<u8>,
    key: Seq<char>,
    other: Seq<char>,
    parms: DictV,
)
    requires
        dict_get(d, "Filter"@) == Some(ObjV::Name(name)) || dict_get(d, "Filter"@) == Some(
            ObjV::Array(seq![ObjV::Name(name)]),
        ),
        (key == "DecodeParms"@ && other == "DP"@) || (key == "DP"@ && other == "DecodeParms"@),
        dict_get(d, other) is None,
    ensures
        dict_get(d, key) is None ==> stream_data(d, data) == filtered(name, data, None),
        dict_get(d, key) == Some(ObjV::Dict(parms)) || dict_get(d, key) == Some(
            ObjV::Array(seq![ObjV::Dict(parms)]),
        ) ==> stream_data(d, data) == filtered(name, data, Some(parms)),
        dict_get(d, key) == Some(ObjV::Array(seq![ObjV::Null])) ==> stream_data(d, data)
            == filtered(name, data, None),
{
    lemma_parms_entry(d, 0);
    lemma_key_pos(d, key, 0);
    lemma_key_pos(d, other, 0);
    assert(parms_entry(d, 0) == dict_get(d, key));
    let one = seq![ObjV::Name(name)];
    if dict_get(d, "Filter"@) == Some(ObjV::Array(one)) {
        crate::stream::law_single_filter(d, name, data);
    }
    assert(seq![ObjV::Dict(parms)][0] == ObjV::Dict(parms));
    assert(seq![ObjV::Null][0] == ObjV::Null);
}

/// A stream with two filters undoes the first and then, on what came out, the
/// second. Parameters in an array go with the filters one by one, and a lone
/// dictionary of parameters goes with the first.
pub proof fn law_two_filters(
    d: DictV,
    a: Seq<char>,
    b: Seq<char>,
    data: Seq<u8>,
    p: DictV,
    q: DictV,
)
    requires
        dict_get(d, "Filter"@) == Some(ObjV::Array(seq![ObjV::Name(a), ObjV::Name(b)])),
        dict_get(d, "DP"@) is None,
    ensures
        dict_get(d, "DecodeParms"@) == Some(ObjV::Array(seq![ObjV::Dict(p), ObjV::Dict(q)])) ==> (
        match filtered(a, data, Some(p)) {
            Ok(v) => stream_data(d, data) == filtered(b, v, Some(q)),
            Err(_) => stream_data(d, data) is Err,
        }),
        dict_get(d, "DecodeParms"@) == Some(ObjV::Array(seq![ObjV::Null, ObjV::Dict(q)])) ==> (
        match filtered(a, data, None) {
            Ok(v) => stream_data(d, data) == filtered(b, v, Some(q)),
            Err(_) => stream_data(d, data) is Err,
        }),
        dict_get(d, "DecodeParms"@) == Some(ObjV::Dict(p)) ==> (match filtered(a, data, Some(p)) {
            Ok(v) => stream_data(d, data) == filtered(b, v, None),
            Err(_) => stream_data(d, data) is Err,
        }),
        dict_get(d, "DecodeParms"@) is None ==> (match filtered(a, data, None) {
            Ok(v) => stream_data(d, data) == filtered(b, v, None),
            Err(_) => stream_data(d, data) is Err,
        }),
{
    lemma_parms_entry(d, 0);
    lemma_key_pos(d, "DecodeParms"@, 0);
    lemma_key_pos(d, "DP"@, 0);
    let parms = parms_entry(d, 0);
    assert(parms == dict_get(d, "DecodeParms"@));
    let f = seq![ObjV::Name(a), ObjV::Name(b)];
    assert(f[0] == ObjV::Name(a) && f[1] == ObjV::Name(b) && f.len() == 2);
    let pq = seq![ObjV::Dict(p), ObjV::Dict(q)];
    assert(pq[0] == ObjV::Dict(p) && pq[1] == ObjV::Dict(q));
    let nq = seq![ObjV::Null, ObjV::Dict(q)];
    assert(nq[0] == ObjV::Null && nq[1] == ObjV::Dict(q));
    match filtered(a, data, parms_at(parms, 0)) {
        Ok(v) => {
            assert(crate::stream::chain_from(f, 0, data, parms) == crate::stream::chain_from(
                f,
                1,
                v,
                parms,
            ));
            match filtered(b, v, parms_at(parms, 1)) {
                Ok(w) => {
                    assert(crate::stream::chain_from(f, 2, w, parms) == Ok::<Seq<u8>, Seq<char>>(
                        w,
                    ));
                },
                Err(_) => {},
            }
        },
        Err(_) => {},
    }
}

/// A `/Filter` that is neither a name nor an array of names is refused.
pub proof fn law_bad_filter(d: DictV, n: i64, data: Seq<u8>)
    ensures
        dict_get(d, "Filter"@) == Some(ObjV::Integer(n)) ==> stream_data(d, data) is Err,
        dict_get(d, "Filter"@) == Some(ObjV::Array(seq![ObjV::Integer(n)])) ==> stream_data(
            d,
            data,
        ) is Err,
{
    let f = seq![ObjV::Integer(n)];
    assert(f[0] == ObjV::Integer(n));
}

} // verus!
