use oxideav_pdf::filters::{
    apply_predictor, ascii85_decode, ascii_hex_decode, flate_decompress, lzw_decode,
    lzw_decode_with_early_change, run_length_decode, PredictorParams,
};

#[test]
fn ascii85_decodes_canonical_man_example() {
    let encoded = b"9jqo^~>";
    let out = ascii85_decode(encoded).unwrap();
    assert_eq!(out, b"Man ");
}

#[test]
fn ascii85_z_shorthand_decodes_four_zero_bytes() {
    let out = ascii85_decode(b"z~>").unwrap();
    assert_eq!(out, [0u8, 0, 0, 0]);
}

#[test]
fn ascii_hex_basic() {
    let out = ascii_hex_decode(b"48656C6C6F>").unwrap();
    assert_eq!(out, b"Hello");
}

#[test]
fn ascii_hex_odd_nibble_pads_zero() {
    let out = ascii_hex_decode(b"414>").unwrap();
    assert_eq!(out, [0x41u8, 0x40]);
}

#[test]
fn run_length_literal_run() {
    // tag = 4 → copy 5 literal bytes; EOD = 128.
    let input = [4u8, b'h', b'e', b'l', b'l', b'o', 128];
    let out = run_length_decode(&input).unwrap();
    assert_eq!(out, b"hello");
}

#[test]
fn run_length_repeat_run() {
    // tag = -3 → 4 copies of the next byte. 256 - 3 = 253, but
    // two's-complement -3 is 253; (257 - 253) = 4.
    let input = [253u8, b'x', 128];
    let out = run_length_decode(&input).unwrap();
    assert_eq!(out, b"xxxx");
}

#[test]
fn run_length_mixed_runs() {
    // 1-byte literal "A" + 5-byte repeat of "B" + EOD.
    // tag 0 = 1 literal; tag (257-5)=252 = 5 repeats.
    let input = [0u8, b'A', 252, b'B', 128];
    let out = run_length_decode(&input).unwrap();
    assert_eq!(out, b"ABBBBB");
}

#[test]
fn run_length_no_eod_accepts_eof() {
    let input = [4u8, b'h', b'e', b'l', b'l', b'o'];
    let out = run_length_decode(&input).unwrap();
    assert_eq!(out, b"hello");
}

#[test]
fn lzw_decodes_spec_example_2() {
    let encoded = [0x80u8, 0x0B, 0x60, 0x50, 0x22, 0x0C, 0x0C, 0x85, 0x01];
    let out = lzw_decode(&encoded).unwrap();
    assert_eq!(out, [45u8, 45, 45, 45, 45, 65, 45, 45, 45, 66]);
}

#[test]
fn lzw_handles_clear_then_eod_only() {
    // A bare clear-table (256) immediately followed by EOD (257),
    // packed 9-bit MSB-first: 100000000 100000001
    //   = 1 0000 0000 1 0000 0001 → 0x80 0x80 0x80 (24 bits used,
    //   18 significant, padded with 0). Decodes to empty output.
    // 256 = 0b1_0000_0000, 257 = 0b1_0000_0001.
    let bits: u32 = (256 << 9) | 257; // 18 bits.
    let packed = [
        ((bits >> 10) & 0xFF) as u8,
        ((bits >> 2) & 0xFF) as u8,
        ((bits << 6) & 0xFF) as u8,
    ];
    let out = lzw_decode(&packed).unwrap();
    assert!(out.is_empty());
}

#[test]
fn lzw_truncated_stream_returns_partial_not_error() {
    // First three bytes of Example 2 (`80 0B 60`) carry codes
    // 256 (clear) + 45 ('-') with 6 leftover bits — no EOD. A
    // reader that runs out of bits returns what it decoded so far
    // rather than erroring (real-world writers truncate).
    let out = lzw_decode(&[0x80u8, 0x0B, 0x60]).unwrap();
    assert_eq!(out, [45u8]);
}

#[test]
fn lzw_round_trips_a_longer_payload() {
    let codes = [256u32, 97, 258, 259, 258, 257];
    let mut bit_buf: u64 = 0;
    let mut bit_cnt = 0u32;
    let mut packed = Vec::new();
    for c in codes {
        bit_buf = (bit_buf << 9) | c as u64;
        bit_cnt += 9;
        while bit_cnt >= 8 {
            bit_cnt -= 8;
            packed.push(((bit_buf >> bit_cnt) & 0xFF) as u8);
        }
    }
    if bit_cnt > 0 {
        packed.push(((bit_buf << (8 - bit_cnt)) & 0xFF) as u8);
    }
    let out = lzw_decode(&packed).unwrap();
    assert_eq!(out, b"aaaaaaaa");
}

#[test]
fn predictor_1_passes_through() {
    let data = [1u8, 2, 3, 4, 5];
    let p = PredictorParams {
        predictor: 1,
        ..Default::default()
    };
    assert_eq!(apply_predictor(&data, &p).unwrap(), data);
}

#[test]
fn png_up_predictor_round_trip() {
    // Two rows of 3 single-byte samples, Colors=1, BPC=8, bpp=1.
    // Undone rows: [10,20,30] and [11,22,33].
    // PNG-Up encode (tag 2): row0 has no prior → stored as itself
    // (tag 0); row1 = row1 - row0 = [1,2,3] with tag 2.
    let encoded = [
        0u8, 10, 20, 30, // row 0: tag None, raw values
        2, 1, 2, 3, // row 1: tag Up, deltas from row 0
    ];
    let p = PredictorParams {
        predictor: 12, // PNG-Up signalled (per-row tag authoritative)
        colors: 1,
        bits_per_component: 8,
        columns: 3,
    };
    let out = apply_predictor(&encoded, &p).unwrap();
    assert_eq!(out, [10u8, 20, 30, 11, 22, 33]);
}

#[test]
fn png_sub_predictor_respects_bpp() {
    // One row, Colors=3 (RGB), BPC=8 → bpp=3, columns=2 → 6 bytes.
    // Undone: [R0=50,G0=60,B0=70, R1=55,G1=66,B1=77].
    // PNG-Sub (tag 1): each byte minus the byte bpp(=3) back; the
    // first sample has no left neighbour (treated as 0).
    // Encoded data = [50,60,70, 5,6,7].
    let encoded = [1u8, 50, 60, 70, 5, 6, 7];
    let p = PredictorParams {
        predictor: 11,
        colors: 3,
        bits_per_component: 8,
        columns: 2,
    };
    let out = apply_predictor(&encoded, &p).unwrap();
    assert_eq!(out, [50u8, 60, 70, 55, 66, 77]);
}

#[test]
fn png_average_and_paeth_match_definitions() {
    // Single 1-byte-sample row exercising Average then Paeth.
    // Row 0 (tag None): [100]. Row 1 (tag Average): predict
    // floor((left=0 + up=100)/2)=50, raw stored = 30 → recon 80.
    // Row 2 (tag Paeth): left=0, up=80, up_left=0 → paeth=80; raw
    // stored 5 → recon 85.
    let encoded = [0u8, 100, 3, 30, 4, 5];
    let p = PredictorParams {
        predictor: 15,
        colors: 1,
        bits_per_component: 8,
        columns: 1,
    };
    let out = apply_predictor(&encoded, &p).unwrap();
    assert_eq!(out, [100u8, 80, 85]);
}

#[test]
fn tiff_predictor_2_eight_bit() {
    // Colors=1, BPC=8, columns=4. Undone row [5,10,15,20] encoded
    // as left-differences [5,5,5,5]; decode sums them back.
    let encoded = [5u8, 5, 5, 5];
    let p = PredictorParams {
        predictor: 2,
        colors: 1,
        bits_per_component: 8,
        columns: 4,
    };
    let out = apply_predictor(&encoded, &p).unwrap();
    assert_eq!(out, [5u8, 10, 15, 20]);
}

#[test]
fn tiff_predictor_2_rgb_interleaved() {
    // Colors=3, BPC=8, columns=2 → 6 bytes. Undone
    // [10,20,30, 40,60,80]; left-diff per component is
    // [10,20,30, 30,40,50] (sample 1 minus sample 0 per channel).
    let encoded = [10u8, 20, 30, 30, 40, 50];
    let p = PredictorParams {
        predictor: 2,
        colors: 3,
        bits_per_component: 8,
        columns: 2,
    };
    let out = apply_predictor(&encoded, &p).unwrap();
    assert_eq!(out, [10u8, 20, 30, 40, 60, 80]);
}

#[test]
fn tiff_predictor_2_four_bit_components() {
    // Colors=1, BPC=4, columns=4 → 4 components in 2 bytes.
    // Undone components [3,5,8,12]; left-diffs [3,2,3,4] modulo
    // 16. Packed big-end-first: byte0 = 0x32, byte1 = 0x34.
    let encoded = [0x32u8, 0x34];
    let p = PredictorParams {
        predictor: 2,
        colors: 1,
        bits_per_component: 4,
        columns: 4,
    };
    let out = apply_predictor(&encoded, &p).unwrap();
    // Reconstructed components [3,5,8,12] → packed 0x35, 0x8C.
    assert_eq!(out, [0x35u8, 0x8C]);
}

#[test]
fn png_predictor_rejects_misaligned_data() {
    // 3-byte data with stride 4 (columns=3 + tag) does not divide.
    let p = PredictorParams {
        predictor: 12,
        colors: 1,
        bits_per_component: 8,
        columns: 3,
    };
    assert!(apply_predictor(&[2u8, 1, 2], &p).is_err());
}

#[test]
fn flate_data_are_inflated() {
    let raw = b"the same bytes, the same bytes, the same bytes";
    let packed = compcol::vec::compress_to_vec::<compcol::zlib::Zlib>(raw).unwrap();
    assert_ne!(packed, raw);
    assert_eq!(flate_decompress(&packed).unwrap(), raw);
    let err = flate_decompress(&packed[..packed.len() / 2]).unwrap_err();
    assert!(err.to_string().contains("not a valid zlib stream"));
}

/// Codes of a few bits each, high bits first.
fn pack(codes: &[(u32, u32)]) -> Vec<u8> {
    let bits: Vec<u8> = codes
        .iter()
        .flat_map(|(code, width)| (0..*width).rev().map(move |i| (code >> i & 1) as u8))
        .collect();
    bits.chunks(8)
        .map(|c| c.iter().enumerate().fold(0, |b, (i, bit)| b | bit << (7 - i)))
        .collect()
}

#[test]
fn lzw_codes_grow_early_or_late() {
    // 254 codes of one byte fill the table up to code 510, so the next entry
    // gets code 511.
    let mut codes = vec![(256, 9)];
    codes.extend((0..254).map(|i| (i % 256, 9)));
    let mut early = codes.clone();
    early.extend([(7, 10), (257, 10)]);
    let mut late = codes;
    late.extend([(7, 9), (257, 10)]);
    let mut expected: Vec<u8> = (0..254).map(|i| i as u8).collect();
    expected.push(7);
    assert_eq!(lzw_decode_with_early_change(&pack(&early), true).unwrap(), expected);
    assert_eq!(lzw_decode_with_early_change(&pack(&late), false).unwrap(), expected);
}

#[test]
fn lzw_codes_must_be_known() {
    let first = lzw_decode(&pack(&[(256, 9), (258, 9)])).unwrap_err();
    assert!(first.to_string().contains("first code references empty table"));
    let far = lzw_decode(&pack(&[(256, 9), (65, 9), (300, 9)])).unwrap_err();
    assert!(far.to_string().contains("LZW code 300 out of range (next free 258)"));
}
