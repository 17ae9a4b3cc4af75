//! Laws of encodings: what the codes of fonts stand for.

use vstd::prelude::*;
use crate::encoding::{
    base_char, base_named, base_slots, code_groups, decoded_bytes, differences_from, glyph_text,
    running_code, spelled_out, upper_hex_digit, upper_hex_number, BaseEncoding,
};
use crate::objects::ObjV;
use crate::text::{char_of, has_code, is_char_code};

verus! {

/// A code has the character with this number, or none where it is 0.
pub open spec fn stands_for(c: Option<char>, n: int) -> bool {
    if n == 0 {
        c is None
    } else {
        c matches Some(c) && c as int == n
    }
}

/// The characters of WinAnsi between ASCII and Latin-1, from code 0x80 on; 0 for a code without one.
pub open spec fn win_ansi_codes() -> Seq<int> {
    seq![
        0x20AC, 0x0000, 0x201A, 0x0192, 0x201E, 0x2026, 0x2020, 0x2021,
        0x02C6, 0x2030, 0x0160, 0x2039, 0x0152, 0x0000, 0x017D, 0x0000,
        0x0000, 0x2018, 0x2019, 0x201C, 0x201D, 0x2022, 0x2013, 0x2014,
        0x02DC, 0x2122, 0x0161, 0x203A, 0x0153, 0x0000, 0x017E, 0x0178,
    ]
}

/// The codes of WinAnsi from 0x80 on stand for these characters.
pub proof fn law_win_ansi_codes(b: u8)
    requires
        0x80 <= b < 0xA0,
    ensures
        stands_for(base_char(BaseEncoding::WinAnsi, b), win_ansi_codes()[b - 0x80]),
{
    reveal_strlit("\u{20AC}\0\u{201A}\u{0192}\u{201E}\u{2026}\u{2020}\u{2021}\u{02C6}\u{2030}\u{0160}\u{2039}\u{0152}\0\u{017D}\0\0\u{2018}\u{2019}\u{201C}\u{201D}\u{2022}\u{2013}\u{2014}\u{02DC}\u{2122}\u{0161}\u{203A}\u{0153}\0\u{017E}\u{0178}");
}

/// The characters of MacRoman behind ASCII, from code 0x80 on; 0 for a code without one.
pub open spec fn mac_roman_codes() -> Seq<int> {
    seq![
        0x00C4, 0x00C5, 0x00C7, 0x00C9, 0x00D1, 0x00D6, 0x00DC, 0x00E1,
        0x00E0, 0x00E2, 0x00E4, 0x00E3, 0x00E5, 0x00E7, 0x00E9, 0x00E8,
        0x00EA, 0x00EB, 0x00ED, 0x00EC, 0x00EE, 0x00EF, 0x00F1, 0x00F3,
        0x00F2, 0x00F4, 0x00F6, 0x00F5, 0x00FA, 0x00F9, 0x00FB, 0x00FC,
        0x2020, 0x00B0, 0x00A2, 0x00A3, 0x00A7, 0x2022, 0x00B6, 0x00DF,
        0x00AE, 0x00A9, 0x2122, 0x00B4, 0x00A8, 0x2260, 0x00C6, 0x00D8,
        0x221E, 0x00B1, 0x2264, 0x2265, 0x00A5, 0x00B5, 0x2202, 0x2211,
        0x220F, 0x03C0, 0x222B, 0x00AA, 0x00BA, 0x03A9, 0x00E6, 0x00F8,
        0x00BF, 0x00A1, 0x00AC, 0x221A, 0x0192, 0x2248, 0x2206, 0x00AB,
        0x00BB, 0x2026, 0x00A0, 0x00C0, 0x00C3, 0x00D5, 0x0152, 0x0153,
        0x2013, 0x2014, 0x201C, 0x201D, 0x2018, 0x2019, 0x00F7, 0x25CA,
        0x00FF, 0x0178, 0x2044, 0x20AC, 0x2039, 0x203A, 0xFB01, 0xFB02,
        0x2021, 0x00B7, 0x201A, 0x201E, 0x2030, 0x00C2, 0x00CA, 0x00C1,
        0x00CB, 0x00C8, 0x00CD, 0x00CE, 0x00CF, 0x00CC, 0x00D3, 0x00D4,
        0x0000, 0x00D2, 0x00DA, 0x00DB, 0x00D9, 0x0131, 0x02C6, 0x02DC,
        0x00AF, 0x02D8, 0x02D9, 0x02DA, 0x00B8, 0x02DD, 0x02DB, 0x02C7,
    ]
}

/// The codes of MacRoman from 0x80 on stand for these characters.
pub proof fn law_mac_roman_codes(b: u8)
    requires
        0x80 <= b < 0x100,
    ensures
        stands_for(base_char(BaseEncoding::MacRoman, b), mac_roman_codes()[b - 0x80]),
{
    reveal_strlit("\u{00C4}\u{00C5}\u{00C7}\u{00C9}\u{00D1}\u{00D6}\u{00DC}\u{00E1}\u{00E0}\u{00E2}\u{00E4}\u{00E3}\u{00E5}\u{00E7}\u{00E9}\u{00E8}\u{00EA}\u{00EB}\u{00ED}\u{00EC}\u{00EE}\u{00EF}\u{00F1}\u{00F3}\u{00F2}\u{00F4}\u{00F6}\u{00F5}\u{00FA}\u{00F9}\u{00FB}\u{00FC}\u{2020}\u{00B0}\u{00A2}\u{00A3}\u{00A7}\u{2022}\u{00B6}\u{00DF}\u{00AE}\u{00A9}\u{2122}\u{00B4}\u{00A8}\u{2260}\u{00C6}\u{00D8}\u{221E}\u{00B1}\u{2264}\u{2265}\u{00A5}\u{00B5}\u{2202}\u{2211}\u{220F}\u{03C0}\u{222B}\u{00AA}\u{00BA}\u{03A9}\u{00E6}\u{00F8}\u{00BF}\u{00A1}\u{00AC}\u{221A}\u{0192}\u{2248}\u{2206}\u{00AB}\u{00BB}\u{2026}\u{00A0}\u{00C0}\u{00C3}\u{00D5}\u{0152}\u{0153}\u{2013}\u{2014}\u{201C}\u{201D}\u{2018}\u{2019}\u{00F7}\u{25CA}\u{00FF}\u{0178}\u{2044}\u{20AC}\u{2039}\u{203A}\u{FB01}\u{FB02}\u{2021}\u{00B7}\u{201A}\u{201E}\u{2030}\u{00C2}\u{00CA}\u{00C1}\u{00CB}\u{00C8}\u{00CD}\u{00CE}\u{00CF}\u{00CC}\u{00D3}\u{00D4}\0\u{00D2}\u{00DA}\u{00DB}\u{00D9}\u{0131}\u{02C6}\u{02DC}\u{00AF}\u{02D8}\u{02D9}\u{02DA}\u{00B8}\u{02DD}\u{02DB}\u{02C7}");
}

/// The characters of MacExpert, from code 0x20 on; 0 for a code without one.
pub open spec fn mac_expert_codes() -> Seq<int> {
    seq![
        0x0020, 0xF721, 0xF6F8, 0xF7A2, 0xF724, 0xF6E4, 0xF726, 0xF7B4,
        0x207D, 0x207E, 0x2022, 0x2024, 0x002C, 0x002D, 0x002E, 0x2044,
        0xF730, 0xF731, 0xF732, 0xF733, 0xF734, 0xF735, 0xF736, 0xF737,
        0xF738, 0xF739, 0x003A, 0x003B, 0x0000, 0xF6DE, 0x0000, 0xF73F,
    ]
}

/// The codes of MacExpert from 0x20 on stand for these characters.
pub proof fn law_mac_expert_codes(b: u8)
    requires
        0x20 <= b < 0x40,
    ensures
        stands_for(base_char(BaseEncoding::MacExpert, b), mac_expert_codes()[b - 0x20]),
{
    reveal_strlit(" \u{F721}\u{F6F8}\u{F7A2}\u{F724}\u{F6E4}\u{F726}\u{F7B4}\u{207D}\u{207E}\u{2022}\u{2024},-.\u{2044}\u{F730}\u{F731}\u{F732}\u{F733}\u{F734}\u{F735}\u{F736}\u{F737}\u{F738}\u{F739}:;\0\u{F6DE}\0\u{F73F}");
}

/// The characters of Standard behind ASCII, from code 0xA1 on; 0 for a code without one.
pub open spec fn standard_codes() -> Seq<int> {
    seq![
        0x00A1, 0x00A2, 0x00A3, 0x2044, 0x00A5, 0x0192, 0x00A7, 0x00A4,
        0x0027, 0x201C, 0x00AB, 0x2039, 0x203A, 0xFB01, 0xFB02, 0x0000,
        0x2013, 0x2020, 0x2021, 0x00B7, 0x0000, 0x00B6, 0x2022, 0x201A,
        0x201E, 0x201D, 0x00BB, 0x2026, 0x2030, 0x0000, 0x00BF, 0x0000,
        0x0060, 0x00B4, 0x02C6, 0x02DC, 0x00AF, 0x02D8, 0x02D9, 0x00A8,
        0x0000, 0x02DA, 0x00B8, 0x0000, 0x02DD, 0x02DB, 0x02C7, 0x2014,
        0x0000, 0x0000, 0x0000, 0x0000, 0x0000, 0x0000, 0x0000, 0x0000,
        0x0000, 0x0000, 0x0000, 0x0000, 0x0000, 0x0000, 0x0000, 0x0000,
        0x00C6, 0x0000, 0x00AA, 0x0000, 0x0000, 0x0000, 0x0000, 0x0141,
        0x00D8, 0x0152, 0x00BA, 0x0000, 0x0000, 0x0000, 0x0000, 0x0000,
        0x00E6, 0x0000, 0x0000, 0x0000, 0x0131, 0x0000, 0x0000, 0x0142,
        0x00F8, 0x0153, 0x00DF,
    ]
}

/// The codes of Standard from 0xA1 on stand for these characters.
pub proof fn law_standard_codes(b: u8)
    requires
        0xA1 <= b < 0xFC,
    ensures
        stands_for(base_char(BaseEncoding::Standard, b), standard_codes()[b - 0xA1]),
{
    reveal_strlit("\u{00A1}\u{00A2}\u{00A3}\u{2044}\u{00A5}\u{0192}\u{00A7}\u{00A4}'\u{201C}\u{00AB}\u{2039}\u{203A}\u{FB01}\u{FB02}\0\u{2013}\u{2020}\u{2021}\u{00B7}\0\u{00B6}\u{2022}\u{201A}\u{201E}\u{201D}\u{00BB}\u{2026}\u{2030}\0\u{00BF}\0`\u{00B4}\u{02C6}\u{02DC}\u{00AF}\u{02D8}\u{02D9}\u{00A8}\0\u{02DA}\u{00B8}\0\u{02DD}\u{02DB}\u{02C7}\u{2014}\0\0\0\0\0\0\0\0\0\0\0\0\0\0\0\0\u{00C6}\0\u{00AA}\0\0\0\0\u{0141}\u{00D8}\u{0152}\u{00BA}\0\0\0\0\0\u{00E6}\0\0\0\u{0131}\0\0\u{0142}\u{00F8}\u{0153}\u{00DF}");
}

/// The characters of Symbol, from code 0x20 on; 0 for a code without one.
pub open spec fn symbol_codes() -> Seq<int> {
    seq![
        0x0020, 0x0021, 0x2200, 0x0023, 0x2203, 0x0025, 0x0026, 0x220B,
        0x0028, 0x0029, 0x2217, 0x002B, 0x002C, 0x2212, 0x002E, 0x002F,
        0x0030, 0x0031, 0x0032, 0x0033, 0x0034, 0x0035, 0x0036, 0x0037,
        0x0038, 0x0039, 0x003A, 0x003B, 0x003C, 0x003D, 0x003E, 0x003F,
        0x2245, 0x0391, 0x0392, 0x03A7, 0x0394, 0x0395, 0x03A6, 0x0393,
        0x0397, 0x0399, 0x03D1, 0x039A, 0x039B, 0x039C, 0x039D, 0x039F,
        0x03A0, 0x0398, 0x03A1, 0x03A3, 0x03A4, 0x03A5, 0x03C2, 0x03A9,
        0x039E, 0x03A8, 0x0396, 0x0000, 0x0000, 0x0000, 0x0000, 0x0000,
        0x0000, 0x03B1, 0x03B2, 0x03C7, 0x03B4, 0x03B5, 0x03C6, 0x03B3,
        0x03B7, 0x03B9, 0x03D5, 0x03BA, 0x03BB, 0x03BC, 0x03BD, 0x03BF,
        0x03C0, 0x03B8, 0x03C1, 0x03C3, 0x03C4, 0x03C5, 0x03D6, 0x03C9,
        0x03BE, 0x03C8, 0x03B6,
    ]
}

/// The codes of Symbol from 0x20 on stand for these characters.
pub proof fn law_symbol_codes(b: u8)
    requires
        0x20 <= b < 0x7B,
    ensures
        stands_for(base_char(BaseEncoding::Symbol, b), symbol_codes()[b - 0x20]),
{
    reveal_strlit(" !\u{2200}#\u{2203}%&\u{220B}()\u{2217}+,\u{2212}./0123456789:;<=>?\u{2245}\u{0391}\u{0392}\u{03A7}\u{0394}\u{0395}\u{03A6}\u{0393}\u{0397}\u{0399}\u{03D1}\u{039A}\u{039B}\u{039C}\u{039D}\u{039F}\u{03A0}\u{0398}\u{03A1}\u{03A3}\u{03A4}\u{03A5}\u{03C2}\u{03A9}\u{039E}\u{03A8}\u{0396}\0\0\0\0\0\0\u{03B1}\u{03B2}\u{03C7}\u{03B4}\u{03B5}\u{03C6}\u{03B3}\u{03B7}\u{03B9}\u{03D5}\u{03BA}\u{03BB}\u{03BC}\u{03BD}\u{03BF}\u{03C0}\u{03B8}\u{03C1}\u{03C3}\u{03C4}\u{03C5}\u{03D6}\u{03C9}\u{03BE}\u{03C8}\u{03B6}");
}

/// The characters of ZapfDingbats, from code 0x20 on; 0 for a code without one.
pub open spec fn zapf_dingbats_codes() -> Seq<int> {
    seq![
        0x0020, 0x2701, 0x2702, 0x2703, 0x2704, 0x260E, 0x2706, 0x2707,
        0x2708, 0x2709, 0x261B, 0x261E, 0x270C, 0x270D, 0x270E, 0x270F,
        0x2710, 0x2711, 0x2712, 0x2713, 0x2714, 0x2715, 0x2716, 0x2717,
        0x2718, 0x2719, 0x271A, 0x271B, 0x271C, 0x271D, 0x271E, 0x271F,
        0x2720, 0x2721, 0x2722, 0x2723,
    ]
}

/// The codes of ZapfDingbats from 0x20 on stand for these characters.
pub proof fn law_zapf_dingbats_codes(b: u8)
    requires
        0x20 <= b < 0x44,
    ensures
        stands_for(base_char(BaseEncoding::ZapfDingbats, b), zapf_dingbats_codes()[b - 0x20]),
{
    reveal_strlit(" \u{2701}\u{2702}\u{2703}\u{2704}\u{260E}\u{2706}\u{2707}\u{2708}\u{2709}\u{261B}\u{261E}\u{270C}\u{270D}\u{270E}\u{270F}\u{2710}\u{2711}\u{2712}\u{2713}\u{2714}\u{2715}\u{2716}\u{2717}\u{2718}\u{2719}\u{271A}\u{271B}\u{271C}\u{271D}\u{271E}\u{271F}\u{2720}\u{2721}\u{2722}\u{2723}");
}

/// In WinAnsi every printable ASCII code and every code from 0xA0 on is the
/// character with that number.
pub proof fn law_win_ansi_latin(bytes: Seq<u8>)
    requires
        forall|i: int|
            0 <= i < bytes.len() ==> 0x20 <= #[trigger] bytes[i] <= 0x7E || bytes[i] >= 0xA0,
    ensures
        decoded_bytes(base_slots(BaseEncoding::WinAnsi), bytes).len() == bytes.len(),
        forall|i: int|
            0 <= i < bytes.len() ==> #[trigger] decoded_bytes(
                base_slots(BaseEncoding::WinAnsi),
                bytes,
            )[i] as int == bytes[i] as int,
    decreases bytes.len(),
{
    if bytes.len() > 0 {
        let b = bytes.last();
        assert(0x20 <= bytes[bytes.len() - 1] <= 0x7E || bytes[bytes.len() - 1] >= 0xA0);
        assert forall|i: int| 0 <= i < bytes.drop_last().len() implies 0x20
            <= #[trigger] bytes.drop_last()[i] <= 0x7E || bytes.drop_last()[i] >= 0xA0 by {
            assert(bytes.drop_last()[i] == bytes[i]);
        }
        law_win_ansi_latin(bytes.drop_last());
        assert(base_slots(BaseEncoding::WinAnsi)[b as int] == seq![b as char]);
    }
}

/// In MacRoman and in Standard every printable ASCII code is the character with
/// that number, but for the two quotes of Standard, which are curly.
pub proof fn law_ascii_codes(b: u8)
    ensures
        0x20 <= b <= 0x7E ==> stands_for(base_char(BaseEncoding::MacRoman, b), b as int),
        0x20 <= b <= 0x7E && b != 0x27 && b != 0x60 ==> stands_for(
            base_char(BaseEncoding::Standard, b),
            b as int,
        ),
        stands_for(base_char(BaseEncoding::Standard, 0x27), 0x2019),
        stands_for(base_char(BaseEncoding::Standard, 0x60), 0x2018),
{
}

/// Control codes have no character in any encoding, nor have the codes behind the
/// tables.
pub proof fn law_no_character(base: BaseEncoding, b: u8)
    ensures
        b < 0x20 ==> base_char(base, b) is None,
        b == 0x7F && base != BaseEncoding::Symbol ==> base_char(base, b) is None,
        0x80 <= b <= 0xA0 ==> base_char(BaseEncoding::Standard, b) is None,
        0xFC <= b ==> base_char(BaseEncoding::Standard, b) is None,
{
    reveal_strlit("\u{00A1}\u{00A2}\u{00A3}\u{2044}\u{00A5}\u{0192}\u{00A7}\u{00A4}'\u{201C}\u{00AB}\u{2039}\u{203A}\u{FB01}\u{FB02}\0\u{2013}\u{2020}\u{2021}\u{00B7}\0\u{00B6}\u{2022}\u{201A}\u{201E}\u{201D}\u{00BB}\u{2026}\u{2030}\0\u{00BF}\0`\u{00B4}\u{02C6}\u{02DC}\u{00AF}\u{02D8}\u{02D9}\u{00A8}\0\u{02DA}\u{00B8}\0\u{02DD}\u{02DB}\u{02C7}\u{2014}\0\0\0\0\0\0\0\0\0\0\0\0\0\0\0\0\u{00C6}\0\u{00AA}\0\0\0\0\u{0141}\u{00D8}\u{0152}\u{00BA}\0\0\0\0\0\u{00E6}\0\0\0\u{0131}\0\0\u{0142}\u{00F8}\u{0153}\u{00DF}");
    reveal_strlit(" \u{F721}\u{F6F8}\u{F7A2}\u{F724}\u{F6E4}\u{F726}\u{F7B4}\u{207D}\u{207E}\u{2022}\u{2024},-.\u{2044}\u{F730}\u{F731}\u{F732}\u{F733}\u{F734}\u{F735}\u{F736}\u{F737}\u{F738}\u{F739}:;\0\u{F6DE}\0\u{F73F}");
    reveal_strlit(" !\u{2200}#\u{2203}%&\u{220B}()\u{2217}+,\u{2212}./0123456789:;<=>?\u{2245}\u{0391}\u{0392}\u{03A7}\u{0394}\u{0395}\u{03A6}\u{0393}\u{0397}\u{0399}\u{03D1}\u{039A}\u{039B}\u{039C}\u{039D}\u{039F}\u{03A0}\u{0398}\u{03A1}\u{03A3}\u{03A4}\u{03A5}\u{03C2}\u{03A9}\u{039E}\u{03A8}\u{0396}\0\0\0\0\0\0\u{03B1}\u{03B2}\u{03C7}\u{03B4}\u{03B5}\u{03C6}\u{03B3}\u{03B7}\u{03B9}\u{03D5}\u{03BA}\u{03BB}\u{03BC}\u{03BD}\u{03BF}\u{03C0}\u{03B8}\u{03C1}\u{03C3}\u{03C4}\u{03C5}\u{03D6}\u{03C9}\u{03BE}\u{03C8}\u{03B6}");
    reveal_strlit(" \u{2701}\u{2702}\u{2703}\u{2704}\u{260E}\u{2706}\u{2707}\u{2708}\u{2709}\u{261B}\u{261E}\u{270C}\u{270D}\u{270E}\u{270F}\u{2710}\u{2711}\u{2712}\u{2713}\u{2714}\u{2715}\u{2716}\u{2717}\u{2718}\u{2719}\u{271A}\u{271B}\u{271C}\u{271D}\u{271E}\u{271F}\u{2720}\u{2721}\u{2722}\u{2723}");
}

/// A code without a character decodes to U+FFFD, and a code with one to that.
pub proof fn law_decoded_code(base: BaseEncoding, b: u8)
    ensures
        base_char(base, b) is None ==> (decoded_bytes(base_slots(base), seq![b]).len() == 1
            && decoded_bytes(base_slots(base), seq![b])[0] as int == 0xFFFD),
        base_char(base, b) matches Some(c) ==> decoded_bytes(base_slots(base), seq![b]) == seq![c],
{
    let s = seq![b];
    assert(s.drop_last() =~= Seq::empty());
    assert(s.last() == b);
    let slots = base_slots(base);
    assert(decoded_bytes(slots, s.drop_last()) =~= Seq::empty());
    assert(decoded_bytes(slots, s) =~= crate::encoding::decoded_byte(slots, b));
}

/// The six encodings by their names; no other name is one.
pub proof fn law_encoding_names(name: Seq<char>)
    ensures
        base_named("WinAnsiEncoding"@) == Some(BaseEncoding::WinAnsi),
        base_named("MacRomanEncoding"@) == Some(BaseEncoding::MacRoman),
        base_named("MacExpertEncoding"@) == Some(BaseEncoding::MacExpert),
        base_named("StandardEncoding"@) == Some(BaseEncoding::Standard),
        base_named("SymbolEncoding"@) == Some(BaseEncoding::Symbol),
        base_named("ZapfDingbatsEncoding"@) == Some(BaseEncoding::ZapfDingbats),
        name.len() < 14 || name.len() > 20 ==> base_named(name) is None,
{
    reveal_strlit("WinAnsiEncoding");
    reveal_strlit("MacRomanEncoding");
    reveal_strlit("MacExpertEncoding");
    reveal_strlit("StandardEncoding");
    reveal_strlit("SymbolEncoding");
    reveal_strlit("ZapfDingbatsEncoding");
    assert("WinAnsiEncoding"@.len() == 15 && "MacRomanEncoding"@.len() == 16
        && "MacExpertEncoding"@.len() == 17 && "StandardEncoding"@.len() == 16
        && "SymbolEncoding"@.len() == 14 && "ZapfDingbatsEncoding"@.len() == 20);
    assert("StandardEncoding"@[0] == 'S' && "MacRomanEncoding"@[0] == 'M');
}

// ------------------------------------------------------------ differences

/// Names, as the items of an array.
pub open spec fn name_items(names: Seq<Seq<char>>) -> Seq<ObjV> {
    Seq::new(names.len(), |i: int| ObjV::Name(names[i]))
}

proof fn lemma_number(items: Seq<ObjV>, at: int, c: i64, running: Option<int>)
    requires
        0 <= at < items.len(),
        items[at] == ObjV::Integer(c),
        0 <= c <= 255,
    ensures
        differences_from(items, at, running) == differences_from(items, at + 1, Some(c as int)),
{
}

proof fn lemma_named_run(items: Seq<ObjV>, at: int, names: Seq<Seq<char>>, c: int, k: int)
    requires
        0 <= at,
        at + names.len() <= items.len(),
        0 <= k <= names.len(),
        forall|i: int| 0 <= i < names.len() ==> items[at + i] == ObjV::Name(#[trigger] names[i]),
        0 <= c,
        c + names.len() <= 256,
    ensures
        differences_from(items, at + k, Some(c + k)) == Seq::new(
            (names.len() - k) as nat,
            |i: int| ((c + k + i) as u8, names[k + i]),
        ) + differences_from(items, at + names.len(), Some(c + names.len())),
    decreases names.len() - k,
{
    let n = names.len() as int;
    if k < n {
        lemma_named_run(items, at, names, c, k + 1);
        assert(items[at + k] == ObjV::Name(names[k]));
        let rest = differences_from(items, at + n, Some(c + n));
        let a = Seq::new((n - k) as nat, |i: int| ((c + k + i) as u8, names[k + i]));
        let b = Seq::new((n - k - 1) as nat, |i: int| ((c + k + 1 + i) as u8, names[k + 1 + i]));
        assert(seq![((c + k) as u8, names[k])] + (b + rest) =~= a + rest);
    } else {
        let none = Seq::new(0, |i: int| ((c + k + i) as u8, names[k + i]));
        let rest = differences_from(items, at + n, Some(c + n));
        assert(none + rest =~= rest);
    }
}

/// The names behind a number in a `/Differences` array take that code and the
/// codes behind it, one by one, until the next number.
pub proof fn law_differences_run(c: i64, names: Seq<Seq<char>>, d: i64, more: Seq<Seq<char>>)
    requires
        0 <= c <= 255,
        c + names.len() <= 256,
        0 <= d <= 255,
        d + more.len() <= 256,
    ensures
        differences_from(
            seq![ObjV::Integer(c)] + name_items(names) + (seq![ObjV::Integer(d)] + name_items(
                more,
            )),
            0,
            None,
        ) == Seq::new(names.len(), |i: int| ((c + i) as u8, names[i])) + Seq::new(
            more.len(),
            |i: int| ((d + i) as u8, more[i]),
        ),
{
    let items = seq![ObjV::Integer(c)] + name_items(names) + (seq![ObjV::Integer(d)] + name_items(
        more,
    ));
    let n = names.len() as int;
    let m = more.len() as int;
    assert forall|i: int| 0 <= i < n implies items[1 + i] == ObjV::Name(#[trigger] names[i]) by {}
    assert forall|i: int| 0 <= i < m implies items[n + 2 + i] == ObjV::Name(#[trigger] more[i]) by {
    }
    assert(items[0] == ObjV::Integer(c));
    assert(items[n + 1] == ObjV::Integer(d));
    lemma_named_run(items, 1, names, c as int, 0);
    lemma_named_run(items, n + 2, more, d as int, 0);
    let e = differences_from(items, n + 2 + m, Some(d + m));
    assert(e =~= Seq::empty());
    lemma_number(items, 0, c, None);
    lemma_number(items, n + 1, d, Some(c + n));
    let a = Seq::new(names.len(), |i: int| ((c + i) as u8, names[i]));
    let b = Seq::new(more.len(), |i: int| ((d + i) as u8, more[i]));
    assert(Seq::new((n - 0) as nat, |i: int| ((c + 0 + i) as u8, names[0 + i])) =~= a);
    assert(Seq::new((m - 0) as nat, |i: int| ((d + 0 + i) as u8, more[0 + i])) =~= b);
    assert(b + e =~= b);
}

/// A name without a number in front of it is passed over, a number beyond the
/// codes does not count, and no name goes behind code 255.
pub proof fn law_differences_ignored(name: Seq<char>, n: i64, running: Option<int>)
    ensures
        differences_from(seq![ObjV::Name(name)], 0, None) == Seq::<(u8, Seq<char>)>::empty(),
        differences_from(seq![ObjV::Name(name)], 0, Some(256)) == Seq::<
            (u8, Seq<char>),
        >::empty(),
        n < 0 || n > 255 ==> running_code(n, running) == running,
{
    let s = seq![ObjV::Name(name)];
    assert(s[0] == ObjV::Name(name));
    assert(differences_from(s, 1, None) =~= Seq::empty());
    assert(differences_from(s, 1, Some(256)) =~= Seq::empty());
}

// ------------------------------------------------------------ glyph names

/// The hexadecimal digit of a value, as a capital.
pub open spec fn capital(v: int) -> char {
    if v < 10 {
        (0x30 + v) as u8 as char
    } else {
        (0x41 + (v - 10)) as u8 as char
    }
}

/// Four digits for a code below 0x10000.
pub open spec fn four_digits(v: int) -> Seq<char> {
    seq![
        capital(v / 4096),
        capital((v / 256) % 16),
        capital((v / 16) % 16),
        capital(v % 16),
    ]
}

proof fn lemma_capital(v: int)
    requires
        0 <= v < 16,
    ensures
        upper_hex_digit(capital(v)) == Some(v),
{
}

#[verifier::rlimit(50)]
proof fn lemma_four(v: int)
    requires
        0 <= v < 0x10000,
    ensures
        upper_hex_number(four_digits(v)) == Some(v),
{
    reveal_with_fuel(upper_hex_number, 5);
    let t = four_digits(v);
    lemma_capital(v / 4096);
    lemma_capital((v / 256) % 16);
    lemma_capital((v / 16) % 16);
    lemma_capital(v % 16);
    let t3 = t.drop_last();
    let t2 = t3.drop_last();
    let t1 = t2.drop_last();
    assert(t1.drop_last() =~= Seq::empty());
    assert(t.last() == capital(v % 16) && t3.last() == capital((v / 16) % 16) && t2.last() == capital(
        (v / 256) % 16,
    ) && t1.last() == capital(v / 4096));
    assert(((v / 4096 * 16 + (v / 256) % 16) * 16 + (v / 16) % 16) * 16 + v % 16 == v);
}

/// A glyph name that is `u` or `uni` and four digits stands for the character with
/// that code; a surrogate is no character, and nor is U+FFFF.
pub proof fn law_uni_name(v: int)
    requires
        0 <= v < 0x10000,
    ensures
        ({
            let u = spelled_out(seq!['u'] + four_digits(v));
            let uni = spelled_out(seq!['u', 'n', 'i'] + four_digits(v));
            if 0xD800 <= v <= 0xDFFF || v == 0xFFFF {
                u is None && uni is None
            } else {
                (u matches Some(t) && t.len() == 1 && has_code(t[0], v)) && (
                uni matches Some(t) && t.len() == 1 && has_code(t[0], v))
            }
        }),
{
    lemma_four(v);
    let d = four_digits(v);
    let a = seq!['u'] + d;
    let b = seq!['u', 'n', 'i'] + d;
    assert(a.skip(1) =~= d);
    assert(b.skip(3) =~= d);
    assert(a[1] == d[0]);
    assert(d.take(0) =~= Seq::empty());
    assert(d.skip(0) =~= d);
    reveal_with_fuel(code_groups, 2);
    if is_char_code(v) {
        lemma_char_exists(v);
    }
}

proof fn lemma_char_exists(v: int)
    requires
        is_char_code(v),
    ensures
        has_code(char_of(v), v),
{
    let c = v as u32 as char;
    assert(has_code(c, v));
}

/// The last `k` hexadecimal digits of a code.
pub open spec fn code_digits(v: int, k: int) -> Seq<char>
    decreases k,
{
    if k <= 0 {
        Seq::empty()
    } else {
        code_digits(v / 16, k - 1).push(capital(v % 16))
    }
}

proof fn lemma_code_digits(v: int, k: int)
    requires
        0 <= v,
        0 <= k <= 6,
        k == 0 ==> v < 1,
        k == 1 ==> v < 0x10,
        k == 2 ==> v < 0x100,
        k == 3 ==> v < 0x1000,
        k == 4 ==> v < 0x10000,
        k == 5 ==> v < 0x100000,
        k == 6 ==> v < 0x1000000,
    ensures
        code_digits(v, k).len() == k,
        upper_hex_number(code_digits(v, k)) == Some(v),
        forall|i: int| 0 <= i < k ==> #[trigger] code_digits(v, k)[i] != 'n',
    decreases k,
{
    if k > 0 {
        lemma_code_digits(v / 16, k - 1);
        lemma_capital(v % 16);
        let t = code_digits(v, k);
        assert(t.drop_last() =~= code_digits(v / 16, k - 1));
        assert(t.last() == capital(v % 16));
        assert(v == (v / 16) * 16 + v % 16);
        assert forall|i: int| 0 <= i < k implies #[trigger] t[i] != 'n' by {
            if i < k - 1 {
                assert(t[i] == code_digits(v / 16, k - 1)[i]);
            }
        }
    }
}

/// A glyph name that is `u` and four to six digits stands for the character with that
/// code; there is none beyond U+10FFFF.
pub proof fn law_u_name(v: int, k: int)
    requires
        4 <= k <= 6,
        0 <= v,
        k == 4 ==> v < 0x10000,
        k == 5 ==> v < 0x100000,
        k == 6 ==> v < 0x1000000,
    ensures
        ({
            let u = spelled_out(seq!['u'] + code_digits(v, k));
            if 0xD800 <= v <= 0xDFFF || v == 0xFFFF || v > 0x10FFFF {
                u is None
            } else {
                u matches Some(t) && t.len() == 1 && t[0] as int == v
            }
        }),
{
    lemma_code_digits(v, k);
    let d = code_digits(v, k);
    let a = seq!['u'] + d;
    assert(a.skip(1) =~= d);
    assert(a[1] == d[0]);
    assert(a[0] == 'u');
    if is_char_code(v) {
        lemma_char_exists(v);
    }
}

/// Codes of four digits each, one behind the other.
pub open spec fn groups_written(codes: Seq<int>) -> Seq<char>
    decreases codes.len(),
{
    if codes.len() == 0 {
        Seq::empty()
    } else {
        groups_written(codes.drop_last()) + four_digits(codes.last())
    }
}

proof fn lemma_groups(codes: Seq<int>)
    requires
        forall|i: int|
            0 <= i < codes.len() ==> 0 <= #[trigger] codes[i] < 0xFFFF && !(0xD800 <= codes[i]
                <= 0xDFFF),
    ensures
        groups_written(codes).len() == 4 * codes.len(),
        code_groups(groups_written(codes)) matches Some(t) && t.len() == codes.len() && forall|
            i: int,
        |
            0 <= i < codes.len() ==> #[trigger] t[i] as int == codes[i],
    decreases codes.len(),
{
    if codes.len() > 0 {
        let before = codes.drop_last();
        let v = codes.last();
        assert(0 <= codes[codes.len() - 1] < 0xFFFF && !(0xD800 <= codes[codes.len() - 1]
            <= 0xDFFF));
        assert forall|i: int| 0 <= i < before.len() implies 0 <= #[trigger] before[i] < 0xFFFF && !(
        0xD800 <= before[i] <= 0xDFFF) by {
            assert(before[i] == codes[i]);
        }
        lemma_groups(before);
        lemma_four(v);
        lemma_char_exists(v);
        let t = groups_written(codes);
        let n = t.len() - 4;
        assert(t.take(n) =~= groups_written(before));
        assert(t.skip(n) =~= four_digits(v));
        let r = code_groups(t)->Some_0;
        assert(r == code_groups(groups_written(before))->Some_0.push(char_of(v)));
        assert forall|i: int| 0 <= i < codes.len() implies #[trigger] r[i] as int == codes[i] by {
            if i < before.len() {
                assert(before[i] == codes[i]);
                assert(r[i] == code_groups(groups_written(before))->Some_0[i]);
            }
        }
    }
}

/// A glyph name that is `uni` and groups of four digits stands for the characters
/// with those codes, in order.
pub proof fn law_uni_names(codes: Seq<int>)
    requires
        codes.len() > 0,
        forall|i: int|
            0 <= i < codes.len() ==> 0 <= #[trigger] codes[i] < 0xFFFF && !(0xD800 <= codes[i]
                <= 0xDFFF),
    ensures
        spelled_out(seq!['u', 'n', 'i'] + groups_written(codes)) matches Some(t) && t.len()
            == codes.len() && forall|i: int|
            0 <= i < codes.len() ==> #[trigger] t[i] as int == codes[i],
{
    lemma_groups(codes);
    let b = seq!['u', 'n', 'i'] + groups_written(codes);
    assert(b.skip(3) =~= groups_written(codes));
}

/// Glyphs without a character, and the two ligatures that stand for two.
pub proof fn law_special_glyphs()
    ensures
        glyph_text(".notdef"@) == Some(Seq::<char>::empty()),
        glyph_text(Seq::empty()) == Some(Seq::<char>::empty()),
        glyph_text("fi"@) == Some(seq!['f', 'i']),
        glyph_text("fl"@) == Some(seq!['f', 'l']),
{
    reveal_strlit("fi");
    reveal_strlit("fl");
    reveal_strlit(".notdef");
    assert("fi"@ =~= seq!['f', 'i']);
    assert("fl"@ =~= seq!['f', 'l']);
    assert(".notdef"@.len() == 7);
}

/// Behind the tables of three encodings no code has a character.
pub proof fn law_codes_behind_tables(b: u8)
    ensures
        b >= 0x40 ==> base_char(BaseEncoding::MacExpert, b) is None,
        b >= 0x7B ==> base_char(BaseEncoding::Symbol, b) is None,
        b >= 0x44 ==> base_char(BaseEncoding::ZapfDingbats, b) is None,
{
    reveal_strlit(" \u{F721}\u{F6F8}\u{F7A2}\u{F724}\u{F6E4}\u{F726}\u{F7B4}\u{207D}\u{207E}\u{2022}\u{2024},-.\u{2044}\u{F730}\u{F731}\u{F732}\u{F733}\u{F734}\u{F735}\u{F736}\u{F737}\u{F738}\u{F739}:;\0\u{F6DE}\0\u{F73F}");
    reveal_strlit(" !\u{2200}#\u{2203}%&\u{220B}()\u{2217}+,\u{2212}./0123456789:;<=>?\u{2245}\u{0391}\u{0392}\u{03A7}\u{0394}\u{0395}\u{03A6}\u{0393}\u{0397}\u{0399}\u{03D1}\u{039A}\u{039B}\u{039C}\u{039D}\u{039F}\u{03A0}\u{0398}\u{03A1}\u{03A3}\u{03A4}\u{03A5}\u{03C2}\u{03A9}\u{039E}\u{03A8}\u{0396}\0\0\0\0\0\0\u{03B1}\u{03B2}\u{03C7}\u{03B4}\u{03B5}\u{03C6}\u{03B3}\u{03B7}\u{03B9}\u{03D5}\u{03BA}\u{03BB}\u{03BC}\u{03BD}\u{03BF}\u{03C0}\u{03B8}\u{03C1}\u{03C3}\u{03C4}\u{03C5}\u{03D6}\u{03C9}\u{03BE}\u{03C8}\u{03B6}");
    reveal_strlit(" \u{2701}\u{2702}\u{2703}\u{2704}\u{260E}\u{2706}\u{2707}\u{2708}\u{2709}\u{261B}\u{261E}\u{270C}\u{270D}\u{270E}\u{270F}\u{2710}\u{2711}\u{2712}\u{2713}\u{2714}\u{2715}\u{2716}\u{2717}\u{2718}\u{2719}\u{271A}\u{271B}\u{271C}\u{271D}\u{271E}\u{271F}\u{2720}\u{2721}\u{2722}\u{2723}");
}

} // verus!
