//! Simple-font encodings: byte codes to text.

use vstd::prelude::*;
use crate::describe::{got, unexpected};
use crate::error::{outcome, PdfError};
use crate::number::real_to_i64;
use crate::objects::{objs_view, ObjV, Object};
use crate::text::{char_of, chars_of, has_code, is_char_code, same_text};

verus! {

/// WinAnsi codes from 0x80 on; NUL marks a code without a character.
pub const WIN_ANSI_MIDDLE: &'static str = "\u{20AC}\0\u{201A}\u{0192}\u{201E}\u{2026}\u{2020}\u{2021}\u{02C6}\u{2030}\u{0160}\u{2039}\
    \u{0152}\0\u{017D}\0\0\u{2018}\u{2019}\u{201C}\u{201D}\u{2022}\u{2013}\u{2014}\
    \u{02DC}\u{2122}\u{0161}\u{203A}\u{0153}\0\u{017E}\u{0178}";

/// MacRoman codes from 0x80 on; NUL marks a code without a character.
pub const MAC_ROMAN_UPPER: &'static str = "\u{00C4}\u{00C5}\u{00C7}\u{00C9}\u{00D1}\u{00D6}\u{00DC}\u{00E1}\u{00E0}\u{00E2}\u{00E4}\u{00E3}\
    \u{00E5}\u{00E7}\u{00E9}\u{00E8}\u{00EA}\u{00EB}\u{00ED}\u{00EC}\u{00EE}\u{00EF}\u{00F1}\u{00F3}\
    \u{00F2}\u{00F4}\u{00F6}\u{00F5}\u{00FA}\u{00F9}\u{00FB}\u{00FC}\u{2020}\u{00B0}\u{00A2}\u{00A3}\
    \u{00A7}\u{2022}\u{00B6}\u{00DF}\u{00AE}\u{00A9}\u{2122}\u{00B4}\u{00A8}\u{2260}\u{00C6}\u{00D8}\
    \u{221E}\u{00B1}\u{2264}\u{2265}\u{00A5}\u{00B5}\u{2202}\u{2211}\u{220F}\u{03C0}\u{222B}\u{00AA}\
    \u{00BA}\u{03A9}\u{00E6}\u{00F8}\u{00BF}\u{00A1}\u{00AC}\u{221A}\u{0192}\u{2248}\u{2206}\u{00AB}\
    \u{00BB}\u{2026}\u{00A0}\u{00C0}\u{00C3}\u{00D5}\u{0152}\u{0153}\u{2013}\u{2014}\u{201C}\u{201D}\
    \u{2018}\u{2019}\u{00F7}\u{25CA}\u{00FF}\u{0178}\u{2044}\u{20AC}\u{2039}\u{203A}\u{FB01}\u{FB02}\
    \u{2021}\u{00B7}\u{201A}\u{201E}\u{2030}\u{00C2}\u{00CA}\u{00C1}\u{00CB}\u{00C8}\u{00CD}\u{00CE}\
    \u{00CF}\u{00CC}\u{00D3}\u{00D4}\0\u{00D2}\u{00DA}\u{00DB}\u{00D9}\u{0131}\u{02C6}\u{02DC}\
    \u{00AF}\u{02D8}\u{02D9}\u{02DA}\u{00B8}\u{02DD}\u{02DB}\u{02C7}";

/// MacExpert codes from 0x20 on; NUL marks a code without a character.
pub const MAC_EXPERT: &'static str = " \u{F721}\u{F6F8}\u{F7A2}\u{F724}\u{F6E4}\u{F726}\u{F7B4}\u{207D}\u{207E}\u{2022}\u{2024}\
    ,-.\u{2044}\u{F730}\u{F731}\u{F732}\u{F733}\u{F734}\u{F735}\u{F736}\u{F737}\
    \u{F738}\u{F739}:;\0\u{F6DE}\0\u{F73F}";

/// Standard codes from 0xA1 on; NUL marks a code without a character.
pub const STANDARD_UPPER: &'static str = "\u{00A1}\u{00A2}\u{00A3}\u{2044}\u{00A5}\u{0192}\u{00A7}\u{00A4}'\u{201C}\u{00AB}\u{2039}\
    \u{203A}\u{FB01}\u{FB02}\0\u{2013}\u{2020}\u{2021}\u{00B7}\0\u{00B6}\u{2022}\u{201A}\
    \u{201E}\u{201D}\u{00BB}\u{2026}\u{2030}\0\u{00BF}\0`\u{00B4}\u{02C6}\u{02DC}\
    \u{00AF}\u{02D8}\u{02D9}\u{00A8}\0\u{02DA}\u{00B8}\0\u{02DD}\u{02DB}\u{02C7}\u{2014}\
    \0\0\0\0\0\0\0\0\0\0\0\0\
    \0\0\0\0\u{00C6}\0\u{00AA}\0\0\0\0\u{0141}\
    \u{00D8}\u{0152}\u{00BA}\0\0\0\0\0\u{00E6}\0\0\0\
    \u{0131}\0\0\u{0142}\u{00F8}\u{0153}\u{00DF}";

/// Symbol codes from 0x20 on; NUL marks a code without a character.
pub const SYMBOL: &'static str = " !\u{2200}#\u{2203}%&\u{220B}()\u{2217}+\
    ,\u{2212}./01234567\
    89:;<=>?\u{2245}\u{0391}\u{0392}\u{03A7}\
    \u{0394}\u{0395}\u{03A6}\u{0393}\u{0397}\u{0399}\u{03D1}\u{039A}\u{039B}\u{039C}\u{039D}\u{039F}\
    \u{03A0}\u{0398}\u{03A1}\u{03A3}\u{03A4}\u{03A5}\u{03C2}\u{03A9}\u{039E}\u{03A8}\u{0396}\0\
    \0\0\0\0\0\u{03B1}\u{03B2}\u{03C7}\u{03B4}\u{03B5}\u{03C6}\u{03B3}\
    \u{03B7}\u{03B9}\u{03D5}\u{03BA}\u{03BB}\u{03BC}\u{03BD}\u{03BF}\u{03C0}\u{03B8}\u{03C1}\u{03C3}\
    \u{03C4}\u{03C5}\u{03D6}\u{03C9}\u{03BE}\u{03C8}\u{03B6}";

/// ZapfDingbats codes from 0x20 on.
pub const ZAPF_DINGBATS: &'static str = " \u{2701}\u{2702}\u{2703}\u{2704}\u{260E}\u{2706}\u{2707}\u{2708}\u{2709}\u{261B}\u{261E}\
    \u{270C}\u{270D}\u{270E}\u{270F}\u{2710}\u{2711}\u{2712}\u{2713}\u{2714}\u{2715}\u{2716}\u{2717}\
    \u{2718}\u{2719}\u{271A}\u{271B}\u{271C}\u{271D}\u{271E}\u{271F}\u{2720}\u{2721}\u{2722}\u{2723}";

/// Glyph names that stand for one character: each name, a space, and the
/// character.
pub const GLYPH_NAMES: &'static str = "space  exclam !quotedbl \"numbersign #dollar $percent %ampersand &\
    quoteright \u{2019}quotesingle 'parenleft (parenright )asterisk *plus +comma ,\
    hyphen -period .slash /zero 0one 1two 2three 3four 4five 5six 6seven 7eight 8nine 9\
    colon :semicolon ;less <equal =greater >question ?at @A AB BC CD DE EF FG GH HI IJ J\
    K KL LM MN NO OP PQ QR RS ST TU UV VW WX XY YZ Zbracketleft [backslash \\\
    bracketright ]asciicircum ^underscore _quoteleft \u{2018}grave `a ab bc cd de ef f\
    g gh hi ij jk kl lm mn no op pq qr rs st tu uv vw wx xy yz zbraceleft {bar |\
    braceright }asciitilde ~exclamdown \u{00A1}cent \u{00A2}sterling \u{00A3}\
    currency \u{00A4}yen \u{00A5}brokenbar \u{00A6}section \u{00A7}dieresis \u{00A8}\
    copyright \u{00A9}ordfeminine \u{00AA}guillemotleft \u{00AB}logicalnot \u{00AC}\
    hyphensoft \u{00AD}registered \u{00AE}macron \u{00AF}degree \u{00B0}\
    plusminus \u{00B1}twosuperior \u{00B2}threesuperior \u{00B3}acute \u{00B4}\
    mu \u{00B5}paragraph \u{00B6}periodcentered \u{00B7}cedilla \u{00B8}\
    onesuperior \u{00B9}ordmasculine \u{00BA}guillemotright \u{00BB}onequarter \u{00BC}\
    onehalf \u{00BD}threequarters \u{00BE}questiondown \u{00BF}Agrave \u{00C0}\
    Aacute \u{00C1}Acircumflex \u{00C2}Atilde \u{00C3}Adieresis \u{00C4}Aring \u{00C5}\
    AE \u{00C6}Ccedilla \u{00C7}Egrave \u{00C8}Eacute \u{00C9}Ecircumflex \u{00CA}\
    Edieresis \u{00CB}Igrave \u{00CC}Iacute \u{00CD}Icircumflex \u{00CE}\
    Idieresis \u{00CF}Eth \u{00D0}Ntilde \u{00D1}Ograve \u{00D2}Oacute \u{00D3}\
    Ocircumflex \u{00D4}Otilde \u{00D5}Odieresis \u{00D6}multiply \u{00D7}\
    Oslash \u{00D8}Ugrave \u{00D9}Uacute \u{00DA}Ucircumflex \u{00DB}Udieresis \u{00DC}\
    Yacute \u{00DD}Thorn \u{00DE}germandbls \u{00DF}agrave \u{00E0}aacute \u{00E1}\
    acircumflex \u{00E2}atilde \u{00E3}adieresis \u{00E4}aring \u{00E5}ae \u{00E6}\
    ccedilla \u{00E7}egrave \u{00E8}eacute \u{00E9}ecircumflex \u{00EA}\
    edieresis \u{00EB}igrave \u{00EC}iacute \u{00ED}icircumflex \u{00EE}\
    idieresis \u{00EF}eth \u{00F0}ntilde \u{00F1}ograve \u{00F2}oacute \u{00F3}\
    ocircumflex \u{00F4}otilde \u{00F5}odieresis \u{00F6}divide \u{00F7}oslash \u{00F8}\
    ugrave \u{00F9}uacute \u{00FA}ucircumflex \u{00FB}udieresis \u{00FC}yacute \u{00FD}\
    thorn \u{00FE}ydieresis \u{00FF}Lslash \u{0141}lslash \u{0142}Scaron \u{0160}\
    scaron \u{0161}OE \u{0152}oe \u{0153}Ydieresis \u{0178}Zcaron \u{017D}\
    zcaron \u{017E}florin \u{0192}circumflex \u{02C6}tilde \u{02DC}caron \u{02C7}\
    breve \u{02D8}dotaccent \u{02D9}ring \u{02DA}ogonek \u{02DB}hungarumlaut \u{02DD}\
    Alpha \u{0391}Beta \u{0392}Gamma \u{0393}Delta \u{0394}Epsilon \u{0395}Zeta \u{0396}\
    Eta \u{0397}Theta \u{0398}Iota \u{0399}Kappa \u{039A}Lambda \u{039B}Mu \u{039C}\
    Nu \u{039D}Xi \u{039E}Omicron \u{039F}Pi \u{03A0}Rho \u{03A1}Sigma \u{03A3}\
    Tau \u{03A4}Upsilon \u{03A5}Phi \u{03A6}Chi \u{03A7}Psi \u{03A8}Omega \u{03A9}\
    alpha \u{03B1}beta \u{03B2}gamma \u{03B3}delta \u{03B4}epsilon \u{03B5}zeta \u{03B6}\
    eta \u{03B7}theta \u{03B8}iota \u{03B9}kappa \u{03BA}lambda \u{03BB}nu \u{03BD}\
    xi \u{03BE}omicron \u{03BF}pi \u{03C0}rho \u{03C1}sigma \u{03C3}tau \u{03C4}\
    upsilon \u{03C5}phi \u{03C6}chi \u{03C7}psi \u{03C8}omega \u{03C9}endash \u{2013}\
    emdash \u{2014}quotesinglbase \u{201A}quotedblbase \u{201E}quotedblleft \u{201C}\
    quotedblright \u{201D}dagger \u{2020}daggerdbl \u{2021}bullet \u{2022}\
    ellipsis \u{2026}perthousand \u{2030}guilsinglleft \u{2039}guilsinglright \u{203A}\
    Euro \u{20AC}trademark \u{2122}onethird \u{2153}twothirds \u{2154}oneeighth \u{215B}\
    threeeighths \u{215C}fiveeighths \u{215D}seveneighths \u{215E}minus \u{2212}\
    fraction \u{2044}infinity \u{221E}notequal \u{2260}lessequal \u{2264}\
    greaterequal \u{2265}arrowleft \u{2190}arrowup \u{2191}arrowright \u{2192}\
    arrowdown \u{2193}arrowboth \u{2194}arrowdblleft \u{21D0}arrowdblup \u{21D1}\
    arrowdblright \u{21D2}arrowdbldown \u{21D3}arrowdblboth \u{21D4}partialdiff \u{2202}\
    gradient \u{2207}product \u{220F}summation \u{2211}radical \u{221A}\
    proportional \u{221D}integral \u{222B}approxequal \u{2248}equivalence \u{2261}\
    lozenge \u{25CA}notelement \u{2209}element \u{2208}emptyset \u{2205}\
    intersection \u{2229}union \u{222A}logicalor \u{2228}logicaland \u{2227}\
    universal \u{2200}existential \u{2203}filledbox \u{25A0}emptybox \u{25A1}\
    filledrect \u{25AC}triagup \u{25B2}triagrt \u{25BA}triagdn \u{25BC}triaglf \u{25C4}\
    circle \u{25CB}filledcircle \u{25CF}heart \u{2665}musicalnote \u{266A}\
    musicalnotedbl \u{266B}";

/// One `/Differences` entry: `code` stands for the glyph `glyph_name`.
#[derive(Clone, Debug, PartialEq, Eq)]
pub struct EncodingOverride {
    pub code: u8,
    pub glyph_name: String,
}

impl View for EncodingOverride {
    type V = (u8, Seq<char>);

    open spec fn view(&self) -> (u8, Seq<char>) {
        (self.code, self.glyph_name@)
    }
}

/// The entries of a `/Differences` array, in order; of two for the same code
/// the later one counts.
#[derive(Clone, Debug, PartialEq, Eq)]
pub struct EncodingDifferences {
    pub overrides: Vec<EncodingOverride>,
}

impl View for EncodingDifferences {
    type V = Seq<(u8, Seq<char>)>;

    open spec fn view(&self) -> Seq<(u8, Seq<char>)> {
        self.overrides@.map_values(|o: EncodingOverride| o@)
    }
}

impl Default for EncodingDifferences {
    /// No entries.
    fn default() -> (r: EncodingDifferences)
        ensures
            r@ == Seq::<(u8, Seq<char>)>::empty(),
    {
        let r: EncodingDifferences = EncodingDifferences { overrides: Vec::new() };
        proof {
            assert(r@ =~= Seq::<(u8, Seq<char>)>::empty());
        }
        r
    }
}

impl EncodingDifferences {
    /// There are no entries.
    pub fn is_empty(&self) -> (r: bool)
        ensures
            r == (self@.len() == 0),
    {
        self.overrides.len() == 0
    }

    /// The number of entries.
    pub fn len(&self) -> (r: usize)
        ensures
            r == self@.len(),
    {
        self.overrides.len()
    }
}

/// The encodings that have a name.
#[derive(Clone, Copy, Debug, PartialEq, Eq, Structural)]
pub enum BaseEncoding {
    WinAnsi,
    MacRoman,
    MacExpert,
    Standard,
    Symbol,
    ZapfDingbats,
}

/// The encoding that a name stands for.
pub open spec fn base_named(name: Seq<char>) -> Option<BaseEncoding> {
    if name == "WinAnsiEncoding"@ {
        Some(BaseEncoding::WinAnsi)
    } else if name == "MacRomanEncoding"@ {
        Some(BaseEncoding::MacRoman)
    } else if name == "MacExpertEncoding"@ {
        Some(BaseEncoding::MacExpert)
    } else if name == "StandardEncoding"@ {
        Some(BaseEncoding::Standard)
    } else if name == "SymbolEncoding"@ {
        Some(BaseEncoding::Symbol)
    } else if name == "ZapfDingbatsEncoding"@ {
        Some(BaseEncoding::ZapfDingbats)
    } else {
        None
    }
}

impl BaseEncoding {
    /// The encoding that a name stands for.
    pub fn from_name(name: &str) -> (r: Option<BaseEncoding>)
        ensures
            r == base_named(name@),
    {
        if same_text(name, "WinAnsiEncoding") {
            Some(BaseEncoding::WinAnsi)
        } else if same_text(name, "MacRomanEncoding") {
            Some(BaseEncoding::MacRoman)
        } else if same_text(name, "MacExpertEncoding") {
            Some(BaseEncoding::MacExpert)
        } else if same_text(name, "StandardEncoding") {
            Some(BaseEncoding::Standard)
        } else if same_text(name, "SymbolEncoding") {
            Some(BaseEncoding::Symbol)
        } else if same_text(name, "ZapfDingbatsEncoding") {
            Some(BaseEncoding::ZapfDingbats)
        } else {
            None
        }
    }
}

/// The character of code `b` in a table that begins with code `first`.
pub open spec fn in_table(table: Seq<char>, first: int, b: u8) -> Option<char> {
    if first <= b < first + table.len() && table[b - first] != '\0' {
        Some(table[b - first])
    } else {
        None
    }
}

/// A printable ASCII code.
pub open spec fn is_printable(b: u8) -> bool {
    0x20 <= b <= 0x7E
}

/// The character of code `b` in a named encoding.
pub open spec fn base_char(base: BaseEncoding, b: u8) -> Option<char> {
    match base {
        BaseEncoding::WinAnsi => if is_printable(b) || b >= 0xA0 {
            Some(b as char)
        } else {
            in_table(WIN_ANSI_MIDDLE@, 0x80, b)
        },
        BaseEncoding::MacRoman => if is_printable(b) {
            Some(b as char)
        } else {
            in_table(MAC_ROMAN_UPPER@, 0x80, b)
        },
        BaseEncoding::MacExpert => in_table(MAC_EXPERT@, 0x20, b),
        BaseEncoding::Standard => if b == 0x27 {
            Some('\u{2019}')
        } else if b == 0x60 {
            Some('\u{2018}')
        } else if is_printable(b) {
            Some(b as char)
        } else {
            in_table(STANDARD_UPPER@, 0xA1, b)
        },
        BaseEncoding::Symbol => in_table(SYMBOL@, 0x20, b),
        BaseEncoding::ZapfDingbats => in_table(ZAPF_DINGBATS@, 0x20, b),
    }
}

/// The text of a code: a character, or nothing.
pub open spec fn slot_of(c: Option<char>) -> Seq<char> {
    match c {
        Some(c) => seq![c],
        None => Seq::empty(),
    }
}

/// The texts of all 256 codes in a named encoding.
pub open spec fn base_slots(base: BaseEncoding) -> Seq<Seq<char>> {
    Seq::new(256, |b: int| slot_of(base_char(base, b as u8)))
}

/// What one byte decodes to: its text, or U+FFFD where it has none.
pub open spec fn decoded_byte(slots: Seq<Seq<char>>, b: u8) -> Seq<char> {
    if slots[b as int].len() == 0 {
        seq!['\u{FFFD}']
    } else {
        slots[b as int]
    }
}

/// What bytes decode to, one after the other.
pub open spec fn decoded_bytes(slots: Seq<Seq<char>>, bytes: Seq<u8>) -> Seq<char>
    decreases bytes.len(),
{
    if bytes.len() == 0 {
        Seq::empty()
    } else {
        decoded_bytes(slots, bytes.drop_last()) + decoded_byte(slots, bytes.last())
    }
}

/// Bytes whose texts are one character each decode to those, one by one.
proof fn lemma_single_texts(slots: Seq<Seq<char>>, bytes: Seq<u8>)
    requires
        forall|i: int| 0 <= i < bytes.len() ==> slots[(#[trigger] bytes[i]) as int].len() == 1,
    ensures
        decoded_bytes(slots, bytes).len() == bytes.len(),
        forall|i: int|
            0 <= i < bytes.len() ==> #[trigger] decoded_bytes(slots, bytes)[i]
                == slots[bytes[i] as int][0],
    decreases bytes.len(),
{
    if bytes.len() > 0 {
        let before = bytes.drop_last();
        assert forall|i: int| 0 <= i < before.len() implies slots[(
        #[trigger] before[i]) as int].len() == 1 by {
            assert(before[i] == bytes[i]);
        }
        lemma_single_texts(slots, before);
        assert(bytes[bytes.len() - 1] == bytes.last());
        assert forall|i: int| 0 <= i < bytes.len() implies #[trigger] decoded_bytes(slots, bytes)[i]
            == slots[bytes[i] as int][0] by {
            if i < before.len() {
                assert(before[i] == bytes[i]);
                assert(decoded_bytes(slots, bytes)[i] == decoded_bytes(slots, before)[i]);
            }
        }
    }
}

/// A text for each of the 256 codes; an empty one where a code has none.
#[derive(Clone, Debug)]
pub struct EncodingMap {
    table: Vec<String>,
}

impl View for EncodingMap {
    type V = Seq<Seq<char>>;

    closed spec fn view(&self) -> Seq<Seq<char>> {
        self.table@.map_values(|s: String| s@)
    }
}

impl Default for EncodingMap {
    /// No code has a text.
    fn default() -> (r: EncodingMap)
        ensures
            r.wf(),
            r@ == Seq::new(256, |i: int| Seq::<char>::empty()),
    {
        EncodingMap::new()
    }
}

impl EncodingMap {
    /// There are 256 codes.
    pub open spec fn wf(&self) -> bool {
        self@.len() == 256
    }

    /// No code has a text.
    pub fn new() -> (r: EncodingMap)
        ensures
            r.wf(),
            r@ == Seq::new(256, |i: int| Seq::<char>::empty()),
    {
        let mut table: Vec<String> = Vec::new();
        while table.len() < 256
            invariant
                table@.len() <= 256,
                forall|i: int| 0 <= i < table@.len() ==> (#[trigger] table@[i])@ == Seq::<char>::empty(),
            decreases 256 - table.len(),
        {
            table.push(String::new());
        }
        let r: EncodingMap = EncodingMap { table };
        proof {
            assert(r@ =~= Seq::new(256, |i: int| Seq::<char>::empty()));
        }
        r
    }

    /// Let a code stand for one character.
    pub fn set_char(&mut self, code: u8, c: char)
        requires
            old(self).wf(),
        ensures
            final(self).wf(),
            final(self)@ == old(self)@.update(code as int, seq![c]),
    {
        let mut s: String = String::new();
        s.push(c);
        proof {
            assert(s@ =~= seq![c]);
        }
        let ghost before = self@;
        self.table.set(code as usize, s);
        proof {
            assert(self@ =~= before.update(code as int, seq![c]));
        }
    }

    /// Let a code stand for a text.
    pub fn set_string(&mut self, code: u8, s: &str)
        requires
            old(self).wf(),
        ensures
            final(self).wf(),
            final(self)@ == old(self)@.update(code as int, s@),
    {
        let ghost before = self@;
        self.table.set(code as usize, s.to_owned());
        proof {
            assert(self@ =~= before.update(code as int, s@));
        }
    }

    /// The text of a code; empty where it has none.
    pub fn lookup(&self, code: u8) -> (r: &str)
        requires
            self.wf(),
        ensures
            r@ == self@[code as int],
    {
        self.table[code as usize].as_str()
    }

    /// The text that bytes stand for, with U+FFFD for a code without a text.
    pub fn decode(&self, bytes: &[u8]) -> (r: String)
        requires
            self.wf(),
        ensures
            r@ == decoded_bytes(self@, bytes@),
            (forall|i: int|
                0 <= i < bytes@.len() ==> self@[(#[trigger] bytes@[i]) as int].len() == 1) ==> (
            r@.len() == bytes@.len() && forall|i: int|
                0 <= i < bytes@.len() ==> #[trigger] r@[i] == self@[bytes@[i] as int][0]),
    {
        let mut out: String = String::new();
        let mut i: usize = 0;
        proof {
            assert(bytes@.take(0) =~= Seq::empty());
        }
        while i < bytes.len()
            invariant
                self.wf(),
                i <= bytes@.len(),
                out@ == decoded_bytes(self@, bytes@.take(i as int)),
            decreases bytes.len() - i,
        {
            let b: u8 = bytes[i];
            let slot: &str = self.lookup(b);
            let ghost before = out@;
            proof {
                assert(bytes@.take(i + 1).drop_last() =~= bytes@.take(i as int));
                assert(bytes@.take(i + 1).last() == b);
            }
            if slot.is_empty() {
                out.push('\u{FFFD}');
                proof {
                    assert(out@ =~= before + seq!['\u{FFFD}']);
                }
            } else {
                out.append(slot);
            }
            i = i + 1;
        }
        proof {
            assert(bytes@.take(i as int) =~= bytes@);
            if forall|i: int|
                0 <= i < bytes@.len() ==> self@[(#[trigger] bytes@[i]) as int].len() == 1 {
                lemma_single_texts(self@, bytes@);
            }
        }
        out
    }

    /// The map of a named encoding.
    pub fn from_base(base: BaseEncoding) -> (r: EncodingMap)
        ensures
            r.wf(),
            r@ == base_slots(base),
            base == BaseEncoding::WinAnsi ==> forall|b: u8|
                0x20 <= b <= 0x7E || b >= 0xA0 ==> #[trigger] r@[b as int] == seq![b as char],
    {
        let mut m: EncodingMap = EncodingMap::new();
        let mut b: usize = 0;
        while b < 256
            invariant
                b <= 256,
                m.wf(),
                forall|i: int| 0 <= i < b ==> #[trigger] m@[i] == slot_of(base_char(base, i as u8)),
                forall|i: int| b <= i < 256 ==> #[trigger] m@[i] == Seq::<char>::empty(),
            decreases 256 - b,
        {
            if let Some(c) = char_in_base(base, b as u8) {
                m.set_char(b as u8, c);
            }
            b = b + 1;
        }
        proof {
            assert(m@ =~= base_slots(base));
        }
        m
    }
}

/// The character of code `b` in a table that begins with code `first`.
fn table_char(table: &str, first: u8, b: u8) -> (r: Option<char>)
    ensures
        r == in_table(table@, first as int, b),
{
    if b < first || (b - first) as usize >= table.unicode_len() {
        return None;
    }
    let c: char = table.get_char((b - first) as usize);
    if c == '\0' {
        None
    } else {
        Some(c)
    }
}

/// The character of code `b` in a named encoding.
fn char_in_base(base: BaseEncoding, b: u8) -> (r: Option<char>)
    ensures
        r == base_char(base, b),
{
    let printable: bool = 0x20 <= b && b <= 0x7E;
    match base {
        BaseEncoding::WinAnsi => if printable || b >= 0xA0 {
            Some(b as char)
        } else {
            table_char(WIN_ANSI_MIDDLE, 0x80, b)
        },
        BaseEncoding::MacRoman => if printable {
            Some(b as char)
        } else {
            table_char(MAC_ROMAN_UPPER, 0x80, b)
        },
        BaseEncoding::MacExpert => table_char(MAC_EXPERT, 0x20, b),
        BaseEncoding::Standard => if b == 0x27 {
            Some('\u{2019}')
        } else if b == 0x60 {
            Some('\u{2018}')
        } else if printable {
            Some(b as char)
        } else {
            table_char(STANDARD_UPPER, 0xA1, b)
        },
        BaseEncoding::Symbol => table_char(SYMBOL, 0x20, b),
        BaseEncoding::ZapfDingbats => table_char(ZAPF_DINGBATS, 0x20, b),
    }
}

// ------------------------------------------------------------ glyph names

/// The next space at or after `p`, or the end of the text.
pub open spec fn next_space(t: Seq<char>, p: int) -> int
    decreases t.len() - p,
{
    if p < 0 || p >= t.len() || t[p] == ' ' {
        p
    } else {
        next_space(t, p + 1)
    }
}

/// The character that stands behind `name` in the entries of `t` from `p` on.
pub open spec fn entry_for(t: Seq<char>, p: int, name: Seq<char>) -> Option<char>
    decreases t.len() - p,
    via entry_for_decreases
{
    if p < 0 || p >= t.len() {
        None
    } else {
        let e = next_space(t, p);
        if e + 1 >= t.len() {
            None
        } else if t.subrange(p, e) == name {
            Some(t[e + 1])
        } else {
            entry_for(t, e + 2, name)
        }
    }
}

#[via_fn]
proof fn entry_for_decreases(t: Seq<char>, p: int, name: Seq<char>) {
    if 0 <= p < t.len() {
        lemma_next_space(t, p);
    }
}

proof fn lemma_next_space(t: Seq<char>, p: int)
    requires
        0 <= p <= t.len(),
    ensures
        p <= next_space(t, p) <= t.len(),
    decreases t.len() - p,
{
    if p < t.len() && t[p] != ' ' {
        lemma_next_space(t, p + 1);
    }
}

/// The value of an uppercase hexadecimal digit.
pub open spec fn upper_hex_digit(c: char) -> Option<int> {
    if '0' <= c <= '9' {
        Some(c as int - 48)
    } else if 'A' <= c <= 'F' {
        Some(c as int - 55)
    } else {
        None
    }
}

/// The number that uppercase hexadecimal digits spell; `None` where another
/// character occurs.
pub open spec fn upper_hex_number(t: Seq<char>) -> Option<int>
    decreases t.len(),
{
    if t.len() == 0 {
        Some(0)
    } else {
        match (upper_hex_number(t.drop_last()), upper_hex_digit(t.last())) {
            (Some(h), Some(d)) => Some(h * 16 + d),
            _ => None,
        }
    }
}

/// The character with the code that uppercase hexadecimal digits spell. There
/// is none for a surrogate, U+FFFF or a code past the last character.
pub open spec fn code_char(t: Seq<char>) -> Option<char> {
    match upper_hex_number(t) {
        Some(v) => if is_char_code(v) && v != 0xFFFF {
            Some(char_of(v))
        } else {
            None
        },
        None => None,
    }
}

/// The characters whose codes follow one another, four digits each.
pub open spec fn code_groups(t: Seq<char>) -> Option<Seq<char>>
    decreases t.len(),
{
    if t.len() == 0 {
        Some(Seq::empty())
    } else if t.len() < 4 {
        None
    } else {
        match (code_groups(t.take(t.len() - 4)), code_char(t.skip(t.len() - 4))) {
            (Some(h), Some(c)) => Some(h.push(c)),
            _ => None,
        }
    }
}

/// What a glyph name that spells out character codes stands for: `uni` and
/// groups of four digits, or `u` and four to six digits.
pub open spec fn spelled_out(name: Seq<char>) -> Option<Seq<char>> {
    if name.len() >= 3 && name[0] == 'u' && name[1] == 'n' && name[2] == 'i' {
        if name.len() == 3 {
            None
        } else {
            code_groups(name.skip(3))
        }
    } else if name.len() >= 1 && name[0] == 'u' {
        if 5 <= name.len() <= 7 {
            match code_char(name.skip(1)) {
                Some(c) => Some(seq![c]),
                None => None,
            }
        } else {
            None
        }
    } else {
        None
    }
}

/// The text that a glyph name stands for.
pub open spec fn glyph_text(name: Seq<char>) -> Option<Seq<char>> {
    if name == ".notdef"@ || name.len() == 0 {
        Some(Seq::empty())
    } else if name == "fi"@ || name == "fl"@ {
        Some(name)
    } else {
        match entry_for(GLYPH_NAMES@, 0, name) {
            Some(c) => Some(seq![c]),
            None => spelled_out(name),
        }
    }
}

/// What an optional text stands for.
pub open spec fn opt_text(s: Option<String>) -> Option<Seq<char>> {
    match s {
        Some(t) => Some(t@),
        None => None,
    }
}

/// The character that stands behind `name` in the list of glyph names.
fn named_glyph(name: &Vec<char>) -> (r: Option<char>)
    ensures
        r == entry_for(GLYPH_NAMES@, 0, name@),
{
    let t: Vec<char> = chars_of(GLYPH_NAMES);
    let mut p: usize = 0;
    while p < t.len()
        invariant
            t@ == GLYPH_NAMES@,
            entry_for(t@, 0, name@) == entry_for(t@, p as int, name@),
        decreases t.len() - p,
    {
        let mut e: usize = p;
        while e < t.len() && t[e] != ' '
            invariant
                p <= e <= t@.len(),
                next_space(t@, p as int) == next_space(t@, e as int),
            decreases t.len() - e,
        {
            e = e + 1;
        }
        if t.len() - e <= 1 {
            return None;
        }
        let mut same: bool = e - p == name.len();
        let mut i: usize = 0;
        while same && i < name.len()
            invariant
                p <= e < t@.len(),
                i <= name@.len(),
                same ==> e - p == name@.len(),
                same ==> forall|k: int| 0 <= k < i ==> t@[p + k] == #[trigger] name@[k],
                !same ==> t@.subrange(p as int, e as int) != name@,
            decreases name.len() - i,
        {
            if t[p + i] != name[i] {
                same = false;
                proof {
                    assert(t@.subrange(p as int, e as int)[i as int] != name@[i as int]);
                }
            }
            i = i + 1;
        }
        if same {
            proof {
                assert(t@.subrange(p as int, e as int) =~= name@);
            }
            return Some(t[e + 1]);
        }
        p = e + 2;
    }
    None
}

/// The character with the code that uppercase hexadecimal digits spell.
fn char_from_code(t: &[char]) -> (r: Option<char>)
    requires
        t@.len() <= 6,
    ensures
        r == code_char(t@),
{
    let mut v: u32 = 0;
    let mut i: usize = 0;
    proof {
        assert(t@.take(0) =~= Seq::empty());
    }
    let ghost mut bound: int = 1;
    while i < t.len()
        invariant
            i <= t@.len() <= 6,
            upper_hex_number(t@.take(i as int)) == Some(v as int),
            v < bound,
            bound <= 16777216,
            i == 0 ==> bound == 1,
            i == 1 ==> bound == 16,
            i == 2 ==> bound == 256,
            i == 3 ==> bound == 4096,
            i == 4 ==> bound == 65536,
            i == 5 ==> bound == 1048576,
            i == 6 ==> bound == 16777216,
        decreases t.len() - i,
    {
        let c: char = t[i];
        proof {
            assert(t@.take(i + 1).drop_last() =~= t@.take(i as int));
            assert(t@.take(i + 1).last() == c);
        }
        let d: u32 = if '0' <= c && c <= '9' {
            c as u32 - 48
        } else if 'A' <= c && c <= 'F' {
            c as u32 - 55
        } else {
            proof {
                lemma_bad_digit(t@, i as int);
            }
            return None;
        };
        v = v * 16 + d;
        proof {
            bound = bound * 16;
        }
        i = i + 1;
    }
    proof {
        assert(t@.take(i as int) =~= t@);
    }
    if v == 0xFFFF {
        return None;
    }
    match char::from_u32(v) {
        Some(c) => {
            proof {
                assert(has_code(c, v as int));
                assert(char_of(v as int) == c);
            }
            Some(c)
        },
        None => None,
    }
}

/// One character that is no digit spoils the number.
proof fn lemma_bad_digit(t: Seq<char>, i: int)
    requires
        0 <= i < t.len(),
        upper_hex_digit(t[i]) is None,
    ensures
        upper_hex_number(t) is None,
    decreases t.len(),
{
    if i < t.len() - 1 {
        lemma_bad_digit(t.drop_last(), i);
    }
}

/// What a glyph name that spells out character codes stands for.
fn uni_prefix_decode(name: &Vec<char>) -> (r: Option<String>)
    ensures
        opt_text(r) == spelled_out(name@),
{
    let n: usize = name.len();
    if n >= 3 && name[0] == 'u' && name[1] == 'n' && name[2] == 'i' {
        if n == 3 || (n - 3) % 4 != 0 {
            proof {
                if n > 3 {
                    lemma_ragged_groups(name@.skip(3));
                }
            }
            return None;
        }
        let ghost rest = name@.skip(3);
        let mut out: String = String::new();
        let mut p: usize = 3;
        proof {
            assert(rest.take(0) =~= Seq::empty());
        }
        while p < n
            invariant
                n == name@.len(),
                name@[0] == 'u' && name@[1] == 'n' && name@[2] == 'i',
                3 <= p <= n,
                3 < n,
                (n - p) % 4 == 0,
                rest == name@.skip(3),
                code_groups(rest.take(p - 3)) == Some(out@),
            decreases n - p,
        {
            let group: &[char] = vstd::slice::slice_subrange(name.as_slice(), p, p + 4);
            let ghost t = rest.take(p + 1);
            proof {
                assert(t.len() == p + 1);
                assert(t.take(t.len() - 4) =~= rest.take(p - 3));
                assert(t.skip(t.len() - 4) =~= group@);
            }
            match char_from_code(group) {
                Some(c) => {
                    out.push(c);
                },
                None => {
                    proof {
                        lemma_bad_group(rest, p + 1);
                    }
                    return None;
                },
            }
            p = p + 4;
        }
        proof {
            assert(rest.take(n - 3) =~= rest);
        }
        Some(out)
    } else if n >= 1 && name[0] == 'u' {
        if !(5 <= n && n <= 7) {
            return None;
        }
        let digits: &[char] = vstd::slice::slice_subrange(name.as_slice(), 1, n);
        proof {
            assert(digits@ =~= name@.skip(1));
        }
        match char_from_code(digits) {
            Some(c) => {
                let mut out: String = String::new();
                out.push(c);
                proof {
                    assert(out@ =~= seq![c]);
                }
                Some(out)
            },
            None => None,
        }
    } else {
        None
    }
}

/// Digits that do not come in fours are no groups.
proof fn lemma_ragged_groups(t: Seq<char>)
    requires
        t.len() % 4 != 0,
    ensures
        code_groups(t) is None,
    decreases t.len(),
{
    if t.len() >= 4 {
        lemma_ragged_groups(t.take(t.len() - 4));
    }
}

/// A group that stands for no character spoils the groups behind it.
proof fn lemma_bad_group(t: Seq<char>, q: int)
    requires
        4 <= q <= t.len(),
        (t.len() - q) % 4 == 0,
        code_groups(t.take(q)) is None,
    ensures
        code_groups(t) is None,
    decreases t.len() - q,
{
    if q < t.len() {
        let u = t.take(q + 4);
        assert(u.take(u.len() - 4) =~= t.take(q));
        lemma_bad_group(t, q + 4);
    } else {
        assert(t.take(q) =~= t);
    }
}

/// The text that a glyph name stands for: nothing for `.notdef`, what the
/// list of names says, or the characters whose codes it spells out.
pub fn glyph_name_to_unicode(name: &str) -> (r: Option<String>)
    ensures
        opt_text(r) == glyph_text(name@),
{
    if same_text(name, ".notdef") || name.is_empty() {
        return Some(String::new());
    }
    if same_text(name, "fi") || same_text(name, "fl") {
        return Some(name.to_owned());
    }
    let chars: Vec<char> = chars_of(name);
    match named_glyph(&chars) {
        Some(c) => {
            let mut out: String = String::new();
            out.push(c);
            proof {
                assert(out@ =~= seq![c]);
            }
            Some(out)
        },
        None => uni_prefix_decode(&chars),
    }
}

// ------------------------------------------------------------ differences

/// The entries that the items of a `/Differences` array from `i` on stand
/// for: a number from 0 to 255 sets the running code, a name takes the
/// running code and moves it on, and anything else is passed over.
pub open spec fn differences_from(items: Seq<ObjV>, i: int, running: Option<int>) -> Seq<
    (u8, Seq<char>),
>
    decreases items.len() - i,
{
    if i < 0 || i >= items.len() {
        Seq::empty()
    } else {
        match items[i] {
            ObjV::Integer(n) => differences_from(items, i + 1, running_code(n, running)),
            ObjV::Real(t) => differences_from(
                items,
                i + 1,
                running_code(real_to_i64(t), running),
            ),
            ObjV::Name(name) => match running {
                Some(c) if c <= 255 => seq![(c as u8, name)] + differences_from(
                    items,
                    i + 1,
                    Some(c + 1),
                ),
                _ => differences_from(items, i + 1, running),
            },
            _ => differences_from(items, i + 1, running),
        }
    }
}

/// The running code behind the number `n`.
pub open spec fn running_code(n: i64, running: Option<int>) -> Option<int> {
    if 0 <= n <= 255 {
        Some(n as int)
    } else {
        running
    }
}

/// Read a `/Differences` array. Only something other than an array is an
/// error.
pub fn parse_encoding_differences(arr: &Object) -> (r: Result<EncodingDifferences, PdfError>)
    ensures
        outcome(r) == match arr@ {
            ObjV::Array(items) => Ok::<Seq<(u8, Seq<char>)>, Seq<char>>(
                differences_from(items, 0, None),
            ),
            o => Err("PDF encoding: /Differences must be an array"@ + got(o)),
        },
{
    let items: &Vec<Object> = match arr {
        Object::Array(v) => v,
        o => {
            return Err(unexpected("PDF encoding: /Differences must be an array", o));
        },
    };
    proof {
        crate::objects::lemma_array_view(*items);
    }
    let ghost view = objs_view(items@);
    let mut out: EncodingDifferences = EncodingDifferences { overrides: Vec::new() };
    let mut running: Option<u32> = None;
    let mut i: usize = 0;
    let ghost goal = differences_from(view, 0, None);
    proof {
        assert(out@ + goal =~= goal);
    }
    while i < items.len()
        invariant
            i <= items@.len(),
            view == objs_view(items@),
            running matches Some(c) ==> c <= 256,
            goal == out@ + differences_from(view, i as int, opt_int(running)),
        decreases items.len() - i,
    {
        let ghost before = out@;
        proof {
            assert(view[i as int] == items@[i as int]@);
        }
        match &items[i] {
            Object::Integer(n) => {
                if 0 <= *n && *n <= 255 {
                    running = Some(*n as u32);
                }
            },
            Object::Real(x) => {
                let v: i64 = x.to_i64();
                if 0 <= v && v <= 255 {
                    running = Some(v as u32);
                }
            },
            Object::Name(name) => {
                if let Some(code) = running {
                    if code <= 255 {
                        out.overrides.push(
                            EncodingOverride { code: code as u8, glyph_name: name.clone() },
                        );
                        running = Some(code + 1);
                        proof {
                            let e = (code as u8, name@);
                            assert(out@ =~= before.push(e));
                            let tail = differences_from(view, i + 1, Some(code + 1));
                            assert(before + (seq![e] + tail) =~= before.push(e) + tail);
                        }
                    }
                }
            },
            _ => {},
        }
        i = i + 1;
    }
    proof {
        assert(out@ + Seq::<(u8, Seq<char>)>::empty() =~= out@);
    }
    Ok(out)
}

/// A running code as a number.
pub open spec fn opt_int(n: Option<u32>) -> Option<int> {
    match n {
        Some(v) => Some(v as int),
        None => None,
    }
}

/// The text that an entry gives its code: that of its glyph, or none.
pub open spec fn override_text(name: Seq<char>) -> Seq<char> {
    match glyph_text(name) {
        Some(t) => t,
        None => Seq::empty(),
    }
}

/// The texts after all entries are applied in order.
pub open spec fn overridden(slots: Seq<Seq<char>>, d: Seq<(u8, Seq<char>)>) -> Seq<Seq<char>>
    decreases d.len(),
{
    if d.len() == 0 {
        slots
    } else {
        overridden(slots, d.drop_last()).update(d.last().0 as int, override_text(d.last().1))
    }
}

/// Lay the entries of a `/Differences` array over a map, which stays as it is.
pub fn apply_encoding_differences(
    base: &EncodingMap,
    differences: &EncodingDifferences,
) -> (r: EncodingMap)
    requires
        base.wf(),
    ensures
        r.wf(),
        r@ == overridden(base@, differences@),
{
    let mut table: Vec<String> = Vec::new();
    let mut k: usize = 0;
    while k < base.table.len()
        invariant
            k <= base.table@.len(),
            table@.len() == k,
            forall|j: int| 0 <= j < k ==> (#[trigger] table@[j])@ == base.table@[j]@,
        decreases base.table.len() - k,
    {
        table.push(base.table[k].clone());
        k = k + 1;
    }
    let mut out: EncodingMap = EncodingMap { table };
    let ghost d = differences@;
    proof {
        assert(out@ =~= base@);
        assert(d.take(0) =~= Seq::empty());
    }
    let mut i: usize = 0;
    while i < differences.overrides.len()
        invariant
            i <= differences.overrides@.len(),
            d == differences@,
            out.wf(),
            out@ == overridden(base@, d.take(i as int)),
        decreases differences.overrides.len() - i,
    {
        let ov: &EncodingOverride = &differences.overrides[i];
        proof {
            assert(d.take(i + 1).drop_last() =~= d.take(i as int));
            assert(d.take(i + 1).last() == ov@);
        }
        match glyph_name_to_unicode(ov.glyph_name.as_str()) {
            Some(s) => {
                out.set_string(ov.code, s.as_str());
            },
            None => {
                out.set_string(ov.code, "");
                proof {
                    reveal_strlit("");
                    assert(""@ =~= Seq::<char>::empty());
                }
            },
        }
        i = i + 1;
    }
    proof {
        assert(d.take(i as int) =~= d);
    }
    out
}

// ------------------------------------------------------------------- laws

/// Bytes decode piece by piece.
pub proof fn law_decode_pieces(slots: Seq<Seq<char>>, a: Seq<u8>, b: Seq<u8>)
    ensures
        decoded_bytes(slots, a + b) == decoded_bytes(slots, a) + decoded_bytes(slots, b),
    decreases b.len(),
{
    if b.len() == 0 {
        assert(a + b =~= a);
        assert(decoded_bytes(slots, a) + Seq::<char>::empty() =~= decoded_bytes(slots, a));
    } else {
        law_decode_pieces(slots, a, b.drop_last());
        assert((a + b).drop_last() =~= a + b.drop_last());
        let x = decoded_bytes(slots, a);
        let y = decoded_bytes(slots, b.drop_last());
        let z = decoded_byte(slots, b.last());
        assert((x + y) + z =~= x + (y + z));
    }
}

/// The last entry for a code decides its text.
pub proof fn law_last_override_counts(
    slots: Seq<Seq<char>>,
    d: Seq<(u8, Seq<char>)>,
    i: int,
)
    requires
        slots.len() == 256,
        0 <= i < d.len(),
        forall|j: int| i < j < d.len() ==> (#[trigger] d[j]).0 != d[i].0,
    ensures
        overridden(slots, d)[d[i].0 as int] == override_text(d[i].1),
    decreases d.len(),
{
    lemma_overridden_len(slots, d.drop_last());
    if i < d.len() - 1 {
        law_last_override_counts(slots, d.drop_last(), i);
        assert(d[d.len() - 1].0 != d[i].0);
    }
}

/// A code without an entry keeps its text.
pub proof fn law_other_codes_unchanged(
    slots: Seq<Seq<char>>,
    d: Seq<(u8, Seq<char>)>,
    code: u8,
)
    requires
        slots.len() == 256,
        forall|j: int| 0 <= j < d.len() ==> (#[trigger] d[j]).0 != code,
    ensures
        overridden(slots, d)[code as int] == slots[code as int],
    decreases d.len(),
{
    if d.len() > 0 {
        lemma_overridden_len(slots, d.drop_last());
        law_other_codes_unchanged(slots, d.drop_last(), code);
        assert(d[d.len() - 1].0 != code);
    }
}

proof fn lemma_overridden_len(slots: Seq<Seq<char>>, d: Seq<(u8, Seq<char>)>)
    requires
        slots.len() == 256,
    ensures
        overridden(slots, d).len() == slots.len(),
    decreases d.len(),
{
    if d.len() > 0 {
        lemma_overridden_len(slots, d.drop_last());
    }
}

} // verus!
