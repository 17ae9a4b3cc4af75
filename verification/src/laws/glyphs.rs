//! The glyph names that stand for characters, one by one.

use vstd::prelude::*;
use crate::encoding::{entry_for, glyph_text, next_space, GLYPH_NAMES};

verus! {

proof fn lemma_space_at(t: Seq<char>, p: int, e: int)
    requires
        0 <= p <= e < t.len(),
        forall|i: int| p <= i < e ==> #[trigger] t[i] != ' ',
        t[e] == ' ',
    ensures
        next_space(t, p) == e,
    decreases e - p,
{
    if p < e {
        lemma_space_at(t, p + 1, e);
    }
}

/// A word without spaces.
spec fn solid(w: Seq<char>) -> bool {
    forall|i: int| 0 <= i < w.len() ==> #[trigger] w[i] != ' '
}

proof fn lemma_entry(t: Seq<char>, p: int, w: Seq<char>, c: char, name: Seq<char>)
    requires
        0 <= p,
        p + w.len() + 1 < t.len(),
        t.subrange(p, p + w.len()) == w,
        solid(w),
        t[p + w.len()] == ' ',
        t[p + w.len() + 1] == c,
    ensures
        entry_for(t, p, name) == (if name == w {
            Some(c)
        } else {
            entry_for(t, p + w.len() + 2, name)
        }),
{
    assert forall|i: int| p <= i < p + w.len() implies #[trigger] t[i] != ' ' by {
        assert(t.subrange(p, p + w.len())[i - p] == t[i]);
        assert(w[i - p] != ' ');
    }
    lemma_space_at(t, p, p + w.len());
}

/// The characters of these glyphs, or else `rest`.
pub open spec fn glyphs_a(name: Seq<char>, rest: Option<char>) -> Option<char> {
    if name == seq!['s', 'p', 'a', 'c', 'e'] {
        Some(' ')
    } else if name == seq!['e', 'x', 'c', 'l', 'a', 'm'] {
        Some('!')
    } else if name == seq!['q', 'u', 'o', 't', 'e', 'd', 'b', 'l'] {
        Some('"')
    } else if name == seq!['n', 'u', 'm', 'b', 'e', 'r', 's', 'i', 'g', 'n'] {
        Some('#')
    } else if name == seq!['d', 'o', 'l', 'l', 'a', 'r'] {
        Some('$')
    } else if name == seq!['p', 'e', 'r', 'c', 'e', 'n', 't'] {
        Some('%')
    } else if name == seq!['a', 'm', 'p', 'e', 'r', 's', 'a', 'n', 'd'] {
        Some('&')
    } else if name == seq!['q', 'u', 'o', 't', 'e', 'r', 'i', 'g', 'h', 't'] {
        Some('\u{2019}')
    } else if name == seq!['q', 'u', 'o', 't', 'e', 's', 'i', 'n', 'g', 'l', 'e'] {
        Some('\'')
    } else if name == seq!['p', 'a', 'r', 'e', 'n', 'l', 'e', 'f', 't'] {
        Some('(')
    } else if name == seq!['p', 'a', 'r', 'e', 'n', 'r', 'i', 'g', 'h', 't'] {
        Some(')')
    } else if name == seq!['a', 's', 't', 'e', 'r', 'i', 's', 'k'] {
        Some('*')
    } else if name == seq!['p', 'l', 'u', 's'] {
        Some('+')
    } else if name == seq!['c', 'o', 'm', 'm', 'a'] {
        Some(',')
    } else if name == seq!['h', 'y', 'p', 'h', 'e', 'n'] {
        Some('-')
    } else if name == seq!['p', 'e', 'r', 'i', 'o', 'd'] {
        Some('.')
    } else if name == seq!['s', 'l', 'a', 's', 'h'] {
        Some('/')
    } else if name == seq!['z', 'e', 'r', 'o'] {
        Some('0')
    } else if name == seq!['o', 'n', 'e'] {
        Some('1')
    } else if name == seq!['t', 'w', 'o'] {
        Some('2')
    } else {
        rest
    }
}

#[verifier::rlimit(50)]
proof fn lemma_glyphs_a(name: Seq<char>)
    ensures
        entry_for(GLYPH_NAMES@, 0, name) == glyphs_a(name, entry_for(GLYPH_NAMES@, 175, name)),
{
    reveal_strlit("space  exclam !quotedbl \"numbersign #dollar $percent %ampersand &quoteright \u{2019}quotesingle 'parenleft (parenright )asterisk *plus +comma ,hyphen -period .slash /zero 0one 1two 2three 3four 4five 5six 6seven 7eight 8nine 9colon :semicolon ;less <equal =greater >question ?at @A AB BC CD DE EF FG GH HI IJ JK KL LM MN NO OP PQ QR RS ST TU UV VW WX XY YZ Zbracketleft [backslash \\bracketright ]asciicircum ^underscore _quoteleft \u{2018}grave `a ab bc cd de ef fg gh hi ij jk kl lm mn no op pq qr rs st tu uv vw wx xy yz zbraceleft {bar |braceright }asciitilde ~exclamdown \u{00A1}cent \u{00A2}sterling \u{00A3}currency \u{00A4}yen \u{00A5}brokenbar \u{00A6}section \u{00A7}dieresis \u{00A8}copyright \u{00A9}ordfeminine \u{00AA}guillemotleft \u{00AB}logicalnot \u{00AC}hyphensoft \u{00AD}registered \u{00AE}macron \u{00AF}degree \u{00B0}plusminus \u{00B1}twosuperior \u{00B2}threesuperior \u{00B3}acute \u{00B4}mu \u{00B5}paragraph \u{00B6}periodcentered \u{00B7}cedilla \u{00B8}onesuperior \u{00B9}ordmasculine \u{00BA}guillemotright \u{00BB}onequarter \u{00BC}onehalf \u{00BD}threequarters \u{00BE}questiondown \u{00BF}Agrave \u{00C0}Aacute \u{00C1}Acircumflex \u{00C2}Atilde \u{00C3}Adieresis \u{00C4}Aring \u{00C5}AE \u{00C6}Ccedilla \u{00C7}Egrave \u{00C8}Eacute \u{00C9}Ecircumflex \u{00CA}Edieresis \u{00CB}Igrave \u{00CC}Iacute \u{00CD}Icircumflex \u{00CE}Idieresis \u{00CF}Eth \u{00D0}Ntilde \u{00D1}Ograve \u{00D2}Oacute \u{00D3}Ocircumflex \u{00D4}Otilde \u{00D5}Odieresis \u{00D6}multiply \u{00D7}Oslash \u{00D8}Ugrave \u{00D9}Uacute \u{00DA}Ucircumflex \u{00DB}Udieresis \u{00DC}Yacute \u{00DD}Thorn \u{00DE}germandbls \u{00DF}agrave \u{00E0}aacute \u{00E1}acircumflex \u{00E2}atilde \u{00E3}adieresis \u{00E4}aring \u{00E5}ae \u{00E6}ccedilla \u{00E7}egrave \u{00E8}eacute \u{00E9}ecircumflex \u{00EA}edieresis \u{00EB}igrave \u{00EC}iacute \u{00ED}icircumflex \u{00EE}idieresis \u{00EF}eth \u{00F0}ntilde \u{00F1}ograve \u{00F2}oacute \u{00F3}ocircumflex \u{00F4}otilde \u{00F5}odieresis \u{00F6}divide \u{00F7}oslash \u{00F8}ugrave \u{00F9}uacute \u{00FA}ucircumflex \u{00FB}udieresis \u{00FC}yacute \u{00FD}thorn \u{00FE}ydieresis \u{00FF}Lslash \u{0141}lslash \u{0142}Scaron \u{0160}scaron \u{0161}OE \u{0152}oe \u{0153}Ydieresis \u{0178}Zcaron \u{017D}zcaron \u{017E}florin \u{0192}circumflex \u{02C6}tilde \u{02DC}caron \u{02C7}breve \u{02D8}dotaccent \u{02D9}ring \u{02DA}ogonek \u{02DB}hungarumlaut \u{02DD}Alpha \u{0391}Beta \u{0392}Gamma \u{0393}Delta \u{0394}Epsilon \u{0395}Zeta \u{0396}Eta \u{0397}Theta \u{0398}Iota \u{0399}Kappa \u{039A}Lambda \u{039B}Mu \u{039C}Nu \u{039D}Xi \u{039E}Omicron \u{039F}Pi \u{03A0}Rho \u{03A1}Sigma \u{03A3}Tau \u{03A4}Upsilon \u{03A5}Phi \u{03A6}Chi \u{03A7}Psi \u{03A8}Omega \u{03A9}alpha \u{03B1}beta \u{03B2}gamma \u{03B3}delta \u{03B4}epsilon \u{03B5}zeta \u{03B6}eta \u{03B7}theta \u{03B8}iota \u{03B9}kappa \u{03BA}lambda \u{03BB}nu \u{03BD}xi \u{03BE}omicron \u{03BF}pi \u{03C0}rho \u{03C1}sigma \u{03C3}tau \u{03C4}upsilon \u{03C5}phi \u{03C6}chi \u{03C7}psi \u{03C8}omega \u{03C9}endash \u{2013}emdash \u{2014}quotesinglbase \u{201A}quotedblbase \u{201E}quotedblleft \u{201C}quotedblright \u{201D}dagger \u{2020}daggerdbl \u{2021}bullet \u{2022}ellipsis \u{2026}perthousand \u{2030}guilsinglleft \u{2039}guilsinglright \u{203A}Euro \u{20AC}trademark \u{2122}onethird \u{2153}twothirds \u{2154}oneeighth \u{215B}threeeighths \u{215C}fiveeighths \u{215D}seveneighths \u{215E}minus \u{2212}fraction \u{2044}infinity \u{221E}notequal \u{2260}lessequal \u{2264}greaterequal \u{2265}arrowleft \u{2190}arrowup \u{2191}arrowright \u{2192}arrowdown \u{2193}arrowboth \u{2194}arrowdblleft \u{21D0}arrowdblup \u{21D1}arrowdblright \u{21D2}arrowdbldown \u{21D3}arrowdblboth \u{21D4}partialdiff \u{2202}gradient \u{2207}product \u{220F}summation \u{2211}radical \u{221A}proportional \u{221D}integral \u{222B}approxequal \u{2248}equivalence \u{2261}lozenge \u{25CA}notelement \u{2209}element \u{2208}emptyset \u{2205}intersection \u{2229}union \u{222A}logicalor \u{2228}logicaland \u{2227}universal \u{2200}existential \u{2203}filledbox \u{25A0}emptybox \u{25A1}filledrect \u{25AC}triagup \u{25B2}triagrt \u{25BA}triagdn \u{25BC}triaglf \u{25C4}circle \u{25CB}filledcircle \u{25CF}heart \u{2665}musicalnote \u{266A}musicalnotedbl \u{266B}");
    let t = GLYPH_NAMES@;
    assert(t.subrange(0, 5) =~= seq!['s', 'p', 'a', 'c', 'e']);
    lemma_entry(t, 0, seq!['s', 'p', 'a', 'c', 'e'], ' ', name);
    assert(t.subrange(7, 13) =~= seq!['e', 'x', 'c', 'l', 'a', 'm']);
    lemma_entry(t, 7, seq!['e', 'x', 'c', 'l', 'a', 'm'], '!', name);
    assert(t.subrange(15, 23) =~= seq!['q', 'u', 'o', 't', 'e', 'd', 'b', 'l']);
    lemma_entry(t, 15, seq!['q', 'u', 'o', 't', 'e', 'd', 'b', 'l'], '"', name);
    assert(t.subrange(25, 35) =~= seq!['n', 'u', 'm', 'b', 'e', 'r', 's', 'i', 'g', 'n']);
    lemma_entry(t, 25, seq!['n', 'u', 'm', 'b', 'e', 'r', 's', 'i', 'g', 'n'], '#', name);
    assert(t.subrange(37, 43) =~= seq!['d', 'o', 'l', 'l', 'a', 'r']);
    lemma_entry(t, 37, seq!['d', 'o', 'l', 'l', 'a', 'r'], '$', name);
    assert(t.subrange(45, 52) =~= seq!['p', 'e', 'r', 'c', 'e', 'n', 't']);
    lemma_entry(t, 45, seq!['p', 'e', 'r', 'c', 'e', 'n', 't'], '%', name);
    assert(t.subrange(54, 63) =~= seq!['a', 'm', 'p', 'e', 'r', 's', 'a', 'n', 'd']);
    lemma_entry(t, 54, seq!['a', 'm', 'p', 'e', 'r', 's', 'a', 'n', 'd'], '&', name);
    assert(t.subrange(65, 75) =~= seq!['q', 'u', 'o', 't', 'e', 'r', 'i', 'g', 'h', 't']);
    lemma_entry(t, 65, seq!['q', 'u', 'o', 't', 'e', 'r', 'i', 'g', 'h', 't'], '\u{2019}', name);
    assert(t.subrange(77, 88) =~= seq!['q', 'u', 'o', 't', 'e', 's', 'i', 'n', 'g', 'l', 'e']);
    lemma_entry(t, 77, seq!['q', 'u', 'o', 't', 'e', 's', 'i', 'n', 'g', 'l', 'e'], '\'', name);
    assert(t.subrange(90, 99) =~= seq!['p', 'a', 'r', 'e', 'n', 'l', 'e', 'f', 't']);
    lemma_entry(t, 90, seq!['p', 'a', 'r', 'e', 'n', 'l', 'e', 'f', 't'], '(', name);
    assert(t.subrange(101, 111) =~= seq!['p', 'a', 'r', 'e', 'n', 'r', 'i', 'g', 'h', 't']);
    lemma_entry(t, 101, seq!['p', 'a', 'r', 'e', 'n', 'r', 'i', 'g', 'h', 't'], ')', name);
    assert(t.subrange(113, 121) =~= seq!['a', 's', 't', 'e', 'r', 'i', 's', 'k']);
    lemma_entry(t, 113, seq!['a', 's', 't', 'e', 'r', 'i', 's', 'k'], '*', name);
    assert(t.subrange(123, 127) =~= seq!['p', 'l', 'u', 's']);
    lemma_entry(t, 123, seq!['p', 'l', 'u', 's'], '+', name);
    assert(t.subrange(129, 134) =~= seq!['c', 'o', 'm', 'm', 'a']);
    lemma_entry(t, 129, seq!['c', 'o', 'm', 'm', 'a'], ',', name);
    assert(t.subrange(136, 142) =~= seq!['h', 'y', 'p', 'h', 'e', 'n']);
    lemma_entry(t, 136, seq!['h', 'y', 'p', 'h', 'e', 'n'], '-', name);
    assert(t.subrange(144, 150) =~= seq!['p', 'e', 'r', 'i', 'o', 'd']);
    lemma_entry(t, 144, seq!['p', 'e', 'r', 'i', 'o', 'd'], '.', name);
    assert(t.subrange(152, 157) =~= seq!['s', 'l', 'a', 's', 'h']);
    lemma_entry(t, 152, seq!['s', 'l', 'a', 's', 'h'], '/', name);
    assert(t.subrange(159, 163) =~= seq!['z', 'e', 'r', 'o']);
    lemma_entry(t, 159, seq!['z', 'e', 'r', 'o'], '0', name);
    assert(t.subrange(165, 168) =~= seq!['o', 'n', 'e']);
    lemma_entry(t, 165, seq!['o', 'n', 'e'], '1', name);
    assert(t.subrange(170, 173) =~= seq!['t', 'w', 'o']);
    lemma_entry(t, 170, seq!['t', 'w', 'o'], '2', name);
}

/// The characters of these glyphs, or else `rest`.
pub open spec fn glyphs_b(name: Seq<char>, rest: Option<char>) -> Option<char> {
    if name == seq!['t', 'h', 'r', 'e', 'e'] {
        Some('3')
    } else if name == seq!['f', 'o', 'u', 'r'] {
        Some('4')
    } else if name == seq!['f', 'i', 'v', 'e'] {
        Some('5')
    } else if name == seq!['s', 'i', 'x'] {
        Some('6')
    } else if name == seq!['s', 'e', 'v', 'e', 'n'] {
        Some('7')
    } else if name == seq!['e', 'i', 'g', 'h', 't'] {
        Some('8')
    } else if name == seq!['n', 'i', 'n', 'e'] {
        Some('9')
    } else if name == seq!['c', 'o', 'l', 'o', 'n'] {
        Some(':')
    } else if name == seq!['s', 'e', 'm', 'i', 'c', 'o', 'l', 'o', 'n'] {
        Some(';')
    } else if name == seq!['l', 'e', 's', 's'] {
        Some('<')
    } else if name == seq!['e', 'q', 'u', 'a', 'l'] {
        Some('=')
    } else if name == seq!['g', 'r', 'e', 'a', 't', 'e', 'r'] {
        Some('>')
    } else if name == seq!['q', 'u', 'e', 's', 't', 'i', 'o', 'n'] {
        Some('?')
    } else if name == seq!['a', 't'] {
        Some('@')
    } else if name == seq!['A'] {
        Some('A')
    } else if name == seq!['B'] {
        Some('B')
    } else if name == seq!['C'] {
        Some('C')
    } else if name == seq!['D'] {
        Some('D')
    } else if name == seq!['E'] {
        Some('E')
    } else if name == seq!['F'] {
        Some('F')
    } else {
        rest
    }
}

#[verifier::rlimit(50)]
proof fn lemma_glyphs_b(name: Seq<char>)
    ensures
        entry_for(GLYPH_NAMES@, 175, name) == glyphs_b(name, entry_for(GLYPH_NAMES@, 291, name)),
{
    reveal_strlit("space  exclam !quotedbl \"numbersign #dollar $percent %ampersand &quoteright \u{2019}quotesingle 'parenleft (parenright )asterisk *plus +comma ,hyphen -period .slash /zero 0one 1two 2three 3four 4five 5six 6seven 7eight 8nine 9colon :semicolon ;less <equal =greater >question ?at @A AB BC CD DE EF FG GH HI IJ JK KL LM MN NO OP PQ QR RS ST TU UV VW WX XY YZ Zbracketleft [backslash \\bracketright ]asciicircum ^underscore _quoteleft \u{2018}grave `a ab bc cd de ef fg gh hi ij jk kl lm mn no op pq qr rs st tu uv vw wx xy yz zbraceleft {bar |braceright }asciitilde ~exclamdown \u{00A1}cent \u{00A2}sterling \u{00A3}currency \u{00A4}yen \u{00A5}brokenbar \u{00A6}section \u{00A7}dieresis \u{00A8}copyright \u{00A9}ordfeminine \u{00AA}guillemotleft \u{00AB}logicalnot \u{00AC}hyphensoft \u{00AD}registered \u{00AE}macron \u{00AF}degree \u{00B0}plusminus \u{00B1}twosuperior \u{00B2}threesuperior \u{00B3}acute \u{00B4}mu \u{00B5}paragraph \u{00B6}periodcentered \u{00B7}cedilla \u{00B8}onesuperior \u{00B9}ordmasculine \u{00BA}guillemotright \u{00BB}onequarter \u{00BC}onehalf \u{00BD}threequarters \u{00BE}questiondown \u{00BF}Agrave \u{00C0}Aacute \u{00C1}Acircumflex \u{00C2}Atilde \u{00C3}Adieresis \u{00C4}Aring \u{00C5}AE \u{00C6}Ccedilla \u{00C7}Egrave \u{00C8}Eacute \u{00C9}Ecircumflex \u{00CA}Edieresis \u{00CB}Igrave \u{00CC}Iacute \u{00CD}Icircumflex \u{00CE}Idieresis \u{00CF}Eth \u{00D0}Ntilde \u{00D1}Ograve \u{00D2}Oacute \u{00D3}Ocircumflex \u{00D4}Otilde \u{00D5}Odieresis \u{00D6}multiply \u{00D7}Oslash \u{00D8}Ugrave \u{00D9}Uacute \u{00DA}Ucircumflex \u{00DB}Udieresis \u{00DC}Yacute \u{00DD}Thorn \u{00DE}germandbls \u{00DF}agrave \u{00E0}aacute \u{00E1}acircumflex \u{00E2}atilde \u{00E3}adieresis \u{00E4}aring \u{00E5}ae \u{00E6}ccedilla \u{00E7}egrave \u{00E8}eacute \u{00E9}ecircumflex \u{00EA}edieresis \u{00EB}igrave \u{00EC}iacute \u{00ED}icircumflex \u{00EE}idieresis \u{00EF}eth \u{00F0}ntilde \u{00F1}ograve \u{00F2}oacute \u{00F3}ocircumflex \u{00F4}otilde \u{00F5}odieresis \u{00F6}divide \u{00F7}oslash \u{00F8}ugrave \u{00F9}uacute \u{00FA}ucircumflex \u{00FB}udieresis \u{00FC}yacute \u{00FD}thorn \u{00FE}ydieresis \u{00FF}Lslash \u{0141}lslash \u{0142}Scaron \u{0160}scaron \u{0161}OE \u{0152}oe \u{0153}Ydieresis \u{0178}Zcaron \u{017D}zcaron \u{017E}florin \u{0192}circumflex \u{02C6}tilde \u{02DC}caron \u{02C7}breve \u{02D8}dotaccent \u{02D9}ring \u{02DA}ogonek \u{02DB}hungarumlaut \u{02DD}Alpha \u{0391}Beta \u{0392}Gamma \u{0393}Delta \u{0394}Epsilon \u{0395}Zeta \u{0396}Eta \u{0397}Theta \u{0398}Iota \u{0399}Kappa \u{039A}Lambda \u{039B}Mu \u{039C}Nu \u{039D}Xi \u{039E}Omicron \u{039F}Pi \u{03A0}Rho \u{03A1}Sigma \u{03A3}Tau \u{03A4}Upsilon \u{03A5}Phi \u{03A6}Chi \u{03A7}Psi \u{03A8}Omega \u{03A9}alpha \u{03B1}beta \u{03B2}gamma \u{03B3}delta \u{03B4}epsilon \u{03B5}zeta \u{03B6}eta \u{03B7}theta \u{03B8}iota \u{03B9}kappa \u{03BA}lambda \u{03BB}nu \u{03BD}xi \u{03BE}omicron \u{03BF}pi \u{03C0}rho \u{03C1}sigma \u{03C3}tau \u{03C4}upsilon \u{03C5}phi \u{03C6}chi \u{03C7}psi \u{03C8}omega \u{03C9}endash \u{2013}emdash \u{2014}quotesinglbase \u{201A}quotedblbase \u{201E}quotedblleft \u{201C}quotedblright \u{201D}dagger \u{2020}daggerdbl \u{2021}bullet \u{2022}ellipsis \u{2026}perthousand \u{2030}guilsinglleft \u{2039}guilsinglright \u{203A}Euro \u{20AC}trademark \u{2122}onethird \u{2153}twothirds \u{2154}oneeighth \u{215B}threeeighths \u{215C}fiveeighths \u{215D}seveneighths \u{215E}minus \u{2212}fraction \u{2044}infinity \u{221E}notequal \u{2260}lessequal \u{2264}greaterequal \u{2265}arrowleft \u{2190}arrowup \u{2191}arrowright \u{2192}arrowdown \u{2193}arrowboth \u{2194}arrowdblleft \u{21D0}arrowdblup \u{21D1}arrowdblright \u{21D2}arrowdbldown \u{21D3}arrowdblboth \u{21D4}partialdiff \u{2202}gradient \u{2207}product \u{220F}summation \u{2211}radical \u{221A}proportional \u{221D}integral \u{222B}approxequal \u{2248}equivalence \u{2261}lozenge \u{25CA}notelement \u{2209}element \u{2208}emptyset \u{2205}intersection \u{2229}union \u{222A}logicalor \u{2228}logicaland \u{2227}universal \u{2200}existential \u{2203}filledbox \u{25A0}emptybox \u{25A1}filledrect \u{25AC}triagup \u{25B2}triagrt \u{25BA}triagdn \u{25BC}triaglf \u{25C4}circle \u{25CB}filledcircle \u{25CF}heart \u{2665}musicalnote \u{266A}musicalnotedbl \u{266B}");
    let t = GLYPH_NAMES@;
    assert(t.subrange(175, 180) =~= seq!['t', 'h', 'r', 'e', 'e']);
    lemma_entry(t, 175, seq!['t', 'h', 'r', 'e', 'e'], '3', name);
    assert(t.subrange(182, 186) =~= seq!['f', 'o', 'u', 'r']);
    lemma_entry(t, 182, seq!['f', 'o', 'u', 'r'], '4', name);
    assert(t.subrange(188, 192) =~= seq!['f', 'i', 'v', 'e']);
    lemma_entry(t, 188, seq!['f', 'i', 'v', 'e'], '5', name);
    assert(t.subrange(194, 197) =~= seq!['s', 'i', 'x']);
    lemma_entry(t, 194, seq!['s', 'i', 'x'], '6', name);
    assert(t.subrange(199, 204) =~= seq!['s', 'e', 'v', 'e', 'n']);
    lemma_entry(t, 199, seq!['s', 'e', 'v', 'e', 'n'], '7', name);
    assert(t.subrange(206, 211) =~= seq!['e', 'i', 'g', 'h', 't']);
    lemma_entry(t, 206, seq!['e', 'i', 'g', 'h', 't'], '8', name);
    assert(t.subrange(213, 217) =~= seq!['n', 'i', 'n', 'e']);
    lemma_entry(t, 213, seq!['n', 'i', 'n', 'e'], '9', name);
    assert(t.subrange(219, 224) =~= seq!['c', 'o', 'l', 'o', 'n']);
    lemma_entry(t, 219, seq!['c', 'o', 'l', 'o', 'n'], ':', name);
    assert(t.subrange(226, 235) =~= seq!['s', 'e', 'm', 'i', 'c', 'o', 'l', 'o', 'n']);
    lemma_entry(t, 226, seq!['s', 'e', 'm', 'i', 'c', 'o', 'l', 'o', 'n'], ';', name);
    assert(t.subrange(237, 241) =~= seq!['l', 'e', 's', 's']);
    lemma_entry(t, 237, seq!['l', 'e', 's', 's'], '<', name);
    assert(t.subrange(243, 248) =~= seq!['e', 'q', 'u', 'a', 'l']);
    lemma_entry(t, 243, seq!['e', 'q', 'u', 'a', 'l'], '=', name);
    assert(t.subrange(250, 257) =~= seq!['g', 'r', 'e', 'a', 't', 'e', 'r']);
    lemma_entry(t, 250, seq!['g', 'r', 'e', 'a', 't', 'e', 'r'], '>', name);
    assert(t.subrange(259, 267) =~= seq!['q', 'u', 'e', 's', 't', 'i', 'o', 'n']);
    lemma_entry(t, 259, seq!['q', 'u', 'e', 's', 't', 'i', 'o', 'n'], '?', name);
    assert(t.subrange(269, 271) =~= seq!['a', 't']);
    lemma_entry(t, 269, seq!['a', 't'], '@', name);
    assert(t.subrange(273, 274) =~= seq!['A']);
    lemma_entry(t, 273, seq!['A'], 'A', name);
    assert(t.subrange(276, 277) =~= seq!['B']);
    lemma_entry(t, 276, seq!['B'], 'B', name);
    assert(t.subrange(279, 280) =~= seq!['C']);
    lemma_entry(t, 279, seq!['C'], 'C', name);
    assert(t.subrange(282, 283) =~= seq!['D']);
    lemma_entry(t, 282, seq!['D'], 'D', name);
    assert(t.subrange(285, 286) =~= seq!['E']);
    lemma_entry(t, 285, seq!['E'], 'E', name);
    assert(t.subrange(288, 289) =~= seq!['F']);
    lemma_entry(t, 288, seq!['F'], 'F', name);
}

/// The characters of these glyphs, or else `rest`.
pub open spec fn glyphs_c(name: Seq<char>, rest: Option<char>) -> Option<char> {
    if name == seq!['G'] {
        Some('G')
    } else if name == seq!['H'] {
        Some('H')
    } else if name == seq!['I'] {
        Some('I')
    } else if name == seq!['J'] {
        Some('J')
    } else if name == seq!['K'] {
        Some('K')
    } else if name == seq!['L'] {
        Some('L')
    } else if name == seq!['M'] {
        Some('M')
    } else if name == seq!['N'] {
        Some('N')
    } else if name == seq!['O'] {
        Some('O')
    } else if name == seq!['P'] {
        Some('P')
    } else if name == seq!['Q'] {
        Some('Q')
    } else if name == seq!['R'] {
        Some('R')
    } else if name == seq!['S'] {
        Some('S')
    } else if name == seq!['T'] {
        Some('T')
    } else if name == seq!['U'] {
        Some('U')
    } else if name == seq!['V'] {
        Some('V')
    } else if name == seq!['W'] {
        Some('W')
    } else if name == seq!['X'] {
        Some('X')
    } else if name == seq!['Y'] {
        Some('Y')
    } else if name == seq!['Z'] {
        Some('Z')
    } else {
        rest
    }
}

#[verifier::rlimit(50)]
proof fn lemma_glyphs_c(name: Seq<char>)
    ensures
        entry_for(GLYPH_NAMES@, 291, name) == glyphs_c(name, entry_for(GLYPH_NAMES@, 351, name)),
{
    reveal_strlit("space  exclam !quotedbl \"numbersign #dollar $percent %ampersand &quoteright \u{2019}quotesingle 'parenleft (parenright )asterisk *plus +comma ,hyphen -period .slash /zero 0one 1two 2three 3four 4five 5six 6seven 7eight 8nine 9colon :semicolon ;less <equal =greater >question ?at @A AB BC CD DE EF FG GH HI IJ JK KL LM MN NO OP PQ QR RS ST TU UV VW WX XY YZ Zbracketleft [backslash \\bracketright ]asciicircum ^underscore _quoteleft \u{2018}grave `a ab bc cd de ef fg gh hi ij jk kl lm mn no op pq qr rs st tu uv vw wx xy yz zbraceleft {bar |braceright }asciitilde ~exclamdown \u{00A1}cent \u{00A2}sterling \u{00A3}currency \u{00A4}yen \u{00A5}brokenbar \u{00A6}section \u{00A7}dieresis \u{00A8}copyright \u{00A9}ordfeminine \u{00AA}guillemotleft \u{00AB}logicalnot \u{00AC}hyphensoft \u{00AD}registered \u{00AE}macron \u{00AF}degree \u{00B0}plusminus \u{00B1}twosuperior \u{00B2}threesuperior \u{00B3}acute \u{00B4}mu \u{00B5}paragraph \u{00B6}periodcentered \u{00B7}cedilla \u{00B8}onesuperior \u{00B9}ordmasculine \u{00BA}guillemotright \u{00BB}onequarter \u{00BC}onehalf \u{00BD}threequarters \u{00BE}questiondown \u{00BF}Agrave \u{00C0}Aacute \u{00C1}Acircumflex \u{00C2}Atilde \u{00C3}Adieresis \u{00C4}Aring \u{00C5}AE \u{00C6}Ccedilla \u{00C7}Egrave \u{00C8}Eacute \u{00C9}Ecircumflex \u{00CA}Edieresis \u{00CB}Igrave \u{00CC}Iacute \u{00CD}Icircumflex \u{00CE}Idieresis \u{00CF}Eth \u{00D0}Ntilde \u{00D1}Ograve \u{00D2}Oacute \u{00D3}Ocircumflex \u{00D4}Otilde \u{00D5}Odieresis \u{00D6}multiply \u{00D7}Oslash \u{00D8}Ugrave \u{00D9}Uacute \u{00DA}Ucircumflex \u{00DB}Udieresis \u{00DC}Yacute \u{00DD}Thorn \u{00DE}germandbls \u{00DF}agrave \u{00E0}aacute \u{00E1}acircumflex \u{00E2}atilde \u{00E3}adieresis \u{00E4}aring \u{00E5}ae \u{00E6}ccedilla \u{00E7}egrave \u{00E8}eacute \u{00E9}ecircumflex \u{00EA}edieresis \u{00EB}igrave \u{00EC}iacute \u{00ED}icircumflex \u{00EE}idieresis \u{00EF}eth \u{00F0}ntilde \u{00F1}ograve \u{00F2}oacute \u{00F3}ocircumflex \u{00F4}otilde \u{00F5}odieresis \u{00F6}divide \u{00F7}oslash \u{00F8}ugrave \u{00F9}uacute \u{00FA}ucircumflex \u{00FB}udieresis \u{00FC}yacute \u{00FD}thorn \u{00FE}ydieresis \u{00FF}Lslash \u{0141}lslash \u{0142}Scaron \u{0160}scaron \u{0161}OE \u{0152}oe \u{0153}Ydieresis \u{0178}Zcaron \u{017D}zcaron \u{017E}florin \u{0192}circumflex \u{02C6}tilde \u{02DC}caron \u{02C7}breve \u{02D8}dotaccent \u{02D9}ring \u{02DA}ogonek \u{02DB}hungarumlaut \u{02DD}Alpha \u{0391}Beta \u{0392}Gamma \u{0393}Delta \u{0394}Epsilon \u{0395}Zeta \u{0396}Eta \u{0397}Theta \u{0398}Iota \u{0399}Kappa \u{039A}Lambda \u{039B}Mu \u{039C}Nu \u{039D}Xi \u{039E}Omicron \u{039F}Pi \u{03A0}Rho \u{03A1}Sigma \u{03A3}Tau \u{03A4}Upsilon \u{03A5}Phi \u{03A6}Chi \u{03A7}Psi \u{03A8}Omega \u{03A9}alpha \u{03B1}beta \u{03B2}gamma \u{03B3}delta \u{03B4}epsilon \u{03B5}zeta \u{03B6}eta \u{03B7}theta \u{03B8}iota \u{03B9}kappa \u{03BA}lambda \u{03BB}nu \u{03BD}xi \u{03BE}omicron \u{03BF}pi \u{03C0}rho \u{03C1}sigma \u{03C3}tau \u{03C4}upsilon \u{03C5}phi \u{03C6}chi \u{03C7}psi \u{03C8}omega \u{03C9}endash \u{2013}emdash \u{2014}quotesinglbase \u{201A}quotedblbase \u{201E}quotedblleft \u{201C}quotedblright \u{201D}dagger \u{2020}daggerdbl \u{2021}bullet \u{2022}ellipsis \u{2026}perthousand \u{2030}guilsinglleft \u{2039}guilsinglright \u{203A}Euro \u{20AC}trademark \u{2122}onethird \u{2153}twothirds \u{2154}oneeighth \u{215B}threeeighths \u{215C}fiveeighths \u{215D}seveneighths \u{215E}minus \u{2212}fraction \u{2044}infinity \u{221E}notequal \u{2260}lessequal \u{2264}greaterequal \u{2265}arrowleft \u{2190}arrowup \u{2191}arrowright \u{2192}arrowdown \u{2193}arrowboth \u{2194}arrowdblleft \u{21D0}arrowdblup \u{21D1}arrowdblright \u{21D2}arrowdbldown \u{21D3}arrowdblboth \u{21D4}partialdiff \u{2202}gradient \u{2207}product \u{220F}summation \u{2211}radical \u{221A}proportional \u{221D}integral \u{222B}approxequal \u{2248}equivalence \u{2261}lozenge \u{25CA}notelement \u{2209}element \u{2208}emptyset \u{2205}intersection \u{2229}union \u{222A}logicalor \u{2228}logicaland \u{2227}universal \u{2200}existential \u{2203}filledbox \u{25A0}emptybox \u{25A1}filledrect \u{25AC}triagup \u{25B2}triagrt \u{25BA}triagdn \u{25BC}triaglf \u{25C4}circle \u{25CB}filledcircle \u{25CF}heart \u{2665}musicalnote \u{266A}musicalnotedbl \u{266B}");
    let t = GLYPH_NAMES@;
    assert(t.subrange(291, 292) =~= seq!['G']);
    lemma_entry(t, 291, seq!['G'], 'G', name);
    assert(t.subrange(294, 295) =~= seq!['H']);
    lemma_entry(t, 294, seq!['H'], 'H', name);
    assert(t.subrange(297, 298) =~= seq!['I']);
    lemma_entry(t, 297, seq!['I'], 'I', name);
    assert(t.subrange(300, 301) =~= seq!['J']);
    lemma_entry(t, 300, seq!['J'], 'J', name);
    assert(t.subrange(303, 304) =~= seq!['K']);
    lemma_entry(t, 303, seq!['K'], 'K', name);
    assert(t.subrange(306, 307) =~= seq!['L']);
    lemma_entry(t, 306, seq!['L'], 'L', name);
    assert(t.subrange(309, 310) =~= seq!['M']);
    lemma_entry(t, 309, seq!['M'], 'M', name);
    assert(t.subrange(312, 313) =~= seq!['N']);
    lemma_entry(t, 312, seq!['N'], 'N', name);
    assert(t.subrange(315, 316) =~= seq!['O']);
    lemma_entry(t, 315, seq!['O'], 'O', name);
    assert(t.subrange(318, 319) =~= seq!['P']);
    lemma_entry(t, 318, seq!['P'], 'P', name);
    assert(t.subrange(321, 322) =~= seq!['Q']);
    lemma_entry(t, 321, seq!['Q'], 'Q', name);
    assert(t.subrange(324, 325) =~= seq!['R']);
    lemma_entry(t, 324, seq!['R'], 'R', name);
    assert(t.subrange(327, 328) =~= seq!['S']);
    lemma_entry(t, 327, seq!['S'], 'S', name);
    assert(t.subrange(330, 331) =~= seq!['T']);
    lemma_entry(t, 330, seq!['T'], 'T', name);
    assert(t.subrange(333, 334) =~= seq!['U']);
    lemma_entry(t, 333, seq!['U'], 'U', name);
    assert(t.subrange(336, 337) =~= seq!['V']);
    lemma_entry(t, 336, seq!['V'], 'V', name);
    assert(t.subrange(339, 340) =~= seq!['W']);
    lemma_entry(t, 339, seq!['W'], 'W', name);
    assert(t.subrange(342, 343) =~= seq!['X']);
    lemma_entry(t, 342, seq!['X'], 'X', name);
    assert(t.subrange(345, 346) =~= seq!['Y']);
    lemma_entry(t, 345, seq!['Y'], 'Y', name);
    assert(t.subrange(348, 349) =~= seq!['Z']);
    lemma_entry(t, 348, seq!['Z'], 'Z', name);
}

/// The characters of these glyphs, or else `rest`.
pub open spec fn glyphs_d(name: Seq<char>, rest: Option<char>) -> Option<char> {
    if name == seq!['b', 'r', 'a', 'c', 'k', 'e', 't', 'l', 'e', 'f', 't'] {
        Some('[')
    } else if name == seq!['b', 'a', 'c', 'k', 's', 'l', 'a', 's', 'h'] {
        Some('\\')
    } else if name == seq!['b', 'r', 'a', 'c', 'k', 'e', 't', 'r', 'i', 'g', 'h', 't'] {
        Some(']')
    } else if name == seq!['a', 's', 'c', 'i', 'i', 'c', 'i', 'r', 'c', 'u', 'm'] {
        Some('^')
    } else if name == seq!['u', 'n', 'd', 'e', 'r', 's', 'c', 'o', 'r', 'e'] {
        Some('_')
    } else if name == seq!['q', 'u', 'o', 't', 'e', 'l', 'e', 'f', 't'] {
        Some('\u{2018}')
    } else if name == seq!['g', 'r', 'a', 'v', 'e'] {
        Some('`')
    } else if name == seq!['a'] {
        Some('a')
    } else if name == seq!['b'] {
        Some('b')
    } else if name == seq!['c'] {
        Some('c')
    } else if name == seq!['d'] {
        Some('d')
    } else if name == seq!['e'] {
        Some('e')
    } else if name == seq!['f'] {
        Some('f')
    } else if name == seq!['g'] {
        Some('g')
    } else if name == seq!['h'] {
        Some('h')
    } else if name == seq!['i'] {
        Some('i')
    } else if name == seq!['j'] {
        Some('j')
    } else if name == seq!['k'] {
        Some('k')
    } else if name == seq!['l'] {
        Some('l')
    } else if name == seq!['m'] {
        Some('m')
    } else {
        rest
    }
}

#[verifier::rlimit(50)]
proof fn lemma_glyphs_d(name: Seq<char>)
    ensures
        entry_for(GLYPH_NAMES@, 351, name) == glyphs_d(name, entry_for(GLYPH_NAMES@, 471, name)),
{
    reveal_strlit("space  exclam !quotedbl \"numbersign #dollar $percent %ampersand &quoteright \u{2019}quotesingle 'parenleft (parenright )asterisk *plus +comma ,hyphen -period .slash /zero 0one 1two 2three 3four 4five 5six 6seven 7eight 8nine 9colon :semicolon ;less <equal =greater >question ?at @A AB BC CD DE EF FG GH HI IJ JK KL LM MN NO OP PQ QR RS ST TU UV VW WX XY YZ Zbracketleft [backslash \\bracketright ]asciicircum ^underscore _quoteleft \u{2018}grave `a ab bc cd de ef fg gh hi ij jk kl lm mn no op pq qr rs st tu uv vw wx xy yz zbraceleft {bar |braceright }asciitilde ~exclamdown \u{00A1}cent \u{00A2}sterling \u{00A3}currency \u{00A4}yen \u{00A5}brokenbar \u{00A6}section \u{00A7}dieresis \u{00A8}copyright \u{00A9}ordfeminine \u{00AA}guillemotleft \u{00AB}logicalnot \u{00AC}hyphensoft \u{00AD}registered \u{00AE}macron \u{00AF}degree \u{00B0}plusminus \u{00B1}twosuperior \u{00B2}threesuperior \u{00B3}acute \u{00B4}mu \u{00B5}paragraph \u{00B6}periodcentered \u{00B7}cedilla \u{00B8}onesuperior \u{00B9}ordmasculine \u{00BA}guillemotright \u{00BB}onequarter \u{00BC}onehalf \u{00BD}threequarters \u{00BE}questiondown \u{00BF}Agrave \u{00C0}Aacute \u{00C1}Acircumflex \u{00C2}Atilde \u{00C3}Adieresis \u{00C4}Aring \u{00C5}AE \u{00C6}Ccedilla \u{00C7}Egrave \u{00C8}Eacute \u{00C9}Ecircumflex \u{00CA}Edieresis \u{00CB}Igrave \u{00CC}Iacute \u{00CD}Icircumflex \u{00CE}Idieresis \u{00CF}Eth \u{00D0}Ntilde \u{00D1}Ograve \u{00D2}Oacute \u{00D3}Ocircumflex \u{00D4}Otilde \u{00D5}Odieresis \u{00D6}multiply \u{00D7}Oslash \u{00D8}Ugrave \u{00D9}Uacute \u{00DA}Ucircumflex \u{00DB}Udieresis \u{00DC}Yacute \u{00DD}Thorn \u{00DE}germandbls \u{00DF}agrave \u{00E0}aacute \u{00E1}acircumflex \u{00E2}atilde \u{00E3}adieresis \u{00E4}aring \u{00E5}ae \u{00E6}ccedilla \u{00E7}egrave \u{00E8}eacute \u{00E9}ecircumflex \u{00EA}edieresis \u{00EB}igrave \u{00EC}iacute \u{00ED}icircumflex \u{00EE}idieresis \u{00EF}eth \u{00F0}ntilde \u{00F1}ograve \u{00F2}oacute \u{00F3}ocircumflex \u{00F4}otilde \u{00F5}odieresis \u{00F6}divide \u{00F7}oslash \u{00F8}ugrave \u{00F9}uacute \u{00FA}ucircumflex \u{00FB}udieresis \u{00FC}yacute \u{00FD}thorn \u{00FE}ydieresis \u{00FF}Lslash \u{0141}lslash \u{0142}Scaron \u{0160}scaron \u{0161}OE \u{0152}oe \u{0153}Ydieresis \u{0178}Zcaron \u{017D}zcaron \u{017E}florin \u{0192}circumflex \u{02C6}tilde \u{02DC}caron \u{02C7}breve \u{02D8}dotaccent \u{02D9}ring \u{02DA}ogonek \u{02DB}hungarumlaut \u{02DD}Alpha \u{0391}Beta \u{0392}Gamma \u{0393}Delta \u{0394}Epsilon \u{0395}Zeta \u{0396}Eta \u{0397}Theta \u{0398}Iota \u{0399}Kappa \u{039A}Lambda \u{039B}Mu \u{039C}Nu \u{039D}Xi \u{039E}Omicron \u{039F}Pi \u{03A0}Rho \u{03A1}Sigma \u{03A3}Tau \u{03A4}Upsilon \u{03A5}Phi \u{03A6}Chi \u{03A7}Psi \u{03A8}Omega \u{03A9}alpha \u{03B1}beta \u{03B2}gamma \u{03B3}delta \u{03B4}epsilon \u{03B5}zeta \u{03B6}eta \u{03B7}theta \u{03B8}iota \u{03B9}kappa \u{03BA}lambda \u{03BB}nu \u{03BD}xi \u{03BE}omicron \u{03BF}pi \u{03C0}rho \u{03C1}sigma \u{03C3}tau \u{03C4}upsilon \u{03C5}phi \u{03C6}chi \u{03C7}psi \u{03C8}omega \u{03C9}endash \u{2013}emdash \u{2014}quotesinglbase \u{201A}quotedblbase \u{201E}quotedblleft \u{201C}quotedblright \u{201D}dagger \u{2020}daggerdbl \u{2021}bullet \u{2022}ellipsis \u{2026}perthousand \u{2030}guilsinglleft \u{2039}guilsinglright \u{203A}Euro \u{20AC}trademark \u{2122}onethird \u{2153}twothirds \u{2154}oneeighth \u{215B}threeeighths \u{215C}fiveeighths \u{215D}seveneighths \u{215E}minus \u{2212}fraction \u{2044}infinity \u{221E}notequal \u{2260}lessequal \u{2264}greaterequal \u{2265}arrowleft \u{2190}arrowup \u{2191}arrowright \u{2192}arrowdown \u{2193}arrowboth \u{2194}arrowdblleft \u{21D0}arrowdblup \u{21D1}arrowdblright \u{21D2}arrowdbldown \u{21D3}arrowdblboth \u{21D4}partialdiff \u{2202}gradient \u{2207}product \u{220F}summation \u{2211}radical \u{221A}proportional \u{221D}integral \u{222B}approxequal \u{2248}equivalence \u{2261}lozenge \u{25CA}notelement \u{2209}element \u{2208}emptyset \u{2205}intersection \u{2229}union \u{222A}logicalor \u{2228}logicaland \u{2227}universal \u{2200}existential \u{2203}filledbox \u{25A0}emptybox \u{25A1}filledrect \u{25AC}triagup \u{25B2}triagrt \u{25BA}triagdn \u{25BC}triaglf \u{25C4}circle \u{25CB}filledcircle \u{25CF}heart \u{2665}musicalnote \u{266A}musicalnotedbl \u{266B}");
    let t = GLYPH_NAMES@;
    assert(t.subrange(351, 362) =~= seq!['b', 'r', 'a', 'c', 'k', 'e', 't', 'l', 'e', 'f', 't']);
    lemma_entry(t, 351, seq!['b', 'r', 'a', 'c', 'k', 'e', 't', 'l', 'e', 'f', 't'], '[', name);
    assert(t.subrange(364, 373) =~= seq!['b', 'a', 'c', 'k', 's', 'l', 'a', 's', 'h']);
    lemma_entry(t, 364, seq!['b', 'a', 'c', 'k', 's', 'l', 'a', 's', 'h'], '\\', name);
    assert(t.subrange(375, 387) =~= seq!['b', 'r', 'a', 'c', 'k', 'e', 't', 'r', 'i', 'g', 'h', 't']);
    lemma_entry(t, 375, seq!['b', 'r', 'a', 'c', 'k', 'e', 't', 'r', 'i', 'g', 'h', 't'], ']', name);
    assert(t.subrange(389, 400) =~= seq!['a', 's', 'c', 'i', 'i', 'c', 'i', 'r', 'c', 'u', 'm']);
    lemma_entry(t, 389, seq!['a', 's', 'c', 'i', 'i', 'c', 'i', 'r', 'c', 'u', 'm'], '^', name);
    assert(t.subrange(402, 412) =~= seq!['u', 'n', 'd', 'e', 'r', 's', 'c', 'o', 'r', 'e']);
    lemma_entry(t, 402, seq!['u', 'n', 'd', 'e', 'r', 's', 'c', 'o', 'r', 'e'], '_', name);
    assert(t.subrange(414, 423) =~= seq!['q', 'u', 'o', 't', 'e', 'l', 'e', 'f', 't']);
    lemma_entry(t, 414, seq!['q', 'u', 'o', 't', 'e', 'l', 'e', 'f', 't'], '\u{2018}', name);
    assert(t.subrange(425, 430) =~= seq!['g', 'r', 'a', 'v', 'e']);
    lemma_entry(t, 425, seq!['g', 'r', 'a', 'v', 'e'], '`', name);
    assert(t.subrange(432, 433) =~= seq!['a']);
    lemma_entry(t, 432, seq!['a'], 'a', name);
    assert(t.subrange(435, 436) =~= seq!['b']);
    lemma_entry(t, 435, seq!['b'], 'b', name);
    assert(t.subrange(438, 439) =~= seq!['c']);
    lemma_entry(t, 438, seq!['c'], 'c', name);
    assert(t.subrange(441, 442) =~= seq!['d']);
    lemma_entry(t, 441, seq!['d'], 'd', name);
    assert(t.subrange(444, 445) =~= seq!['e']);
    lemma_entry(t, 444, seq!['e'], 'e', name);
    assert(t.subrange(447, 448) =~= seq!['f']);
    lemma_entry(t, 447, seq!['f'], 'f', name);
    assert(t.subrange(450, 451) =~= seq!['g']);
    lemma_entry(t, 450, seq!['g'], 'g', name);
    assert(t.subrange(453, 454) =~= seq!['h']);
    lemma_entry(t, 453, seq!['h'], 'h', name);
    assert(t.subrange(456, 457) =~= seq!['i']);
    lemma_entry(t, 456, seq!['i'], 'i', name);
    assert(t.subrange(459, 460) =~= seq!['j']);
    lemma_entry(t, 459, seq!['j'], 'j', name);
    assert(t.subrange(462, 463) =~= seq!['k']);
    lemma_entry(t, 462, seq!['k'], 'k', name);
    assert(t.subrange(465, 466) =~= seq!['l']);
    lemma_entry(t, 465, seq!['l'], 'l', name);
    assert(t.subrange(468, 469) =~= seq!['m']);
    lemma_entry(t, 468, seq!['m'], 'm', name);
}

/// The characters of these glyphs, or else `rest`.
pub open spec fn glyphs_e(name: Seq<char>, rest: Option<char>) -> Option<char> {
    if name == seq!['n'] {
        Some('n')
    } else if name == seq!['o'] {
        Some('o')
    } else if name == seq!['p'] {
        Some('p')
    } else if name == seq!['q'] {
        Some('q')
    } else if name == seq!['r'] {
        Some('r')
    } else if name == seq!['s'] {
        Some('s')
    } else if name == seq!['t'] {
        Some('t')
    } else if name == seq!['u'] {
        Some('u')
    } else if name == seq!['v'] {
        Some('v')
    } else if name == seq!['w'] {
        Some('w')
    } else if name == seq!['x'] {
        Some('x')
    } else if name == seq!['y'] {
        Some('y')
    } else if name == seq!['z'] {
        Some('z')
    } else if name == seq!['b', 'r', 'a', 'c', 'e', 'l', 'e', 'f', 't'] {
        Some('{')
    } else if name == seq!['b', 'a', 'r'] {
        Some('|')
    } else if name == seq!['b', 'r', 'a', 'c', 'e', 'r', 'i', 'g', 'h', 't'] {
        Some('}')
    } else if name == seq!['a', 's', 'c', 'i', 'i', 't', 'i', 'l', 'd', 'e'] {
        Some('~')
    } else if name == seq!['e', 'x', 'c', 'l', 'a', 'm', 'd', 'o', 'w', 'n'] {
        Some('\u{A1}')
    } else if name == seq!['c', 'e', 'n', 't'] {
        Some('\u{A2}')
    } else if name == seq!['s', 't', 'e', 'r', 'l', 'i', 'n', 'g'] {
        Some('\u{A3}')
    } else {
        rest
    }
}

#[verifier::rlimit(50)]
proof fn lemma_glyphs_e(name: Seq<char>)
    ensures
        entry_for(GLYPH_NAMES@, 471, name) == glyphs_e(name, entry_for(GLYPH_NAMES@, 578, name)),
{
    reveal_strlit("space  exclam !quotedbl \"numbersign #dollar $percent %ampersand &quoteright \u{2019}quotesingle 'parenleft (parenright )asterisk *plus +comma ,hyphen -period .slash /zero 0one 1two 2three 3four 4five 5six 6seven 7eight 8nine 9colon :semicolon ;less <equal =greater >question ?at @A AB BC CD DE EF FG GH HI IJ JK KL LM MN NO OP PQ QR RS ST TU UV VW WX XY YZ Zbracketleft [backslash \\bracketright ]asciicircum ^underscore _quoteleft \u{2018}grave `a ab bc cd de ef fg gh hi ij jk kl lm mn no op pq qr rs st tu uv vw wx xy yz zbraceleft {bar |braceright }asciitilde ~exclamdown \u{00A1}cent \u{00A2}sterling \u{00A3}currency \u{00A4}yen \u{00A5}brokenbar \u{00A6}section \u{00A7}dieresis \u{00A8}copyright \u{00A9}ordfeminine \u{00AA}guillemotleft \u{00AB}logicalnot \u{00AC}hyphensoft \u{00AD}registered \u{00AE}macron \u{00AF}degree \u{00B0}plusminus \u{00B1}twosuperior \u{00B2}threesuperior \u{00B3}acute \u{00B4}mu \u{00B5}paragraph \u{00B6}periodcentered \u{00B7}cedilla \u{00B8}onesuperior \u{00B9}ordmasculine \u{00BA}guillemotright \u{00BB}onequarter \u{00BC}onehalf \u{00BD}threequarters \u{00BE}questiondown \u{00BF}Agrave \u{00C0}Aacute \u{00C1}Acircumflex \u{00C2}Atilde \u{00C3}Adieresis \u{00C4}Aring \u{00C5}AE \u{00C6}Ccedilla \u{00C7}Egrave \u{00C8}Eacute \u{00C9}Ecircumflex \u{00CA}Edieresis \u{00CB}Igrave \u{00CC}Iacute \u{00CD}Icircumflex \u{00CE}Idieresis \u{00CF}Eth \u{00D0}Ntilde \u{00D1}Ograve \u{00D2}Oacute \u{00D3}Ocircumflex \u{00D4}Otilde \u{00D5}Odieresis \u{00D6}multiply \u{00D7}Oslash \u{00D8}Ugrave \u{00D9}Uacute \u{00DA}Ucircumflex \u{00DB}Udieresis \u{00DC}Yacute \u{00DD}Thorn \u{00DE}germandbls \u{00DF}agrave \u{00E0}aacute \u{00E1}acircumflex \u{00E2}atilde \u{00E3}adieresis \u{00E4}aring \u{00E5}ae \u{00E6}ccedilla \u{00E7}egrave \u{00E8}eacute \u{00E9}ecircumflex \u{00EA}edieresis \u{00EB}igrave \u{00EC}iacute \u{00ED}icircumflex \u{00EE}idieresis \u{00EF}eth \u{00F0}ntilde \u{00F1}ograve \u{00F2}oacute \u{00F3}ocircumflex \u{00F4}otilde \u{00F5}odieresis \u{00F6}divide \u{00F7}oslash \u{00F8}ugrave \u{00F9}uacute \u{00FA}ucircumflex \u{00FB}udieresis \u{00FC}yacute \u{00FD}thorn \u{00FE}ydieresis \u{00FF}Lslash \u{0141}lslash \u{0142}Scaron \u{0160}scaron \u{0161}OE \u{0152}oe \u{0153}Ydieresis \u{0178}Zcaron \u{017D}zcaron \u{017E}florin \u{0192}circumflex \u{02C6}tilde \u{02DC}caron \u{02C7}breve \u{02D8}dotaccent \u{02D9}ring \u{02DA}ogonek \u{02DB}hungarumlaut \u{02DD}Alpha \u{0391}Beta \u{0392}Gamma \u{0393}Delta \u{0394}Epsilon \u{0395}Zeta \u{0396}Eta \u{0397}Theta \u{0398}Iota \u{0399}Kappa \u{039A}Lambda \u{039B}Mu \u{039C}Nu \u{039D}Xi \u{039E}Omicron \u{039F}Pi \u{03A0}Rho \u{03A1}Sigma \u{03A3}Tau \u{03A4}Upsilon \u{03A5}Phi \u{03A6}Chi \u{03A7}Psi \u{03A8}Omega \u{03A9}alpha \u{03B1}beta \u{03B2}gamma \u{03B3}delta \u{03B4}epsilon \u{03B5}zeta \u{03B6}eta \u{03B7}theta \u{03B8}iota \u{03B9}kappa \u{03BA}lambda \u{03BB}nu \u{03BD}xi \u{03BE}omicron \u{03BF}pi \u{03C0}rho \u{03C1}sigma \u{03C3}tau \u{03C4}upsilon \u{03C5}phi \u{03C6}chi \u{03C7}psi \u{03C8}omega \u{03C9}endash \u{2013}emdash \u{2014}quotesinglbase \u{201A}quotedblbase \u{201E}quotedblleft \u{201C}quotedblright \u{201D}dagger \u{2020}daggerdbl \u{2021}bullet \u{2022}ellipsis \u{2026}perthousand \u{2030}guilsinglleft \u{2039}guilsinglright \u{203A}Euro \u{20AC}trademark \u{2122}onethird \u{2153}twothirds \u{2154}oneeighth \u{215B}threeeighths \u{215C}fiveeighths \u{215D}seveneighths \u{215E}minus \u{2212}fraction \u{2044}infinity \u{221E}notequal \u{2260}lessequal \u{2264}greaterequal \u{2265}arrowleft \u{2190}arrowup \u{2191}arrowright \u{2192}arrowdown \u{2193}arrowboth \u{2194}arrowdblleft \u{21D0}arrowdblup \u{21D1}arrowdblright \u{21D2}arrowdbldown \u{21D3}arrowdblboth \u{21D4}partialdiff \u{2202}gradient \u{2207}product \u{220F}summation \u{2211}radical \u{221A}proportional \u{221D}integral \u{222B}approxequal \u{2248}equivalence \u{2261}lozenge \u{25CA}notelement \u{2209}element \u{2208}emptyset \u{2205}intersection \u{2229}union \u{222A}logicalor \u{2228}logicaland \u{2227}universal \u{2200}existential \u{2203}filledbox \u{25A0}emptybox \u{25A1}filledrect \u{25AC}triagup \u{25B2}triagrt \u{25BA}triagdn \u{25BC}triaglf \u{25C4}circle \u{25CB}filledcircle \u{25CF}heart \u{2665}musicalnote \u{266A}musicalnotedbl \u{266B}");
    let t = GLYPH_NAMES@;
    assert(t.subrange(471, 472) =~= seq!['n']);
    lemma_entry(t, 471, seq!['n'], 'n', name);
    assert(t.subrange(474, 475) =~= seq!['o']);
    lemma_entry(t, 474, seq!['o'], 'o', name);
    assert(t.subrange(477, 478) =~= seq!['p']);
    lemma_entry(t, 477, seq!['p'], 'p', name);
    assert(t.subrange(480, 481) =~= seq!['q']);
    lemma_entry(t, 480, seq!['q'], 'q', name);
    assert(t.subrange(483, 484) =~= seq!['r']);
    lemma_entry(t, 483, seq!['r'], 'r', name);
    assert(t.subrange(486, 487) =~= seq!['s']);
    lemma_entry(t, 486, seq!['s'], 's', name);
    assert(t.subrange(489, 490) =~= seq!['t']);
    lemma_entry(t, 489, seq!['t'], 't', name);
    assert(t.subrange(492, 493) =~= seq!['u']);
    lemma_entry(t, 492, seq!['u'], 'u', name);
    assert(t.subrange(495, 496) =~= seq!['v']);
    lemma_entry(t, 495, seq!['v'], 'v', name);
    assert(t.subrange(498, 499) =~= seq!['w']);
    lemma_entry(t, 498, seq!['w'], 'w', name);
    assert(t.subrange(501, 502) =~= seq!['x']);
    lemma_entry(t, 501, seq!['x'], 'x', name);
    assert(t.subrange(504, 505) =~= seq!['y']);
    lemma_entry(t, 504, seq!['y'], 'y', name);
    assert(t.subrange(507, 508) =~= seq!['z']);
    lemma_entry(t, 507, seq!['z'], 'z', name);
    assert(t.subrange(510, 519) =~= seq!['b', 'r', 'a', 'c', 'e', 'l', 'e', 'f', 't']);
    lemma_entry(t, 510, seq!['b', 'r', 'a', 'c', 'e', 'l', 'e', 'f', 't'], '{', name);
    assert(t.subrange(521, 524) =~= seq!['b', 'a', 'r']);
    lemma_entry(t, 521, seq!['b', 'a', 'r'], '|', name);
    assert(t.subrange(526, 536) =~= seq!['b', 'r', 'a', 'c', 'e', 'r', 'i', 'g', 'h', 't']);
    lemma_entry(t, 526, seq!['b', 'r', 'a', 'c', 'e', 'r', 'i', 'g', 'h', 't'], '}', name);
    assert(t.subrange(538, 548) =~= seq!['a', 's', 'c', 'i', 'i', 't', 'i', 'l', 'd', 'e']);
    lemma_entry(t, 538, seq!['a', 's', 'c', 'i', 'i', 't', 'i', 'l', 'd', 'e'], '~', name);
    assert(t.subrange(550, 560) =~= seq!['e', 'x', 'c', 'l', 'a', 'm', 'd', 'o', 'w', 'n']);
    lemma_entry(t, 550, seq!['e', 'x', 'c', 'l', 'a', 'm', 'd', 'o', 'w', 'n'], '\u{A1}', name);
    assert(t.subrange(562, 566) =~= seq!['c', 'e', 'n', 't']);
    lemma_entry(t, 562, seq!['c', 'e', 'n', 't'], '\u{A2}', name);
    assert(t.subrange(568, 576) =~= seq!['s', 't', 'e', 'r', 'l', 'i', 'n', 'g']);
    lemma_entry(t, 568, seq!['s', 't', 'e', 'r', 'l', 'i', 'n', 'g'], '\u{A3}', name);
}

/// The characters of these glyphs, or else `rest`.
pub open spec fn glyphs_f(name: Seq<char>, rest: Option<char>) -> Option<char> {
    if name == seq!['c', 'u', 'r', 'r', 'e', 'n', 'c', 'y'] {
        Some('\u{A4}')
    } else if name == seq!['y', 'e', 'n'] {
        Some('\u{A5}')
    } else if name == seq!['b', 'r', 'o', 'k', 'e', 'n', 'b', 'a', 'r'] {
        Some('\u{A6}')
    } else if name == seq!['s', 'e', 'c', 't', 'i', 'o', 'n'] {
        Some('\u{A7}')
    } else if name == seq!['d', 'i', 'e', 'r', 'e', 's', 'i', 's'] {
        Some('\u{A8}')
    } else if name == seq!['c', 'o', 'p', 'y', 'r', 'i', 'g', 'h', 't'] {
        Some('\u{A9}')
    } else if name == seq!['o', 'r', 'd', 'f', 'e', 'm', 'i', 'n', 'i', 'n', 'e'] {
        Some('\u{AA}')
    } else if name == seq!['g', 'u', 'i', 'l', 'l', 'e', 'm', 'o', 't', 'l', 'e', 'f', 't'] {
        Some('\u{AB}')
    } else if name == seq!['l', 'o', 'g', 'i', 'c', 'a', 'l', 'n', 'o', 't'] {
        Some('\u{AC}')
    } else if name == seq!['h', 'y', 'p', 'h', 'e', 'n', 's', 'o', 'f', 't'] {
        Some('\u{AD}')
    } else if name == seq!['r', 'e', 'g', 'i', 's', 't', 'e', 'r', 'e', 'd'] {
        Some('\u{AE}')
    } else if name == seq!['m', 'a', 'c', 'r', 'o', 'n'] {
        Some('\u{AF}')
    } else if name == seq!['d', 'e', 'g', 'r', 'e', 'e'] {
        Some('\u{B0}')
    } else if name == seq!['p', 'l', 'u', 's', 'm', 'i', 'n', 'u', 's'] {
        Some('\u{B1}')
    } else if name == seq!['t', 'w', 'o', 's', 'u', 'p', 'e', 'r', 'i', 'o', 'r'] {
        Some('\u{B2}')
    } else if name == seq!['t', 'h', 'r', 'e', 'e', 's', 'u', 'p', 'e', 'r', 'i', 'o', 'r'] {
        Some('\u{B3}')
    } else if name == seq!['a', 'c', 'u', 't', 'e'] {
        Some('\u{B4}')
    } else if name == seq!['m', 'u'] {
        Some('\u{B5}')
    } else if name == seq!['p', 'a', 'r', 'a', 'g', 'r', 'a', 'p', 'h'] {
        Some('\u{B6}')
    } else if name == seq!['p', 'e', 'r', 'i', 'o', 'd', 'c', 'e', 'n', 't', 'e', 'r', 'e', 'd'] {
        Some('\u{B7}')
    } else {
        rest
    }
}

#[verifier::rlimit(50)]
proof fn lemma_glyphs_f(name: Seq<char>)
    ensures
        entry_for(GLYPH_NAMES@, 578, name) == glyphs_f(name, entry_for(GLYPH_NAMES@, 791, name)),
{
    reveal_strlit("space  exclam !quotedbl \"numbersign #dollar $percent %ampersand &quoteright \u{2019}quotesingle 'parenleft (parenright )asterisk *plus +comma ,hyphen -period .slash /zero 0one 1two 2three 3four 4five 5six 6seven 7eight 8nine 9colon :semicolon ;less <equal =greater >question ?at @A AB BC CD DE EF FG GH HI IJ JK KL LM MN NO OP PQ QR RS ST TU UV VW WX XY YZ Zbracketleft [backslash \\bracketright ]asciicircum ^underscore _quoteleft \u{2018}grave `a ab bc cd de ef fg gh hi ij jk kl lm mn no op pq qr rs st tu uv vw wx xy yz zbraceleft {bar |braceright }asciitilde ~exclamdown \u{00A1}cent \u{00A2}sterling \u{00A3}currency \u{00A4}yen \u{00A5}brokenbar \u{00A6}section \u{00A7}dieresis \u{00A8}copyright \u{00A9}ordfeminine \u{00AA}guillemotleft \u{00AB}logicalnot \u{00AC}hyphensoft \u{00AD}registered \u{00AE}macron \u{00AF}degree \u{00B0}plusminus \u{00B1}twosuperior \u{00B2}threesuperior \u{00B3}acute \u{00B4}mu \u{00B5}paragraph \u{00B6}periodcentered \u{00B7}cedilla \u{00B8}onesuperior \u{00B9}ordmasculine \u{00BA}guillemotright \u{00BB}onequarter \u{00BC}onehalf \u{00BD}threequarters \u{00BE}questiondown \u{00BF}Agrave \u{00C0}Aacute \u{00C1}Acircumflex \u{00C2}Atilde \u{00C3}Adieresis \u{00C4}Aring \u{00C5}AE \u{00C6}Ccedilla \u{00C7}Egrave \u{00C8}Eacute \u{00C9}Ecircumflex \u{00CA}Edieresis \u{00CB}Igrave \u{00CC}Iacute \u{00CD}Icircumflex \u{00CE}Idieresis \u{00CF}Eth \u{00D0}Ntilde \u{00D1}Ograve \u{00D2}Oacute \u{00D3}Ocircumflex \u{00D4}Otilde \u{00D5}Odieresis \u{00D6}multiply \u{00D7}Oslash \u{00D8}Ugrave \u{00D9}Uacute \u{00DA}Ucircumflex \u{00DB}Udieresis \u{00DC}Yacute \u{00DD}Thorn \u{00DE}germandbls \u{00DF}agrave \u{00E0}aacute \u{00E1}acircumflex \u{00E2}atilde \u{00E3}adieresis \u{00E4}aring \u{00E5}ae \u{00E6}ccedilla \u{00E7}egrave \u{00E8}eacute \u{00E9}ecircumflex \u{00EA}edieresis \u{00EB}igrave \u{00EC}iacute \u{00ED}icircumflex \u{00EE}idieresis \u{00EF}eth \u{00F0}ntilde \u{00F1}ograve \u{00F2}oacute \u{00F3}ocircumflex \u{00F4}otilde \u{00F5}odieresis \u{00F6}divide \u{00F7}oslash \u{00F8}ugrave \u{00F9}uacute \u{00FA}ucircumflex \u{00FB}udieresis \u{00FC}yacute \u{00FD}thorn \u{00FE}ydieresis \u{00FF}Lslash \u{0141}lslash \u{0142}Scaron \u{0160}scaron \u{0161}OE \u{0152}oe \u{0153}Ydieresis \u{0178}Zcaron \u{017D}zcaron \u{017E}florin \u{0192}circumflex \u{02C6}tilde \u{02DC}caron \u{02C7}breve \u{02D8}dotaccent \u{02D9}ring \u{02DA}ogonek \u{02DB}hungarumlaut \u{02DD}Alpha \u{0391}Beta \u{0392}Gamma \u{0393}Delta \u{0394}Epsilon \u{0395}Zeta \u{0396}Eta \u{0397}Theta \u{0398}Iota \u{0399}Kappa \u{039A}Lambda \u{039B}Mu \u{039C}Nu \u{039D}Xi \u{039E}Omicron \u{039F}Pi \u{03A0}Rho \u{03A1}Sigma \u{03A3}Tau \u{03A4}Upsilon \u{03A5}Phi \u{03A6}Chi \u{03A7}Psi \u{03A8}Omega \u{03A9}alpha \u{03B1}beta \u{03B2}gamma \u{03B3}delta \u{03B4}epsilon \u{03B5}zeta \u{03B6}eta \u{03B7}theta \u{03B8}iota \u{03B9}kappa \u{03BA}lambda \u{03BB}nu \u{03BD}xi \u{03BE}omicron \u{03BF}pi \u{03C0}rho \u{03C1}sigma \u{03C3}tau \u{03C4}upsilon \u{03C5}phi \u{03C6}chi \u{03C7}psi \u{03C8}omega \u{03C9}endash \u{2013}emdash \u{2014}quotesinglbase \u{201A}quotedblbase \u{201E}quotedblleft \u{201C}quotedblright \u{201D}dagger \u{2020}daggerdbl \u{2021}bullet \u{2022}ellipsis \u{2026}perthousand \u{2030}guilsinglleft \u{2039}guilsinglright \u{203A}Euro \u{20AC}trademark \u{2122}onethird \u{2153}twothirds \u{2154}oneeighth \u{215B}threeeighths \u{215C}fiveeighths \u{215D}seveneighths \u{215E}minus \u{2212}fraction \u{2044}infinity \u{221E}notequal \u{2260}lessequal \u{2264}greaterequal \u{2265}arrowleft \u{2190}arrowup \u{2191}arrowright \u{2192}arrowdown \u{2193}arrowboth \u{2194}arrowdblleft \u{21D0}arrowdblup \u{21D1}arrowdblright \u{21D2}arrowdbldown \u{21D3}arrowdblboth \u{21D4}partialdiff \u{2202}gradient \u{2207}product \u{220F}summation \u{2211}radical \u{221A}proportional \u{221D}integral \u{222B}approxequal \u{2248}equivalence \u{2261}lozenge \u{25CA}notelement \u{2209}element \u{2208}emptyset \u{2205}intersection \u{2229}union \u{222A}logicalor \u{2228}logicaland \u{2227}universal \u{2200}existential \u{2203}filledbox \u{25A0}emptybox \u{25A1}filledrect \u{25AC}triagup \u{25B2}triagrt \u{25BA}triagdn \u{25BC}triaglf \u{25C4}circle \u{25CB}filledcircle \u{25CF}heart \u{2665}musicalnote \u{266A}musicalnotedbl \u{266B}");
    let t = GLYPH_NAMES@;
    assert(t.subrange(578, 586) =~= seq!['c', 'u', 'r', 'r', 'e', 'n', 'c', 'y']);
    lemma_entry(t, 578, seq!['c', 'u', 'r', 'r', 'e', 'n', 'c', 'y'], '\u{A4}', name);
    assert(t.subrange(588, 591) =~= seq!['y', 'e', 'n']);
    lemma_entry(t, 588, seq!['y', 'e', 'n'], '\u{A5}', name);
    assert(t.subrange(593, 602) =~= seq!['b', 'r', 'o', 'k', 'e', 'n', 'b', 'a', 'r']);
    lemma_entry(t, 593, seq!['b', 'r', 'o', 'k', 'e', 'n', 'b', 'a', 'r'], '\u{A6}', name);
    assert(t.subrange(604, 611) =~= seq!['s', 'e', 'c', 't', 'i', 'o', 'n']);
    lemma_entry(t, 604, seq!['s', 'e', 'c', 't', 'i', 'o', 'n'], '\u{A7}', name);
    assert(t.subrange(613, 621) =~= seq!['d', 'i', 'e', 'r', 'e', 's', 'i', 's']);
    lemma_entry(t, 613, seq!['d', 'i', 'e', 'r', 'e', 's', 'i', 's'], '\u{A8}', name);
    assert(t.subrange(623, 632) =~= seq!['c', 'o', 'p', 'y', 'r', 'i', 'g', 'h', 't']);
    lemma_entry(t, 623, seq!['c', 'o', 'p', 'y', 'r', 'i', 'g', 'h', 't'], '\u{A9}', name);
    assert(t.subrange(634, 645) =~= seq!['o', 'r', 'd', 'f', 'e', 'm', 'i', 'n', 'i', 'n', 'e']);
    lemma_entry(t, 634, seq!['o', 'r', 'd', 'f', 'e', 'm', 'i', 'n', 'i', 'n', 'e'], '\u{AA}', name);
    assert(t.subrange(647, 660) =~= seq!['g', 'u', 'i', 'l', 'l', 'e', 'm', 'o', 't', 'l', 'e', 'f', 't']);
    lemma_entry(t, 647, seq!['g', 'u', 'i', 'l', 'l', 'e', 'm', 'o', 't', 'l', 'e', 'f', 't'], '\u{AB}', name);
    assert(t.subrange(662, 672) =~= seq!['l', 'o', 'g', 'i', 'c', 'a', 'l', 'n', 'o', 't']);
    lemma_entry(t, 662, seq!['l', 'o', 'g', 'i', 'c', 'a', 'l', 'n', 'o', 't'], '\u{AC}', name);
    assert(t.subrange(674, 684) =~= seq!['h', 'y', 'p', 'h', 'e', 'n', 's', 'o', 'f', 't']);
    lemma_entry(t, 674, seq!['h', 'y', 'p', 'h', 'e', 'n', 's', 'o', 'f', 't'], '\u{AD}', name);
    assert(t.subrange(686, 696) =~= seq!['r', 'e', 'g', 'i', 's', 't', 'e', 'r', 'e', 'd']);
    lemma_entry(t, 686, seq!['r', 'e', 'g', 'i', 's', 't', 'e', 'r', 'e', 'd'], '\u{AE}', name);
    assert(t.subrange(698, 704) =~= seq!['m', 'a', 'c', 'r', 'o', 'n']);
    lemma_entry(t, 698, seq!['m', 'a', 'c', 'r', 'o', 'n'], '\u{AF}', name);
    assert(t.subrange(706, 712) =~= seq!['d', 'e', 'g', 'r', 'e', 'e']);
    lemma_entry(t, 706, seq!['d', 'e', 'g', 'r', 'e', 'e'], '\u{B0}', name);
    assert(t.subrange(714, 723) =~= seq!['p', 'l', 'u', 's', 'm', 'i', 'n', 'u', 's']);
    lemma_entry(t, 714, seq!['p', 'l', 'u', 's', 'm', 'i', 'n', 'u', 's'], '\u{B1}', name);
    assert(t.subrange(725, 736) =~= seq!['t', 'w', 'o', 's', 'u', 'p', 'e', 'r', 'i', 'o', 'r']);
    lemma_entry(t, 725, seq!['t', 'w', 'o', 's', 'u', 'p', 'e', 'r', 'i', 'o', 'r'], '\u{B2}', name);
    assert(t.subrange(738, 751) =~= seq!['t', 'h', 'r', 'e', 'e', 's', 'u', 'p', 'e', 'r', 'i', 'o', 'r']);
    lemma_entry(t, 738, seq!['t', 'h', 'r', 'e', 'e', 's', 'u', 'p', 'e', 'r', 'i', 'o', 'r'], '\u{B3}', name);
    assert(t.subrange(753, 758) =~= seq!['a', 'c', 'u', 't', 'e']);
    lemma_entry(t, 753, seq!['a', 'c', 'u', 't', 'e'], '\u{B4}', name);
    assert(t.subrange(760, 762) =~= seq!['m', 'u']);
    lemma_entry(t, 760, seq!['m', 'u'], '\u{B5}', name);
    assert(t.subrange(764, 773) =~= seq!['p', 'a', 'r', 'a', 'g', 'r', 'a', 'p', 'h']);
    lemma_entry(t, 764, seq!['p', 'a', 'r', 'a', 'g', 'r', 'a', 'p', 'h'], '\u{B6}', name);
    assert(t.subrange(775, 789) =~= seq!['p', 'e', 'r', 'i', 'o', 'd', 'c', 'e', 'n', 't', 'e', 'r', 'e', 'd']);
    lemma_entry(t, 775, seq!['p', 'e', 'r', 'i', 'o', 'd', 'c', 'e', 'n', 't', 'e', 'r', 'e', 'd'], '\u{B7}', name);
}

/// The characters of these glyphs, or else `rest`.
pub open spec fn glyphs_g(name: Seq<char>, rest: Option<char>) -> Option<char> {
    if name == seq!['c', 'e', 'd', 'i', 'l', 'l', 'a'] {
        Some('\u{B8}')
    } else if name == seq!['o', 'n', 'e', 's', 'u', 'p', 'e', 'r', 'i', 'o', 'r'] {
        Some('\u{B9}')
    } else if name == seq!['o', 'r', 'd', 'm', 'a', 's', 'c', 'u', 'l', 'i', 'n', 'e'] {
        Some('\u{BA}')
    } else if name == seq!['g', 'u', 'i', 'l', 'l', 'e', 'm', 'o', 't', 'r', 'i', 'g', 'h', 't'] {
        Some('\u{BB}')
    } else if name == seq!['o', 'n', 'e', 'q', 'u', 'a', 'r', 't', 'e', 'r'] {
        Some('\u{BC}')
    } else if name == seq!['o', 'n', 'e', 'h', 'a', 'l', 'f'] {
        Some('\u{BD}')
    } else if name == seq!['t', 'h', 'r', 'e', 'e', 'q', 'u', 'a', 'r', 't', 'e', 'r', 's'] {
        Some('\u{BE}')
    } else if name == seq!['q', 'u', 'e', 's', 't', 'i', 'o', 'n', 'd', 'o', 'w', 'n'] {
        Some('\u{BF}')
    } else if name == seq!['A', 'g', 'r', 'a', 'v', 'e'] {
        Some('\u{C0}')
    } else if name == seq!['A', 'a', 'c', 'u', 't', 'e'] {
        Some('\u{C1}')
    } else if name == seq!['A', 'c', 'i', 'r', 'c', 'u', 'm', 'f', 'l', 'e', 'x'] {
        Some('\u{C2}')
    } else if name == seq!['A', 't', 'i', 'l', 'd', 'e'] {
        Some('\u{C3}')
    } else if name == seq!['A', 'd', 'i', 'e', 'r', 'e', 's', 'i', 's'] {
        Some('\u{C4}')
    } else if name == seq!['A', 'r', 'i', 'n', 'g'] {
        Some('\u{C5}')
    } else if name == seq!['A', 'E'] {
        Some('\u{C6}')
    } else if name == seq!['C', 'c', 'e', 'd', 'i', 'l', 'l', 'a'] {
        Some('\u{C7}')
    } else if name == seq!['E', 'g', 'r', 'a', 'v', 'e'] {
        Some('\u{C8}')
    } else if name == seq!['E', 'a', 'c', 'u', 't', 'e'] {
        Some('\u{C9}')
    } else if name == seq!['E', 'c', 'i', 'r', 'c', 'u', 'm', 'f', 'l', 'e', 'x'] {
        Some('\u{CA}')
    } else if name == seq!['E', 'd', 'i', 'e', 'r', 'e', 's', 'i', 's'] {
        Some('\u{CB}')
    } else {
        rest
    }
}

#[verifier::rlimit(50)]
proof fn lemma_glyphs_g(name: Seq<char>)
    ensures
        entry_for(GLYPH_NAMES@, 791, name) == glyphs_g(name, entry_for(GLYPH_NAMES@, 1002, name)),
{
    reveal_strlit("space  exclam !quotedbl \"numbersign #dollar $percent %ampersand &quoteright \u{2019}quotesingle 'parenleft (parenright )asterisk *plus +comma ,hyphen -period .slash /zero 0one 1two 2three 3four 4five 5six 6seven 7eight 8nine 9colon :semicolon ;less <equal =greater >question ?at @A AB BC CD DE EF FG GH HI IJ JK KL LM MN NO OP PQ QR RS ST TU UV VW WX XY YZ Zbracketleft [backslash \\bracketright ]asciicircum ^underscore _quoteleft \u{2018}grave `a ab bc cd de ef fg gh hi ij jk kl lm mn no op pq qr rs st tu uv vw wx xy yz zbraceleft {bar |braceright }asciitilde ~exclamdown \u{00A1}cent \u{00A2}sterling \u{00A3}currency \u{00A4}yen \u{00A5}brokenbar \u{00A6}section \u{00A7}dieresis \u{00A8}copyright \u{00A9}ordfeminine \u{00AA}guillemotleft \u{00AB}logicalnot \u{00AC}hyphensoft \u{00AD}registered \u{00AE}macron \u{00AF}degree \u{00B0}plusminus \u{00B1}twosuperior \u{00B2}threesuperior \u{00B3}acute \u{00B4}mu \u{00B5}paragraph \u{00B6}periodcentered \u{00B7}cedilla \u{00B8}onesuperior \u{00B9}ordmasculine \u{00BA}guillemotright \u{00BB}onequarter \u{00BC}onehalf \u{00BD}threequarters \u{00BE}questiondown \u{00BF}Agrave \u{00C0}Aacute \u{00C1}Acircumflex \u{00C2}Atilde \u{00C3}Adieresis \u{00C4}Aring \u{00C5}AE \u{00C6}Ccedilla \u{00C7}Egrave \u{00C8}Eacute \u{00C9}Ecircumflex \u{00CA}Edieresis \u{00CB}Igrave \u{00CC}Iacute \u{00CD}Icircumflex \u{00CE}Idieresis \u{00CF}Eth \u{00D0}Ntilde \u{00D1}Ograve \u{00D2}Oacute \u{00D3}Ocircumflex \u{00D4}Otilde \u{00D5}Odieresis \u{00D6}multiply \u{00D7}Oslash \u{00D8}Ugrave \u{00D9}Uacute \u{00DA}Ucircumflex \u{00DB}Udieresis \u{00DC}Yacute \u{00DD}Thorn \u{00DE}germandbls \u{00DF}agrave \u{00E0}aacute \u{00E1}acircumflex \u{00E2}atilde \u{00E3}adieresis \u{00E4}aring \u{00E5}ae \u{00E6}ccedilla \u{00E7}egrave \u{00E8}eacute \u{00E9}ecircumflex \u{00EA}edieresis \u{00EB}igrave \u{00EC}iacute \u{00ED}icircumflex \u{00EE}idieresis \u{00EF}eth \u{00F0}ntilde \u{00F1}ograve \u{00F2}oacute \u{00F3}ocircumflex \u{00F4}otilde \u{00F5}odieresis \u{00F6}divide \u{00F7}oslash \u{00F8}ugrave \u{00F9}uacute \u{00FA}ucircumflex \u{00FB}udieresis \u{00FC}yacute \u{00FD}thorn \u{00FE}ydieresis \u{00FF}Lslash \u{0141}lslash \u{0142}Scaron \u{0160}scaron \u{0161}OE \u{0152}oe \u{0153}Ydieresis \u{0178}Zcaron \u{017D}zcaron \u{017E}florin \u{0192}circumflex \u{02C6}tilde \u{02DC}caron \u{02C7}breve \u{02D8}dotaccent \u{02D9}ring \u{02DA}ogonek \u{02DB}hungarumlaut \u{02DD}Alpha \u{0391}Beta \u{0392}Gamma \u{0393}Delta \u{0394}Epsilon \u{0395}Zeta \u{0396}Eta \u{0397}Theta \u{0398}Iota \u{0399}Kappa \u{039A}Lambda \u{039B}Mu \u{039C}Nu \u{039D}Xi \u{039E}Omicron \u{039F}Pi \u{03A0}Rho \u{03A1}Sigma \u{03A3}Tau \u{03A4}Upsilon \u{03A5}Phi \u{03A6}Chi \u{03A7}Psi \u{03A8}Omega \u{03A9}alpha \u{03B1}beta \u{03B2}gamma \u{03B3}delta \u{03B4}epsilon \u{03B5}zeta \u{03B6}eta \u{03B7}theta \u{03B8}iota \u{03B9}kappa \u{03BA}lambda \u{03BB}nu \u{03BD}xi \u{03BE}omicron \u{03BF}pi \u{03C0}rho \u{03C1}sigma \u{03C3}tau \u{03C4}upsilon \u{03C5}phi \u{03C6}chi \u{03C7}psi \u{03C8}omega \u{03C9}endash \u{2013}emdash \u{2014}quotesinglbase \u{201A}quotedblbase \u{201E}quotedblleft \u{201C}quotedblright \u{201D}dagger \u{2020}daggerdbl \u{2021}bullet \u{2022}ellipsis \u{2026}perthousand \u{2030}guilsinglleft \u{2039}guilsinglright \u{203A}Euro \u{20AC}trademark \u{2122}onethird \u{2153}twothirds \u{2154}oneeighth \u{215B}threeeighths \u{215C}fiveeighths \u{215D}seveneighths \u{215E}minus \u{2212}fraction \u{2044}infinity \u{221E}notequal \u{2260}lessequal \u{2264}greaterequal \u{2265}arrowleft \u{2190}arrowup \u{2191}arrowright \u{2192}arrowdown \u{2193}arrowboth \u{2194}arrowdblleft \u{21D0}arrowdblup \u{21D1}arrowdblright \u{21D2}arrowdbldown \u{21D3}arrowdblboth \u{21D4}partialdiff \u{2202}gradient \u{2207}product \u{220F}summation \u{2211}radical \u{221A}proportional \u{221D}integral \u{222B}approxequal \u{2248}equivalence \u{2261}lozenge \u{25CA}notelement \u{2209}element \u{2208}emptyset \u{2205}intersection \u{2229}union \u{222A}logicalor \u{2228}logicaland \u{2227}universal \u{2200}existential \u{2203}filledbox \u{25A0}emptybox \u{25A1}filledrect \u{25AC}triagup \u{25B2}triagrt \u{25BA}triagdn \u{25BC}triaglf \u{25C4}circle \u{25CB}filledcircle \u{25CF}heart \u{2665}musicalnote \u{266A}musicalnotedbl \u{266B}");
    let t = GLYPH_NAMES@;
    assert(t.subrange(791, 798) =~= seq!['c', 'e', 'd', 'i', 'l', 'l', 'a']);
    lemma_entry(t, 791, seq!['c', 'e', 'd', 'i', 'l', 'l', 'a'], '\u{B8}', name);
    assert(t.subrange(800, 811) =~= seq!['o', 'n', 'e', 's', 'u', 'p', 'e', 'r', 'i', 'o', 'r']);
    lemma_entry(t, 800, seq!['o', 'n', 'e', 's', 'u', 'p', 'e', 'r', 'i', 'o', 'r'], '\u{B9}', name);
    assert(t.subrange(813, 825) =~= seq!['o', 'r', 'd', 'm', 'a', 's', 'c', 'u', 'l', 'i', 'n', 'e']);
    lemma_entry(t, 813, seq!['o', 'r', 'd', 'm', 'a', 's', 'c', 'u', 'l', 'i', 'n', 'e'], '\u{BA}', name);
    assert(t.subrange(827, 841) =~= seq!['g', 'u', 'i', 'l', 'l', 'e', 'm', 'o', 't', 'r', 'i', 'g', 'h', 't']);
    lemma_entry(t, 827, seq!['g', 'u', 'i', 'l', 'l', 'e', 'm', 'o', 't', 'r', 'i', 'g', 'h', 't'], '\u{BB}', name);
    assert(t.subrange(843, 853) =~= seq!['o', 'n', 'e', 'q', 'u', 'a', 'r', 't', 'e', 'r']);
    lemma_entry(t, 843, seq!['o', 'n', 'e', 'q', 'u', 'a', 'r', 't', 'e', 'r'], '\u{BC}', name);
    assert(t.subrange(855, 862) =~= seq!['o', 'n', 'e', 'h', 'a', 'l', 'f']);
    lemma_entry(t, 855, seq!['o', 'n', 'e', 'h', 'a', 'l', 'f'], '\u{BD}', name);
    assert(t.subrange(864, 877) =~= seq!['t', 'h', 'r', 'e', 'e', 'q', 'u', 'a', 'r', 't', 'e', 'r', 's']);
    lemma_entry(t, 864, seq!['t', 'h', 'r', 'e', 'e', 'q', 'u', 'a', 'r', 't', 'e', 'r', 's'], '\u{BE}', name);
    assert(t.subrange(879, 891) =~= seq!['q', 'u', 'e', 's', 't', 'i', 'o', 'n', 'd', 'o', 'w', 'n']);
    lemma_entry(t, 879, seq!['q', 'u', 'e', 's', 't', 'i', 'o', 'n', 'd', 'o', 'w', 'n'], '\u{BF}', name);
    assert(t.subrange(893, 899) =~= seq!['A', 'g', 'r', 'a', 'v', 'e']);
    lemma_entry(t, 893, seq!['A', 'g', 'r', 'a', 'v', 'e'], '\u{C0}', name);
    assert(t.subrange(901, 907) =~= seq!['A', 'a', 'c', 'u', 't', 'e']);
    lemma_entry(t, 901, seq!['A', 'a', 'c', 'u', 't', 'e'], '\u{C1}', name);
    assert(t.subrange(909, 920) =~= seq!['A', 'c', 'i', 'r', 'c', 'u', 'm', 'f', 'l', 'e', 'x']);
    lemma_entry(t, 909, seq!['A', 'c', 'i', 'r', 'c', 'u', 'm', 'f', 'l', 'e', 'x'], '\u{C2}', name);
    assert(t.subrange(922, 928) =~= seq!['A', 't', 'i', 'l', 'd', 'e']);
    lemma_entry(t, 922, seq!['A', 't', 'i', 'l', 'd', 'e'], '\u{C3}', name);
    assert(t.subrange(930, 939) =~= seq!['A', 'd', 'i', 'e', 'r', 'e', 's', 'i', 's']);
    lemma_entry(t, 930, seq!['A', 'd', 'i', 'e', 'r', 'e', 's', 'i', 's'], '\u{C4}', name);
    assert(t.subrange(941, 946) =~= seq!['A', 'r', 'i', 'n', 'g']);
    lemma_entry(t, 941, seq!['A', 'r', 'i', 'n', 'g'], '\u{C5}', name);
    assert(t.subrange(948, 950) =~= seq!['A', 'E']);
    lemma_entry(t, 948, seq!['A', 'E'], '\u{C6}', name);
    assert(t.subrange(952, 960) =~= seq!['C', 'c', 'e', 'd', 'i', 'l', 'l', 'a']);
    lemma_entry(t, 952, seq!['C', 'c', 'e', 'd', 'i', 'l', 'l', 'a'], '\u{C7}', name);
    assert(t.subrange(962, 968) =~= seq!['E', 'g', 'r', 'a', 'v', 'e']);
    lemma_entry(t, 962, seq!['E', 'g', 'r', 'a', 'v', 'e'], '\u{C8}', name);
    assert(t.subrange(970, 976) =~= seq!['E', 'a', 'c', 'u', 't', 'e']);
    lemma_entry(t, 970, seq!['E', 'a', 'c', 'u', 't', 'e'], '\u{C9}', name);
    assert(t.subrange(978, 989) =~= seq!['E', 'c', 'i', 'r', 'c', 'u', 'm', 'f', 'l', 'e', 'x']);
    lemma_entry(t, 978, seq!['E', 'c', 'i', 'r', 'c', 'u', 'm', 'f', 'l', 'e', 'x'], '\u{CA}', name);
    assert(t.subrange(991, 1000) =~= seq!['E', 'd', 'i', 'e', 'r', 'e', 's', 'i', 's']);
    lemma_entry(t, 991, seq!['E', 'd', 'i', 'e', 'r', 'e', 's', 'i', 's'], '\u{CB}', name);
}

/// The characters of these glyphs, or else `rest`.
pub open spec fn glyphs_h(name: Seq<char>, rest: Option<char>) -> Option<char> {
    if name == seq!['I', 'g', 'r', 'a', 'v', 'e'] {
        Some('\u{CC}')
    } else if name == seq!['I', 'a', 'c', 'u', 't', 'e'] {
        Some('\u{CD}')
    } else if name == seq!['I', 'c', 'i', 'r', 'c', 'u', 'm', 'f', 'l', 'e', 'x'] {
        Some('\u{CE}')
    } else if name == seq!['I', 'd', 'i', 'e', 'r', 'e', 's', 'i', 's'] {
        Some('\u{CF}')
    } else if name == seq!['E', 't', 'h'] {
        Some('\u{D0}')
    } else if name == seq!['N', 't', 'i', 'l', 'd', 'e'] {
        Some('\u{D1}')
    } else if name == seq!['O', 'g', 'r', 'a', 'v', 'e'] {
        Some('\u{D2}')
    } else if name == seq!['O', 'a', 'c', 'u', 't', 'e'] {
        Some('\u{D3}')
    } else if name == seq!['O', 'c', 'i', 'r', 'c', 'u', 'm', 'f', 'l', 'e', 'x'] {
        Some('\u{D4}')
    } else if name == seq!['O', 't', 'i', 'l', 'd', 'e'] {
        Some('\u{D5}')
    } else if name == seq!['O', 'd', 'i', 'e', 'r', 'e', 's', 'i', 's'] {
        Some('\u{D6}')
    } else if name == seq!['m', 'u', 'l', 't', 'i', 'p', 'l', 'y'] {
        Some('\u{D7}')
    } else if name == seq!['O', 's', 'l', 'a', 's', 'h'] {
        Some('\u{D8}')
    } else if name == seq!['U', 'g', 'r', 'a', 'v', 'e'] {
        Some('\u{D9}')
    } else if name == seq!['U', 'a', 'c', 'u', 't', 'e'] {
        Some('\u{DA}')
    } else if name == seq!['U', 'c', 'i', 'r', 'c', 'u', 'm', 'f', 'l', 'e', 'x'] {
        Some('\u{DB}')
    } else if name == seq!['U', 'd', 'i', 'e', 'r', 'e', 's', 'i', 's'] {
        Some('\u{DC}')
    } else if name == seq!['Y', 'a', 'c', 'u', 't', 'e'] {
        Some('\u{DD}')
    } else if name == seq!['T', 'h', 'o', 'r', 'n'] {
        Some('\u{DE}')
    } else if name == seq!['g', 'e', 'r', 'm', 'a', 'n', 'd', 'b', 'l', 's'] {
        Some('\u{DF}')
    } else {
        rest
    }
}

#[verifier::rlimit(50)]
proof fn lemma_glyphs_h(name: Seq<char>)
    ensures
        entry_for(GLYPH_NAMES@, 1002, name) == glyphs_h(name, entry_for(GLYPH_NAMES@, 1188, name)),
{
    reveal_strlit("space  exclam !quotedbl \"numbersign #dollar $percent %ampersand &quoteright \u{2019}quotesingle 'parenleft (parenright )asterisk *plus +comma ,hyphen -period .slash /zero 0one 1two 2three 3four 4five 5six 6seven 7eight 8nine 9colon :semicolon ;less <equal =greater >question ?at @A AB BC CD DE EF FG GH HI IJ JK KL LM MN NO OP PQ QR RS ST TU UV VW WX XY YZ Zbracketleft [backslash \\bracketright ]asciicircum ^underscore _quoteleft \u{2018}grave `a ab bc cd de ef fg gh hi ij jk kl lm mn no op pq qr rs st tu uv vw wx xy yz zbraceleft {bar |braceright }asciitilde ~exclamdown \u{00A1}cent \u{00A2}sterling \u{00A3}currency \u{00A4}yen \u{00A5}brokenbar \u{00A6}section \u{00A7}dieresis \u{00A8}copyright \u{00A9}ordfeminine \u{00AA}guillemotleft \u{00AB}logicalnot \u{00AC}hyphensoft \u{00AD}registered \u{00AE}macron \u{00AF}degree \u{00B0}plusminus \u{00B1}twosuperior \u{00B2}threesuperior \u{00B3}acute \u{00B4}mu \u{00B5}paragraph \u{00B6}periodcentered \u{00B7}cedilla \u{00B8}onesuperior \u{00B9}ordmasculine \u{00BA}guillemotright \u{00BB}onequarter \u{00BC}onehalf \u{00BD}threequarters \u{00BE}questiondown \u{00BF}Agrave \u{00C0}Aacute \u{00C1}Acircumflex \u{00C2}Atilde \u{00C3}Adieresis \u{00C4}Aring \u{00C5}AE \u{00C6}Ccedilla \u{00C7}Egrave \u{00C8}Eacute \u{00C9}Ecircumflex \u{00CA}Edieresis \u{00CB}Igrave \u{00CC}Iacute \u{00CD}Icircumflex \u{00CE}Idieresis \u{00CF}Eth \u{00D0}Ntilde \u{00D1}Ograve \u{00D2}Oacute \u{00D3}Ocircumflex \u{00D4}Otilde \u{00D5}Odieresis \u{00D6}multiply \u{00D7}Oslash \u{00D8}Ugrave \u{00D9}Uacute \u{00DA}Ucircumflex \u{00DB}Udieresis \u{00DC}Yacute \u{00DD}Thorn \u{00DE}germandbls \u{00DF}agrave \u{00E0}aacute \u{00E1}acircumflex \u{00E2}atilde \u{00E3}adieresis \u{00E4}aring \u{00E5}ae \u{00E6}ccedilla \u{00E7}egrave \u{00E8}eacute \u{00E9}ecircumflex \u{00EA}edieresis \u{00EB}igrave \u{00EC}iacute \u{00ED}icircumflex \u{00EE}idieresis \u{00EF}eth \u{00F0}ntilde \u{00F1}ograve \u{00F2}oacute \u{00F3}ocircumflex \u{00F4}otilde \u{00F5}odieresis \u{00F6}divide \u{00F7}oslash \u{00F8}ugrave \u{00F9}uacute \u{00FA}ucircumflex \u{00FB}udieresis \u{00FC}yacute \u{00FD}thorn \u{00FE}ydieresis \u{00FF}Lslash \u{0141}lslash \u{0142}Scaron \u{0160}scaron \u{0161}OE \u{0152}oe \u{0153}Ydieresis \u{0178}Zcaron \u{017D}zcaron \u{017E}florin \u{0192}circumflex \u{02C6}tilde \u{02DC}caron \u{02C7}breve \u{02D8}dotaccent \u{02D9}ring \u{02DA}ogonek \u{02DB}hungarumlaut \u{02DD}Alpha \u{0391}Beta \u{0392}Gamma \u{0393}Delta \u{0394}Epsilon \u{0395}Zeta \u{0396}Eta \u{0397}Theta \u{0398}Iota \u{0399}Kappa \u{039A}Lambda \u{039B}Mu \u{039C}Nu \u{039D}Xi \u{039E}Omicron \u{039F}Pi \u{03A0}Rho \u{03A1}Sigma \u{03A3}Tau \u{03A4}Upsilon \u{03A5}Phi \u{03A6}Chi \u{03A7}Psi \u{03A8}Omega \u{03A9}alpha \u{03B1}beta \u{03B2}gamma \u{03B3}delta \u{03B4}epsilon \u{03B5}zeta \u{03B6}eta \u{03B7}theta \u{03B8}iota \u{03B9}kappa \u{03BA}lambda \u{03BB}nu \u{03BD}xi \u{03BE}omicron \u{03BF}pi \u{03C0}rho \u{03C1}sigma \u{03C3}tau \u{03C4}upsilon \u{03C5}phi \u{03C6}chi \u{03C7}psi \u{03C8}omega \u{03C9}endash \u{2013}emdash \u{2014}quotesinglbase \u{201A}quotedblbase \u{201E}quotedblleft \u{201C}quotedblright \u{201D}dagger \u{2020}daggerdbl \u{2021}bullet \u{2022}ellipsis \u{2026}perthousand \u{2030}guilsinglleft \u{2039}guilsinglright \u{203A}Euro \u{20AC}trademark \u{2122}onethird \u{2153}twothirds \u{2154}oneeighth \u{215B}threeeighths \u{215C}fiveeighths \u{215D}seveneighths \u{215E}minus \u{2212}fraction \u{2044}infinity \u{221E}notequal \u{2260}lessequal \u{2264}greaterequal \u{2265}arrowleft \u{2190}arrowup \u{2191}arrowright \u{2192}arrowdown \u{2193}arrowboth \u{2194}arrowdblleft \u{21D0}arrowdblup \u{21D1}arrowdblright \u{21D2}arrowdbldown \u{21D3}arrowdblboth \u{21D4}partialdiff \u{2202}gradient \u{2207}product \u{220F}summation \u{2211}radical \u{221A}proportional \u{221D}integral \u{222B}approxequal \u{2248}equivalence \u{2261}lozenge \u{25CA}notelement \u{2209}element \u{2208}emptyset \u{2205}intersection \u{2229}union \u{222A}logicalor \u{2228}logicaland \u{2227}universal \u{2200}existential \u{2203}filledbox \u{25A0}emptybox \u{25A1}filledrect \u{25AC}triagup \u{25B2}triagrt \u{25BA}triagdn \u{25BC}triaglf \u{25C4}circle \u{25CB}filledcircle \u{25CF}heart \u{2665}musicalnote \u{266A}musicalnotedbl \u{266B}");
    let t = GLYPH_NAMES@;
    assert(t.subrange(1002, 1008) =~= seq!['I', 'g', 'r', 'a', 'v', 'e']);
    lemma_entry(t, 1002, seq!['I', 'g', 'r', 'a', 'v', 'e'], '\u{CC}', name);
    assert(t.subrange(1010, 1016) =~= seq!['I', 'a', 'c', 'u', 't', 'e']);
    lemma_entry(t, 1010, seq!['I', 'a', 'c', 'u', 't', 'e'], '\u{CD}', name);
    assert(t.subrange(1018, 1029) =~= seq!['I', 'c', 'i', 'r', 'c', 'u', 'm', 'f', 'l', 'e', 'x']);
    lemma_entry(t, 1018, seq!['I', 'c', 'i', 'r', 'c', 'u', 'm', 'f', 'l', 'e', 'x'], '\u{CE}', name);
    assert(t.subrange(1031, 1040) =~= seq!['I', 'd', 'i', 'e', 'r', 'e', 's', 'i', 's']);
    lemma_entry(t, 1031, seq!['I', 'd', 'i', 'e', 'r', 'e', 's', 'i', 's'], '\u{CF}', name);
    assert(t.subrange(1042, 1045) =~= seq!['E', 't', 'h']);
    lemma_entry(t, 1042, seq!['E', 't', 'h'], '\u{D0}', name);
    assert(t.subrange(1047, 1053) =~= seq!['N', 't', 'i', 'l', 'd', 'e']);
    lemma_entry(t, 1047, seq!['N', 't', 'i', 'l', 'd', 'e'], '\u{D1}', name);
    assert(t.subrange(1055, 1061) =~= seq!['O', 'g', 'r', 'a', 'v', 'e']);
    lemma_entry(t, 1055, seq!['O', 'g', 'r', 'a', 'v', 'e'], '\u{D2}', name);
    assert(t.subrange(1063, 1069) =~= seq!['O', 'a', 'c', 'u', 't', 'e']);
    lemma_entry(t, 1063, seq!['O', 'a', 'c', 'u', 't', 'e'], '\u{D3}', name);
    assert(t.subrange(1071, 1082) =~= seq!['O', 'c', 'i', 'r', 'c', 'u', 'm', 'f', 'l', 'e', 'x']);
    lemma_entry(t, 1071, seq!['O', 'c', 'i', 'r', 'c', 'u', 'm', 'f', 'l', 'e', 'x'], '\u{D4}', name);
    assert(t.subrange(1084, 1090) =~= seq!['O', 't', 'i', 'l', 'd', 'e']);
    lemma_entry(t, 1084, seq!['O', 't', 'i', 'l', 'd', 'e'], '\u{D5}', name);
    assert(t.subrange(1092, 1101) =~= seq!['O', 'd', 'i', 'e', 'r', 'e', 's', 'i', 's']);
    lemma_entry(t, 1092, seq!['O', 'd', 'i', 'e', 'r', 'e', 's', 'i', 's'], '\u{D6}', name);
    assert(t.subrange(1103, 1111) =~= seq!['m', 'u', 'l', 't', 'i', 'p', 'l', 'y']);
    lemma_entry(t, 1103, seq!['m', 'u', 'l', 't', 'i', 'p', 'l', 'y'], '\u{D7}', name);
    assert(t.subrange(1113, 1119) =~= seq!['O', 's', 'l', 'a', 's', 'h']);
    lemma_entry(t, 1113, seq!['O', 's', 'l', 'a', 's', 'h'], '\u{D8}', name);
    assert(t.subrange(1121, 1127) =~= seq!['U', 'g', 'r', 'a', 'v', 'e']);
    lemma_entry(t, 1121, seq!['U', 'g', 'r', 'a', 'v', 'e'], '\u{D9}', name);
    assert(t.subrange(1129, 1135) =~= seq!['U', 'a', 'c', 'u', 't', 'e']);
    lemma_entry(t, 1129, seq!['U', 'a', 'c', 'u', 't', 'e'], '\u{DA}', name);
    assert(t.subrange(1137, 1148) =~= seq!['U', 'c', 'i', 'r', 'c', 'u', 'm', 'f', 'l', 'e', 'x']);
    lemma_entry(t, 1137, seq!['U', 'c', 'i', 'r', 'c', 'u', 'm', 'f', 'l', 'e', 'x'], '\u{DB}', name);
    assert(t.subrange(1150, 1159) =~= seq!['U', 'd', 'i', 'e', 'r', 'e', 's', 'i', 's']);
    lemma_entry(t, 1150, seq!['U', 'd', 'i', 'e', 'r', 'e', 's', 'i', 's'], '\u{DC}', name);
    assert(t.subrange(1161, 1167) =~= seq!['Y', 'a', 'c', 'u', 't', 'e']);
    lemma_entry(t, 1161, seq!['Y', 'a', 'c', 'u', 't', 'e'], '\u{DD}', name);
    assert(t.subrange(1169, 1174) =~= seq!['T', 'h', 'o', 'r', 'n']);
    lemma_entry(t, 1169, seq!['T', 'h', 'o', 'r', 'n'], '\u{DE}', name);
    assert(t.subrange(1176, 1186) =~= seq!['g', 'e', 'r', 'm', 'a', 'n', 'd', 'b', 'l', 's']);
    lemma_entry(t, 1176, seq!['g', 'e', 'r', 'm', 'a', 'n', 'd', 'b', 'l', 's'], '\u{DF}', name);
}

/// The characters of these glyphs, or else `rest`.
pub open spec fn glyphs_i(name: Seq<char>, rest: Option<char>) -> Option<char> {
    if name == seq!['a', 'g', 'r', 'a', 'v', 'e'] {
        Some('\u{E0}')
    } else if name == seq!['a', 'a', 'c', 'u', 't', 'e'] {
        Some('\u{E1}')
    } else if name == seq!['a', 'c', 'i', 'r', 'c', 'u', 'm', 'f', 'l', 'e', 'x'] {
        Some('\u{E2}')
    } else if name == seq!['a', 't', 'i', 'l', 'd', 'e'] {
        Some('\u{E3}')
    } else if name == seq!['a', 'd', 'i', 'e', 'r', 'e', 's', 'i', 's'] {
        Some('\u{E4}')
    } else if name == seq!['a', 'r', 'i', 'n', 'g'] {
        Some('\u{E5}')
    } else if name == seq!['a', 'e'] {
        Some('\u{E6}')
    } else if name == seq!['c', 'c', 'e', 'd', 'i', 'l', 'l', 'a'] {
        Some('\u{E7}')
    } else if name == seq!['e', 'g', 'r', 'a', 'v', 'e'] {
        Some('\u{E8}')
    } else if name == seq!['e', 'a', 'c', 'u', 't', 'e'] {
        Some('\u{E9}')
    } else if name == seq!['e', 'c', 'i', 'r', 'c', 'u', 'm', 'f', 'l', 'e', 'x'] {
        Some('\u{EA}')
    } else if name == seq!['e', 'd', 'i', 'e', 'r', 'e', 's', 'i', 's'] {
        Some('\u{EB}')
    } else if name == seq!['i', 'g', 'r', 'a', 'v', 'e'] {
        Some('\u{EC}')
    } else if name == seq!['i', 'a', 'c', 'u', 't', 'e'] {
        Some('\u{ED}')
    } else if name == seq!['i', 'c', 'i', 'r', 'c', 'u', 'm', 'f', 'l', 'e', 'x'] {
        Some('\u{EE}')
    } else if name == seq!['i', 'd', 'i', 'e', 'r', 'e', 's', 'i', 's'] {
        Some('\u{EF}')
    } else if name == seq!['e', 't', 'h'] {
        Some('\u{F0}')
    } else if name == seq!['n', 't', 'i', 'l', 'd', 'e'] {
        Some('\u{F1}')
    } else if name == seq!['o', 'g', 'r', 'a', 'v', 'e'] {
        Some('\u{F2}')
    } else if name == seq!['o', 'a', 'c', 'u', 't', 'e'] {
        Some('\u{F3}')
    } else {
        rest
    }
}

#[verifier::rlimit(50)]
proof fn lemma_glyphs_i(name: Seq<char>)
    ensures
        entry_for(GLYPH_NAMES@, 1188, name) == glyphs_i(name, entry_for(GLYPH_NAMES@, 1366, name)),
{
    reveal_strlit("space  exclam !quotedbl \"numbersign #dollar $percent %ampersand &quoteright \u{2019}quotesingle 'parenleft (parenright )asterisk *plus +comma ,hyphen -period .slash /zero 0one 1two 2three 3four 4five 5six 6seven 7eight 8nine 9colon :semicolon ;less <equal =greater >question ?at @A AB BC CD DE EF FG GH HI IJ JK KL LM MN NO OP PQ QR RS ST TU UV VW WX XY YZ Zbracketleft [backslash \\bracketright ]asciicircum ^underscore _quoteleft \u{2018}grave `a ab bc cd de ef fg gh hi ij jk kl lm mn no op pq qr rs st tu uv vw wx xy yz zbraceleft {bar |braceright }asciitilde ~exclamdown \u{00A1}cent \u{00A2}sterling \u{00A3}currency \u{00A4}yen \u{00A5}brokenbar \u{00A6}section \u{00A7}dieresis \u{00A8}copyright \u{00A9}ordfeminine \u{00AA}guillemotleft \u{00AB}logicalnot \u{00AC}hyphensoft \u{00AD}registered \u{00AE}macron \u{00AF}degree \u{00B0}plusminus \u{00B1}twosuperior \u{00B2}threesuperior \u{00B3}acute \u{00B4}mu \u{00B5}paragraph \u{00B6}periodcentered \u{00B7}cedilla \u{00B8}onesuperior \u{00B9}ordmasculine \u{00BA}guillemotright \u{00BB}onequarter \u{00BC}onehalf \u{00BD}threequarters \u{00BE}questiondown \u{00BF}Agrave \u{00C0}Aacute \u{00C1}Acircumflex \u{00C2}Atilde \u{00C3}Adieresis \u{00C4}Aring \u{00C5}AE \u{00C6}Ccedilla \u{00C7}Egrave \u{00C8}Eacute \u{00C9}Ecircumflex \u{00CA}Edieresis \u{00CB}Igrave \u{00CC}Iacute \u{00CD}Icircumflex \u{00CE}Idieresis \u{00CF}Eth \u{00D0}Ntilde \u{00D1}Ograve \u{00D2}Oacute \u{00D3}Ocircumflex \u{00D4}Otilde \u{00D5}Odieresis \u{00D6}multiply \u{00D7}Oslash \u{00D8}Ugrave \u{00D9}Uacute \u{00DA}Ucircumflex \u{00DB}Udieresis \u{00DC}Yacute \u{00DD}Thorn \u{00DE}germandbls \u{00DF}agrave \u{00E0}aacute \u{00E1}acircumflex \u{00E2}atilde \u{00E3}adieresis \u{00E4}aring \u{00E5}ae \u{00E6}ccedilla \u{00E7}egrave \u{00E8}eacute \u{00E9}ecircumflex \u{00EA}edieresis \u{00EB}igrave \u{00EC}iacute \u{00ED}icircumflex \u{00EE}idieresis \u{00EF}eth \u{00F0}ntilde \u{00F1}ograve \u{00F2}oacute \u{00F3}ocircumflex \u{00F4}otilde \u{00F5}odieresis \u{00F6}divide \u{00F7}oslash \u{00F8}ugrave \u{00F9}uacute \u{00FA}ucircumflex \u{00FB}udieresis \u{00FC}yacute \u{00FD}thorn \u{00FE}ydieresis \u{00FF}Lslash \u{0141}lslash \u{0142}Scaron \u{0160}scaron \u{0161}OE \u{0152}oe \u{0153}Ydieresis \u{0178}Zcaron \u{017D}zcaron \u{017E}florin \u{0192}circumflex \u{02C6}tilde \u{02DC}caron \u{02C7}breve \u{02D8}dotaccent \u{02D9}ring \u{02DA}ogonek \u{02DB}hungarumlaut \u{02DD}Alpha \u{0391}Beta \u{0392}Gamma \u{0393}Delta \u{0394}Epsilon \u{0395}Zeta \u{0396}Eta \u{0397}Theta \u{0398}Iota \u{0399}Kappa \u{039A}Lambda \u{039B}Mu \u{039C}Nu \u{039D}Xi \u{039E}Omicron \u{039F}Pi \u{03A0}Rho \u{03A1}Sigma \u{03A3}Tau \u{03A4}Upsilon \u{03A5}Phi \u{03A6}Chi \u{03A7}Psi \u{03A8}Omega \u{03A9}alpha \u{03B1}beta \u{03B2}gamma \u{03B3}delta \u{03B4}epsilon \u{03B5}zeta \u{03B6}eta \u{03B7}theta \u{03B8}iota \u{03B9}kappa \u{03BA}lambda \u{03BB}nu \u{03BD}xi \u{03BE}omicron \u{03BF}pi \u{03C0}rho \u{03C1}sigma \u{03C3}tau \u{03C4}upsilon \u{03C5}phi \u{03C6}chi \u{03C7}psi \u{03C8}omega \u{03C9}endash \u{2013}emdash \u{2014}quotesinglbase \u{201A}quotedblbase \u{201E}quotedblleft \u{201C}quotedblright \u{201D}dagger \u{2020}daggerdbl \u{2021}bullet \u{2022}ellipsis \u{2026}perthousand \u{2030}guilsinglleft \u{2039}guilsinglright \u{203A}Euro \u{20AC}trademark \u{2122}onethird \u{2153}twothirds \u{2154}oneeighth \u{215B}threeeighths \u{215C}fiveeighths \u{215D}seveneighths \u{215E}minus \u{2212}fraction \u{2044}infinity \u{221E}notequal \u{2260}lessequal \u{2264}greaterequal \u{2265}arrowleft \u{2190}arrowup \u{2191}arrowright \u{2192}arrowdown \u{2193}arrowboth \u{2194}arrowdblleft \u{21D0}arrowdblup \u{21D1}arrowdblright \u{21D2}arrowdbldown \u{21D3}arrowdblboth \u{21D4}partialdiff \u{2202}gradient \u{2207}product \u{220F}summation \u{2211}radical \u{221A}proportional \u{221D}integral \u{222B}approxequal \u{2248}equivalence \u{2261}lozenge \u{25CA}notelement \u{2209}element \u{2208}emptyset \u{2205}intersection \u{2229}union \u{222A}logicalor \u{2228}logicaland \u{2227}universal \u{2200}existential \u{2203}filledbox \u{25A0}emptybox \u{25A1}filledrect \u{25AC}triagup \u{25B2}triagrt \u{25BA}triagdn \u{25BC}triaglf \u{25C4}circle \u{25CB}filledcircle \u{25CF}heart \u{2665}musicalnote \u{266A}musicalnotedbl \u{266B}");
    let t = GLYPH_NAMES@;
    assert(t.subrange(1188, 1194) =~= seq!['a', 'g', 'r', 'a', 'v', 'e']);
    lemma_entry(t, 1188, seq!['a', 'g', 'r', 'a', 'v', 'e'], '\u{E0}', name);
    assert(t.subrange(1196, 1202) =~= seq!['a', 'a', 'c', 'u', 't', 'e']);
    lemma_entry(t, 1196, seq!['a', 'a', 'c', 'u', 't', 'e'], '\u{E1}', name);
    assert(t.subrange(1204, 1215) =~= seq!['a', 'c', 'i', 'r', 'c', 'u', 'm', 'f', 'l', 'e', 'x']);
    lemma_entry(t, 1204, seq!['a', 'c', 'i', 'r', 'c', 'u', 'm', 'f', 'l', 'e', 'x'], '\u{E2}', name);
    assert(t.subrange(1217, 1223) =~= seq!['a', 't', 'i', 'l', 'd', 'e']);
    lemma_entry(t, 1217, seq!['a', 't', 'i', 'l', 'd', 'e'], '\u{E3}', name);
    assert(t.subrange(1225, 1234) =~= seq!['a', 'd', 'i', 'e', 'r', 'e', 's', 'i', 's']);
    lemma_entry(t, 1225, seq!['a', 'd', 'i', 'e', 'r', 'e', 's', 'i', 's'], '\u{E4}', name);
    assert(t.subrange(1236, 1241) =~= seq!['a', 'r', 'i', 'n', 'g']);
    lemma_entry(t, 1236, seq!['a', 'r', 'i', 'n', 'g'], '\u{E5}', name);
    assert(t.subrange(1243, 1245) =~= seq!['a', 'e']);
    lemma_entry(t, 1243, seq!['a', 'e'], '\u{E6}', name);
    assert(t.subrange(1247, 1255) =~= seq!['c', 'c', 'e', 'd', 'i', 'l', 'l', 'a']);
    lemma_entry(t, 1247, seq!['c', 'c', 'e', 'd', 'i', 'l', 'l', 'a'], '\u{E7}', name);
    assert(t.subrange(1257, 1263) =~= seq!['e', 'g', 'r', 'a', 'v', 'e']);
    lemma_entry(t, 1257, seq!['e', 'g', 'r', 'a', 'v', 'e'], '\u{E8}', name);
    assert(t.subrange(1265, 1271) =~= seq!['e', 'a', 'c', 'u', 't', 'e']);
    lemma_entry(t, 1265, seq!['e', 'a', 'c', 'u', 't', 'e'], '\u{E9}', name);
    assert(t.subrange(1273, 1284) =~= seq!['e', 'c', 'i', 'r', 'c', 'u', 'm', 'f', 'l', 'e', 'x']);
    lemma_entry(t, 1273, seq!['e', 'c', 'i', 'r', 'c', 'u', 'm', 'f', 'l', 'e', 'x'], '\u{EA}', name);
    assert(t.subrange(1286, 1295) =~= seq!['e', 'd', 'i', 'e', 'r', 'e', 's', 'i', 's']);
    lemma_entry(t, 1286, seq!['e', 'd', 'i', 'e', 'r', 'e', 's', 'i', 's'], '\u{EB}', name);
    assert(t.subrange(1297, 1303) =~= seq!['i', 'g', 'r', 'a', 'v', 'e']);
    lemma_entry(t, 1297, seq!['i', 'g', 'r', 'a', 'v', 'e'], '\u{EC}', name);
    assert(t.subrange(1305, 1311) =~= seq!['i', 'a', 'c', 'u', 't', 'e']);
    lemma_entry(t, 1305, seq!['i', 'a', 'c', 'u', 't', 'e'], '\u{ED}', name);
    assert(t.subrange(1313, 1324) =~= seq!['i', 'c', 'i', 'r', 'c', 'u', 'm', 'f', 'l', 'e', 'x']);
    lemma_entry(t, 1313, seq!['i', 'c', 'i', 'r', 'c', 'u', 'm', 'f', 'l', 'e', 'x'], '\u{EE}', name);
    assert(t.subrange(1326, 1335) =~= seq!['i', 'd', 'i', 'e', 'r', 'e', 's', 'i', 's']);
    lemma_entry(t, 1326, seq!['i', 'd', 'i', 'e', 'r', 'e', 's', 'i', 's'], '\u{EF}', name);
    assert(t.subrange(1337, 1340) =~= seq!['e', 't', 'h']);
    lemma_entry(t, 1337, seq!['e', 't', 'h'], '\u{F0}', name);
    assert(t.subrange(1342, 1348) =~= seq!['n', 't', 'i', 'l', 'd', 'e']);
    lemma_entry(t, 1342, seq!['n', 't', 'i', 'l', 'd', 'e'], '\u{F1}', name);
    assert(t.subrange(1350, 1356) =~= seq!['o', 'g', 'r', 'a', 'v', 'e']);
    lemma_entry(t, 1350, seq!['o', 'g', 'r', 'a', 'v', 'e'], '\u{F2}', name);
    assert(t.subrange(1358, 1364) =~= seq!['o', 'a', 'c', 'u', 't', 'e']);
    lemma_entry(t, 1358, seq!['o', 'a', 'c', 'u', 't', 'e'], '\u{F3}', name);
}

/// The characters of these glyphs, or else `rest`.
pub open spec fn glyphs_j(name: Seq<char>, rest: Option<char>) -> Option<char> {
    if name == seq!['o', 'c', 'i', 'r', 'c', 'u', 'm', 'f', 'l', 'e', 'x'] {
        Some('\u{F4}')
    } else if name == seq!['o', 't', 'i', 'l', 'd', 'e'] {
        Some('\u{F5}')
    } else if name == seq!['o', 'd', 'i', 'e', 'r', 'e', 's', 'i', 's'] {
        Some('\u{F6}')
    } else if name == seq!['d', 'i', 'v', 'i', 'd', 'e'] {
        Some('\u{F7}')
    } else if name == seq!['o', 's', 'l', 'a', 's', 'h'] {
        Some('\u{F8}')
    } else if name == seq!['u', 'g', 'r', 'a', 'v', 'e'] {
        Some('\u{F9}')
    } else if name == seq!['u', 'a', 'c', 'u', 't', 'e'] {
        Some('\u{FA}')
    } else if name == seq!['u', 'c', 'i', 'r', 'c', 'u', 'm', 'f', 'l', 'e', 'x'] {
        Some('\u{FB}')
    } else if name == seq!['u', 'd', 'i', 'e', 'r', 'e', 's', 'i', 's'] {
        Some('\u{FC}')
    } else if name == seq!['y', 'a', 'c', 'u', 't', 'e'] {
        Some('\u{FD}')
    } else if name == seq!['t', 'h', 'o', 'r', 'n'] {
        Some('\u{FE}')
    } else if name == seq!['y', 'd', 'i', 'e', 'r', 'e', 's', 'i', 's'] {
        Some('\u{FF}')
    } else if name == seq!['L', 's', 'l', 'a', 's', 'h'] {
        Some('\u{141}')
    } else if name == seq!['l', 's', 'l', 'a', 's', 'h'] {
        Some('\u{142}')
    } else if name == seq!['S', 'c', 'a', 'r', 'o', 'n'] {
        Some('\u{160}')
    } else if name == seq!['s', 'c', 'a', 'r', 'o', 'n'] {
        Some('\u{161}')
    } else if name == seq!['O', 'E'] {
        Some('\u{152}')
    } else if name == seq!['o', 'e'] {
        Some('\u{153}')
    } else if name == seq!['Y', 'd', 'i', 'e', 'r', 'e', 's', 'i', 's'] {
        Some('\u{178}')
    } else if name == seq!['Z', 'c', 'a', 'r', 'o', 'n'] {
        Some('\u{17D}')
    } else {
        rest
    }
}

#[verifier::rlimit(50)]
proof fn lemma_glyphs_j(name: Seq<char>)
    ensures
        entry_for(GLYPH_NAMES@, 1366, name) == glyphs_j(name, entry_for(GLYPH_NAMES@, 1539, name)),
{
    reveal_strlit("space  exclam !quotedbl \"numbersign #dollar $percent %ampersand &quoteright \u{2019}quotesingle 'parenleft (parenright )asterisk *plus +comma ,hyphen -period .slash /zero 0one 1two 2three 3four 4five 5six 6seven 7eight 8nine 9colon :semicolon ;less <equal =greater >question ?at @A AB BC CD DE EF FG GH HI IJ JK KL LM MN NO OP PQ QR RS ST TU UV VW WX XY YZ Zbracketleft [backslash \\bracketright ]asciicircum ^underscore _quoteleft \u{2018}grave `a ab bc cd de ef fg gh hi ij jk kl lm mn no op pq qr rs st tu uv vw wx xy yz zbraceleft {bar |braceright }asciitilde ~exclamdown \u{00A1}cent \u{00A2}sterling \u{00A3}currency \u{00A4}yen \u{00A5}brokenbar \u{00A6}section \u{00A7}dieresis \u{00A8}copyright \u{00A9}ordfeminine \u{00AA}guillemotleft \u{00AB}logicalnot \u{00AC}hyphensoft \u{00AD}registered \u{00AE}macron \u{00AF}degree \u{00B0}plusminus \u{00B1}twosuperior \u{00B2}threesuperior \u{00B3}acute \u{00B4}mu \u{00B5}paragraph \u{00B6}periodcentered \u{00B7}cedilla \u{00B8}onesuperior \u{00B9}ordmasculine \u{00BA}guillemotright \u{00BB}onequarter \u{00BC}onehalf \u{00BD}threequarters \u{00BE}questiondown \u{00BF}Agrave \u{00C0}Aacute \u{00C1}Acircumflex \u{00C2}Atilde \u{00C3}Adieresis \u{00C4}Aring \u{00C5}AE \u{00C6}Ccedilla \u{00C7}Egrave \u{00C8}Eacute \u{00C9}Ecircumflex \u{00CA}Edieresis \u{00CB}Igrave \u{00CC}Iacute \u{00CD}Icircumflex \u{00CE}Idieresis \u{00CF}Eth \u{00D0}Ntilde \u{00D1}Ograve \u{00D2}Oacute \u{00D3}Ocircumflex \u{00D4}Otilde \u{00D5}Odieresis \u{00D6}multiply \u{00D7}Oslash \u{00D8}Ugrave \u{00D9}Uacute \u{00DA}Ucircumflex \u{00DB}Udieresis \u{00DC}Yacute \u{00DD}Thorn \u{00DE}germandbls \u{00DF}agrave \u{00E0}aacute \u{00E1}acircumflex \u{00E2}atilde \u{00E3}adieresis \u{00E4}aring \u{00E5}ae \u{00E6}ccedilla \u{00E7}egrave \u{00E8}eacute \u{00E9}ecircumflex \u{00EA}edieresis \u{00EB}igrave \u{00EC}iacute \u{00ED}icircumflex \u{00EE}idieresis \u{00EF}eth \u{00F0}ntilde \u{00F1}ograve \u{00F2}oacute \u{00F3}ocircumflex \u{00F4}otilde \u{00F5}odieresis \u{00F6}divide \u{00F7}oslash \u{00F8}ugrave \u{00F9}uacute \u{00FA}ucircumflex \u{00FB}udieresis \u{00FC}yacute \u{00FD}thorn \u{00FE}ydieresis \u{00FF}Lslash \u{0141}lslash \u{0142}Scaron \u{0160}scaron \u{0161}OE \u{0152}oe \u{0153}Ydieresis \u{0178}Zcaron \u{017D}zcaron \u{017E}florin \u{0192}circumflex \u{02C6}tilde \u{02DC}caron \u{02C7}breve \u{02D8}dotaccent \u{02D9}ring \u{02DA}ogonek \u{02DB}hungarumlaut \u{02DD}Alpha \u{0391}Beta \u{0392}Gamma \u{0393}Delta \u{0394}Epsilon \u{0395}Zeta \u{0396}Eta \u{0397}Theta \u{0398}Iota \u{0399}Kappa \u{039A}Lambda \u{039B}Mu \u{039C}Nu \u{039D}Xi \u{039E}Omicron \u{039F}Pi \u{03A0}Rho \u{03A1}Sigma \u{03A3}Tau \u{03A4}Upsilon \u{03A5}Phi \u{03A6}Chi \u{03A7}Psi \u{03A8}Omega \u{03A9}alpha \u{03B1}beta \u{03B2}gamma \u{03B3}delta \u{03B4}epsilon \u{03B5}zeta \u{03B6}eta \u{03B7}theta \u{03B8}iota \u{03B9}kappa \u{03BA}lambda \u{03BB}nu \u{03BD}xi \u{03BE}omicron \u{03BF}pi \u{03C0}rho \u{03C1}sigma \u{03C3}tau \u{03C4}upsilon \u{03C5}phi \u{03C6}chi \u{03C7}psi \u{03C8}omega \u{03C9}endash \u{2013}emdash \u{2014}quotesinglbase \u{201A}quotedblbase \u{201E}quotedblleft \u{201C}quotedblright \u{201D}dagger \u{2020}daggerdbl \u{2021}bullet \u{2022}ellipsis \u{2026}perthousand \u{2030}guilsinglleft \u{2039}guilsinglright \u{203A}Euro \u{20AC}trademark \u{2122}onethird \u{2153}twothirds \u{2154}oneeighth \u{215B}threeeighths \u{215C}fiveeighths \u{215D}seveneighths \u{215E}minus \u{2212}fraction \u{2044}infinity \u{221E}notequal \u{2260}lessequal \u{2264}greaterequal \u{2265}arrowleft \u{2190}arrowup \u{2191}arrowright \u{2192}arrowdown \u{2193}arrowboth \u{2194}arrowdblleft \u{21D0}arrowdblup \u{21D1}arrowdblright \u{21D2}arrowdbldown \u{21D3}arrowdblboth \u{21D4}partialdiff \u{2202}gradient \u{2207}product \u{220F}summation \u{2211}radical \u{221A}proportional \u{221D}integral \u{222B}approxequal \u{2248}equivalence \u{2261}lozenge \u{25CA}notelement \u{2209}element \u{2208}emptyset \u{2205}intersection \u{2229}union \u{222A}logicalor \u{2228}logicaland \u{2227}universal \u{2200}existential \u{2203}filledbox \u{25A0}emptybox \u{25A1}filledrect \u{25AC}triagup \u{25B2}triagrt \u{25BA}triagdn \u{25BC}triaglf \u{25C4}circle \u{25CB}filledcircle \u{25CF}heart \u{2665}musicalnote \u{266A}musicalnotedbl \u{266B}");
    let t = GLYPH_NAMES@;
    assert(t.subrange(1366, 1377) =~= seq!['o', 'c', 'i', 'r', 'c', 'u', 'm', 'f', 'l', 'e', 'x']);
    lemma_entry(t, 1366, seq!['o', 'c', 'i', 'r', 'c', 'u', 'm', 'f', 'l', 'e', 'x'], '\u{F4}', name);
    assert(t.subrange(1379, 1385) =~= seq!['o', 't', 'i', 'l', 'd', 'e']);
    lemma_entry(t, 1379, seq!['o', 't', 'i', 'l', 'd', 'e'], '\u{F5}', name);
    assert(t.subrange(1387, 1396) =~= seq!['o', 'd', 'i', 'e', 'r', 'e', 's', 'i', 's']);
    lemma_entry(t, 1387, seq!['o', 'd', 'i', 'e', 'r', 'e', 's', 'i', 's'], '\u{F6}', name);
    assert(t.subrange(1398, 1404) =~= seq!['d', 'i', 'v', 'i', 'd', 'e']);
    lemma_entry(t, 1398, seq!['d', 'i', 'v', 'i', 'd', 'e'], '\u{F7}', name);
    assert(t.subrange(1406, 1412) =~= seq!['o', 's', 'l', 'a', 's', 'h']);
    lemma_entry(t, 1406, seq!['o', 's', 'l', 'a', 's', 'h'], '\u{F8}', name);
    assert(t.subrange(1414, 1420) =~= seq!['u', 'g', 'r', 'a', 'v', 'e']);
    lemma_entry(t, 1414, seq!['u', 'g', 'r', 'a', 'v', 'e'], '\u{F9}', name);
    assert(t.subrange(1422, 1428) =~= seq!['u', 'a', 'c', 'u', 't', 'e']);
    lemma_entry(t, 1422, seq!['u', 'a', 'c', 'u', 't', 'e'], '\u{FA}', name);
    assert(t.subrange(1430, 1441) =~= seq!['u', 'c', 'i', 'r', 'c', 'u', 'm', 'f', 'l', 'e', 'x']);
    lemma_entry(t, 1430, seq!['u', 'c', 'i', 'r', 'c', 'u', 'm', 'f', 'l', 'e', 'x'], '\u{FB}', name);
    assert(t.subrange(1443, 1452) =~= seq!['u', 'd', 'i', 'e', 'r', 'e', 's', 'i', 's']);
    lemma_entry(t, 1443, seq!['u', 'd', 'i', 'e', 'r', 'e', 's', 'i', 's'], '\u{FC}', name);
    assert(t.subrange(1454, 1460) =~= seq!['y', 'a', 'c', 'u', 't', 'e']);
    lemma_entry(t, 1454, seq!['y', 'a', 'c', 'u', 't', 'e'], '\u{FD}', name);
    assert(t.subrange(1462, 1467) =~= seq!['t', 'h', 'o', 'r', 'n']);
    lemma_entry(t, 1462, seq!['t', 'h', 'o', 'r', 'n'], '\u{FE}', name);
    assert(t.subrange(1469, 1478) =~= seq!['y', 'd', 'i', 'e', 'r', 'e', 's', 'i', 's']);
    lemma_entry(t, 1469, seq!['y', 'd', 'i', 'e', 'r', 'e', 's', 'i', 's'], '\u{FF}', name);
    assert(t.subrange(1480, 1486) =~= seq!['L', 's', 'l', 'a', 's', 'h']);
    lemma_entry(t, 1480, seq!['L', 's', 'l', 'a', 's', 'h'], '\u{141}', name);
    assert(t.subrange(1488, 1494) =~= seq!['l', 's', 'l', 'a', 's', 'h']);
    lemma_entry(t, 1488, seq!['l', 's', 'l', 'a', 's', 'h'], '\u{142}', name);
    assert(t.subrange(1496, 1502) =~= seq!['S', 'c', 'a', 'r', 'o', 'n']);
    lemma_entry(t, 1496, seq!['S', 'c', 'a', 'r', 'o', 'n'], '\u{160}', name);
    assert(t.subrange(1504, 1510) =~= seq!['s', 'c', 'a', 'r', 'o', 'n']);
    lemma_entry(t, 1504, seq!['s', 'c', 'a', 'r', 'o', 'n'], '\u{161}', name);
    assert(t.subrange(1512, 1514) =~= seq!['O', 'E']);
    lemma_entry(t, 1512, seq!['O', 'E'], '\u{152}', name);
    assert(t.subrange(1516, 1518) =~= seq!['o', 'e']);
    lemma_entry(t, 1516, seq!['o', 'e'], '\u{153}', name);
    assert(t.subrange(1520, 1529) =~= seq!['Y', 'd', 'i', 'e', 'r', 'e', 's', 'i', 's']);
    lemma_entry(t, 1520, seq!['Y', 'd', 'i', 'e', 'r', 'e', 's', 'i', 's'], '\u{178}', name);
    assert(t.subrange(1531, 1537) =~= seq!['Z', 'c', 'a', 'r', 'o', 'n']);
    lemma_entry(t, 1531, seq!['Z', 'c', 'a', 'r', 'o', 'n'], '\u{17D}', name);
}

/// The characters of these glyphs, or else `rest`.
pub open spec fn glyphs_k(name: Seq<char>, rest: Option<char>) -> Option<char> {
    if name == seq!['z', 'c', 'a', 'r', 'o', 'n'] {
        Some('\u{17E}')
    } else if name == seq!['f', 'l', 'o', 'r', 'i', 'n'] {
        Some('\u{192}')
    } else if name == seq!['c', 'i', 'r', 'c', 'u', 'm', 'f', 'l', 'e', 'x'] {
        Some('\u{2C6}')
    } else if name == seq!['t', 'i', 'l', 'd', 'e'] {
        Some('\u{2DC}')
    } else if name == seq!['c', 'a', 'r', 'o', 'n'] {
        Some('\u{2C7}')
    } else if name == seq!['b', 'r', 'e', 'v', 'e'] {
        Some('\u{2D8}')
    } else if name == seq!['d', 'o', 't', 'a', 'c', 'c', 'e', 'n', 't'] {
        Some('\u{2D9}')
    } else if name == seq!['r', 'i', 'n', 'g'] {
        Some('\u{2DA}')
    } else if name == seq!['o', 'g', 'o', 'n', 'e', 'k'] {
        Some('\u{2DB}')
    } else if name == seq!['h', 'u', 'n', 'g', 'a', 'r', 'u', 'm', 'l', 'a', 'u', 't'] {
        Some('\u{2DD}')
    } else if name == seq!['A', 'l', 'p', 'h', 'a'] {
        Some('\u{391}')
    } else if name == seq!['B', 'e', 't', 'a'] {
        Some('\u{392}')
    } else if name == seq!['G', 'a', 'm', 'm', 'a'] {
        Some('\u{393}')
    } else if name == seq!['D', 'e', 'l', 't', 'a'] {
        Some('\u{394}')
    } else if name == seq!['E', 'p', 's', 'i', 'l', 'o', 'n'] {
        Some('\u{395}')
    } else if name == seq!['Z', 'e', 't', 'a'] {
        Some('\u{396}')
    } else if name == seq!['E', 't', 'a'] {
        Some('\u{397}')
    } else if name == seq!['T', 'h', 'e', 't', 'a'] {
        Some('\u{398}')
    } else if name == seq!['I', 'o', 't', 'a'] {
        Some('\u{399}')
    } else if name == seq!['K', 'a', 'p', 'p', 'a'] {
        Some('\u{39A}')
    } else {
        rest
    }
}

#[verifier::rlimit(50)]
proof fn lemma_glyphs_k(name: Seq<char>)
    ensures
        entry_for(GLYPH_NAMES@, 1539, name) == glyphs_k(name, entry_for(GLYPH_NAMES@, 1694, name)),
{
    reveal_strlit("space  exclam !quotedbl \"numbersign #dollar $percent %ampersand &quoteright \u{2019}quotesingle 'parenleft (parenright )asterisk *plus +comma ,hyphen -period .slash /zero 0one 1two 2three 3four 4five 5six 6seven 7eight 8nine 9colon :semicolon ;less <equal =greater >question ?at @A AB BC CD DE EF FG GH HI IJ JK KL LM MN NO OP PQ QR RS ST TU UV VW WX XY YZ Zbracketleft [backslash \\bracketright ]asciicircum ^underscore _quoteleft \u{2018}grave `a ab bc cd de ef fg gh hi ij jk kl lm mn no op pq qr rs st tu uv vw wx xy yz zbraceleft {bar |braceright }asciitilde ~exclamdown \u{00A1}cent \u{00A2}sterling \u{00A3}currency \u{00A4}yen \u{00A5}brokenbar \u{00A6}section \u{00A7}dieresis \u{00A8}copyright \u{00A9}ordfeminine \u{00AA}guillemotleft \u{00AB}logicalnot \u{00AC}hyphensoft \u{00AD}registered \u{00AE}macron \u{00AF}degree \u{00B0}plusminus \u{00B1}twosuperior \u{00B2}threesuperior \u{00B3}acute \u{00B4}mu \u{00B5}paragraph \u{00B6}periodcentered \u{00B7}cedilla \u{00B8}onesuperior \u{00B9}ordmasculine \u{00BA}guillemotright \u{00BB}onequarter \u{00BC}onehalf \u{00BD}threequarters \u{00BE}questiondown \u{00BF}Agrave \u{00C0}Aacute \u{00C1}Acircumflex \u{00C2}Atilde \u{00C3}Adieresis \u{00C4}Aring \u{00C5}AE \u{00C6}Ccedilla \u{00C7}Egrave \u{00C8}Eacute \u{00C9}Ecircumflex \u{00CA}Edieresis \u{00CB}Igrave \u{00CC}Iacute \u{00CD}Icircumflex \u{00CE}Idieresis \u{00CF}Eth \u{00D0}Ntilde \u{00D1}Ograve \u{00D2}Oacute \u{00D3}Ocircumflex \u{00D4}Otilde \u{00D5}Odieresis \u{00D6}multiply \u{00D7}Oslash \u{00D8}Ugrave \u{00D9}Uacute \u{00DA}Ucircumflex \u{00DB}Udieresis \u{00DC}Yacute \u{00DD}Thorn \u{00DE}germandbls \u{00DF}agrave \u{00E0}aacute \u{00E1}acircumflex \u{00E2}atilde \u{00E3}adieresis \u{00E4}aring \u{00E5}ae \u{00E6}ccedilla \u{00E7}egrave \u{00E8}eacute \u{00E9}ecircumflex \u{00EA}edieresis \u{00EB}igrave \u{00EC}iacute \u{00ED}icircumflex \u{00EE}idieresis \u{00EF}eth \u{00F0}ntilde \u{00F1}ograve \u{00F2}oacute \u{00F3}ocircumflex \u{00F4}otilde \u{00F5}odieresis \u{00F6}divide \u{00F7}oslash \u{00F8}ugrave \u{00F9}uacute \u{00FA}ucircumflex \u{00FB}udieresis \u{00FC}yacute \u{00FD}thorn \u{00FE}ydieresis \u{00FF}Lslash \u{0141}lslash \u{0142}Scaron \u{0160}scaron \u{0161}OE \u{0152}oe \u{0153}Ydieresis \u{0178}Zcaron \u{017D}zcaron \u{017E}florin \u{0192}circumflex \u{02C6}tilde \u{02DC}caron \u{02C7}breve \u{02D8}dotaccent \u{02D9}ring \u{02DA}ogonek \u{02DB}hungarumlaut \u{02DD}Alpha \u{0391}Beta \u{0392}Gamma \u{0393}Delta \u{0394}Epsilon \u{0395}Zeta \u{0396}Eta \u{0397}Theta \u{0398}Iota \u{0399}Kappa \u{039A}Lambda \u{039B}Mu \u{039C}Nu \u{039D}Xi \u{039E}Omicron \u{039F}Pi \u{03A0}Rho \u{03A1}Sigma \u{03A3}Tau \u{03A4}Upsilon \u{03A5}Phi \u{03A6}Chi \u{03A7}Psi \u{03A8}Omega \u{03A9}alpha \u{03B1}beta \u{03B2}gamma \u{03B3}delta \u{03B4}epsilon \u{03B5}zeta \u{03B6}eta \u{03B7}theta \u{03B8}iota \u{03B9}kappa \u{03BA}lambda \u{03BB}nu \u{03BD}xi \u{03BE}omicron \u{03BF}pi \u{03C0}rho \u{03C1}sigma \u{03C3}tau \u{03C4}upsilon \u{03C5}phi \u{03C6}chi \u{03C7}psi \u{03C8}omega \u{03C9}endash \u{2013}emdash \u{2014}quotesinglbase \u{201A}quotedblbase \u{201E}quotedblleft \u{201C}quotedblright \u{201D}dagger \u{2020}daggerdbl \u{2021}bullet \u{2022}ellipsis \u{2026}perthousand \u{2030}guilsinglleft \u{2039}guilsinglright \u{203A}Euro \u{20AC}trademark \u{2122}onethird \u{2153}twothirds \u{2154}oneeighth \u{215B}threeeighths \u{215C}fiveeighths \u{215D}seveneighths \u{215E}minus \u{2212}fraction \u{2044}infinity \u{221E}notequal \u{2260}lessequal \u{2264}greaterequal \u{2265}arrowleft \u{2190}arrowup \u{2191}arrowright \u{2192}arrowdown \u{2193}arrowboth \u{2194}arrowdblleft \u{21D0}arrowdblup \u{21D1}arrowdblright \u{21D2}arrowdbldown \u{21D3}arrowdblboth \u{21D4}partialdiff \u{2202}gradient \u{2207}product \u{220F}summation \u{2211}radical \u{221A}proportional \u{221D}integral \u{222B}approxequal \u{2248}equivalence \u{2261}lozenge \u{25CA}notelement \u{2209}element \u{2208}emptyset \u{2205}intersection \u{2229}union \u{222A}logicalor \u{2228}logicaland \u{2227}universal \u{2200}existential \u{2203}filledbox \u{25A0}emptybox \u{25A1}filledrect \u{25AC}triagup \u{25B2}triagrt \u{25BA}triagdn \u{25BC}triaglf \u{25C4}circle \u{25CB}filledcircle \u{25CF}heart \u{2665}musicalnote \u{266A}musicalnotedbl \u{266B}");
    let t = GLYPH_NAMES@;
    assert(t.subrange(1539, 1545) =~= seq!['z', 'c', 'a', 'r', 'o', 'n']);
    lemma_entry(t, 1539, seq!['z', 'c', 'a', 'r', 'o', 'n'], '\u{17E}', name);
    assert(t.subrange(1547, 1553) =~= seq!['f', 'l', 'o', 'r', 'i', 'n']);
    lemma_entry(t, 1547, seq!['f', 'l', 'o', 'r', 'i', 'n'], '\u{192}', name);
    assert(t.subrange(1555, 1565) =~= seq!['c', 'i', 'r', 'c', 'u', 'm', 'f', 'l', 'e', 'x']);
    lemma_entry(t, 1555, seq!['c', 'i', 'r', 'c', 'u', 'm', 'f', 'l', 'e', 'x'], '\u{2C6}', name);
    assert(t.subrange(1567, 1572) =~= seq!['t', 'i', 'l', 'd', 'e']);
    lemma_entry(t, 1567, seq!['t', 'i', 'l', 'd', 'e'], '\u{2DC}', name);
    assert(t.subrange(1574, 1579) =~= seq!['c', 'a', 'r', 'o', 'n']);
    lemma_entry(t, 1574, seq!['c', 'a', 'r', 'o', 'n'], '\u{2C7}', name);
    assert(t.subrange(1581, 1586) =~= seq!['b', 'r', 'e', 'v', 'e']);
    lemma_entry(t, 1581, seq!['b', 'r', 'e', 'v', 'e'], '\u{2D8}', name);
    assert(t.subrange(1588, 1597) =~= seq!['d', 'o', 't', 'a', 'c', 'c', 'e', 'n', 't']);
    lemma_entry(t, 1588, seq!['d', 'o', 't', 'a', 'c', 'c', 'e', 'n', 't'], '\u{2D9}', name);
    assert(t.subrange(1599, 1603) =~= seq!['r', 'i', 'n', 'g']);
    lemma_entry(t, 1599, seq!['r', 'i', 'n', 'g'], '\u{2DA}', name);
    assert(t.subrange(1605, 1611) =~= seq!['o', 'g', 'o', 'n', 'e', 'k']);
    lemma_entry(t, 1605, seq!['o', 'g', 'o', 'n', 'e', 'k'], '\u{2DB}', name);
    assert(t.subrange(1613, 1625) =~= seq!['h', 'u', 'n', 'g', 'a', 'r', 'u', 'm', 'l', 'a', 'u', 't']);
    lemma_entry(t, 1613, seq!['h', 'u', 'n', 'g', 'a', 'r', 'u', 'm', 'l', 'a', 'u', 't'], '\u{2DD}', name);
    assert(t.subrange(1627, 1632) =~= seq!['A', 'l', 'p', 'h', 'a']);
    lemma_entry(t, 1627, seq!['A', 'l', 'p', 'h', 'a'], '\u{391}', name);
    assert(t.subrange(1634, 1638) =~= seq!['B', 'e', 't', 'a']);
    lemma_entry(t, 1634, seq!['B', 'e', 't', 'a'], '\u{392}', name);
    assert(t.subrange(1640, 1645) =~= seq!['G', 'a', 'm', 'm', 'a']);
    lemma_entry(t, 1640, seq!['G', 'a', 'm', 'm', 'a'], '\u{393}', name);
    assert(t.subrange(1647, 1652) =~= seq!['D', 'e', 'l', 't', 'a']);
    lemma_entry(t, 1647, seq!['D', 'e', 'l', 't', 'a'], '\u{394}', name);
    assert(t.subrange(1654, 1661) =~= seq!['E', 'p', 's', 'i', 'l', 'o', 'n']);
    lemma_entry(t, 1654, seq!['E', 'p', 's', 'i', 'l', 'o', 'n'], '\u{395}', name);
    assert(t.subrange(1663, 1667) =~= seq!['Z', 'e', 't', 'a']);
    lemma_entry(t, 1663, seq!['Z', 'e', 't', 'a'], '\u{396}', name);
    assert(t.subrange(1669, 1672) =~= seq!['E', 't', 'a']);
    lemma_entry(t, 1669, seq!['E', 't', 'a'], '\u{397}', name);
    assert(t.subrange(1674, 1679) =~= seq!['T', 'h', 'e', 't', 'a']);
    lemma_entry(t, 1674, seq!['T', 'h', 'e', 't', 'a'], '\u{398}', name);
    assert(t.subrange(1681, 1685) =~= seq!['I', 'o', 't', 'a']);
    lemma_entry(t, 1681, seq!['I', 'o', 't', 'a'], '\u{399}', name);
    assert(t.subrange(1687, 1692) =~= seq!['K', 'a', 'p', 'p', 'a']);
    lemma_entry(t, 1687, seq!['K', 'a', 'p', 'p', 'a'], '\u{39A}', name);
}

/// The characters of these glyphs, or else `rest`.
pub open spec fn glyphs_l(name: Seq<char>, rest: Option<char>) -> Option<char> {
    if name == seq!['L', 'a', 'm', 'b', 'd', 'a'] {
        Some('\u{39B}')
    } else if name == seq!['M', 'u'] {
        Some('\u{39C}')
    } else if name == seq!['N', 'u'] {
        Some('\u{39D}')
    } else if name == seq!['X', 'i'] {
        Some('\u{39E}')
    } else if name == seq!['O', 'm', 'i', 'c', 'r', 'o', 'n'] {
        Some('\u{39F}')
    } else if name == seq!['P', 'i'] {
        Some('\u{3A0}')
    } else if name == seq!['R', 'h', 'o'] {
        Some('\u{3A1}')
    } else if name == seq!['S', 'i', 'g', 'm', 'a'] {
        Some('\u{3A3}')
    } else if name == seq!['T', 'a', 'u'] {
        Some('\u{3A4}')
    } else if name == seq!['U', 'p', 's', 'i', 'l', 'o', 'n'] {
        Some('\u{3A5}')
    } else if name == seq!['P', 'h', 'i'] {
        Some('\u{3A6}')
    } else if name == seq!['C', 'h', 'i'] {
        Some('\u{3A7}')
    } else if name == seq!['P', 's', 'i'] {
        Some('\u{3A8}')
    } else if name == seq!['O', 'm', 'e', 'g', 'a'] {
        Some('\u{3A9}')
    } else if name == seq!['a', 'l', 'p', 'h', 'a'] {
        Some('\u{3B1}')
    } else if name == seq!['b', 'e', 't', 'a'] {
        Some('\u{3B2}')
    } else if name == seq!['g', 'a', 'm', 'm', 'a'] {
        Some('\u{3B3}')
    } else if name == seq!['d', 'e', 'l', 't', 'a'] {
        Some('\u{3B4}')
    } else if name == seq!['e', 'p', 's', 'i', 'l', 'o', 'n'] {
        Some('\u{3B5}')
    } else if name == seq!['z', 'e', 't', 'a'] {
        Some('\u{3B6}')
    } else {
        rest
    }
}

#[verifier::rlimit(50)]
proof fn lemma_glyphs_l(name: Seq<char>)
    ensures
        entry_for(GLYPH_NAMES@, 1694, name) == glyphs_l(name, entry_for(GLYPH_NAMES@, 1817, name)),
{
    reveal_strlit("space  exclam !quotedbl \"numbersign #dollar $percent %ampersand &quoteright \u{2019}quotesingle 'parenleft (parenright )asterisk *plus +comma ,hyphen -period .slash /zero 0one 1two 2three 3four 4five 5six 6seven 7eight 8nine 9colon :semicolon ;less <equal =greater >question ?at @A AB BC CD DE EF FG GH HI IJ JK KL LM MN NO OP PQ QR RS ST TU UV VW WX XY YZ Zbracketleft [backslash \\bracketright ]asciicircum ^underscore _quoteleft \u{2018}grave `a ab bc cd de ef fg gh hi ij jk kl lm mn no op pq qr rs st tu uv vw wx xy yz zbraceleft {bar |braceright }asciitilde ~exclamdown \u{00A1}cent \u{00A2}sterling \u{00A3}currency \u{00A4}yen \u{00A5}brokenbar \u{00A6}section \u{00A7}dieresis \u{00A8}copyright \u{00A9}ordfeminine \u{00AA}guillemotleft \u{00AB}logicalnot \u{00AC}hyphensoft \u{00AD}registered \u{00AE}macron \u{00AF}degree \u{00B0}plusminus \u{00B1}twosuperior \u{00B2}threesuperior \u{00B3}acute \u{00B4}mu \u{00B5}paragraph \u{00B6}periodcentered \u{00B7}cedilla \u{00B8}onesuperior \u{00B9}ordmasculine \u{00BA}guillemotright \u{00BB}onequarter \u{00BC}onehalf \u{00BD}threequarters \u{00BE}questiondown \u{00BF}Agrave \u{00C0}Aacute \u{00C1}Acircumflex \u{00C2}Atilde \u{00C3}Adieresis \u{00C4}Aring \u{00C5}AE \u{00C6}Ccedilla \u{00C7}Egrave \u{00C8}Eacute \u{00C9}Ecircumflex \u{00CA}Edieresis \u{00CB}Igrave \u{00CC}Iacute \u{00CD}Icircumflex \u{00CE}Idieresis \u{00CF}Eth \u{00D0}Ntilde \u{00D1}Ograve \u{00D2}Oacute \u{00D3}Ocircumflex \u{00D4}Otilde \u{00D5}Odieresis \u{00D6}multiply \u{00D7}Oslash \u{00D8}Ugrave \u{00D9}Uacute \u{00DA}Ucircumflex \u{00DB}Udieresis \u{00DC}Yacute \u{00DD}Thorn \u{00DE}germandbls \u{00DF}agrave \u{00E0}aacute \u{00E1}acircumflex \u{00E2}atilde \u{00E3}adieresis \u{00E4}aring \u{00E5}ae \u{00E6}ccedilla \u{00E7}egrave \u{00E8}eacute \u{00E9}ecircumflex \u{00EA}edieresis \u{00EB}igrave \u{00EC}iacute \u{00ED}icircumflex \u{00EE}idieresis \u{00EF}eth \u{00F0}ntilde \u{00F1}ograve \u{00F2}oacute \u{00F3}ocircumflex \u{00F4}otilde \u{00F5}odieresis \u{00F6}divide \u{00F7}oslash \u{00F8}ugrave \u{00F9}uacute \u{00FA}ucircumflex \u{00FB}udieresis \u{00FC}yacute \u{00FD}thorn \u{00FE}ydieresis \u{00FF}Lslash \u{0141}lslash \u{0142}Scaron \u{0160}scaron \u{0161}OE \u{0152}oe \u{0153}Ydieresis \u{0178}Zcaron \u{017D}zcaron \u{017E}florin \u{0192}circumflex \u{02C6}tilde \u{02DC}caron \u{02C7}breve \u{02D8}dotaccent \u{02D9}ring \u{02DA}ogonek \u{02DB}hungarumlaut \u{02DD}Alpha \u{0391}Beta \u{0392}Gamma \u{0393}Delta \u{0394}Epsilon \u{0395}Zeta \u{0396}Eta \u{0397}Theta \u{0398}Iota \u{0399}Kappa \u{039A}Lambda \u{039B}Mu \u{039C}Nu \u{039D}Xi \u{039E}Omicron \u{039F}Pi \u{03A0}Rho \u{03A1}Sigma \u{03A3}Tau \u{03A4}Upsilon \u{03A5}Phi \u{03A6}Chi \u{03A7}Psi \u{03A8}Omega \u{03A9}alpha \u{03B1}beta \u{03B2}gamma \u{03B3}delta \u{03B4}epsilon \u{03B5}zeta \u{03B6}eta \u{03B7}theta \u{03B8}iota \u{03B9}kappa \u{03BA}lambda \u{03BB}nu \u{03BD}xi \u{03BE}omicron \u{03BF}pi \u{03C0}rho \u{03C1}sigma \u{03C3}tau \u{03C4}upsilon \u{03C5}phi \u{03C6}chi \u{03C7}psi \u{03C8}omega \u{03C9}endash \u{2013}emdash \u{2014}quotesinglbase \u{201A}quotedblbase \u{201E}quotedblleft \u{201C}quotedblright \u{201D}dagger \u{2020}daggerdbl \u{2021}bullet \u{2022}ellipsis \u{2026}perthousand \u{2030}guilsinglleft \u{2039}guilsinglright \u{203A}Euro \u{20AC}trademark \u{2122}onethird \u{2153}twothirds \u{2154}oneeighth \u{215B}threeeighths \u{215C}fiveeighths \u{215D}seveneighths \u{215E}minus \u{2212}fraction \u{2044}infinity \u{221E}notequal \u{2260}lessequal \u{2264}greaterequal \u{2265}arrowleft \u{2190}arrowup \u{2191}arrowright \u{2192}arrowdown \u{2193}arrowboth \u{2194}arrowdblleft \u{21D0}arrowdblup \u{21D1}arrowdblright \u{21D2}arrowdbldown \u{21D3}arrowdblboth \u{21D4}partialdiff \u{2202}gradient \u{2207}product \u{220F}summation \u{2211}radical \u{221A}proportional \u{221D}integral \u{222B}approxequal \u{2248}equivalence \u{2261}lozenge \u{25CA}notelement \u{2209}element \u{2208}emptyset \u{2205}intersection \u{2229}union \u{222A}logicalor \u{2228}logicaland \u{2227}universal \u{2200}existential \u{2203}filledbox \u{25A0}emptybox \u{25A1}filledrect \u{25AC}triagup \u{25B2}triagrt \u{25BA}triagdn \u{25BC}triaglf \u{25C4}circle \u{25CB}filledcircle \u{25CF}heart \u{2665}musicalnote \u{266A}musicalnotedbl \u{266B}");
    let t = GLYPH_NAMES@;
    assert(t.subrange(1694, 1700) =~= seq!['L', 'a', 'm', 'b', 'd', 'a']);
    lemma_entry(t, 1694, seq!['L', 'a', 'm', 'b', 'd', 'a'], '\u{39B}', name);
    assert(t.subrange(1702, 1704) =~= seq!['M', 'u']);
    lemma_entry(t, 1702, seq!['M', 'u'], '\u{39C}', name);
    assert(t.subrange(1706, 1708) =~= seq!['N', 'u']);
    lemma_entry(t, 1706, seq!['N', 'u'], '\u{39D}', name);
    assert(t.subrange(1710, 1712) =~= seq!['X', 'i']);
    lemma_entry(t, 1710, seq!['X', 'i'], '\u{39E}', name);
    assert(t.subrange(1714, 1721) =~= seq!['O', 'm', 'i', 'c', 'r', 'o', 'n']);
    lemma_entry(t, 1714, seq!['O', 'm', 'i', 'c', 'r', 'o', 'n'], '\u{39F}', name);
    assert(t.subrange(1723, 1725) =~= seq!['P', 'i']);
    lemma_entry(t, 1723, seq!['P', 'i'], '\u{3A0}', name);
    assert(t.subrange(1727, 1730) =~= seq!['R', 'h', 'o']);
    lemma_entry(t, 1727, seq!['R', 'h', 'o'], '\u{3A1}', name);
    assert(t.subrange(1732, 1737) =~= seq!['S', 'i', 'g', 'm', 'a']);
    lemma_entry(t, 1732, seq!['S', 'i', 'g', 'm', 'a'], '\u{3A3}', name);
    assert(t.subrange(1739, 1742) =~= seq!['T', 'a', 'u']);
    lemma_entry(t, 1739, seq!['T', 'a', 'u'], '\u{3A4}', name);
    assert(t.subrange(1744, 1751) =~= seq!['U', 'p', 's', 'i', 'l', 'o', 'n']);
    lemma_entry(t, 1744, seq!['U', 'p', 's', 'i', 'l', 'o', 'n'], '\u{3A5}', name);
    assert(t.subrange(1753, 1756) =~= seq!['P', 'h', 'i']);
    lemma_entry(t, 1753, seq!['P', 'h', 'i'], '\u{3A6}', name);
    assert(t.subrange(1758, 1761) =~= seq!['C', 'h', 'i']);
    lemma_entry(t, 1758, seq!['C', 'h', 'i'], '\u{3A7}', name);
    assert(t.subrange(1763, 1766) =~= seq!['P', 's', 'i']);
    lemma_entry(t, 1763, seq!['P', 's', 'i'], '\u{3A8}', name);
    assert(t.subrange(1768, 1773) =~= seq!['O', 'm', 'e', 'g', 'a']);
    lemma_entry(t, 1768, seq!['O', 'm', 'e', 'g', 'a'], '\u{3A9}', name);
    assert(t.subrange(1775, 1780) =~= seq!['a', 'l', 'p', 'h', 'a']);
    lemma_entry(t, 1775, seq!['a', 'l', 'p', 'h', 'a'], '\u{3B1}', name);
    assert(t.subrange(1782, 1786) =~= seq!['b', 'e', 't', 'a']);
    lemma_entry(t, 1782, seq!['b', 'e', 't', 'a'], '\u{3B2}', name);
    assert(t.subrange(1788, 1793) =~= seq!['g', 'a', 'm', 'm', 'a']);
    lemma_entry(t, 1788, seq!['g', 'a', 'm', 'm', 'a'], '\u{3B3}', name);
    assert(t.subrange(1795, 1800) =~= seq!['d', 'e', 'l', 't', 'a']);
    lemma_entry(t, 1795, seq!['d', 'e', 'l', 't', 'a'], '\u{3B4}', name);
    assert(t.subrange(1802, 1809) =~= seq!['e', 'p', 's', 'i', 'l', 'o', 'n']);
    lemma_entry(t, 1802, seq!['e', 'p', 's', 'i', 'l', 'o', 'n'], '\u{3B5}', name);
    assert(t.subrange(1811, 1815) =~= seq!['z', 'e', 't', 'a']);
    lemma_entry(t, 1811, seq!['z', 'e', 't', 'a'], '\u{3B6}', name);
}

/// The characters of these glyphs, or else `rest`.
pub open spec fn glyphs_m(name: Seq<char>, rest: Option<char>) -> Option<char> {
    if name == seq!['e', 't', 'a'] {
        Some('\u{3B7}')
    } else if name == seq!['t', 'h', 'e', 't', 'a'] {
        Some('\u{3B8}')
    } else if name == seq!['i', 'o', 't', 'a'] {
        Some('\u{3B9}')
    } else if name == seq!['k', 'a', 'p', 'p', 'a'] {
        Some('\u{3BA}')
    } else if name == seq!['l', 'a', 'm', 'b', 'd', 'a'] {
        Some('\u{3BB}')
    } else if name == seq!['n', 'u'] {
        Some('\u{3BD}')
    } else if name == seq!['x', 'i'] {
        Some('\u{3BE}')
    } else if name == seq!['o', 'm', 'i', 'c', 'r', 'o', 'n'] {
        Some('\u{3BF}')
    } else if name == seq!['p', 'i'] {
        Some('\u{3C0}')
    } else if name == seq!['r', 'h', 'o'] {
        Some('\u{3C1}')
    } else if name == seq!['s', 'i', 'g', 'm', 'a'] {
        Some('\u{3C3}')
    } else if name == seq!['t', 'a', 'u'] {
        Some('\u{3C4}')
    } else if name == seq!['u', 'p', 's', 'i', 'l', 'o', 'n'] {
        Some('\u{3C5}')
    } else if name == seq!['p', 'h', 'i'] {
        Some('\u{3C6}')
    } else if name == seq!['c', 'h', 'i'] {
        Some('\u{3C7}')
    } else if name == seq!['p', 's', 'i'] {
        Some('\u{3C8}')
    } else if name == seq!['o', 'm', 'e', 'g', 'a'] {
        Some('\u{3C9}')
    } else if name == seq!['e', 'n', 'd', 'a', 's', 'h'] {
        Some('\u{2013}')
    } else if name == seq!['e', 'm', 'd', 'a', 's', 'h'] {
        Some('\u{2014}')
    } else if name == seq!['q', 'u', 'o', 't', 'e', 's', 'i', 'n', 'g', 'l', 'b', 'a', 's', 'e'] {
        Some('\u{201A}')
    } else {
        rest
    }
}

#[verifier::rlimit(50)]
proof fn lemma_glyphs_m(name: Seq<char>)
    ensures
        entry_for(GLYPH_NAMES@, 1817, name) == glyphs_m(name, entry_for(GLYPH_NAMES@, 1951, name)),
{
    reveal_strlit("space  exclam !quotedbl \"numbersign #dollar $percent %ampersand &quoteright \u{2019}quotesingle 'parenleft (parenright )asterisk *plus +comma ,hyphen -period .slash /zero 0one 1two 2three 3four 4five 5six 6seven 7eight 8nine 9colon :semicolon ;less <equal =greater >question ?at @A AB BC CD DE EF FG GH HI IJ JK KL LM MN NO OP PQ QR RS ST TU UV VW WX XY YZ Zbracketleft [backslash \\bracketright ]asciicircum ^underscore _quoteleft \u{2018}grave `a ab bc cd de ef fg gh hi ij jk kl lm mn no op pq qr rs st tu uv vw wx xy yz zbraceleft {bar |braceright }asciitilde ~exclamdown \u{00A1}cent \u{00A2}sterling \u{00A3}currency \u{00A4}yen \u{00A5}brokenbar \u{00A6}section \u{00A7}dieresis \u{00A8}copyright \u{00A9}ordfeminine \u{00AA}guillemotleft \u{00AB}logicalnot \u{00AC}hyphensoft \u{00AD}registered \u{00AE}macron \u{00AF}degree \u{00B0}plusminus \u{00B1}twosuperior \u{00B2}threesuperior \u{00B3}acute \u{00B4}mu \u{00B5}paragraph \u{00B6}periodcentered \u{00B7}cedilla \u{00B8}onesuperior \u{00B9}ordmasculine \u{00BA}guillemotright \u{00BB}onequarter \u{00BC}onehalf \u{00BD}threequarters \u{00BE}questiondown \u{00BF}Agrave \u{00C0}Aacute \u{00C1}Acircumflex \u{00C2}Atilde \u{00C3}Adieresis \u{00C4}Aring \u{00C5}AE \u{00C6}Ccedilla \u{00C7}Egrave \u{00C8}Eacute \u{00C9}Ecircumflex \u{00CA}Edieresis \u{00CB}Igrave \u{00CC}Iacute \u{00CD}Icircumflex \u{00CE}Idieresis \u{00CF}Eth \u{00D0}Ntilde \u{00D1}Ograve \u{00D2}Oacute \u{00D3}Ocircumflex \u{00D4}Otilde \u{00D5}Odieresis \u{00D6}multiply \u{00D7}Oslash \u{00D8}Ugrave \u{00D9}Uacute \u{00DA}Ucircumflex \u{00DB}Udieresis \u{00DC}Yacute \u{00DD}Thorn \u{00DE}germandbls \u{00DF}agrave \u{00E0}aacute \u{00E1}acircumflex \u{00E2}atilde \u{00E3}adieresis \u{00E4}aring \u{00E5}ae \u{00E6}ccedilla \u{00E7}egrave \u{00E8}eacute \u{00E9}ecircumflex \u{00EA}edieresis \u{00EB}igrave \u{00EC}iacute \u{00ED}icircumflex \u{00EE}idieresis \u{00EF}eth \u{00F0}ntilde \u{00F1}ograve \u{00F2}oacute \u{00F3}ocircumflex \u{00F4}otilde \u{00F5}odieresis \u{00F6}divide \u{00F7}oslash \u{00F8}ugrave \u{00F9}uacute \u{00FA}ucircumflex \u{00FB}udieresis \u{00FC}yacute \u{00FD}thorn \u{00FE}ydieresis \u{00FF}Lslash \u{0141}lslash \u{0142}Scaron \u{0160}scaron \u{0161}OE \u{0152}oe \u{0153}Ydieresis \u{0178}Zcaron \u{017D}zcaron \u{017E}florin \u{0192}circumflex \u{02C6}tilde \u{02DC}caron \u{02C7}breve \u{02D8}dotaccent \u{02D9}ring \u{02DA}ogonek \u{02DB}hungarumlaut \u{02DD}Alpha \u{0391}Beta \u{0392}Gamma \u{0393}Delta \u{0394}Epsilon \u{0395}Zeta \u{0396}Eta \u{0397}Theta \u{0398}Iota \u{0399}Kappa \u{039A}Lambda \u{039B}Mu \u{039C}Nu \u{039D}Xi \u{039E}Omicron \u{039F}Pi \u{03A0}Rho \u{03A1}Sigma \u{03A3}Tau \u{03A4}Upsilon \u{03A5}Phi \u{03A6}Chi \u{03A7}Psi \u{03A8}Omega \u{03A9}alpha \u{03B1}beta \u{03B2}gamma \u{03B3}delta \u{03B4}epsilon \u{03B5}zeta \u{03B6}eta \u{03B7}theta \u{03B8}iota \u{03B9}kappa \u{03BA}lambda \u{03BB}nu \u{03BD}xi \u{03BE}omicron \u{03BF}pi \u{03C0}rho \u{03C1}sigma \u{03C3}tau \u{03C4}upsilon \u{03C5}phi \u{03C6}chi \u{03C7}psi \u{03C8}omega \u{03C9}endash \u{2013}emdash \u{2014}quotesinglbase \u{201A}quotedblbase \u{201E}quotedblleft \u{201C}quotedblright \u{201D}dagger \u{2020}daggerdbl \u{2021}bullet \u{2022}ellipsis \u{2026}perthousand \u{2030}guilsinglleft \u{2039}guilsinglright \u{203A}Euro \u{20AC}trademark \u{2122}onethird \u{2153}twothirds \u{2154}oneeighth \u{215B}threeeighths \u{215C}fiveeighths \u{215D}seveneighths \u{215E}minus \u{2212}fraction \u{2044}infinity \u{221E}notequal \u{2260}lessequal \u{2264}greaterequal \u{2265}arrowleft \u{2190}arrowup \u{2191}arrowright \u{2192}arrowdown \u{2193}arrowboth \u{2194}arrowdblleft \u{21D0}arrowdblup \u{21D1}arrowdblright \u{21D2}arrowdbldown \u{21D3}arrowdblboth \u{21D4}partialdiff \u{2202}gradient \u{2207}product \u{220F}summation \u{2211}radical \u{221A}proportional \u{221D}integral \u{222B}approxequal \u{2248}equivalence \u{2261}lozenge \u{25CA}notelement \u{2209}element \u{2208}emptyset \u{2205}intersection \u{2229}union \u{222A}logicalor \u{2228}logicaland \u{2227}universal \u{2200}existential \u{2203}filledbox \u{25A0}emptybox \u{25A1}filledrect \u{25AC}triagup \u{25B2}triagrt \u{25BA}triagdn \u{25BC}triaglf \u{25C4}circle \u{25CB}filledcircle \u{25CF}heart \u{2665}musicalnote \u{266A}musicalnotedbl \u{266B}");
    let t = GLYPH_NAMES@;
    assert(t.subrange(1817, 1820) =~= seq!['e', 't', 'a']);
    lemma_entry(t, 1817, seq!['e', 't', 'a'], '\u{3B7}', name);
    assert(t.subrange(1822, 1827) =~= seq!['t', 'h', 'e', 't', 'a']);
    lemma_entry(t, 1822, seq!['t', 'h', 'e', 't', 'a'], '\u{3B8}', name);
    assert(t.subrange(1829, 1833) =~= seq!['i', 'o', 't', 'a']);
    lemma_entry(t, 1829, seq!['i', 'o', 't', 'a'], '\u{3B9}', name);
    assert(t.subrange(1835, 1840) =~= seq!['k', 'a', 'p', 'p', 'a']);
    lemma_entry(t, 1835, seq!['k', 'a', 'p', 'p', 'a'], '\u{3BA}', name);
    assert(t.subrange(1842, 1848) =~= seq!['l', 'a', 'm', 'b', 'd', 'a']);
    lemma_entry(t, 1842, seq!['l', 'a', 'm', 'b', 'd', 'a'], '\u{3BB}', name);
    assert(t.subrange(1850, 1852) =~= seq!['n', 'u']);
    lemma_entry(t, 1850, seq!['n', 'u'], '\u{3BD}', name);
    assert(t.subrange(1854, 1856) =~= seq!['x', 'i']);
    lemma_entry(t, 1854, seq!['x', 'i'], '\u{3BE}', name);
    assert(t.subrange(1858, 1865) =~= seq!['o', 'm', 'i', 'c', 'r', 'o', 'n']);
    lemma_entry(t, 1858, seq!['o', 'm', 'i', 'c', 'r', 'o', 'n'], '\u{3BF}', name);
    assert(t.subrange(1867, 1869) =~= seq!['p', 'i']);
    lemma_entry(t, 1867, seq!['p', 'i'], '\u{3C0}', name);
    assert(t.subrange(1871, 1874) =~= seq!['r', 'h', 'o']);
    lemma_entry(t, 1871, seq!['r', 'h', 'o'], '\u{3C1}', name);
    assert(t.subrange(1876, 1881) =~= seq!['s', 'i', 'g', 'm', 'a']);
    lemma_entry(t, 1876, seq!['s', 'i', 'g', 'm', 'a'], '\u{3C3}', name);
    assert(t.subrange(1883, 1886) =~= seq!['t', 'a', 'u']);
    lemma_entry(t, 1883, seq!['t', 'a', 'u'], '\u{3C4}', name);
    assert(t.subrange(1888, 1895) =~= seq!['u', 'p', 's', 'i', 'l', 'o', 'n']);
    lemma_entry(t, 1888, seq!['u', 'p', 's', 'i', 'l', 'o', 'n'], '\u{3C5}', name);
    assert(t.subrange(1897, 1900) =~= seq!['p', 'h', 'i']);
    lemma_entry(t, 1897, seq!['p', 'h', 'i'], '\u{3C6}', name);
    assert(t.subrange(1902, 1905) =~= seq!['c', 'h', 'i']);
    lemma_entry(t, 1902, seq!['c', 'h', 'i'], '\u{3C7}', name);
    assert(t.subrange(1907, 1910) =~= seq!['p', 's', 'i']);
    lemma_entry(t, 1907, seq!['p', 's', 'i'], '\u{3C8}', name);
    assert(t.subrange(1912, 1917) =~= seq!['o', 'm', 'e', 'g', 'a']);
    lemma_entry(t, 1912, seq!['o', 'm', 'e', 'g', 'a'], '\u{3C9}', name);
    assert(t.subrange(1919, 1925) =~= seq!['e', 'n', 'd', 'a', 's', 'h']);
    lemma_entry(t, 1919, seq!['e', 'n', 'd', 'a', 's', 'h'], '\u{2013}', name);
    assert(t.subrange(1927, 1933) =~= seq!['e', 'm', 'd', 'a', 's', 'h']);
    lemma_entry(t, 1927, seq!['e', 'm', 'd', 'a', 's', 'h'], '\u{2014}', name);
    assert(t.subrange(1935, 1949) =~= seq!['q', 'u', 'o', 't', 'e', 's', 'i', 'n', 'g', 'l', 'b', 'a', 's', 'e']);
    lemma_entry(t, 1935, seq!['q', 'u', 'o', 't', 'e', 's', 'i', 'n', 'g', 'l', 'b', 'a', 's', 'e'], '\u{201A}', name);
}

/// The characters of these glyphs, or else `rest`.
pub open spec fn glyphs_n(name: Seq<char>, rest: Option<char>) -> Option<char> {
    if name == seq!['q', 'u', 'o', 't', 'e', 'd', 'b', 'l', 'b', 'a', 's', 'e'] {
        Some('\u{201E}')
    } else if name == seq!['q', 'u', 'o', 't', 'e', 'd', 'b', 'l', 'l', 'e', 'f', 't'] {
        Some('\u{201C}')
    } else if name == seq!['q', 'u', 'o', 't', 'e', 'd', 'b', 'l', 'r', 'i', 'g', 'h', 't'] {
        Some('\u{201D}')
    } else if name == seq!['d', 'a', 'g', 'g', 'e', 'r'] {
        Some('\u{2020}')
    } else if name == seq!['d', 'a', 'g', 'g', 'e', 'r', 'd', 'b', 'l'] {
        Some('\u{2021}')
    } else if name == seq!['b', 'u', 'l', 'l', 'e', 't'] {
        Some('\u{2022}')
    } else if name == seq!['e', 'l', 'l', 'i', 'p', 's', 'i', 's'] {
        Some('\u{2026}')
    } else if name == seq!['p', 'e', 'r', 't', 'h', 'o', 'u', 's', 'a', 'n', 'd'] {
        Some('\u{2030}')
    } else if name == seq!['g', 'u', 'i', 'l', 's', 'i', 'n', 'g', 'l', 'l', 'e', 'f', 't'] {
        Some('\u{2039}')
    } else if name == seq!['g', 'u', 'i', 'l', 's', 'i', 'n', 'g', 'l', 'r', 'i', 'g', 'h', 't'] {
        Some('\u{203A}')
    } else if name == seq!['E', 'u', 'r', 'o'] {
        Some('\u{20AC}')
    } else if name == seq!['t', 'r', 'a', 'd', 'e', 'm', 'a', 'r', 'k'] {
        Some('\u{2122}')
    } else if name == seq!['o', 'n', 'e', 't', 'h', 'i', 'r', 'd'] {
        Some('\u{2153}')
    } else if name == seq!['t', 'w', 'o', 't', 'h', 'i', 'r', 'd', 's'] {
        Some('\u{2154}')
    } else if name == seq!['o', 'n', 'e', 'e', 'i', 'g', 'h', 't', 'h'] {
        Some('\u{215B}')
    } else if name == seq!['t', 'h', 'r', 'e', 'e', 'e', 'i', 'g', 'h', 't', 'h', 's'] {
        Some('\u{215C}')
    } else if name == seq!['f', 'i', 'v', 'e', 'e', 'i', 'g', 'h', 't', 'h', 's'] {
        Some('\u{215D}')
    } else if name == seq!['s', 'e', 'v', 'e', 'n', 'e', 'i', 'g', 'h', 't', 'h', 's'] {
        Some('\u{215E}')
    } else if name == seq!['m', 'i', 'n', 'u', 's'] {
        Some('\u{2212}')
    } else if name == seq!['f', 'r', 'a', 'c', 't', 'i', 'o', 'n'] {
        Some('\u{2044}')
    } else {
        rest
    }
}

#[verifier::rlimit(50)]
proof fn lemma_glyphs_n(name: Seq<char>)
    ensures
        entry_for(GLYPH_NAMES@, 1951, name) == glyphs_n(name, entry_for(GLYPH_NAMES@, 2182, name)),
{
    reveal_strlit("space  exclam !quotedbl \"numbersign #dollar $percent %ampersand &quoteright \u{2019}quotesingle 'parenleft (parenright )asterisk *plus +comma ,hyphen -period .slash /zero 0one 1two 2three 3four 4five 5six 6seven 7eight 8nine 9colon :semicolon ;less <equal =greater >question ?at @A AB BC CD DE EF FG GH HI IJ JK KL LM MN NO OP PQ QR RS ST TU UV VW WX XY YZ Zbracketleft [backslash \\bracketright ]asciicircum ^underscore _quoteleft \u{2018}grave `a ab bc cd de ef fg gh hi ij jk kl lm mn no op pq qr rs st tu uv vw wx xy yz zbraceleft {bar |braceright }asciitilde ~exclamdown \u{00A1}cent \u{00A2}sterling \u{00A3}currency \u{00A4}yen \u{00A5}brokenbar \u{00A6}section \u{00A7}dieresis \u{00A8}copyright \u{00A9}ordfeminine \u{00AA}guillemotleft \u{00AB}logicalnot \u{00AC}hyphensoft \u{00AD}registered \u{00AE}macron \u{00AF}degree \u{00B0}plusminus \u{00B1}twosuperior \u{00B2}threesuperior \u{00B3}acute \u{00B4}mu \u{00B5}paragraph \u{00B6}periodcentered \u{00B7}cedilla \u{00B8}onesuperior \u{00B9}ordmasculine \u{00BA}guillemotright \u{00BB}onequarter \u{00BC}onehalf \u{00BD}threequarters \u{00BE}questiondown \u{00BF}Agrave \u{00C0}Aacute \u{00C1}Acircumflex \u{00C2}Atilde \u{00C3}Adieresis \u{00C4}Aring \u{00C5}AE \u{00C6}Ccedilla \u{00C7}Egrave \u{00C8}Eacute \u{00C9}Ecircumflex \u{00CA}Edieresis \u{00CB}Igrave \u{00CC}Iacute \u{00CD}Icircumflex \u{00CE}Idieresis \u{00CF}Eth \u{00D0}Ntilde \u{00D1}Ograve \u{00D2}Oacute \u{00D3}Ocircumflex \u{00D4}Otilde \u{00D5}Odieresis \u{00D6}multiply \u{00D7}Oslash \u{00D8}Ugrave \u{00D9}Uacute \u{00DA}Ucircumflex \u{00DB}Udieresis \u{00DC}Yacute \u{00DD}Thorn \u{00DE}germandbls \u{00DF}agrave \u{00E0}aacute \u{00E1}acircumflex \u{00E2}atilde \u{00E3}adieresis \u{00E4}aring \u{00E5}ae \u{00E6}ccedilla \u{00E7}egrave \u{00E8}eacute \u{00E9}ecircumflex \u{00EA}edieresis \u{00EB}igrave \u{00EC}iacute \u{00ED}icircumflex \u{00EE}idieresis \u{00EF}eth \u{00F0}ntilde \u{00F1}ograve \u{00F2}oacute \u{00F3}ocircumflex \u{00F4}otilde \u{00F5}odieresis \u{00F6}divide \u{00F7}oslash \u{00F8}ugrave \u{00F9}uacute \u{00FA}ucircumflex \u{00FB}udieresis \u{00FC}yacute \u{00FD}thorn \u{00FE}ydieresis \u{00FF}Lslash \u{0141}lslash \u{0142}Scaron \u{0160}scaron \u{0161}OE \u{0152}oe \u{0153}Ydieresis \u{0178}Zcaron \u{017D}zcaron \u{017E}florin \u{0192}circumflex \u{02C6}tilde \u{02DC}caron \u{02C7}breve \u{02D8}dotaccent \u{02D9}ring \u{02DA}ogonek \u{02DB}hungarumlaut \u{02DD}Alpha \u{0391}Beta \u{0392}Gamma \u{0393}Delta \u{0394}Epsilon \u{0395}Zeta \u{0396}Eta \u{0397}Theta \u{0398}Iota \u{0399}Kappa \u{039A}Lambda \u{039B}Mu \u{039C}Nu \u{039D}Xi \u{039E}Omicron \u{039F}Pi \u{03A0}Rho \u{03A1}Sigma \u{03A3}Tau \u{03A4}Upsilon \u{03A5}Phi \u{03A6}Chi \u{03A7}Psi \u{03A8}Omega \u{03A9}alpha \u{03B1}beta \u{03B2}gamma \u{03B3}delta \u{03B4}epsilon \u{03B5}zeta \u{03B6}eta \u{03B7}theta \u{03B8}iota \u{03B9}kappa \u{03BA}lambda \u{03BB}nu \u{03BD}xi \u{03BE}omicron \u{03BF}pi \u{03C0}rho \u{03C1}sigma \u{03C3}tau \u{03C4}upsilon \u{03C5}phi \u{03C6}chi \u{03C7}psi \u{03C8}omega \u{03C9}endash \u{2013}emdash \u{2014}quotesinglbase \u{201A}quotedblbase \u{201E}quotedblleft \u{201C}quotedblright \u{201D}dagger \u{2020}daggerdbl \u{2021}bullet \u{2022}ellipsis \u{2026}perthousand \u{2030}guilsinglleft \u{2039}guilsinglright \u{203A}Euro \u{20AC}trademark \u{2122}onethird \u{2153}twothirds \u{2154}oneeighth \u{215B}threeeighths \u{215C}fiveeighths \u{215D}seveneighths \u{215E}minus \u{2212}fraction \u{2044}infinity \u{221E}notequal \u{2260}lessequal \u{2264}greaterequal \u{2265}arrowleft \u{2190}arrowup \u{2191}arrowright \u{2192}arrowdown \u{2193}arrowboth \u{2194}arrowdblleft \u{21D0}arrowdblup \u{21D1}arrowdblright \u{21D2}arrowdbldown \u{21D3}arrowdblboth \u{21D4}partialdiff \u{2202}gradient \u{2207}product \u{220F}summation \u{2211}radical \u{221A}proportional \u{221D}integral \u{222B}approxequal \u{2248}equivalence \u{2261}lozenge \u{25CA}notelement \u{2209}element \u{2208}emptyset \u{2205}intersection \u{2229}union \u{222A}logicalor \u{2228}logicaland \u{2227}universal \u{2200}existential \u{2203}filledbox \u{25A0}emptybox \u{25A1}filledrect \u{25AC}triagup \u{25B2}triagrt \u{25BA}triagdn \u{25BC}triaglf \u{25C4}circle \u{25CB}filledcircle \u{25CF}heart \u{2665}musicalnote \u{266A}musicalnotedbl \u{266B}");
    let t = GLYPH_NAMES@;
    assert(t.subrange(1951, 1963) =~= seq!['q', 'u', 'o', 't', 'e', 'd', 'b', 'l', 'b', 'a', 's', 'e']);
    lemma_entry(t, 1951, seq!['q', 'u', 'o', 't', 'e', 'd', 'b', 'l', 'b', 'a', 's', 'e'], '\u{201E}', name);
    assert(t.subrange(1965, 1977) =~= seq!['q', 'u', 'o', 't', 'e', 'd', 'b', 'l', 'l', 'e', 'f', 't']);
    lemma_entry(t, 1965, seq!['q', 'u', 'o', 't', 'e', 'd', 'b', 'l', 'l', 'e', 'f', 't'], '\u{201C}', name);
    assert(t.subrange(1979, 1992) =~= seq!['q', 'u', 'o', 't', 'e', 'd', 'b', 'l', 'r', 'i', 'g', 'h', 't']);
    lemma_entry(t, 1979, seq!['q', 'u', 'o', 't', 'e', 'd', 'b', 'l', 'r', 'i', 'g', 'h', 't'], '\u{201D}', name);
    assert(t.subrange(1994, 2000) =~= seq!['d', 'a', 'g', 'g', 'e', 'r']);
    lemma_entry(t, 1994, seq!['d', 'a', 'g', 'g', 'e', 'r'], '\u{2020}', name);
    assert(t.subrange(2002, 2011) =~= seq!['d', 'a', 'g', 'g', 'e', 'r', 'd', 'b', 'l']);
    lemma_entry(t, 2002, seq!['d', 'a', 'g', 'g', 'e', 'r', 'd', 'b', 'l'], '\u{2021}', name);
    assert(t.subrange(2013, 2019) =~= seq!['b', 'u', 'l', 'l', 'e', 't']);
    lemma_entry(t, 2013, seq!['b', 'u', 'l', 'l', 'e', 't'], '\u{2022}', name);
    assert(t.subrange(2021, 2029) =~= seq!['e', 'l', 'l', 'i', 'p', 's', 'i', 's']);
    lemma_entry(t, 2021, seq!['e', 'l', 'l', 'i', 'p', 's', 'i', 's'], '\u{2026}', name);
    assert(t.subrange(2031, 2042) =~= seq!['p', 'e', 'r', 't', 'h', 'o', 'u', 's', 'a', 'n', 'd']);
    lemma_entry(t, 2031, seq!['p', 'e', 'r', 't', 'h', 'o', 'u', 's', 'a', 'n', 'd'], '\u{2030}', name);
    assert(t.subrange(2044, 2057) =~= seq!['g', 'u', 'i', 'l', 's', 'i', 'n', 'g', 'l', 'l', 'e', 'f', 't']);
    lemma_entry(t, 2044, seq!['g', 'u', 'i', 'l', 's', 'i', 'n', 'g', 'l', 'l', 'e', 'f', 't'], '\u{2039}', name);
    assert(t.subrange(2059, 2073) =~= seq!['g', 'u', 'i', 'l', 's', 'i', 'n', 'g', 'l', 'r', 'i', 'g', 'h', 't']);
    lemma_entry(t, 2059, seq!['g', 'u', 'i', 'l', 's', 'i', 'n', 'g', 'l', 'r', 'i', 'g', 'h', 't'], '\u{203A}', name);
    assert(t.subrange(2075, 2079) =~= seq!['E', 'u', 'r', 'o']);
    lemma_entry(t, 2075, seq!['E', 'u', 'r', 'o'], '\u{20AC}', name);
    assert(t.subrange(2081, 2090) =~= seq!['t', 'r', 'a', 'd', 'e', 'm', 'a', 'r', 'k']);
    lemma_entry(t, 2081, seq!['t', 'r', 'a', 'd', 'e', 'm', 'a', 'r', 'k'], '\u{2122}', name);
    assert(t.subrange(2092, 2100) =~= seq!['o', 'n', 'e', 't', 'h', 'i', 'r', 'd']);
    lemma_entry(t, 2092, seq!['o', 'n', 'e', 't', 'h', 'i', 'r', 'd'], '\u{2153}', name);
    assert(t.subrange(2102, 2111) =~= seq!['t', 'w', 'o', 't', 'h', 'i', 'r', 'd', 's']);
    lemma_entry(t, 2102, seq!['t', 'w', 'o', 't', 'h', 'i', 'r', 'd', 's'], '\u{2154}', name);
    assert(t.subrange(2113, 2122) =~= seq!['o', 'n', 'e', 'e', 'i', 'g', 'h', 't', 'h']);
    lemma_entry(t, 2113, seq!['o', 'n', 'e', 'e', 'i', 'g', 'h', 't', 'h'], '\u{215B}', name);
    assert(t.subrange(2124, 2136) =~= seq!['t', 'h', 'r', 'e', 'e', 'e', 'i', 'g', 'h', 't', 'h', 's']);
    lemma_entry(t, 2124, seq!['t', 'h', 'r', 'e', 'e', 'e', 'i', 'g', 'h', 't', 'h', 's'], '\u{215C}', name);
    assert(t.subrange(2138, 2149) =~= seq!['f', 'i', 'v', 'e', 'e', 'i', 'g', 'h', 't', 'h', 's']);
    lemma_entry(t, 2138, seq!['f', 'i', 'v', 'e', 'e', 'i', 'g', 'h', 't', 'h', 's'], '\u{215D}', name);
    assert(t.subrange(2151, 2163) =~= seq!['s', 'e', 'v', 'e', 'n', 'e', 'i', 'g', 'h', 't', 'h', 's']);
    lemma_entry(t, 2151, seq!['s', 'e', 'v', 'e', 'n', 'e', 'i', 'g', 'h', 't', 'h', 's'], '\u{215E}', name);
    assert(t.subrange(2165, 2170) =~= seq!['m', 'i', 'n', 'u', 's']);
    lemma_entry(t, 2165, seq!['m', 'i', 'n', 'u', 's'], '\u{2212}', name);
    assert(t.subrange(2172, 2180) =~= seq!['f', 'r', 'a', 'c', 't', 'i', 'o', 'n']);
    lemma_entry(t, 2172, seq!['f', 'r', 'a', 'c', 't', 'i', 'o', 'n'], '\u{2044}', name);
}

/// The characters of these glyphs, or else `rest`.
pub open spec fn glyphs_o(name: Seq<char>, rest: Option<char>) -> Option<char> {
    if name == seq!['i', 'n', 'f', 'i', 'n', 'i', 't', 'y'] {
        Some('\u{221E}')
    } else if name == seq!['n', 'o', 't', 'e', 'q', 'u', 'a', 'l'] {
        Some('\u{2260}')
    } else if name == seq!['l', 'e', 's', 's', 'e', 'q', 'u', 'a', 'l'] {
        Some('\u{2264}')
    } else if name == seq!['g', 'r', 'e', 'a', 't', 'e', 'r', 'e', 'q', 'u', 'a', 'l'] {
        Some('\u{2265}')
    } else if name == seq!['a', 'r', 'r', 'o', 'w', 'l', 'e', 'f', 't'] {
        Some('\u{2190}')
    } else if name == seq!['a', 'r', 'r', 'o', 'w', 'u', 'p'] {
        Some('\u{2191}')
    } else if name == seq!['a', 'r', 'r', 'o', 'w', 'r', 'i', 'g', 'h', 't'] {
        Some('\u{2192}')
    } else if name == seq!['a', 'r', 'r', 'o', 'w', 'd', 'o', 'w', 'n'] {
        Some('\u{2193}')
    } else if name == seq!['a', 'r', 'r', 'o', 'w', 'b', 'o', 't', 'h'] {
        Some('\u{2194}')
    } else if name == seq!['a', 'r', 'r', 'o', 'w', 'd', 'b', 'l', 'l', 'e', 'f', 't'] {
        Some('\u{21D0}')
    } else if name == seq!['a', 'r', 'r', 'o', 'w', 'd', 'b', 'l', 'u', 'p'] {
        Some('\u{21D1}')
    } else if name == seq!['a', 'r', 'r', 'o', 'w', 'd', 'b', 'l', 'r', 'i', 'g', 'h', 't'] {
        Some('\u{21D2}')
    } else if name == seq!['a', 'r', 'r', 'o', 'w', 'd', 'b', 'l', 'd', 'o', 'w', 'n'] {
        Some('\u{21D3}')
    } else if name == seq!['a', 'r', 'r', 'o', 'w', 'd', 'b', 'l', 'b', 'o', 't', 'h'] {
        Some('\u{21D4}')
    } else if name == seq!['p', 'a', 'r', 't', 'i', 'a', 'l', 'd', 'i', 'f', 'f'] {
        Some('\u{2202}')
    } else if name == seq!['g', 'r', 'a', 'd', 'i', 'e', 'n', 't'] {
        Some('\u{2207}')
    } else if name == seq!['p', 'r', 'o', 'd', 'u', 'c', 't'] {
        Some('\u{220F}')
    } else if name == seq!['s', 'u', 'm', 'm', 'a', 't', 'i', 'o', 'n'] {
        Some('\u{2211}')
    } else if name == seq!['r', 'a', 'd', 'i', 'c', 'a', 'l'] {
        Some('\u{221A}')
    } else if name == seq!['p', 'r', 'o', 'p', 'o', 'r', 't', 'i', 'o', 'n', 'a', 'l'] {
        Some('\u{221D}')
    } else {
        rest
    }
}

#[verifier::rlimit(50)]
proof fn lemma_glyphs_o(name: Seq<char>)
    ensures
        entry_for(GLYPH_NAMES@, 2182, name) == glyphs_o(name, entry_for(GLYPH_NAMES@, 2416, name)),
{
    reveal_strlit("space  exclam !quotedbl \"numbersign #dollar $percent %ampersand &quoteright \u{2019}quotesingle 'parenleft (parenright )asterisk *plus +comma ,hyphen -period .slash /zero 0one 1two 2three 3four 4five 5six 6seven 7eight 8nine 9colon :semicolon ;less <equal =greater >question ?at @A AB BC CD DE EF FG GH HI IJ JK KL LM MN NO OP PQ QR RS ST TU UV VW WX XY YZ Zbracketleft [backslash \\bracketright ]asciicircum ^underscore _quoteleft \u{2018}grave `a ab bc cd de ef fg gh hi ij jk kl lm mn no op pq qr rs st tu uv vw wx xy yz zbraceleft {bar |braceright }asciitilde ~exclamdown \u{00A1}cent \u{00A2}sterling \u{00A3}currency \u{00A4}yen \u{00A5}brokenbar \u{00A6}section \u{00A7}dieresis \u{00A8}copyright \u{00A9}ordfeminine \u{00AA}guillemotleft \u{00AB}logicalnot \u{00AC}hyphensoft \u{00AD}registered \u{00AE}macron \u{00AF}degree \u{00B0}plusminus \u{00B1}twosuperior \u{00B2}threesuperior \u{00B3}acute \u{00B4}mu \u{00B5}paragraph \u{00B6}periodcentered \u{00B7}cedilla \u{00B8}onesuperior \u{00B9}ordmasculine \u{00BA}guillemotright \u{00BB}onequarter \u{00BC}onehalf \u{00BD}threequarters \u{00BE}questiondown \u{00BF}Agrave \u{00C0}Aacute \u{00C1}Acircumflex \u{00C2}Atilde \u{00C3}Adieresis \u{00C4}Aring \u{00C5}AE \u{00C6}Ccedilla \u{00C7}Egrave \u{00C8}Eacute \u{00C9}Ecircumflex \u{00CA}Edieresis \u{00CB}Igrave \u{00CC}Iacute \u{00CD}Icircumflex \u{00CE}Idieresis \u{00CF}Eth \u{00D0}Ntilde \u{00D1}Ograve \u{00D2}Oacute \u{00D3}Ocircumflex \u{00D4}Otilde \u{00D5}Odieresis \u{00D6}multiply \u{00D7}Oslash \u{00D8}Ugrave \u{00D9}Uacute \u{00DA}Ucircumflex \u{00DB}Udieresis \u{00DC}Yacute \u{00DD}Thorn \u{00DE}germandbls \u{00DF}agrave \u{00E0}aacute \u{00E1}acircumflex \u{00E2}atilde \u{00E3}adieresis \u{00E4}aring \u{00E5}ae \u{00E6}ccedilla \u{00E7}egrave \u{00E8}eacute \u{00E9}ecircumflex \u{00EA}edieresis \u{00EB}igrave \u{00EC}iacute \u{00ED}icircumflex \u{00EE}idieresis \u{00EF}eth \u{00F0}ntilde \u{00F1}ograve \u{00F2}oacute \u{00F3}ocircumflex \u{00F4}otilde \u{00F5}odieresis \u{00F6}divide \u{00F7}oslash \u{00F8}ugrave \u{00F9}uacute \u{00FA}ucircumflex \u{00FB}udieresis \u{00FC}yacute \u{00FD}thorn \u{00FE}ydieresis \u{00FF}Lslash \u{0141}lslash \u{0142}Scaron \u{0160}scaron \u{0161}OE \u{0152}oe \u{0153}Ydieresis \u{0178}Zcaron \u{017D}zcaron \u{017E}florin \u{0192}circumflex \u{02C6}tilde \u{02DC}caron \u{02C7}breve \u{02D8}dotaccent \u{02D9}ring \u{02DA}ogonek \u{02DB}hungarumlaut \u{02DD}Alpha \u{0391}Beta \u{0392}Gamma \u{0393}Delta \u{0394}Epsilon \u{0395}Zeta \u{0396}Eta \u{0397}Theta \u{0398}Iota \u{0399}Kappa \u{039A}Lambda \u{039B}Mu \u{039C}Nu \u{039D}Xi \u{039E}Omicron \u{039F}Pi \u{03A0}Rho \u{03A1}Sigma \u{03A3}Tau \u{03A4}Upsilon \u{03A5}Phi \u{03A6}Chi \u{03A7}Psi \u{03A8}Omega \u{03A9}alpha \u{03B1}beta \u{03B2}gamma \u{03B3}delta \u{03B4}epsilon \u{03B5}zeta \u{03B6}eta \u{03B7}theta \u{03B8}iota \u{03B9}kappa \u{03BA}lambda \u{03BB}nu \u{03BD}xi \u{03BE}omicron \u{03BF}pi \u{03C0}rho \u{03C1}sigma \u{03C3}tau \u{03C4}upsilon \u{03C5}phi \u{03C6}chi \u{03C7}psi \u{03C8}omega \u{03C9}endash \u{2013}emdash \u{2014}quotesinglbase \u{201A}quotedblbase \u{201E}quotedblleft \u{201C}quotedblright \u{201D}dagger \u{2020}daggerdbl \u{2021}bullet \u{2022}ellipsis \u{2026}perthousand \u{2030}guilsinglleft \u{2039}guilsinglright \u{203A}Euro \u{20AC}trademark \u{2122}onethird \u{2153}twothirds \u{2154}oneeighth \u{215B}threeeighths \u{215C}fiveeighths \u{215D}seveneighths \u{215E}minus \u{2212}fraction \u{2044}infinity \u{221E}notequal \u{2260}lessequal \u{2264}greaterequal \u{2265}arrowleft \u{2190}arrowup \u{2191}arrowright \u{2192}arrowdown \u{2193}arrowboth \u{2194}arrowdblleft \u{21D0}arrowdblup \u{21D1}arrowdblright \u{21D2}arrowdbldown \u{21D3}arrowdblboth \u{21D4}partialdiff \u{2202}gradient \u{2207}product \u{220F}summation \u{2211}radical \u{221A}proportional \u{221D}integral \u{222B}approxequal \u{2248}equivalence \u{2261}lozenge \u{25CA}notelement \u{2209}element \u{2208}emptyset \u{2205}intersection \u{2229}union \u{222A}logicalor \u{2228}logicaland \u{2227}universal \u{2200}existential \u{2203}filledbox \u{25A0}emptybox \u{25A1}filledrect \u{25AC}triagup \u{25B2}triagrt \u{25BA}triagdn \u{25BC}triaglf \u{25C4}circle \u{25CB}filledcircle \u{25CF}heart \u{2665}musicalnote \u{266A}musicalnotedbl \u{266B}");
    let t = GLYPH_NAMES@;
    assert(t.subrange(2182, 2190) =~= seq!['i', 'n', 'f', 'i', 'n', 'i', 't', 'y']);
    lemma_entry(t, 2182, seq!['i', 'n', 'f', 'i', 'n', 'i', 't', 'y'], '\u{221E}', name);
    assert(t.subrange(2192, 2200) =~= seq!['n', 'o', 't', 'e', 'q', 'u', 'a', 'l']);
    lemma_entry(t, 2192, seq!['n', 'o', 't', 'e', 'q', 'u', 'a', 'l'], '\u{2260}', name);
    assert(t.subrange(2202, 2211) =~= seq!['l', 'e', 's', 's', 'e', 'q', 'u', 'a', 'l']);
    lemma_entry(t, 2202, seq!['l', 'e', 's', 's', 'e', 'q', 'u', 'a', 'l'], '\u{2264}', name);
    assert(t.subrange(2213, 2225) =~= seq!['g', 'r', 'e', 'a', 't', 'e', 'r', 'e', 'q', 'u', 'a', 'l']);
    lemma_entry(t, 2213, seq!['g', 'r', 'e', 'a', 't', 'e', 'r', 'e', 'q', 'u', 'a', 'l'], '\u{2265}', name);
    assert(t.subrange(2227, 2236) =~= seq!['a', 'r', 'r', 'o', 'w', 'l', 'e', 'f', 't']);
    lemma_entry(t, 2227, seq!['a', 'r', 'r', 'o', 'w', 'l', 'e', 'f', 't'], '\u{2190}', name);
    assert(t.subrange(2238, 2245) =~= seq!['a', 'r', 'r', 'o', 'w', 'u', 'p']);
    lemma_entry(t, 2238, seq!['a', 'r', 'r', 'o', 'w', 'u', 'p'], '\u{2191}', name);
    assert(t.subrange(2247, 2257) =~= seq!['a', 'r', 'r', 'o', 'w', 'r', 'i', 'g', 'h', 't']);
    lemma_entry(t, 2247, seq!['a', 'r', 'r', 'o', 'w', 'r', 'i', 'g', 'h', 't'], '\u{2192}', name);
    assert(t.subrange(2259, 2268) =~= seq!['a', 'r', 'r', 'o', 'w', 'd', 'o', 'w', 'n']);
    lemma_entry(t, 2259, seq!['a', 'r', 'r', 'o', 'w', 'd', 'o', 'w', 'n'], '\u{2193}', name);
    assert(t.subrange(2270, 2279) =~= seq!['a', 'r', 'r', 'o', 'w', 'b', 'o', 't', 'h']);
    lemma_entry(t, 2270, seq!['a', 'r', 'r', 'o', 'w', 'b', 'o', 't', 'h'], '\u{2194}', name);
    assert(t.subrange(2281, 2293) =~= seq!['a', 'r', 'r', 'o', 'w', 'd', 'b', 'l', 'l', 'e', 'f', 't']);
    lemma_entry(t, 2281, seq!['a', 'r', 'r', 'o', 'w', 'd', 'b', 'l', 'l', 'e', 'f', 't'], '\u{21D0}', name);
    assert(t.subrange(2295, 2305) =~= seq!['a', 'r', 'r', 'o', 'w', 'd', 'b', 'l', 'u', 'p']);
    lemma_entry(t, 2295, seq!['a', 'r', 'r', 'o', 'w', 'd', 'b', 'l', 'u', 'p'], '\u{21D1}', name);
    assert(t.subrange(2307, 2320) =~= seq!['a', 'r', 'r', 'o', 'w', 'd', 'b', 'l', 'r', 'i', 'g', 'h', 't']);
    lemma_entry(t, 2307, seq!['a', 'r', 'r', 'o', 'w', 'd', 'b', 'l', 'r', 'i', 'g', 'h', 't'], '\u{21D2}', name);
    assert(t.subrange(2322, 2334) =~= seq!['a', 'r', 'r', 'o', 'w', 'd', 'b', 'l', 'd', 'o', 'w', 'n']);
    lemma_entry(t, 2322, seq!['a', 'r', 'r', 'o', 'w', 'd', 'b', 'l', 'd', 'o', 'w', 'n'], '\u{21D3}', name);
    assert(t.subrange(2336, 2348) =~= seq!['a', 'r', 'r', 'o', 'w', 'd', 'b', 'l', 'b', 'o', 't', 'h']);
    lemma_entry(t, 2336, seq!['a', 'r', 'r', 'o', 'w', 'd', 'b', 'l', 'b', 'o', 't', 'h'], '\u{21D4}', name);
    assert(t.subrange(2350, 2361) =~= seq!['p', 'a', 'r', 't', 'i', 'a', 'l', 'd', 'i', 'f', 'f']);
    lemma_entry(t, 2350, seq!['p', 'a', 'r', 't', 'i', 'a', 'l', 'd', 'i', 'f', 'f'], '\u{2202}', name);
    assert(t.subrange(2363, 2371) =~= seq!['g', 'r', 'a', 'd', 'i', 'e', 'n', 't']);
    lemma_entry(t, 2363, seq!['g', 'r', 'a', 'd', 'i', 'e', 'n', 't'], '\u{2207}', name);
    assert(t.subrange(2373, 2380) =~= seq!['p', 'r', 'o', 'd', 'u', 'c', 't']);
    lemma_entry(t, 2373, seq!['p', 'r', 'o', 'd', 'u', 'c', 't'], '\u{220F}', name);
    assert(t.subrange(2382, 2391) =~= seq!['s', 'u', 'm', 'm', 'a', 't', 'i', 'o', 'n']);
    lemma_entry(t, 2382, seq!['s', 'u', 'm', 'm', 'a', 't', 'i', 'o', 'n'], '\u{2211}', name);
    assert(t.subrange(2393, 2400) =~= seq!['r', 'a', 'd', 'i', 'c', 'a', 'l']);
    lemma_entry(t, 2393, seq!['r', 'a', 'd', 'i', 'c', 'a', 'l'], '\u{221A}', name);
    assert(t.subrange(2402, 2414) =~= seq!['p', 'r', 'o', 'p', 'o', 'r', 't', 'i', 'o', 'n', 'a', 'l']);
    lemma_entry(t, 2402, seq!['p', 'r', 'o', 'p', 'o', 'r', 't', 'i', 'o', 'n', 'a', 'l'], '\u{221D}', name);
}

/// The characters of these glyphs, or else `rest`.
pub open spec fn glyphs_p(name: Seq<char>, rest: Option<char>) -> Option<char> {
    if name == seq!['i', 'n', 't', 'e', 'g', 'r', 'a', 'l'] {
        Some('\u{222B}')
    } else if name == seq!['a', 'p', 'p', 'r', 'o', 'x', 'e', 'q', 'u', 'a', 'l'] {
        Some('\u{2248}')
    } else if name == seq!['e', 'q', 'u', 'i', 'v', 'a', 'l', 'e', 'n', 'c', 'e'] {
        Some('\u{2261}')
    } else if name == seq!['l', 'o', 'z', 'e', 'n', 'g', 'e'] {
        Some('\u{25CA}')
    } else if name == seq!['n', 'o', 't', 'e', 'l', 'e', 'm', 'e', 'n', 't'] {
        Some('\u{2209}')
    } else if name == seq!['e', 'l', 'e', 'm', 'e', 'n', 't'] {
        Some('\u{2208}')
    } else if name == seq!['e', 'm', 'p', 't', 'y', 's', 'e', 't'] {
        Some('\u{2205}')
    } else if name == seq!['i', 'n', 't', 'e', 'r', 's', 'e', 'c', 't', 'i', 'o', 'n'] {
        Some('\u{2229}')
    } else if name == seq!['u', 'n', 'i', 'o', 'n'] {
        Some('\u{222A}')
    } else if name == seq!['l', 'o', 'g', 'i', 'c', 'a', 'l', 'o', 'r'] {
        Some('\u{2228}')
    } else if name == seq!['l', 'o', 'g', 'i', 'c', 'a', 'l', 'a', 'n', 'd'] {
        Some('\u{2227}')
    } else if name == seq!['u', 'n', 'i', 'v', 'e', 'r', 's', 'a', 'l'] {
        Some('\u{2200}')
    } else if name == seq!['e', 'x', 'i', 's', 't', 'e', 'n', 't', 'i', 'a', 'l'] {
        Some('\u{2203}')
    } else if name == seq!['f', 'i', 'l', 'l', 'e', 'd', 'b', 'o', 'x'] {
        Some('\u{25A0}')
    } else if name == seq!['e', 'm', 'p', 't', 'y', 'b', 'o', 'x'] {
        Some('\u{25A1}')
    } else if name == seq!['f', 'i', 'l', 'l', 'e', 'd', 'r', 'e', 'c', 't'] {
        Some('\u{25AC}')
    } else if name == seq!['t', 'r', 'i', 'a', 'g', 'u', 'p'] {
        Some('\u{25B2}')
    } else if name == seq!['t', 'r', 'i', 'a', 'g', 'r', 't'] {
        Some('\u{25BA}')
    } else if name == seq!['t', 'r', 'i', 'a', 'g', 'd', 'n'] {
        Some('\u{25BC}')
    } else if name == seq!['t', 'r', 'i', 'a', 'g', 'l', 'f'] {
        Some('\u{25C4}')
    } else {
        rest
    }
}

#[verifier::rlimit(50)]
proof fn lemma_glyphs_p(name: Seq<char>)
    ensures
        entry_for(GLYPH_NAMES@, 2416, name) == glyphs_p(name, entry_for(GLYPH_NAMES@, 2629, name)),
{
    reveal_strlit("space  exclam !quotedbl \"numbersign #dollar $percent %ampersand &quoteright \u{2019}quotesingle 'parenleft (parenright )asterisk *plus +comma ,hyphen -period .slash /zero 0one 1two 2three 3four 4five 5six 6seven 7eight 8nine 9colon :semicolon ;less <equal =greater >question ?at @A AB BC CD DE EF FG GH HI IJ JK KL LM MN NO OP PQ QR RS ST TU UV VW WX XY YZ Zbracketleft [backslash \\bracketright ]asciicircum ^underscore _quoteleft \u{2018}grave `a ab bc cd de ef fg gh hi ij jk kl lm mn no op pq qr rs st tu uv vw wx xy yz zbraceleft {bar |braceright }asciitilde ~exclamdown \u{00A1}cent \u{00A2}sterling \u{00A3}currency \u{00A4}yen \u{00A5}brokenbar \u{00A6}section \u{00A7}dieresis \u{00A8}copyright \u{00A9}ordfeminine \u{00AA}guillemotleft \u{00AB}logicalnot \u{00AC}hyphensoft \u{00AD}registered \u{00AE}macron \u{00AF}degree \u{00B0}plusminus \u{00B1}twosuperior \u{00B2}threesuperior \u{00B3}acute \u{00B4}mu \u{00B5}paragraph \u{00B6}periodcentered \u{00B7}cedilla \u{00B8}onesuperior \u{00B9}ordmasculine \u{00BA}guillemotright \u{00BB}onequarter \u{00BC}onehalf \u{00BD}threequarters \u{00BE}questiondown \u{00BF}Agrave \u{00C0}Aacute \u{00C1}Acircumflex \u{00C2}Atilde \u{00C3}Adieresis \u{00C4}Aring \u{00C5}AE \u{00C6}Ccedilla \u{00C7}Egrave \u{00C8}Eacute \u{00C9}Ecircumflex \u{00CA}Edieresis \u{00CB}Igrave \u{00CC}Iacute \u{00CD}Icircumflex \u{00CE}Idieresis \u{00CF}Eth \u{00D0}Ntilde \u{00D1}Ograve \u{00D2}Oacute \u{00D3}Ocircumflex \u{00D4}Otilde \u{00D5}Odieresis \u{00D6}multiply \u{00D7}Oslash \u{00D8}Ugrave \u{00D9}Uacute \u{00DA}Ucircumflex \u{00DB}Udieresis \u{00DC}Yacute \u{00DD}Thorn \u{00DE}germandbls \u{00DF}agrave \u{00E0}aacute \u{00E1}acircumflex \u{00E2}atilde \u{00E3}adieresis \u{00E4}aring \u{00E5}ae \u{00E6}ccedilla \u{00E7}egrave \u{00E8}eacute \u{00E9}ecircumflex \u{00EA}edieresis \u{00EB}igrave \u{00EC}iacute \u{00ED}icircumflex \u{00EE}idieresis \u{00EF}eth \u{00F0}ntilde \u{00F1}ograve \u{00F2}oacute \u{00F3}ocircumflex \u{00F4}otilde \u{00F5}odieresis \u{00F6}divide \u{00F7}oslash \u{00F8}ugrave \u{00F9}uacute \u{00FA}ucircumflex \u{00FB}udieresis \u{00FC}yacute \u{00FD}thorn \u{00FE}ydieresis \u{00FF}Lslash \u{0141}lslash \u{0142}Scaron \u{0160}scaron \u{0161}OE \u{0152}oe \u{0153}Ydieresis \u{0178}Zcaron \u{017D}zcaron \u{017E}florin \u{0192}circumflex \u{02C6}tilde \u{02DC}caron \u{02C7}breve \u{02D8}dotaccent \u{02D9}ring \u{02DA}ogonek \u{02DB}hungarumlaut \u{02DD}Alpha \u{0391}Beta \u{0392}Gamma \u{0393}Delta \u{0394}Epsilon \u{0395}Zeta \u{0396}Eta \u{0397}Theta \u{0398}Iota \u{0399}Kappa \u{039A}Lambda \u{039B}Mu \u{039C}Nu \u{039D}Xi \u{039E}Omicron \u{039F}Pi \u{03A0}Rho \u{03A1}Sigma \u{03A3}Tau \u{03A4}Upsilon \u{03A5}Phi \u{03A6}Chi \u{03A7}Psi \u{03A8}Omega \u{03A9}alpha \u{03B1}beta \u{03B2}gamma \u{03B3}delta \u{03B4}epsilon \u{03B5}zeta \u{03B6}eta \u{03B7}theta \u{03B8}iota \u{03B9}kappa \u{03BA}lambda \u{03BB}nu \u{03BD}xi \u{03BE}omicron \u{03BF}pi \u{03C0}rho \u{03C1}sigma \u{03C3}tau \u{03C4}upsilon \u{03C5}phi \u{03C6}chi \u{03C7}psi \u{03C8}omega \u{03C9}endash \u{2013}emdash \u{2014}quotesinglbase \u{201A}quotedblbase \u{201E}quotedblleft \u{201C}quotedblright \u{201D}dagger \u{2020}daggerdbl \u{2021}bullet \u{2022}ellipsis \u{2026}perthousand \u{2030}guilsinglleft \u{2039}guilsinglright \u{203A}Euro \u{20AC}trademark \u{2122}onethird \u{2153}twothirds \u{2154}oneeighth \u{215B}threeeighths \u{215C}fiveeighths \u{215D}seveneighths \u{215E}minus \u{2212}fraction \u{2044}infinity \u{221E}notequal \u{2260}lessequal \u{2264}greaterequal \u{2265}arrowleft \u{2190}arrowup \u{2191}arrowright \u{2192}arrowdown \u{2193}arrowboth \u{2194}arrowdblleft \u{21D0}arrowdblup \u{21D1}arrowdblright \u{21D2}arrowdbldown \u{21D3}arrowdblboth \u{21D4}partialdiff \u{2202}gradient \u{2207}product \u{220F}summation \u{2211}radical \u{221A}proportional \u{221D}integral \u{222B}approxequal \u{2248}equivalence \u{2261}lozenge \u{25CA}notelement \u{2209}element \u{2208}emptyset \u{2205}intersection \u{2229}union \u{222A}logicalor \u{2228}logicaland \u{2227}universal \u{2200}existential \u{2203}filledbox \u{25A0}emptybox \u{25A1}filledrect \u{25AC}triagup \u{25B2}triagrt \u{25BA}triagdn \u{25BC}triaglf \u{25C4}circle \u{25CB}filledcircle \u{25CF}heart \u{2665}musicalnote \u{266A}musicalnotedbl \u{266B}");
    let t = GLYPH_NAMES@;
    assert(t.subrange(2416, 2424) =~= seq!['i', 'n', 't', 'e', 'g', 'r', 'a', 'l']);
    lemma_entry(t, 2416, seq!['i', 'n', 't', 'e', 'g', 'r', 'a', 'l'], '\u{222B}', name);
    assert(t.subrange(2426, 2437) =~= seq!['a', 'p', 'p', 'r', 'o', 'x', 'e', 'q', 'u', 'a', 'l']);
    lemma_entry(t, 2426, seq!['a', 'p', 'p', 'r', 'o', 'x', 'e', 'q', 'u', 'a', 'l'], '\u{2248}', name);
    assert(t.subrange(2439, 2450) =~= seq!['e', 'q', 'u', 'i', 'v', 'a', 'l', 'e', 'n', 'c', 'e']);
    lemma_entry(t, 2439, seq!['e', 'q', 'u', 'i', 'v', 'a', 'l', 'e', 'n', 'c', 'e'], '\u{2261}', name);
    assert(t.subrange(2452, 2459) =~= seq!['l', 'o', 'z', 'e', 'n', 'g', 'e']);
    lemma_entry(t, 2452, seq!['l', 'o', 'z', 'e', 'n', 'g', 'e'], '\u{25CA}', name);
    assert(t.subrange(2461, 2471) =~= seq!['n', 'o', 't', 'e', 'l', 'e', 'm', 'e', 'n', 't']);
    lemma_entry(t, 2461, seq!['n', 'o', 't', 'e', 'l', 'e', 'm', 'e', 'n', 't'], '\u{2209}', name);
    assert(t.subrange(2473, 2480) =~= seq!['e', 'l', 'e', 'm', 'e', 'n', 't']);
    lemma_entry(t, 2473, seq!['e', 'l', 'e', 'm', 'e', 'n', 't'], '\u{2208}', name);
    assert(t.subrange(2482, 2490) =~= seq!['e', 'm', 'p', 't', 'y', 's', 'e', 't']);
    lemma_entry(t, 2482, seq!['e', 'm', 'p', 't', 'y', 's', 'e', 't'], '\u{2205}', name);
    assert(t.subrange(2492, 2504) =~= seq!['i', 'n', 't', 'e', 'r', 's', 'e', 'c', 't', 'i', 'o', 'n']);
    lemma_entry(t, 2492, seq!['i', 'n', 't', 'e', 'r', 's', 'e', 'c', 't', 'i', 'o', 'n'], '\u{2229}', name);
    assert(t.subrange(2506, 2511) =~= seq!['u', 'n', 'i', 'o', 'n']);
    lemma_entry(t, 2506, seq!['u', 'n', 'i', 'o', 'n'], '\u{222A}', name);
    assert(t.subrange(2513, 2522) =~= seq!['l', 'o', 'g', 'i', 'c', 'a', 'l', 'o', 'r']);
    lemma_entry(t, 2513, seq!['l', 'o', 'g', 'i', 'c', 'a', 'l', 'o', 'r'], '\u{2228}', name);
    assert(t.subrange(2524, 2534) =~= seq!['l', 'o', 'g', 'i', 'c', 'a', 'l', 'a', 'n', 'd']);
    lemma_entry(t, 2524, seq!['l', 'o', 'g', 'i', 'c', 'a', 'l', 'a', 'n', 'd'], '\u{2227}', name);
    assert(t.subrange(2536, 2545) =~= seq!['u', 'n', 'i', 'v', 'e', 'r', 's', 'a', 'l']);
    lemma_entry(t, 2536, seq!['u', 'n', 'i', 'v', 'e', 'r', 's', 'a', 'l'], '\u{2200}', name);
    assert(t.subrange(2547, 2558) =~= seq!['e', 'x', 'i', 's', 't', 'e', 'n', 't', 'i', 'a', 'l']);
    lemma_entry(t, 2547, seq!['e', 'x', 'i', 's', 't', 'e', 'n', 't', 'i', 'a', 'l'], '\u{2203}', name);
    assert(t.subrange(2560, 2569) =~= seq!['f', 'i', 'l', 'l', 'e', 'd', 'b', 'o', 'x']);
    lemma_entry(t, 2560, seq!['f', 'i', 'l', 'l', 'e', 'd', 'b', 'o', 'x'], '\u{25A0}', name);
    assert(t.subrange(2571, 2579) =~= seq!['e', 'm', 'p', 't', 'y', 'b', 'o', 'x']);
    lemma_entry(t, 2571, seq!['e', 'm', 'p', 't', 'y', 'b', 'o', 'x'], '\u{25A1}', name);
    assert(t.subrange(2581, 2591) =~= seq!['f', 'i', 'l', 'l', 'e', 'd', 'r', 'e', 'c', 't']);
    lemma_entry(t, 2581, seq!['f', 'i', 'l', 'l', 'e', 'd', 'r', 'e', 'c', 't'], '\u{25AC}', name);
    assert(t.subrange(2593, 2600) =~= seq!['t', 'r', 'i', 'a', 'g', 'u', 'p']);
    lemma_entry(t, 2593, seq!['t', 'r', 'i', 'a', 'g', 'u', 'p'], '\u{25B2}', name);
    assert(t.subrange(2602, 2609) =~= seq!['t', 'r', 'i', 'a', 'g', 'r', 't']);
    lemma_entry(t, 2602, seq!['t', 'r', 'i', 'a', 'g', 'r', 't'], '\u{25BA}', name);
    assert(t.subrange(2611, 2618) =~= seq!['t', 'r', 'i', 'a', 'g', 'd', 'n']);
    lemma_entry(t, 2611, seq!['t', 'r', 'i', 'a', 'g', 'd', 'n'], '\u{25BC}', name);
    assert(t.subrange(2620, 2627) =~= seq!['t', 'r', 'i', 'a', 'g', 'l', 'f']);
    lemma_entry(t, 2620, seq!['t', 'r', 'i', 'a', 'g', 'l', 'f'], '\u{25C4}', name);
}

/// The characters of these glyphs, or else `rest`.
pub open spec fn glyphs_q(name: Seq<char>, rest: Option<char>) -> Option<char> {
    if name == seq!['c', 'i', 'r', 'c', 'l', 'e'] {
        Some('\u{25CB}')
    } else if name == seq!['f', 'i', 'l', 'l', 'e', 'd', 'c', 'i', 'r', 'c', 'l', 'e'] {
        Some('\u{25CF}')
    } else if name == seq!['h', 'e', 'a', 'r', 't'] {
        Some('\u{2665}')
    } else if name == seq!['m', 'u', 's', 'i', 'c', 'a', 'l', 'n', 'o', 't', 'e'] {
        Some('\u{266A}')
    } else if name == seq!['m', 'u', 's', 'i', 'c', 'a', 'l', 'n', 'o', 't', 'e', 'd', 'b', 'l'] {
        Some('\u{266B}')
    } else {
        rest
    }
}

#[verifier::rlimit(50)]
proof fn lemma_glyphs_q(name: Seq<char>)
    ensures
        entry_for(GLYPH_NAMES@, 2629, name) == glyphs_q(name, entry_for(GLYPH_NAMES@, 2687, name)),
{
    reveal_strlit("space  exclam !quotedbl \"numbersign #dollar $percent %ampersand &quoteright \u{2019}quotesingle 'parenleft (parenright )asterisk *plus +comma ,hyphen -period .slash /zero 0one 1two 2three 3four 4five 5six 6seven 7eight 8nine 9colon :semicolon ;less <equal =greater >question ?at @A AB BC CD DE EF FG GH HI IJ JK KL LM MN NO OP PQ QR RS ST TU UV VW WX XY YZ Zbracketleft [backslash \\bracketright ]asciicircum ^underscore _quoteleft \u{2018}grave `a ab bc cd de ef fg gh hi ij jk kl lm mn no op pq qr rs st tu uv vw wx xy yz zbraceleft {bar |braceright }asciitilde ~exclamdown \u{00A1}cent \u{00A2}sterling \u{00A3}currency \u{00A4}yen \u{00A5}brokenbar \u{00A6}section \u{00A7}dieresis \u{00A8}copyright \u{00A9}ordfeminine \u{00AA}guillemotleft \u{00AB}logicalnot \u{00AC}hyphensoft \u{00AD}registered \u{00AE}macron \u{00AF}degree \u{00B0}plusminus \u{00B1}twosuperior \u{00B2}threesuperior \u{00B3}acute \u{00B4}mu \u{00B5}paragraph \u{00B6}periodcentered \u{00B7}cedilla \u{00B8}onesuperior \u{00B9}ordmasculine \u{00BA}guillemotright \u{00BB}onequarter \u{00BC}onehalf \u{00BD}threequarters \u{00BE}questiondown \u{00BF}Agrave \u{00C0}Aacute \u{00C1}Acircumflex \u{00C2}Atilde \u{00C3}Adieresis \u{00C4}Aring \u{00C5}AE \u{00C6}Ccedilla \u{00C7}Egrave \u{00C8}Eacute \u{00C9}Ecircumflex \u{00CA}Edieresis \u{00CB}Igrave \u{00CC}Iacute \u{00CD}Icircumflex \u{00CE}Idieresis \u{00CF}Eth \u{00D0}Ntilde \u{00D1}Ograve \u{00D2}Oacute \u{00D3}Ocircumflex \u{00D4}Otilde \u{00D5}Odieresis \u{00D6}multiply \u{00D7}Oslash \u{00D8}Ugrave \u{00D9}Uacute \u{00DA}Ucircumflex \u{00DB}Udieresis \u{00DC}Yacute \u{00DD}Thorn \u{00DE}germandbls \u{00DF}agrave \u{00E0}aacute \u{00E1}acircumflex \u{00E2}atilde \u{00E3}adieresis \u{00E4}aring \u{00E5}ae \u{00E6}ccedilla \u{00E7}egrave \u{00E8}eacute \u{00E9}ecircumflex \u{00EA}edieresis \u{00EB}igrave \u{00EC}iacute \u{00ED}icircumflex \u{00EE}idieresis \u{00EF}eth \u{00F0}ntilde \u{00F1}ograve \u{00F2}oacute \u{00F3}ocircumflex \u{00F4}otilde \u{00F5}odieresis \u{00F6}divide \u{00F7}oslash \u{00F8}ugrave \u{00F9}uacute \u{00FA}ucircumflex \u{00FB}udieresis \u{00FC}yacute \u{00FD}thorn \u{00FE}ydieresis \u{00FF}Lslash \u{0141}lslash \u{0142}Scaron \u{0160}scaron \u{0161}OE \u{0152}oe \u{0153}Ydieresis \u{0178}Zcaron \u{017D}zcaron \u{017E}florin \u{0192}circumflex \u{02C6}tilde \u{02DC}caron \u{02C7}breve \u{02D8}dotaccent \u{02D9}ring \u{02DA}ogonek \u{02DB}hungarumlaut \u{02DD}Alpha \u{0391}Beta \u{0392}Gamma \u{0393}Delta \u{0394}Epsilon \u{0395}Zeta \u{0396}Eta \u{0397}Theta \u{0398}Iota \u{0399}Kappa \u{039A}Lambda \u{039B}Mu \u{039C}Nu \u{039D}Xi \u{039E}Omicron \u{039F}Pi \u{03A0}Rho \u{03A1}Sigma \u{03A3}Tau \u{03A4}Upsilon \u{03A5}Phi \u{03A6}Chi \u{03A7}Psi \u{03A8}Omega \u{03A9}alpha \u{03B1}beta \u{03B2}gamma \u{03B3}delta \u{03B4}epsilon \u{03B5}zeta \u{03B6}eta \u{03B7}theta \u{03B8}iota \u{03B9}kappa \u{03BA}lambda \u{03BB}nu \u{03BD}xi \u{03BE}omicron \u{03BF}pi \u{03C0}rho \u{03C1}sigma \u{03C3}tau \u{03C4}upsilon \u{03C5}phi \u{03C6}chi \u{03C7}psi \u{03C8}omega \u{03C9}endash \u{2013}emdash \u{2014}quotesinglbase \u{201A}quotedblbase \u{201E}quotedblleft \u{201C}quotedblright \u{201D}dagger \u{2020}daggerdbl \u{2021}bullet \u{2022}ellipsis \u{2026}perthousand \u{2030}guilsinglleft \u{2039}guilsinglright \u{203A}Euro \u{20AC}trademark \u{2122}onethird \u{2153}twothirds \u{2154}oneeighth \u{215B}threeeighths \u{215C}fiveeighths \u{215D}seveneighths \u{215E}minus \u{2212}fraction \u{2044}infinity \u{221E}notequal \u{2260}lessequal \u{2264}greaterequal \u{2265}arrowleft \u{2190}arrowup \u{2191}arrowright \u{2192}arrowdown \u{2193}arrowboth \u{2194}arrowdblleft \u{21D0}arrowdblup \u{21D1}arrowdblright \u{21D2}arrowdbldown \u{21D3}arrowdblboth \u{21D4}partialdiff \u{2202}gradient \u{2207}product \u{220F}summation \u{2211}radical \u{221A}proportional \u{221D}integral \u{222B}approxequal \u{2248}equivalence \u{2261}lozenge \u{25CA}notelement \u{2209}element \u{2208}emptyset \u{2205}intersection \u{2229}union \u{222A}logicalor \u{2228}logicaland \u{2227}universal \u{2200}existential \u{2203}filledbox \u{25A0}emptybox \u{25A1}filledrect \u{25AC}triagup \u{25B2}triagrt \u{25BA}triagdn \u{25BC}triaglf \u{25C4}circle \u{25CB}filledcircle \u{25CF}heart \u{2665}musicalnote \u{266A}musicalnotedbl \u{266B}");
    let t = GLYPH_NAMES@;
    assert(t.subrange(2629, 2635) =~= seq!['c', 'i', 'r', 'c', 'l', 'e']);
    lemma_entry(t, 2629, seq!['c', 'i', 'r', 'c', 'l', 'e'], '\u{25CB}', name);
    assert(t.subrange(2637, 2649) =~= seq!['f', 'i', 'l', 'l', 'e', 'd', 'c', 'i', 'r', 'c', 'l', 'e']);
    lemma_entry(t, 2637, seq!['f', 'i', 'l', 'l', 'e', 'd', 'c', 'i', 'r', 'c', 'l', 'e'], '\u{25CF}', name);
    assert(t.subrange(2651, 2656) =~= seq!['h', 'e', 'a', 'r', 't']);
    lemma_entry(t, 2651, seq!['h', 'e', 'a', 'r', 't'], '\u{2665}', name);
    assert(t.subrange(2658, 2669) =~= seq!['m', 'u', 's', 'i', 'c', 'a', 'l', 'n', 'o', 't', 'e']);
    lemma_entry(t, 2658, seq!['m', 'u', 's', 'i', 'c', 'a', 'l', 'n', 'o', 't', 'e'], '\u{266A}', name);
    assert(t.subrange(2671, 2685) =~= seq!['m', 'u', 's', 'i', 'c', 'a', 'l', 'n', 'o', 't', 'e', 'd', 'b', 'l']);
    lemma_entry(t, 2671, seq!['m', 'u', 's', 'i', 'c', 'a', 'l', 'n', 'o', 't', 'e', 'd', 'b', 'l'], '\u{266B}', name);
}

/// The characters of all glyph names; no other name is in the list.
pub proof fn law_glyph_names(name: Seq<char>)
    ensures
        entry_for(GLYPH_NAMES@, 0, name) == glyphs_a(name, glyphs_b(name, glyphs_c(name, glyphs_d(name, glyphs_e(name, glyphs_f(name, glyphs_g(name, glyphs_h(name, glyphs_i(name, glyphs_j(name, glyphs_k(name, glyphs_l(name, glyphs_m(name, glyphs_n(name, glyphs_o(name, glyphs_p(name, glyphs_q(name, None))))))))))))))))),
{
    lemma_glyphs_a(name);
    lemma_glyphs_b(name);
    lemma_glyphs_c(name);
    lemma_glyphs_d(name);
    lemma_glyphs_e(name);
    lemma_glyphs_f(name);
    lemma_glyphs_g(name);
    lemma_glyphs_h(name);
    lemma_glyphs_i(name);
    lemma_glyphs_j(name);
    lemma_glyphs_k(name);
    lemma_glyphs_l(name);
    lemma_glyphs_m(name);
    lemma_glyphs_n(name);
    lemma_glyphs_o(name);
    lemma_glyphs_p(name);
    lemma_glyphs_q(name);
    reveal_strlit("space  exclam !quotedbl \"numbersign #dollar $percent %ampersand &quoteright \u{2019}quotesingle 'parenleft (parenright )asterisk *plus +comma ,hyphen -period .slash /zero 0one 1two 2three 3four 4five 5six 6seven 7eight 8nine 9colon :semicolon ;less <equal =greater >question ?at @A AB BC CD DE EF FG GH HI IJ JK KL LM MN NO OP PQ QR RS ST TU UV VW WX XY YZ Zbracketleft [backslash \\bracketright ]asciicircum ^underscore _quoteleft \u{2018}grave `a ab bc cd de ef fg gh hi ij jk kl lm mn no op pq qr rs st tu uv vw wx xy yz zbraceleft {bar |braceright }asciitilde ~exclamdown \u{00A1}cent \u{00A2}sterling \u{00A3}currency \u{00A4}yen \u{00A5}brokenbar \u{00A6}section \u{00A7}dieresis \u{00A8}copyright \u{00A9}ordfeminine \u{00AA}guillemotleft \u{00AB}logicalnot \u{00AC}hyphensoft \u{00AD}registered \u{00AE}macron \u{00AF}degree \u{00B0}plusminus \u{00B1}twosuperior \u{00B2}threesuperior \u{00B3}acute \u{00B4}mu \u{00B5}paragraph \u{00B6}periodcentered \u{00B7}cedilla \u{00B8}onesuperior \u{00B9}ordmasculine \u{00BA}guillemotright \u{00BB}onequarter \u{00BC}onehalf \u{00BD}threequarters \u{00BE}questiondown \u{00BF}Agrave \u{00C0}Aacute \u{00C1}Acircumflex \u{00C2}Atilde \u{00C3}Adieresis \u{00C4}Aring \u{00C5}AE \u{00C6}Ccedilla \u{00C7}Egrave \u{00C8}Eacute \u{00C9}Ecircumflex \u{00CA}Edieresis \u{00CB}Igrave \u{00CC}Iacute \u{00CD}Icircumflex \u{00CE}Idieresis \u{00CF}Eth \u{00D0}Ntilde \u{00D1}Ograve \u{00D2}Oacute \u{00D3}Ocircumflex \u{00D4}Otilde \u{00D5}Odieresis \u{00D6}multiply \u{00D7}Oslash \u{00D8}Ugrave \u{00D9}Uacute \u{00DA}Ucircumflex \u{00DB}Udieresis \u{00DC}Yacute \u{00DD}Thorn \u{00DE}germandbls \u{00DF}agrave \u{00E0}aacute \u{00E1}acircumflex \u{00E2}atilde \u{00E3}adieresis \u{00E4}aring \u{00E5}ae \u{00E6}ccedilla \u{00E7}egrave \u{00E8}eacute \u{00E9}ecircumflex \u{00EA}edieresis \u{00EB}igrave \u{00EC}iacute \u{00ED}icircumflex \u{00EE}idieresis \u{00EF}eth \u{00F0}ntilde \u{00F1}ograve \u{00F2}oacute \u{00F3}ocircumflex \u{00F4}otilde \u{00F5}odieresis \u{00F6}divide \u{00F7}oslash \u{00F8}ugrave \u{00F9}uacute \u{00FA}ucircumflex \u{00FB}udieresis \u{00FC}yacute \u{00FD}thorn \u{00FE}ydieresis \u{00FF}Lslash \u{0141}lslash \u{0142}Scaron \u{0160}scaron \u{0161}OE \u{0152}oe \u{0153}Ydieresis \u{0178}Zcaron \u{017D}zcaron \u{017E}florin \u{0192}circumflex \u{02C6}tilde \u{02DC}caron \u{02C7}breve \u{02D8}dotaccent \u{02D9}ring \u{02DA}ogonek \u{02DB}hungarumlaut \u{02DD}Alpha \u{0391}Beta \u{0392}Gamma \u{0393}Delta \u{0394}Epsilon \u{0395}Zeta \u{0396}Eta \u{0397}Theta \u{0398}Iota \u{0399}Kappa \u{039A}Lambda \u{039B}Mu \u{039C}Nu \u{039D}Xi \u{039E}Omicron \u{039F}Pi \u{03A0}Rho \u{03A1}Sigma \u{03A3}Tau \u{03A4}Upsilon \u{03A5}Phi \u{03A6}Chi \u{03A7}Psi \u{03A8}Omega \u{03A9}alpha \u{03B1}beta \u{03B2}gamma \u{03B3}delta \u{03B4}epsilon \u{03B5}zeta \u{03B6}eta \u{03B7}theta \u{03B8}iota \u{03B9}kappa \u{03BA}lambda \u{03BB}nu \u{03BD}xi \u{03BE}omicron \u{03BF}pi \u{03C0}rho \u{03C1}sigma \u{03C3}tau \u{03C4}upsilon \u{03C5}phi \u{03C6}chi \u{03C7}psi \u{03C8}omega \u{03C9}endash \u{2013}emdash \u{2014}quotesinglbase \u{201A}quotedblbase \u{201E}quotedblleft \u{201C}quotedblright \u{201D}dagger \u{2020}daggerdbl \u{2021}bullet \u{2022}ellipsis \u{2026}perthousand \u{2030}guilsinglleft \u{2039}guilsinglright \u{203A}Euro \u{20AC}trademark \u{2122}onethird \u{2153}twothirds \u{2154}oneeighth \u{215B}threeeighths \u{215C}fiveeighths \u{215D}seveneighths \u{215E}minus \u{2212}fraction \u{2044}infinity \u{221E}notequal \u{2260}lessequal \u{2264}greaterequal \u{2265}arrowleft \u{2190}arrowup \u{2191}arrowright \u{2192}arrowdown \u{2193}arrowboth \u{2194}arrowdblleft \u{21D0}arrowdblup \u{21D1}arrowdblright \u{21D2}arrowdbldown \u{21D3}arrowdblboth \u{21D4}partialdiff \u{2202}gradient \u{2207}product \u{220F}summation \u{2211}radical \u{221A}proportional \u{221D}integral \u{222B}approxequal \u{2248}equivalence \u{2261}lozenge \u{25CA}notelement \u{2209}element \u{2208}emptyset \u{2205}intersection \u{2229}union \u{222A}logicalor \u{2228}logicaland \u{2227}universal \u{2200}existential \u{2203}filledbox \u{25A0}emptybox \u{25A1}filledrect \u{25AC}triagup \u{25B2}triagrt \u{25BA}triagdn \u{25BC}triaglf \u{25C4}circle \u{25CB}filledcircle \u{25CF}heart \u{2665}musicalnote \u{266A}musicalnotedbl \u{266B}");
    assert(entry_for(GLYPH_NAMES@, 2687, name) is None);
}

/// A glyph name of the list stands for its character.
pub proof fn law_listed_glyph(name: Seq<char>, c: char)
    requires
        entry_for(GLYPH_NAMES@, 0, name) == Some(c),
        name.len() != 0 && name.len() != 2 && name.len() != 7,
    ensures
        glyph_text(name) == Some(seq![c]),
{
    reveal_strlit(".notdef");
    reveal_strlit("fi");
    reveal_strlit("fl");
    assert(".notdef"@.len() == 7 && "fi"@.len() == 2 && "fl"@.len() == 2);
}

} // verus!
