use oxideav_pdf::lex::{Lexer, TokenKind};
use oxideav_pdf::objects::Real;

fn value(r: &Real) -> f64 {
    std::str::from_utf8(&r.text).unwrap().parse().unwrap()
}

fn tokenize(input: &[u8]) -> Vec<TokenKind<'_>> {
    let mut lex = Lexer::new(input);
    let mut out = Vec::new();
    while let Some(t) = lex.next_token().unwrap() {
        out.push(t.kind);
    }
    out
}

#[test]
fn integers_and_reals() {
    assert_eq!(
        tokenize(b"42 -7 0 +3"),
        vec![
            TokenKind::Integer(42),
            TokenKind::Integer(-7),
            TokenKind::Integer(0),
            TokenKind::Integer(3),
        ]
    );
    let toks = tokenize(b"0.5 -1.25 .75");
    assert_eq!(toks.len(), 3);
    match &toks[0] {
        TokenKind::Real(f) => assert!((value(f) - 0.5).abs() < 1e-9),
        _ => panic!("expected real"),
    }
    match &toks[1] {
        TokenKind::Real(f) => assert!((value(f) + 1.25).abs() < 1e-9),
        _ => panic!("expected real"),
    }
    match &toks[2] {
        TokenKind::Real(f) => assert!((value(f) - 0.75).abs() < 1e-9),
        _ => panic!("expected real"),
    }
}

#[test]
fn names_decode_hex_escapes() {
    let toks = tokenize(b"/Pages /a#20b /dc#3Arights");
    assert_eq!(toks.len(), 3);
    assert_eq!(toks[0], TokenKind::Name(b"Pages".to_vec()));
    assert_eq!(toks[1], TokenKind::Name(b"a b".to_vec()));
    assert_eq!(toks[2], TokenKind::Name(b"dc:rights".to_vec()));
}

#[test]
fn literal_string_with_escapes() {
    let toks = tokenize(b"(hello\\nworld) (\\(c\\))");
    assert_eq!(toks.len(), 2);
    assert_eq!(toks[0], TokenKind::LiteralString(b"hello\nworld".to_vec()));
    assert_eq!(toks[1], TokenKind::LiteralString(b"(c)".to_vec()));
}

#[test]
fn literal_string_balanced_parens() {
    let toks = tokenize(b"(a (b (c) d) e)");
    assert_eq!(toks.len(), 1);
    assert_eq!(toks[0], TokenKind::LiteralString(b"a (b (c) d) e".to_vec()));
}

#[test]
fn literal_string_octal_escapes() {
    // \101 = 'A' (decimal 65)
    let toks = tokenize(b"(\\101BC)");
    assert_eq!(toks, vec![TokenKind::LiteralString(b"ABC".to_vec())]);
}

#[test]
fn hex_string_decodes_pairs() {
    let toks = tokenize(b"<48656C6C6F>");
    assert_eq!(toks, vec![TokenKind::HexString(b"Hello".to_vec())]);
}

#[test]
fn hex_string_odd_nibble_left_aligned() {
    let toks = tokenize(b"<F>");
    assert_eq!(toks, vec![TokenKind::HexString(vec![0xF0])]);
}

#[test]
fn hex_string_with_whitespace_between_digits() {
    let toks = tokenize(b"<48 65 6C 6C 6F>");
    assert_eq!(toks, vec![TokenKind::HexString(b"Hello".to_vec())]);
}

#[test]
fn dict_and_array_markers() {
    let toks = tokenize(b"<< /Type /Page >> [1 2 3]");
    assert_eq!(toks.len(), 9);
    assert_eq!(toks[0], TokenKind::DictStart);
    assert_eq!(toks[1], TokenKind::Name(b"Type".to_vec()));
    assert_eq!(toks[2], TokenKind::Name(b"Page".to_vec()));
    assert_eq!(toks[3], TokenKind::DictEnd);
    assert_eq!(toks[4], TokenKind::ArrayStart);
    assert_eq!(toks[5], TokenKind::Integer(1));
    assert_eq!(toks[6], TokenKind::Integer(2));
    assert_eq!(toks[7], TokenKind::Integer(3));
    assert_eq!(toks[8], TokenKind::ArrayEnd);
}

#[test]
fn keywords_pass_through() {
    let toks =
        tokenize(b"obj endobj stream endstream R xref trailer startxref true false null");
    assert_eq!(toks.len(), 11);
    assert_eq!(toks[0], TokenKind::Keyword(b"obj"));
    assert_eq!(toks[1], TokenKind::Keyword(b"endobj"));
    assert_eq!(toks[2], TokenKind::Keyword(b"stream"));
    assert_eq!(toks[3], TokenKind::Keyword(b"endstream"));
    assert_eq!(toks[4], TokenKind::Keyword(b"R"));
    assert_eq!(toks[5], TokenKind::Keyword(b"xref"));
    assert_eq!(toks[6], TokenKind::Keyword(b"trailer"));
    assert_eq!(toks[7], TokenKind::Keyword(b"startxref"));
    assert_eq!(toks[8], TokenKind::Keyword(b"true"));
    assert_eq!(toks[9], TokenKind::Keyword(b"false"));
    assert_eq!(toks[10], TokenKind::Keyword(b"null"));
}

#[test]
fn comments_are_skipped_like_whitespace() {
    let toks = tokenize(b"% header comment\n42 % trailing\n/Foo");
    assert_eq!(
        toks,
        vec![TokenKind::Integer(42), TokenKind::Name(b"Foo".to_vec())]
    );
}

#[test]
fn position_advances_after_each_token() {
    let mut lex = Lexer::new(b"42 /foo");
    let t1 = lex.next_token().unwrap().unwrap();
    assert_eq!(t1.start, 0);
    assert_eq!(t1.end, 2);
    let t2 = lex.next_token().unwrap().unwrap();
    assert_eq!(t2.start, 3);
    assert_eq!(t2.end, 7);
    assert!(lex.next_token().unwrap().is_none());
}

#[test]
fn seek_and_slice_helpers() {
    let mut lex = Lexer::new(b"obj\nstream\nABCDEF\nendstream\nendobj\n");
    // Skip past `obj`.
    let _ = lex.next_token().unwrap();
    // Skip past `stream`.
    let stream_tok = lex.next_token().unwrap().unwrap();
    assert!(matches!(stream_tok.kind, TokenKind::Keyword(b"stream")));
    let data_start = stream_tok.end + 1; // skip the LF after `stream`
    let data_end = data_start + 6; // "ABCDEF"
    assert_eq!(lex.slice(data_start, data_end), b"ABCDEF");
    lex.seek(data_end);
    // Next non-whitespace token is `endstream`.
    let t = lex.next_token().unwrap().unwrap();
    assert_eq!(t.kind, TokenKind::Keyword(b"endstream"));
}

#[test]
fn unterminated_literal_string_is_error() {
    let mut lex = Lexer::new(b"(hello");
    assert!(lex.next_token().is_err());
}

#[test]
fn unterminated_hex_string_is_error() {
    let mut lex = Lexer::new(b"<48656C");
    assert!(lex.next_token().is_err());
}
