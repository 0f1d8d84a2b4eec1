use live_lexer::grammar::LexErrorKind;
use live_lexer::lex::{lex, parse_integer, Lex, LexError, LexResult};
use live_lexer::span::{FileId, TextPos};
use live_lexer::token::{Delim, Punct, Token};

fn run(src: &str) -> Result<LexResult, LexError> {
    lex(src.chars().collect(), TextPos::default(), FileId(0))
}

fn tokens(src: &str) -> Vec<Token> {
    run(src).unwrap().tokens.into_iter().map(|t| t.token).collect()
}

fn error_kind(src: &str) -> LexErrorKind {
    run(src).err().unwrap().kind
}

fn float_value(t: &Token) -> f64 {
    match t {
        Token::Float(text) => text.iter().collect::<String>().parse::<f64>().unwrap(),
        other => panic!("not a float: {:?}", other),
    }
}

fn pos(line: usize, column: usize) -> TextPos {
    TextPos { line, column }
}

#[test]
fn close_without_open_is_unmatched() {
    assert_eq!(error_kind(")"), LexErrorKind::UnmatchedCloseBracket);
}

#[test]
fn close_of_other_kind_is_mismatched() {
    assert_eq!(
        error_kind("(]"),
        LexErrorKind::MismatchedCloseBracket { expected: ')', found: ']' }
    );
}

#[test]
fn balanced_brackets_leave_empty_stack() {
    let mut lexer = Lex::new("()".chars().collect(), TextPos::default(), FileId(0));
    assert_eq!(lexer.next().unwrap().unwrap().token, Token::Open(Delim::Paren));
    assert_eq!(lexer.open_groups(), 1);
    assert_eq!(lexer.next().unwrap().unwrap().token, Token::Close(Delim::Paren));
    assert_eq!(lexer.next().unwrap().unwrap().token, Token::EndOfInput);
    assert_eq!(lexer.open_groups(), 0);
    assert!(run("()").is_ok());
    assert_eq!(
        tokens("{[()]}"),
        vec![
            Token::Open(Delim::Brace),
            Token::Open(Delim::Bracket),
            Token::Open(Delim::Paren),
            Token::Close(Delim::Paren),
            Token::Close(Delim::Bracket),
            Token::Close(Delim::Brace),
            Token::EndOfInput
        ]
    );
}

#[test]
fn integer_literal() {
    assert_eq!(tokens("123"), vec![Token::Integer(123), Token::EndOfInput]);
    assert_eq!(tokens("-42"), vec![Token::Integer(-42), Token::EndOfInput]);
}

#[test]
fn negative_fraction_shorthand() {
    let t = tokens("-.5");
    assert_eq!(t.len(), 2);
    assert_eq!(float_value(&t[0]), -0.5);
    assert_eq!(t[0], Token::Float("-0.5".chars().collect()));
}

#[test]
fn exponent_makes_float() {
    let t = tokens("1e10");
    assert_eq!(float_value(&t[0]), 1e10);
    assert_eq!(float_value(&tokens("2.5E-3")[0]), 2.5e-3);
    assert_eq!(float_value(&tokens(".5")[0]), 0.5);
    assert_eq!(float_value(&tokens("3.")[0]), 3.0);
}

#[test]
fn exponent_without_digits_fails() {
    assert_eq!(error_kind("1e"), LexErrorKind::MissingExponentDigits);
    assert_eq!(error_kind("1e+"), LexErrorKind::MissingExponentDigits);
}

#[test]
fn integer_out_of_range_fails() {
    assert_eq!(error_kind("9223372036854775808"), LexErrorKind::IntegerOverflow);
    assert_eq!(error_kind("-9223372036854775809"), LexErrorKind::IntegerOverflow);
    assert_eq!(tokens("9223372036854775807")[0], Token::Integer(i64::MAX));
    assert_eq!(tokens("-9223372036854775808")[0], Token::Integer(i64::MIN));
}

#[test]
fn parse_integer_reads_digit_ranges() {
    let digits: Vec<char> = "x1234y".chars().collect();
    assert_eq!(parse_integer(&digits, 1, 5, false), Some(1234));
    assert_eq!(parse_integer(&digits, 1, 5, true), Some(-1234));
    assert_eq!(parse_integer(&digits, 1, 1, false), Some(0));
    let big: Vec<char> = "99999999999999999999".chars().collect();
    assert_eq!(parse_integer(&big, 0, big.len(), false), None);
}

#[test]
fn underscore_at_either_end_fails() {
    assert_eq!(error_kind("_foo"), LexErrorKind::InvalidUnderscoreIdentifier);
    assert_eq!(error_kind("foo_"), LexErrorKind::InvalidUnderscoreIdentifier);
    assert_eq!(error_kind("_"), LexErrorKind::InvalidUnderscoreIdentifier);
}

#[test]
fn double_underscore_fails() {
    assert_eq!(error_kind("fo__o"), LexErrorKind::DoubleUnderscoreIdentifier);
    let e = run("a fo__o").err().unwrap();
    assert_eq!(e.text, "fo__o".chars().collect::<Vec<char>>());
    assert_eq!(e.span.start, pos(0, 2));
    assert_eq!(e.span.end, pos(0, 7));
}

#[test]
fn true_and_false_are_booleans() {
    assert_eq!(tokens("true"), vec![Token::Boolean(true), Token::EndOfInput]);
    assert_eq!(tokens("false"), vec![Token::Boolean(false), Token::EndOfInput]);
    assert!(matches!(tokens("truth")[0], Token::Identifier(_)));
}

#[test]
fn identifier_gets_its_live_id() {
    let t = tokens("width");
    let expected = makepad_live_tokenizer::LiveId::from_str("width").0;
    assert_eq!(t[0], Token::Identifier(expected));
    assert_ne!(t[0], tokens("height")[0]);
}

#[test]
fn color_literal_packs_rgba() {
    assert_eq!(tokens("#ff0000")[0], Token::Color(0xff0000ff));
    assert_eq!(tokens("#x00ff00")[0], Token::Color(0x00ff00ff));
    assert_eq!(tokens("#abc")[0], Token::Color(0xaabbccff));
    assert_eq!(tokens("#f")[0], Token::Color(0xffffffff));
    assert_eq!(tokens("#12345678")[0], Token::Color(0x12345678));
}

#[test]
fn invalid_color_fails() {
    assert_eq!(error_kind("#zz"), LexErrorKind::InvalidColorLiteral);
    assert_eq!(error_kind("#12345"), LexErrorKind::InvalidColorLiteral);
}

#[test]
fn comment_is_not_part_of_span() {
    let r = run("/* a */foo").unwrap();
    assert_eq!(r.tokens.len(), 2);
    assert!(matches!(r.tokens[0].token, Token::Identifier(_)));
    assert_eq!(r.tokens[0].span.start, pos(0, 7));
    assert_eq!(r.tokens[0].span.end, pos(0, 10));
}

#[test]
fn two_char_operator_is_one_token() {
    let r = run(">=").unwrap();
    assert_eq!(r.tokens.len(), 2);
    assert_eq!(r.tokens[0].token, Token::Punctuation(Punct::GtEq));
    assert_eq!(r.tokens[0].span.start, pos(0, 0));
    assert_eq!(r.tokens[0].span.end, pos(0, 2));
    assert_eq!(
        tokens("a->b::c=>d"),
        vec![
            tokens("a")[0].clone(),
            Token::Punctuation(Punct::Arrow),
            tokens("b")[0].clone(),
            Token::Punctuation(Punct::ColonColon),
            tokens("c")[0].clone(),
            Token::Punctuation(Punct::FatArrow),
            tokens("d")[0].clone(),
            Token::EndOfInput
        ]
    );
}

#[test]
fn pass_ends_with_one_end_of_input() {
    let t = tokens("a: 1, b: \"x\" // done\n");
    assert_eq!(t.last(), Some(&Token::EndOfInput));
    assert_eq!(t.iter().filter(|t| **t == Token::EndOfInput).count(), 1);
    assert_eq!(tokens(""), vec![Token::EndOfInput]);
    assert_eq!(tokens("  \n\t "), vec![Token::EndOfInput]);
}

#[test]
fn spans_and_trivia_cover_input() {
    let src = "a  +/*c*/ 12 // x";
    let r = run(src).unwrap();
    let cols: Vec<(usize, usize)> =
        r.tokens.iter().map(|t| (t.span.start.column, t.span.end.column)).collect();
    assert_eq!(cols, vec![(0, 1), (3, 4), (10, 12), (17, 17)]);
}

#[test]
fn string_literals_share_pool() {
    let r = run("\"ab\" \"c\"").unwrap();
    assert_eq!(r.tokens[0].token, Token::StringLiteral { index: 0, len: 2 });
    assert_eq!(r.tokens[1].token, Token::StringLiteral { index: 2, len: 1 });
    assert_eq!(r.strings, "abc".chars().collect::<Vec<char>>());
    let open = run("\"ab").unwrap();
    assert_eq!(open.tokens[0].token, Token::StringLiteral { index: 0, len: 2 });
}

#[test]
fn unterminated_block_comment_fails() {
    let e = run("x /* never").err().unwrap();
    assert_eq!(e.kind, LexErrorKind::UnterminatedBlockComment);
    assert_eq!(e.span.start, pos(0, 1));
    assert_eq!(e.span.end, pos(0, 10));
}

#[test]
fn line_comments_end_at_line_break() {
    let r = run("// x\nfoo // y\r\nbar // z").unwrap();
    assert_eq!(r.tokens.len(), 3);
    assert_eq!(r.tokens[0].span.start, pos(1, 0));
    assert_eq!(r.tokens[1].span.start, pos(2, 0));
}

#[test]
fn unexpected_character_fails() {
    assert_eq!(error_kind("a @"), LexErrorKind::UnexpectedCharacter('@'));
    let e = run("a @").err().unwrap();
    assert_eq!(e.span.start, pos(0, 2));
    assert_eq!(e.span.end, pos(0, 2));
}

#[test]
fn positions_follow_lines() {
    let start = TextPos { line: 4, column: 3 };
    let r = lex("a\n  b".chars().collect(), start, FileId(7)).unwrap();
    assert_eq!(r.tokens[0].span.start, pos(4, 3));
    assert_eq!(r.tokens[1].span.start, pos(5, 2));
    assert_eq!(r.tokens[1].span.file_id, FileId(7));
}

#[test]
fn incremental_stops_after_end_or_error() {
    let mut lexer = Lex::new("a".chars().collect(), TextPos::default(), FileId(0));
    assert!(lexer.next().unwrap().is_ok());
    assert_eq!(lexer.next().unwrap().unwrap().token, Token::EndOfInput);
    assert!(lexer.next().is_none());
    assert!(lexer.next().is_none());
    let mut failing = Lex::new("1 )".chars().collect(), TextPos::default(), FileId(0));
    assert_eq!(failing.next().unwrap().unwrap().token, Token::Integer(1));
    assert!(failing.next().unwrap().is_err());
    assert!(failing.next().is_none());
}

#[test]
fn all_operators() {
    let t = tokens("!= ! && *= * += + , -= - .. . /= / : ; <= < == = > ? &= & |= | ^= ^");
    let expected = vec![
        Punct::NotEq, Punct::Not, Punct::AndAnd, Punct::StarEq, Punct::Star, Punct::PlusEq,
        Punct::Plus, Punct::Comma, Punct::MinusEq, Punct::Minus, Punct::DotDot, Punct::Dot,
        Punct::SlashEq, Punct::Slash, Punct::Colon, Punct::Semi, Punct::LtEq, Punct::Lt,
        Punct::EqEq, Punct::Eq, Punct::Gt, Punct::Question, Punct::AndEq, Punct::And,
        Punct::OrEq, Punct::Or, Punct::CaretEq, Punct::Caret,
    ];
    let got: Vec<Token> = t[..t.len() - 1].to_vec();
    assert_eq!(got, expected.into_iter().map(Token::Punctuation).collect::<Vec<_>>());
}
