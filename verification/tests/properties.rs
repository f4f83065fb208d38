use rlox_scanner::scanner::Scanner;
use rlox_scanner::token::ErrorKind;
use rlox_scanner::token::Token;
use rlox_scanner::token::TokenKind;

fn scan(src: &str) -> (Scanner, bool) {
    let mut had_error = false;
    let mut scnr = Scanner::new(src, &mut had_error);
    scnr.scan_tokens();
    let e = scnr.had_error;
    (scnr, e)
}

fn kinds(scnr: &Scanner) -> Vec<TokenKind> {
    scnr.tokens.iter().map(|t| t.kind).collect()
}

#[test]
fn empty_input_yields_only_eof() {
    let (scnr, had_error) = scan("");
    assert_eq!(kinds(&scnr), vec![TokenKind::Eof]);
    assert_eq!(scnr.tokens[0].lexeme, "");
    assert_eq!(scnr.tokens[0].line, 1);
    assert!(!had_error);
    assert!(scnr.errors.is_empty());
}

#[test]
fn every_scan_ends_in_eof() {
    for src in ["", "1 + 2", "\"abc", "@#$", "var x = 1;\n"] {
        let (scnr, _) = scan(src);
        let n = scnr.tokens.len();
        assert!(n >= 1);
        assert_eq!(scnr.tokens[n - 1].kind, TokenKind::Eof);
        for t in &scnr.tokens[..n - 1] {
            assert!(t.kind != TokenKind::Eof);
        }
    }
}

#[test]
fn operator_lexemes_round_trip() {
    let ops = [
        ("(", TokenKind::LeftParen),
        (")", TokenKind::RightParen),
        ("{", TokenKind::LeftBrace),
        ("}", TokenKind::RightBrace),
        (",", TokenKind::Comma),
        (".", TokenKind::Dot),
        ("-", TokenKind::Minus),
        ("+", TokenKind::Plus),
        (";", TokenKind::Semicolon),
        ("*", TokenKind::Star),
        ("!", TokenKind::Bang),
        ("!=", TokenKind::BangEqual),
        ("=", TokenKind::Equal),
        ("==", TokenKind::EqualEqual),
        ("<", TokenKind::Less),
        ("<=", TokenKind::LessEqual),
        (">", TokenKind::Greater),
        (">=", TokenKind::GreaterEqual),
        ("/", TokenKind::Slash),
    ];
    for (lexeme, kind) in ops {
        let (scnr, had_error) = scan(lexeme);
        assert_eq!(kinds(&scnr), vec![kind, TokenKind::Eof], "{}", lexeme);
        assert_eq!(scnr.tokens[0].lexeme, lexeme);
        assert_eq!(scnr.tokens[0].literal, "");
        assert!(!had_error);
    }
}

#[test]
fn keyword_is_not_identifier() {
    let (scnr, _) = scan("class");
    assert_eq!(kinds(&scnr), vec![TokenKind::Class, TokenKind::Eof]);
    assert_eq!(scnr.tokens[0].lexeme, "class");
}

#[test]
fn keyword_prefix_is_one_identifier() {
    let (scnr, _) = scan("classify");
    assert_eq!(kinds(&scnr), vec![TokenKind::Identifier, TokenKind::Eof]);
    assert_eq!(scnr.tokens[0].lexeme, "classify");
}

#[test]
fn all_keywords_recognized() {
    let table = [
        ("and", TokenKind::And),
        ("class", TokenKind::Class),
        ("else", TokenKind::Else),
        ("false", TokenKind::False),
        ("fun", TokenKind::Fun),
        ("for", TokenKind::For),
        ("if", TokenKind::If),
        ("nil", TokenKind::Nil),
        ("or", TokenKind::Or),
        ("print", TokenKind::Print),
        ("return", TokenKind::Return),
        ("super", TokenKind::Super),
        ("this", TokenKind::This),
        ("true", TokenKind::True),
        ("var", TokenKind::Var),
        ("while", TokenKind::While),
    ];
    for (word, kind) in table {
        let (scnr, had_error) = scan(word);
        assert_eq!(kinds(&scnr), vec![kind, TokenKind::Eof], "{}", word);
        assert!(!had_error);
    }
}

#[test]
fn trailing_dot_not_absorbed() {
    let (scnr, had_error) = scan("123.");
    assert_eq!(kinds(&scnr), vec![TokenKind::Number, TokenKind::Dot, TokenKind::Eof]);
    assert_eq!(scnr.tokens[0].lexeme, "123");
    assert_eq!(scnr.tokens[0].literal, "123");
    assert_eq!(scnr.tokens[1].lexeme, ".");
    assert!(!had_error);
}

#[test]
fn fractional_number_is_one_token() {
    let (scnr, had_error) = scan("123.45");
    assert_eq!(kinds(&scnr), vec![TokenKind::Number, TokenKind::Eof]);
    assert_eq!(scnr.tokens[0].lexeme, "123.45");
    assert_eq!(scnr.tokens[0].literal, "123.45");
    assert!(!had_error);
}

#[test]
fn second_dot_ends_number() {
    let (scnr, _) = scan("1.2.3");
    assert_eq!(
        kinds(&scnr),
        vec![TokenKind::Number, TokenKind::Dot, TokenKind::Number, TokenKind::Eof]
    );
    assert_eq!(scnr.tokens[0].lexeme, "1.2");
    assert_eq!(scnr.tokens[2].lexeme, "3");
}

#[test]
fn string_across_lines() {
    let (scnr, had_error) = scan("\"a\nb\"");
    assert_eq!(kinds(&scnr), vec![TokenKind::StringLit, TokenKind::Eof]);
    assert_eq!(scnr.tokens[0].literal, "a\nb");
    assert_eq!(scnr.tokens[0].lexeme, "\"a\nb\"");
    assert_eq!(scnr.tokens[0].line, 1);
    assert_eq!(scnr.line, 2);
    assert!(!had_error);
}

#[test]
fn unterminated_string_reports_one_error() {
    let (scnr, had_error) = scan("\"abc");
    assert_eq!(kinds(&scnr), vec![TokenKind::Eof]);
    assert_eq!(scnr.errors.len(), 1);
    assert_eq!(scnr.errors[0].kind, ErrorKind::UnterminatedString);
    assert_eq!(scnr.errors[0].line, 1);
    assert!(had_error);
}

#[test]
fn unterminated_string_reported_where_scanning_stopped() {
    let (scnr, had_error) = scan("\"a\nbc");
    assert_eq!(kinds(&scnr), vec![TokenKind::Eof]);
    assert_eq!(scnr.errors.len(), 1);
    assert_eq!(scnr.errors[0].kind, ErrorKind::UnterminatedString);
    assert_eq!(scnr.errors[0].line, 2);
    assert!(had_error);
}

#[test]
fn comment_contributes_no_token() {
    let (scnr, had_error) = scan("1 // two\n2");
    assert_eq!(kinds(&scnr), vec![TokenKind::Number, TokenKind::Number, TokenKind::Eof]);
    assert_eq!(scnr.tokens[0].lexeme, "1");
    assert_eq!(scnr.tokens[0].line, 1);
    assert_eq!(scnr.tokens[1].lexeme, "2");
    assert_eq!(scnr.tokens[1].line, 2);
    assert!(!had_error);
}

#[test]
fn comment_at_end_of_input() {
    let (scnr, had_error) = scan("// just a comment");
    assert_eq!(kinds(&scnr), vec![TokenKind::Eof]);
    assert!(!had_error);
}

#[test]
fn unexpected_character_recovery() {
    let (scnr, had_error) = scan("@1");
    assert_eq!(scnr.errors.len(), 1);
    assert_eq!(scnr.errors[0].kind, ErrorKind::UnexpectedCharacter);
    assert_eq!(scnr.errors[0].line, 1);
    assert_eq!(kinds(&scnr), vec![TokenKind::Number, TokenKind::Eof]);
    assert_eq!(scnr.tokens[0].lexeme, "1");
    assert!(had_error);
}

#[test]
fn whitespace_only_input() {
    let (scnr, had_error) = scan(" \r\t\n");
    assert_eq!(kinds(&scnr), vec![TokenKind::Eof]);
    assert_eq!(scnr.tokens[0].line, 2);
    assert!(!had_error);
}

#[test]
fn lexemes_and_gaps_reproduce_source() {
    // The coverage law on a concrete program: splicing each lexeme back
    // with the intervening whitespace and comment reproduces the input.
    let src = "var x = 1.5; // note\nprint \"ok\";";
    let (scnr, had_error) = scan(src);
    assert!(!had_error);
    let pieces: Vec<&str> =
        vec!["var", " ", "x", " ", "=", " ", "1.5", ";", " ", "// note", "\n", "print", " ",
            "\"ok\"", ";"];
    assert_eq!(pieces.concat(), src);
    let lexemes: Vec<String> =
        scnr.tokens[..scnr.tokens.len() - 1].iter().map(|t| t.lexeme.clone()).collect();
    assert_eq!(lexemes, vec!["var", "x", "=", "1.5", ";", "print", "\"ok\"", ";"]);
}

#[test]
fn identifier_may_contain_digits() {
    let (scnr, _) = scan("_x1 y2");
    assert_eq!(
        kinds(&scnr),
        vec![TokenKind::Identifier, TokenKind::Identifier, TokenKind::Eof]
    );
    assert_eq!(scnr.tokens[0].lexeme, "_x1");
    assert_eq!(scnr.tokens[1].lexeme, "y2");
}

#[test]
fn two_char_operators_in_context() {
    let (scnr, _) = scan("a<=b!=c==d>=e<f>g=h!i");
    let expect = vec![
        TokenKind::Identifier,
        TokenKind::LessEqual,
        TokenKind::Identifier,
        TokenKind::BangEqual,
        TokenKind::Identifier,
        TokenKind::EqualEqual,
        TokenKind::Identifier,
        TokenKind::GreaterEqual,
        TokenKind::Identifier,
        TokenKind::Less,
        TokenKind::Identifier,
        TokenKind::Greater,
        TokenKind::Identifier,
        TokenKind::Equal,
        TokenKind::Identifier,
        TokenKind::Bang,
        TokenKind::Identifier,
        TokenKind::Eof,
    ];
    assert_eq!(kinds(&scnr), expect);
}

#[test]
fn error_messages_match_report_text() {
    assert_eq!(ErrorKind::UnexpectedCharacter.message(), "Unexpected character.");
    assert_eq!(ErrorKind::UnterminatedString.message(), "Unterminated string.");
}

#[test]
fn error_flag_carried_in_stays() {
    let mut had_error = true;
    let mut scnr = Scanner::new("1", &mut had_error);
    scnr.scan_tokens();
    assert!(scnr.had_error);
    assert!(scnr.errors.is_empty());
}

#[test]
fn token_new_and_to_string() {
    let t = Token::new(TokenKind::Number, "123", "123", 1);
    assert_eq!(t.kind, TokenKind::Number);
    assert_eq!(t.lexeme, "123");
    assert_eq!(t.literal, "123");
    assert_eq!(t.line, 1);
    assert_eq!(t.to_string(), "NUMBER 123 123");
    let u = Token::new(TokenKind::LeftParen, "(", "", 7);
    assert_eq!(u.to_string(), "LEFT_PAREN ( ");
}

#[test]
fn eof_carries_final_line() {
    let (scnr, _) = scan("a\nb\n");
    let last = scnr.tokens.last().unwrap();
    assert_eq!(last.kind, TokenKind::Eof);
    assert_eq!(last.line, 3);
    assert_eq!(last.lexeme, "");
}

#[test]
fn empty_string_literal() {
    let (scnr, had_error) = scan("\"\"");
    assert_eq!(kinds(&scnr), vec![TokenKind::StringLit, TokenKind::Eof]);
    assert_eq!(scnr.tokens[0].literal, "");
    assert_eq!(scnr.tokens[0].lexeme, "\"\"");
    assert!(!had_error);
}

#[test]
fn multiple_errors_in_one_scan() {
    let (scnr, had_error) = scan("@\n#");
    assert_eq!(scnr.errors.len(), 2);
    assert_eq!(scnr.errors[0].kind, ErrorKind::UnexpectedCharacter);
    assert_eq!(scnr.errors[0].line, 1);
    assert_eq!(scnr.errors[1].kind, ErrorKind::UnexpectedCharacter);
    assert_eq!(scnr.errors[1].line, 2);
    assert_eq!(kinds(&scnr), vec![TokenKind::Eof]);
    assert!(had_error);
}
