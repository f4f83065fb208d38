use rlox_scanner::scanner::Scanner;
use rlox_scanner::token::Token;
use rlox_scanner::token::TokenKind;

#[test]
fn identifier_ok() {
    // instantiate scanner
    let mut _had_error = false;
    let src = String::from("class");
    let mut scnr = Scanner::new(&src, &mut _had_error);

    let mut p: char = scnr.peek();
    while scnr.is_alphanum(p) {
        scnr.advance();
        p = scnr.peek();
    }
    //
    let s = scnr.start as usize;
    let c = scnr.current as usize;
    let text: String = scnr.source[s..c].iter().collect();
    match text.as_str() {
        "and" => scnr.add_token_single(TokenKind::And),
        "class" => scnr.add_token_single(TokenKind::Class),
        "else" => scnr.add_token_single(TokenKind::Else),

        _ => scnr.add_token_single(TokenKind::Identifier),
    }
    assert!(scnr.tokens.len() > 0);
}

#[test]
fn slice_source() {
    let sourcey = String::from("apple");
    let s = 1 as usize;
    let c = 5 as usize;
    let text = &sourcey[s..c];
    assert!(text == String::from("pple"), "{}", text);

    let s = 1 as usize;
    let c = 3 as usize;
    let value = String::from(&sourcey[s..c]);
    assert!(value == String::from("pp"), "{}", value);
}

#[test]
fn end_bool() {
    // instantiate scanner
    let mut _had_error = false;
    let src = String::from("fn main() {");
    let mut scnr = Scanner::new(&src, &mut _had_error);

    assert!(scnr.is_at_end() == false);
    while !scnr.is_at_end() {
        scnr.advance();
    }
    assert!(scnr.is_at_end() == true);
}

#[test]
fn adding_token() {
    // instantiate scanner
    let mut _had_error = false;
    let src = String::from(
        "fn main() {
                nan42;
                _counter != i // description goes until end.
                2 * 2 is 4;
            }",
    );
    let mut scnr = Scanner::new(&src, &mut _had_error);

    let ki: TokenKind = TokenKind::Number;
    let text = "42000";

    let t = Token::new(ki, text, text, scnr.line);
    scnr.tokens.append(&mut vec![t]);

    assert!(scnr.tokens[0].lexeme == text);
}

#[test]
fn literate() {
    let mut _had_error = false;
    let src = String::from(
        "THE_QUICK_BROWN_FOX_JUMPS_OVER_THE_LAZY_DOG___the_quick_brown_fox_jumps_over_the_lazy_dog___1234567890",
    );
    let scnr = Scanner::new(&src, &mut _had_error);
    let alphas: Vec<char> = vec![
        '_', 'a', 'b', 'c', 'd', 'e', 'f', 'g', 'h', 'i', 'j', 'k', 'l', 'm', 'n', 'o', 'p', 'q',
        'r', 's', 't', 'u', 'v', 'w', 'x', 'y', 'z', 'A', 'B', 'C', 'D', 'E', 'F', 'G', 'H', 'I',
        'J', 'K', 'L', 'M', 'N', 'O', 'P', 'Q', 'R', 'S', 'T', 'U', 'V', 'W', 'X', 'Y', 'Z',
    ];
    let digits = ['0', '1', '2', '3', '4', '5', '6', '7', '8', '9'];

    for c in &alphas {
        assert!(scnr.is_alpha(*c), "{} not recognized as alpha.", c);
    }
    for c in &digits {
        assert!(scnr.is_digit(*c), "{} not recognized as digit.", c);
    }
    for c in src.chars() {
        assert!(scnr.is_alphanum(c), "{} not recognized as alphanum.", c);
    }
}

#[test]
fn e2e() {
    let mut _had_error = false;
    let src = String::from("9");
    let mut scnr = Scanner::new(&src, &mut _had_error);
    scnr.scan_tokens();

    for token in &scnr.tokens {
        println!("{}", token.line);
    }
}

#[test]
fn handling_number() {
    // instantiate scanner
    let mut _had_error = false;
    let src = String::from(
        "fn main() {
                nan42;
                _counter != i // description goes until end.
                2 * 2 is 4;
            }",
    );
    let mut scnr = Scanner::new(&src, &mut _had_error);

    // assert peek advance
    let first_ch;
    match src.chars().nth(0) {
        Some(ch) => first_ch = ch,
        None => panic!("empty src."),
    }
    let mut p = scnr.peek();
    while scnr.is_digit(p) {
        assert_eq!(scnr.advance(), first_ch);
        p = scnr.peek();
    }

    // assert token is added
    let peek_next = scnr.peek_next();
    if p == '.' && scnr.is_digit(peek_next) {
        scnr.advance();
        while scnr.is_digit(p) {
            scnr.advance();
        }
    }

    assert!(scnr.tokens.len() == 0, "Tokens start empty.");

    let s = scnr.start as usize;
    let c = scnr.current as usize;
    let value: String = scnr.source[s..c].iter().collect();
    scnr.add_token(TokenKind::Number, &value);

    assert!(scnr.tokens.len() > 0, "Token not added.");
}
