use lua_lex::{ErrorKind, Feature, FloatLit, Lex, LexError, Token};

fn lexer(src: &str) -> Lex {
    Lex::new(src.as_bytes().to_vec())
}

fn tokens(src: &str) -> Vec<Token> {
    let mut l = lexer(src);
    let mut out = Vec::new();
    loop {
        let t = l.next().unwrap();
        if t == Token::Eos {
            return out;
        }
        out.push(t);
    }
}

fn name(s: &str) -> Token {
    Token::Name(s.to_string())
}

fn float_value(f: FloatLit) -> f64 {
    f.whole as f64 + f.frac as f64 / 10f64.powi(f.frac_digits as i32)
}

fn first_error(src: &str) -> LexError {
    let mut l = lexer(src);
    loop {
        match l.next() {
            Ok(Token::Eos) => panic!("no error in {src:?}"),
            Ok(_) => {}
            Err(e) => return e,
        }
    }
}

#[test]
fn short_operators_leave_next_byte() {
    let cases: [(&str, Token); 6] = [
        ("/a", Token::Div),
        ("=a", Token::Assign),
        ("~a", Token::BitXor),
        (":a", Token::Colon),
        ("<a", Token::Less),
        (">a", Token::Greater),
    ];
    for (src, short) in cases {
        let mut l = lexer(src);
        assert_eq!(l.next(), Ok(short));
        assert_eq!(l.position(), 1);
        assert_eq!(l.next(), Ok(name("a")));
        assert_eq!(l.next(), Ok(Token::Eos));
    }
}

#[test]
fn short_operators_before_space_and_end() {
    assert_eq!(tokens("/ = ~ : < >"), vec![
        Token::Div, Token::Assign, Token::BitXor, Token::Colon, Token::Less, Token::Greater,
    ]);
    assert_eq!(tokens("<"), vec![Token::Less]);
    assert_eq!(tokens("=>"), vec![Token::Assign, Token::Greater]);
}

#[test]
fn long_operators() {
    assert_eq!(tokens("// == ~= :: <= << >= >>"), vec![
        Token::Idiv, Token::Equal, Token::NotEq, Token::DoubColon,
        Token::LesEq, Token::ShiftL, Token::GreEq, Token::ShiftR,
    ]);
    assert_eq!(tokens("<<="), vec![Token::ShiftL, Token::Assign]);
}

#[test]
fn single_byte_tokens() {
    assert_eq!(tokens("+-*%^#&|(){}[];,"), vec![
        Token::Add, Token::Sub, Token::Mul, Token::Mod, Token::Pow, Token::Len,
        Token::BitAnd, Token::BitOr, Token::ParL, Token::ParR, Token::CurlyL,
        Token::CurlyR, Token::SqurL, Token::SqurR, Token::SemiColon, Token::Comma,
    ]);
}

#[test]
fn dots() {
    assert_eq!(tokens("a.b..c...d"), vec![
        name("a"), Token::Dot, name("b"), Token::Concat, name("c"), Token::Dots, name("d"),
    ]);
    assert_eq!(tokens("...."), vec![Token::Dots, Token::Dot]);
}

#[test]
fn peek_is_idempotent() {
    let mut l = lexer("  foo bar");
    let first = l.peek().unwrap().clone();
    let after_one = l.position();
    let second = l.peek().unwrap().clone();
    assert_eq!(first, name("foo"));
    assert_eq!(first, second);
    assert_eq!(after_one, 5);
    assert_eq!(l.position(), after_one);
}

#[test]
fn next_after_peek_returns_peeked() {
    let mut l = lexer("x = 1");
    let peeked = l.peek().unwrap().clone();
    let pos = l.position();
    assert_eq!(l.next(), Ok(peeked));
    assert_eq!(l.position(), pos);
    assert_eq!(l.next(), Ok(Token::Assign));
    assert_eq!(l.next(), Ok(Token::Integer(1)));
    assert_eq!(l.next(), Ok(Token::Eos));
}

#[test]
fn peek_at_end_then_next() {
    let mut l = lexer("");
    assert_eq!(l.peek(), Ok(&Token::Eos));
    assert_eq!(l.next(), Ok(Token::Eos));
    assert_eq!(l.next(), Ok(Token::Eos));
}

#[test]
fn keyword_and_name_boundary() {
    assert_eq!(tokens("while"), vec![Token::While]);
    assert_eq!(tokens("while1"), vec![name("while1")]);
    assert_eq!(tokens("While"), vec![name("While")]);
    assert_eq!(tokens("_while"), vec![name("_while")]);
}

#[test]
fn all_keywords() {
    assert_eq!(
        tokens("and break do else elseif end false for function goto if in local nil not or repeat return then true until while"),
        vec![
            Token::And, Token::Break, Token::Do, Token::Else, Token::Elseif, Token::End,
            Token::False, Token::For, Token::Function, Token::Goto, Token::If, Token::In,
            Token::Local, Token::Nil, Token::Not, Token::Or, Token::Repeat, Token::Return,
            Token::Then, Token::True, Token::Until, Token::While,
        ]
    );
}

#[test]
fn names_keep_their_text() {
    assert_eq!(tokens("abc x_1 _"), vec![name("abc"), name("x_1"), name("_")]);
}

#[test]
fn latin1_bytes_continue_a_name() {
    let mut l = Lex::new(vec![b'a', 0xE9, b' ', b'b']);
    assert_eq!(l.next(), Ok(name("a\u{e9}")));
    assert_eq!(l.next(), Ok(name("b")));
}

#[test]
fn numbers() {
    assert_eq!(tokens("123"), vec![Token::Integer(123)]);
    assert_eq!(tokens("0"), vec![Token::Integer(0)]);
    assert_eq!(tokens("1+2"), vec![Token::Integer(1), Token::Add, Token::Integer(2)]);
}

#[test]
fn floats() {
    let one = |src: &str| match tokens(src).as_slice() {
        [Token::Float(f)] => *f,
        other => panic!("{src:?} gave {other:?}"),
    };
    let f = one("12.5");
    assert_eq!(f, FloatLit { whole: 12, frac: 5, frac_digits: 1 });
    assert_eq!(float_value(f), 12.5);
    let f = one(".5");
    assert_eq!(f, FloatLit { whole: 0, frac: 5, frac_digits: 1 });
    assert_eq!(float_value(f), 0.5);
    assert_eq!(float_value(one("3.25")), 3.25);
    assert_eq!(float_value(one("3.")), 3.0);
    assert_eq!(one("1.05"), FloatLit { whole: 1, frac: 5, frac_digits: 2 });
}

#[test]
fn integer_overflow_wraps() {
    assert_eq!(tokens("9223372036854775807"), vec![Token::Integer(i64::MAX)]);
    assert_eq!(tokens("9223372036854775808"), vec![Token::Integer(i64::MIN)]);
}

#[test]
fn strings() {
    assert_eq!(tokens("'abc'"), vec![Token::String(b"abc".to_vec())]);
    assert_eq!(tokens("\"a'b\""), vec![Token::String(b"a'b".to_vec())]);
    assert_eq!(tokens("''"), vec![Token::String(Vec::new())]);
    let mut l = Lex::new(vec![b'"', 0xFF, b'"']);
    assert_eq!(l.next(), Ok(Token::String(vec![0xFF])));
}

#[test]
fn unfinished_string() {
    assert_eq!(first_error("'abc"), LexError { kind: ErrorKind::UnfinishedString, pos: 0 });
    assert_eq!(first_error("x = \"ab\ncd\""), LexError { kind: ErrorKind::UnfinishedString, pos: 4 });
}

#[test]
fn comments_are_skipped() {
    assert_eq!(tokens("-- comment\n123"), vec![Token::Integer(123)]);
    assert_eq!(tokens("--\n5"), vec![Token::Integer(5)]);
    assert_eq!(tokens("x -- trailing"), vec![name("x")]);
    assert_eq!(tokens("1 - 2"), vec![Token::Integer(1), Token::Sub, Token::Integer(2)]);
}

#[test]
fn blanks_are_skipped() {
    assert_eq!(tokens(" \t\r\n+\n"), vec![Token::Add]);
    assert_eq!(tokens(""), Vec::<Token>::new());
}

#[test]
fn end_is_stable() {
    let mut l = lexer("x");
    assert_eq!(l.next(), Ok(name("x")));
    for _ in 0..5 {
        assert_eq!(l.next(), Ok(Token::Eos));
        assert_eq!(l.position(), 1);
    }
}

#[test]
fn zero_byte_ends_a_run() {
    let mut l = Lex::new(vec![b'+', 0, b'-']);
    assert_eq!(l.next(), Ok(Token::Add));
    assert_eq!(l.next(), Ok(Token::Eos));
    assert_eq!(l.next(), Ok(Token::Sub));
    assert_eq!(l.next(), Ok(Token::Eos));
}

#[test]
fn invalid_char() {
    let e = first_error("a $");
    assert_eq!(e, LexError { kind: ErrorKind::InvalidChar(b'$'), pos: 2 });
    assert!(!e.is_unsupported());
}

#[test]
fn malformed_number() {
    assert_eq!(first_error("1abc"), LexError { kind: ErrorKind::MalformedNumber, pos: 0 });
}

#[test]
fn unsupported_constructs() {
    let cases: [(&str, Feature, usize); 5] = [
        ("0x1F", Feature::HexNumber, 0),
        ("1e5", Feature::Exponent, 0),
        (" 1.5E3", Feature::Exponent, 1),
        ("'a\\n'", Feature::Escape, 0),
        ("x --[[ long ]]", Feature::LongComment, 2),
    ];
    for (src, feature, pos) in cases {
        let e = first_error(src);
        assert_eq!(e, LexError { kind: ErrorKind::Unsupported(feature), pos });
        assert!(e.is_unsupported());
    }
}

#[test]
fn error_is_stable() {
    let mut l = lexer("  $x");
    let e = l.next().unwrap_err();
    assert_eq!(l.position(), e.pos);
    assert_eq!(l.next(), Err(e));
    assert_eq!(l.peek(), Err(e));
}
