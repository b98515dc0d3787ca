use game_lang::compiler::lexer::{Lexer, Token};

fn tokens(source: &str) -> Vec<(Token, String)> {
    let mut lex = Lexer::lex(source);
    let mut found = Vec::new();
    while let Some(tok) = lex.next() {
        found.push((tok, lex.slice().to_string()));
    }
    found
}

fn kinds(source: &str) -> Vec<Token> {
    tokens(source).into_iter().map(|(tok, _)| tok).collect()
}

#[test]
fn lexer_lex_test() {
    let mut lex = Lexer::lex(r#"99aaa"#);

    let mut seen = Vec::new();
    while let Some(tok) = lex.next() {
        println!("{:?} {}", tok, lex.slice());
        seen.push((tok, lex.slice().to_string()));
    }
    assert_eq!(
        seen,
        vec![(Token::Number, "99".to_string()), (Token::Identifier, "aaa".to_string())]
    );
}

#[test]
fn lexer_op_test() {
    let mut lex = Lexer::lex(r#"+ - * / == != > < >= <= && || !"#);

    let mut seen = Vec::new();
    while let Some(tok) = lex.next() {
        println!("{:?} {}", tok, lex.slice());
        seen.push(tok);
    }
    assert_eq!(
        seen,
        vec![
            Token::Add,
            Token::Sub,
            Token::Mul,
            Token::Div,
            Token::Eq,
            Token::Neq,
            Token::Gr,
            Token::Le,
            Token::Geq,
            Token::Leq,
            Token::And,
            Token::Or,
            Token::Not,
        ]
    );
}

#[test]
fn lexer_peek_test() {
    let mut lex = Lexer::lex(r#"arg bar 70.9 % $$"#);

    println!("{:?}", lex.peek());
    println!("{:?} {}", lex.span(), lex.slice());
    assert_eq!(lex.peek(), Some(Token::Identifier));
    assert_eq!((lex.span(), lex.slice()), (0..3, "arg"));
    println!("{:?}", lex.peek());
    println!("{:?} {}", lex.span(), lex.slice());
    assert_eq!(lex.peek(), Some(Token::Identifier));
    assert_eq!((lex.span(), lex.slice()), (0..3, "arg"));
    println!("{:?}", lex.next());
    println!("{:?} {}", lex.span(), lex.slice());
    assert_eq!((lex.span(), lex.slice()), (0..3, "arg"));

    assert_eq!(lex.peek(), Some(Token::Identifier));
    assert_eq!((lex.span(), lex.slice()), (4..7, "bar"));
    assert_eq!(lex.next(), Some(Token::Identifier));
    assert_eq!((lex.span(), lex.slice()), (4..7, "bar"));

    assert_eq!(lex.peek(), Some(Token::Number));
    assert_eq!((lex.span(), lex.slice()), (8..12, "70.9"));
    assert_eq!(lex.next(), Some(Token::Number));
    assert_eq!((lex.span(), lex.slice()), (8..12, "70.9"));

    assert_eq!(lex.peek(), Some(Token::Rem));
    assert_eq!((lex.span(), lex.slice()), (13..14, "%"));
    assert_eq!(lex.next(), Some(Token::Rem));
    assert_eq!((lex.span(), lex.slice()), (13..14, "%"));

    assert_eq!(lex.peek(), Some(Token::Error));
    assert_eq!((lex.span(), lex.slice()), (15..16, "$"));
    assert_eq!(lex.next(), Some(Token::Error));
    assert_eq!((lex.span(), lex.slice()), (15..16, "$"));

    assert_eq!(lex.peek(), Some(Token::Error));
    assert_eq!((lex.span(), lex.slice()), (16..17, "$"));
    assert_eq!(lex.next(), Some(Token::Error));
    assert_eq!((lex.span(), lex.slice()), (16..17, "$"));

    assert_eq!(lex.peek(), None);
    assert_eq!(lex.next(), None);
    assert_eq!(lex.next(), None);
    assert_eq!(lex.span(), 17..17);
}

#[test]
fn a_new_lexer_has_produced_nothing() {
    let lex = Lexer::lex("let");
    assert_eq!(lex.span(), 0..0);
    assert_eq!(lex.slice(), "");
    assert_eq!(lex.position(), 0);
}

#[test]
fn peek_does_not_consume() {
    let mut lex = Lexer::lex("  let x");
    assert_eq!(lex.peek(), Some(Token::Let));
    assert_eq!(lex.position(), 0);
    assert_eq!(lex.peek(), Some(Token::Let));
    assert_eq!(lex.next(), Some(Token::Let));
    assert_eq!(lex.position(), 5);
    assert_eq!(lex.next(), Some(Token::Identifier));
    assert_eq!(lex.next(), None);
}

#[test]
fn structural_tokens() {
    assert_eq!(
        kinds("( ) { } ; , ."),
        vec![
            Token::ParenOpen,
            Token::ParenClose,
            Token::BraceOpen,
            Token::BraceClose,
            Token::Semicolon,
            Token::Comma,
            Token::Dot,
        ]
    );
}

#[test]
fn keywords_shadow_identifiers() {
    assert_eq!(
        kinds("let if else while for fn return class this super print true false nil"),
        vec![
            Token::Let,
            Token::If,
            Token::Else,
            Token::While,
            Token::For,
            Token::Fn,
            Token::Return,
            Token::Class,
            Token::This,
            Token::Super,
            Token::Print,
            Token::True,
            Token::False,
            Token::Nil,
        ]
    );
    assert_eq!(
        kinds("lettuce iffy nilly printer Let _x"),
        vec![
            Token::Identifier,
            Token::Identifier,
            Token::Identifier,
            Token::Identifier,
            Token::Identifier,
            Token::Error,
            Token::Identifier,
        ]
    );
}

#[test]
fn word_forms_are_synonyms_of_the_logical_operators() {
    assert_eq!(kinds("and or not"), vec![Token::And, Token::Or, Token::Not]);
    assert_eq!(kinds("&& || !"), vec![Token::And, Token::Or, Token::Not]);
}

#[test]
fn operators_take_the_longest_match() {
    assert_eq!(kinds("==="), vec![Token::Eq, Token::Assign]);
    assert_eq!(kinds("!=="), vec![Token::Neq, Token::Assign]);
    assert_eq!(kinds("<=>"), vec![Token::Leq, Token::Gr]);
    assert_eq!(kinds("= ="), vec![Token::Assign, Token::Assign]);
    assert_eq!(kinds("%"), vec![Token::Rem]);
}

#[test]
fn a_single_ampersand_or_pipe_is_an_error() {
    assert_eq!(kinds("a & b"), vec![Token::Identifier, Token::Error, Token::Identifier]);
    assert_eq!(kinds("|"), vec![Token::Error]);
    assert_eq!(kinds("&|"), vec![Token::Error, Token::Error]);
}

#[test]
fn numbers_have_digits_and_at_most_one_dot() {
    assert_eq!(tokens("12"), vec![(Token::Number, "12".to_string())]);
    assert_eq!(tokens("12."), vec![(Token::Number, "12.".to_string())]);
    assert_eq!(tokens("12.50"), vec![(Token::Number, "12.50".to_string())]);
    assert_eq!(
        tokens("1.2.3"),
        vec![
            (Token::Number, "1.2".to_string()),
            (Token::Dot, ".".to_string()),
            (Token::Number, "3".to_string())
        ]
    );
    assert_eq!(
        tokens(".5"),
        vec![(Token::Dot, ".".to_string()), (Token::Number, "5".to_string())]
    );
}

#[test]
fn identifiers_take_letters_digits_and_underscores() {
    assert_eq!(tokens("a_1b"), vec![(Token::Identifier, "a_1b".to_string())]);
    assert_eq!(
        tokens("x-y"),
        vec![
            (Token::Identifier, "x".to_string()),
            (Token::Sub, "-".to_string()),
            (Token::Identifier, "y".to_string())
        ]
    );
}

#[test]
fn identifiers_take_any_alphabetic_character() {
    assert_eq!(tokens("été"), vec![(Token::Identifier, "été".to_string())]);
    assert_eq!(tokens("变量1"), vec![(Token::Identifier, "变量1".to_string())]);
    assert_eq!(tokens("𝒳y"), vec![(Token::Identifier, "𝒳y".to_string())]);
    let mut lex = Lexer::lex("let ñ = 1;");
    assert_eq!(lex.next(), Some(Token::Let));
    assert_eq!(lex.next(), Some(Token::Identifier));
    assert_eq!(lex.span(), 4..6);
    assert_eq!(lex.slice(), "ñ");
}

#[test]
fn a_character_that_starts_no_token_is_an_error_that_covers_it() {
    let mut lex = Lexer::lex("a € b");
    assert_eq!(lex.next(), Some(Token::Identifier));
    assert_eq!(lex.next(), Some(Token::Error));
    assert_eq!(lex.span(), 2..5);
    assert_eq!(lex.slice(), "€");
    assert_eq!(lex.next(), Some(Token::Identifier));
    assert_eq!(lex.span(), 6..7);

    assert_eq!(tokens("😀"), vec![(Token::Error, "😀".to_string())]);
    assert_eq!(tokens("#"), vec![(Token::Error, "#".to_string())]);
    assert_eq!(tokens("\r"), vec![(Token::Error, "\r".to_string())]);
}

#[test]
fn strings_run_to_the_next_quote() {
    assert_eq!(tokens("\"\""), vec![(Token::String, "\"\"".to_string())]);
    assert_eq!(
        tokens("\"a b\nc\" d"),
        vec![
            (Token::String, "\"a b\nc\"".to_string()),
            (Token::Identifier, "d".to_string())
        ]
    );
    assert_eq!(tokens("\"né €\""), vec![(Token::String, "\"né €\"".to_string())]);
}

#[test]
fn a_quote_without_a_partner_is_an_error() {
    assert_eq!(
        tokens("\"abc"),
        vec![(Token::Error, "\"".to_string()), (Token::Identifier, "abc".to_string())]
    );
}

#[test]
fn whitespace_is_skipped() {
    assert_eq!(kinds(" \t\n\x0c"), Vec::<Token>::new());
    assert_eq!(kinds(""), Vec::<Token>::new());
    let mut lex = Lexer::lex(" \t\n\x0c");
    assert_eq!(lex.peek(), None);
    assert_eq!(lex.span(), 4..4);
}

#[test]
fn text_between_offsets_inside_a_character_is_empty() {
    let lex = Lexer::lex("é");
    assert_eq!(lex.between(0, 2), "é");
    assert_eq!(lex.between(0, 1), "");
    assert_eq!(lex.between(1, 2), "");
    assert_eq!(lex.between(2, 1), "");
    assert_eq!(lex.between(0, 9), "");
}

#[test]
fn tokens_and_whitespace_rebuild_the_source() {
    for source in [
        "let x = 10; x = x + 5; print x;",
        "  if 1<2 {\n\tprint \"yes\";\n} else { print \"no\"; }  ",
        "a € \"open",
        "été != 3.25 && nil",
        "",
    ] {
        let mut lex = Lexer::lex(source);
        let mut rebuilt = String::new();
        let mut behind = 0;
        while lex.next().is_some() {
            let span = lex.span();
            let gap = &source[behind..span.start];
            assert!(gap.chars().all(|c| c == ' ' || c == '\t' || c == '\n' || c == '\x0c'));
            rebuilt.push_str(gap);
            rebuilt.push_str(lex.slice());
            assert_eq!(lex.slice(), &source[span.clone()]);
            behind = span.end;
        }
        rebuilt.push_str(&source[behind..]);
        assert_eq!(rebuilt, source);
    }
}

#[test]
fn tokens_have_names() {
    assert_eq!(Token::Semicolon.name(), "Semicolon");
    assert_eq!(Token::ParenOpen.name(), "ParenOpen");
    assert_eq!(Token::EOI.name(), "EOI");
    assert_eq!(Token::Let.name(), format!("{:?}", Token::Let));
}
