use proc_macro2 as pm2;
use seq_macro::error::{Expected, SeqErrorKind};
use seq_macro::token::{Delimiter, Group, Ident, Literal, Punct, Spacing, Span, TokenTree};

fn tokens_in(stream: pm2::TokenStream, next: &mut usize) -> Vec<TokenTree> {
    stream.into_iter().map(|token| token_in(token, next)).collect()
}

fn token_in(token: pm2::TokenTree, next: &mut usize) -> TokenTree {
    let span = Span::Source(*next);
    *next += 1;
    match token {
        pm2::TokenTree::Group(group) => TokenTree::Group(Group {
            delimiter: match group.delimiter() {
                pm2::Delimiter::Parenthesis => Delimiter::Parenthesis,
                pm2::Delimiter::Brace => Delimiter::Brace,
                pm2::Delimiter::Bracket => Delimiter::Bracket,
                pm2::Delimiter::None => Delimiter::Invisible,
            },
            stream: tokens_in(group.stream(), next),
            span,
        }),
        pm2::TokenTree::Ident(ident) => TokenTree::Ident(Ident { name: ident.to_string(), span }),
        pm2::TokenTree::Punct(punct) => TokenTree::Punct(Punct {
            ch: punct.as_char(),
            spacing: match punct.spacing() {
                pm2::Spacing::Alone => Spacing::Alone,
                pm2::Spacing::Joint => Spacing::Joint,
            },
            span,
        }),
        pm2::TokenTree::Literal(literal) => {
            TokenTree::Literal(Literal { text: literal.to_string(), span })
        }
    }
}

fn tokens_out(tokens: &[TokenTree]) -> pm2::TokenStream {
    tokens.iter().map(token_out).collect()
}

fn token_out(token: &TokenTree) -> pm2::TokenTree {
    match token {
        TokenTree::Group(group) => pm2::TokenTree::Group(pm2::Group::new(
            match group.delimiter {
                Delimiter::Parenthesis => pm2::Delimiter::Parenthesis,
                Delimiter::Brace => pm2::Delimiter::Brace,
                Delimiter::Bracket => pm2::Delimiter::Bracket,
                Delimiter::Invisible => pm2::Delimiter::None,
            },
            tokens_out(&group.stream),
        )),
        TokenTree::Ident(ident) => {
            pm2::TokenTree::Ident(pm2::Ident::new(&ident.name, pm2::Span::call_site()))
        }
        TokenTree::Punct(punct) => pm2::TokenTree::Punct(pm2::Punct::new(
            punct.ch,
            match punct.spacing {
                Spacing::Alone => pm2::Spacing::Alone,
                Spacing::Joint => pm2::Spacing::Joint,
            },
        )),
        TokenTree::Literal(literal) => {
            pm2::TokenTree::Literal(literal.text.parse::<pm2::Literal>().unwrap())
        }
    }
}

fn lex(source: &str) -> Vec<TokenTree> {
    tokens_in(source.parse::<pm2::TokenStream>().unwrap(), &mut 0)
}

/// The expansion of `source`, written out the way `expected` is.
fn expands_to(source: &str, expected: &str) -> bool {
    let output = seq_macro::invocation::seq(&lex(source)).unwrap();
    tokens_out(&output).to_string() == expected.parse::<pm2::TokenStream>().unwrap().to_string()
}

fn fails_with(source: &str) -> SeqErrorKind {
    seq_macro::invocation::seq(&lex(source)).unwrap_err().kind
}

#[test]
fn lexed_call_over_exclusive_range() {
    assert!(expands_to("N in 0..3 { f(N); }", "f(0);f(1);f(2);"));
}

#[test]
fn lexed_pasted_items_over_inclusive_range() {
    assert!(expands_to("N in 1..=2 { #( item~N, )* }", "item1,item2,"));
}

#[test]
fn lexed_enum_with_repeated_variants() {
    assert!(expands_to(
        "N in 0..4 { enum Interrupt { #( Irq~N, )* } }",
        "enum Interrupt { Irq0, Irq1, Irq2, Irq3, }"
    ));
}

#[test]
fn lexed_bounds_in_other_notations() {
    assert!(expands_to("I in 0x0e..=0x10 { I, }", "14, 15, 16,"));
    assert!(expands_to("I in 1_0u8..12usize { x~I }", "x10 x11"));
    assert!(expands_to("I in 2..1 { I }", ""));
}

#[test]
fn lexed_other_names_are_left_alone() {
    assert!(expands_to("N in 0..2 { a ~ b M n }", "a ~ b M n a ~ b M n"));
}

#[test]
fn lexed_raw_identifier_as_bound_name() {
    assert!(expands_to("r#type in 0..2 { r#type, x~r#type, type }", "0, x0, type 1, x1, type"));
}

#[test]
fn lexed_paste_after_a_literal_is_punctuation() {
    assert!(expands_to("N in 0..2 { 1 ~ N; }", "1 ~ 0; 1 ~ 1;"));
    assert!(expands_to("N in 0..1 { {} ~ N = ~ x }", "{} ~ 0 = ~ x"));
}

#[test]
fn lexed_failures() {
    let wrong = SeqErrorKind::UnexpectedToken;
    let eof = SeqErrorKind::UnexpectedEof;
    assert_eq!(
        fails_with("N in 0..2 { N #( x )* }"),
        SeqErrorKind::BoundVariableOutsideRepeatContext
    );
    assert_eq!(fails_with("N in 0..2 { #( #( x )* )* }"), SeqErrorKind::NestedRepeatSection);
    assert_eq!(fails_with("N in 0 . 2 { }"), SeqErrorKind::InvalidRangeSyntax);
    assert_eq!(fails_with("N in 0, 2 { }"), SeqErrorKind::InvalidRangeSyntax);
    assert_eq!(fails_with("N in 0.."), eof(Expected::IntegerLiteral));
    assert_eq!(fails_with("N in -1..2 { }"), wrong(Expected::IntegerLiteral));
    assert_eq!(fails_with("N in 0..2.5 { }"), wrong(Expected::IntegerLiteral));
    assert_eq!(fails_with("N of 0..2 { }"), wrong(Expected::KeywordIn));
    assert_eq!(fails_with("N in 0..2 ( )"), wrong(Expected::BracedBody));
    assert_eq!(fails_with("N in 0..2 { } ;"), wrong(Expected::EndOfInput));
    assert_eq!(fails_with("N in 0..2 { a ~ 1 }"), wrong(Expected::Identifier));
    assert_eq!(fails_with(""), eof(Expected::Identifier));
    assert_eq!(fails_with("type in 0..2 { }"), wrong(Expected::Identifier));
    assert_eq!(fails_with("_ in 0..2 { }"), wrong(Expected::Identifier));
    assert_eq!(fails_with("in in 0..2 { }"), wrong(Expected::Identifier));
}
