use seq_macro::error::{Expected, SeqError, SeqErrorKind};
use seq_macro::parse::{
    SeqParseStream, PASTE_TOKEN, REPEAT_SECTION_END_PUNCT, REPEAT_SECTION_START_PUNCT,
};
use seq_macro::token::{Delimiter, Group, Ident, Literal, Punct, Spacing, Span, TokenTree};
use seq_macro::tree::{SeqDelimiter, SeqGroup, SeqIdent, SeqTokenStream, SeqTokenTree};

fn plain_ident(name: &str, at: usize) -> Ident {
    Ident { name: name.to_string(), span: Span::Source(at) }
}

fn plain_punct(ch: char, at: usize) -> Punct {
    Punct { ch, spacing: Spacing::Alone, span: Span::Source(at) }
}

fn plain_literal(text: &str, at: usize) -> Literal {
    Literal { text: text.to_string(), span: Span::Source(at) }
}

fn ident(name: &str, at: usize) -> TokenTree {
    TokenTree::Ident(plain_ident(name, at))
}

fn punct(ch: char, at: usize) -> TokenTree {
    TokenTree::Punct(plain_punct(ch, at))
}

fn literal(text: &str, at: usize) -> TokenTree {
    TokenTree::Literal(plain_literal(text, at))
}

fn group(delimiter: Delimiter, stream: Vec<TokenTree>, at: usize) -> TokenTree {
    TokenTree::Group(Group { delimiter, stream, span: Span::Source(at) })
}

fn bare(name: &str, at: usize) -> SeqTokenTree {
    SeqTokenTree::SeqIdent(SeqIdent { prefix: None, ident: plain_ident(name, at) })
}

fn pasted(prefix: &str, prefix_at: usize, name: &str, at: usize) -> SeqTokenTree {
    SeqTokenTree::SeqIdent(SeqIdent {
        prefix: Some(plain_ident(prefix, prefix_at)),
        ident: plain_ident(name, at),
    })
}

fn parsed_group(delimiter: SeqDelimiter, tokens: Vec<SeqTokenTree>) -> SeqTokenTree {
    SeqTokenTree::SeqGroup(SeqGroup { delimiter, stream: SeqTokenStream { tokens } })
}

fn eof(expected: Expected) -> SeqError {
    SeqError { kind: SeqErrorKind::UnexpectedEof(expected), span: Span::MixedSite }
}

fn wrong(expected: Expected, at: usize) -> SeqError {
    SeqError { kind: SeqErrorKind::UnexpectedToken(expected), span: Span::Source(at) }
}

#[test]
fn marker_characters() {
    assert_eq!(PASTE_TOKEN, '~');
    assert_eq!(REPEAT_SECTION_START_PUNCT, '#');
    assert_eq!(REPEAT_SECTION_END_PUNCT, '*');
}

#[test]
fn cursor_on_empty_input() {
    let tokens = vec![];
    let mut cursor = SeqParseStream::from_token_stream(&tokens);
    assert!(cursor.is_empty());
    assert_eq!(cursor.position(), 0);
    assert!(!cursor.peek_ident());
    assert!(!cursor.peek_punct());
    assert!(!cursor.peek_group());
    assert!(!cursor.peek_paste_token());
    assert!(!cursor.peek_repeat_section());
    assert_eq!(cursor.parse_ident(), Err(eof(Expected::Identifier)));
    assert_eq!(cursor.parse_punct(), Err(eof(Expected::Punctuation)));
    assert_eq!(cursor.parse_literal(), Err(eof(Expected::Literal)));
    assert_eq!(cursor.parse_seq_ident(), Err(eof(Expected::Identifier)));
    assert_eq!(cursor.parse_seq_group(), Err(eof(Expected::Group)));
    assert_eq!(cursor.position(), 0);
}

#[test]
fn peeks_do_not_consume() {
    let tokens = vec![ident("a", 0), punct('~', 1), ident("b", 2)];
    let cursor = SeqParseStream::from_token_stream(&tokens);
    assert!(cursor.peek_ident());
    assert!(cursor.peek_paste_token());
    assert!(!cursor.peek_punct());
    assert!(!cursor.peek_group());
    assert!(!cursor.peek_repeat_section());
    assert!(!cursor.is_empty());
    assert_eq!(cursor.position(), 0);
}

#[test]
fn accessors_consume_one_token_or_nothing() {
    let tokens = vec![ident("a", 0), punct('+', 1), literal("1", 2)];
    let mut cursor = SeqParseStream::from_token_stream(&tokens);
    assert_eq!(cursor.parse_punct(), Err(wrong(Expected::Punctuation, 0)));
    assert_eq!(cursor.parse_literal(), Err(wrong(Expected::Literal, 0)));
    assert_eq!(cursor.position(), 0);
    assert_eq!(cursor.parse_ident(), Ok(plain_ident("a", 0)));
    assert_eq!(cursor.position(), 1);
    assert_eq!(cursor.parse_ident(), Err(wrong(Expected::Identifier, 1)));
    assert_eq!(cursor.position(), 1);
    assert_eq!(cursor.parse_punct(), Ok(plain_punct('+', 1)));
    assert_eq!(cursor.parse_punct(), Err(wrong(Expected::Punctuation, 2)));
    assert_eq!(cursor.parse_literal(), Ok(plain_literal("1", 2)));
    assert_eq!(cursor.position(), 3);
    assert!(cursor.is_empty());
}

#[test]
fn paste_lookahead_near_the_end() {
    let tokens = vec![ident("a", 0), punct('~', 1)];
    let mut cursor = SeqParseStream::from_token_stream(&tokens);
    assert!(cursor.peek_paste_token());
    assert_eq!(cursor.parse_seq_ident(), Err(eof(Expected::Identifier)));
    assert_eq!(cursor.position(), 0);
    assert_eq!(cursor.parse_ident(), Ok(plain_ident("a", 0)));
    assert!(!cursor.peek_paste_token());
    assert!(cursor.peek_punct());
}

#[test]
fn pasted_identifier_takes_three_tokens() {
    let tokens = vec![ident("field", 0), punct('~', 1), ident("N", 2), ident("rest", 3)];
    let mut cursor = SeqParseStream::from_token_stream(&tokens);
    assert_eq!(
        cursor.parse_seq_ident(),
        Ok(SeqIdent { prefix: Some(plain_ident("field", 0)), ident: plain_ident("N", 2) })
    );
    assert_eq!(cursor.position(), 3);
    assert_eq!(
        cursor.parse_seq_ident(),
        Ok(SeqIdent { prefix: None, ident: plain_ident("rest", 3) })
    );
    assert_eq!(cursor.position(), 4);
}

#[test]
fn paste_after_an_identifier_needs_an_identifier() {
    let tokens = vec![ident("a", 0), punct('~', 1), literal("1", 2)];
    assert_eq!(SeqTokenStream::parse(&tokens), Err(wrong(Expected::Identifier, 2)));
    let mut cursor = SeqParseStream::from_token_stream(&tokens);
    assert_eq!(cursor.parse_seq_ident(), Err(wrong(Expected::Identifier, 2)));
    assert_eq!(cursor.position(), 0);
    let tokens = vec![ident("a", 0), punct('~', 1)];
    assert_eq!(SeqTokenStream::parse(&tokens), Err(eof(Expected::Identifier)));
}

#[test]
fn paste_after_anything_else_is_punctuation() {
    // 1 ~ x
    let tokens = vec![literal("1", 0), punct('~', 1), ident("x", 2)];
    assert_eq!(
        SeqTokenStream::parse(&tokens),
        Ok(SeqTokenStream {
            tokens: vec![
                SeqTokenTree::Literal(plain_literal("1", 0)),
                SeqTokenTree::Punct(plain_punct('~', 1)),
                bare("x", 2),
            ]
        })
    );
    // {} ~ N
    let tokens = vec![group(Delimiter::Brace, vec![], 0), punct('~', 1), ident("N", 2)];
    assert_eq!(
        SeqTokenStream::parse(&tokens),
        Ok(SeqTokenStream {
            tokens: vec![
                parsed_group(SeqDelimiter::Delimiter(Delimiter::Brace), vec![]),
                SeqTokenTree::Punct(plain_punct('~', 1)),
                bare("N", 2),
            ]
        })
    );
    // = ~ x ~
    let tokens = vec![punct('=', 0), punct('~', 1), ident("x", 2), punct('~', 3)];
    assert_eq!(
        SeqTokenStream::parse(&tokens),
        Err(eof(Expected::Identifier))
    );
    let tokens = vec![punct('=', 0), punct('~', 1), ident("x", 2)];
    assert_eq!(
        SeqTokenStream::parse(&tokens),
        Ok(SeqTokenStream {
            tokens: vec![
                SeqTokenTree::Punct(plain_punct('=', 0)),
                SeqTokenTree::Punct(plain_punct('~', 1)),
                bare("x", 2),
            ]
        })
    );
    // The cursor's own accessor still reads `prefix ~ ident` wherever it is
    // asked to.
    let tokens = vec![literal("1", 0), punct('~', 1), ident("x", 2)];
    let mut cursor = SeqParseStream::from_token_stream(&tokens);
    assert_eq!(cursor.parse_seq_ident(), Err(wrong(Expected::Identifier, 0)));
    assert_eq!(cursor.position(), 0);
}

#[test]
fn chained_paste_operators() {
    // a ~ b ~ c : the second `~` is plain punctuation.
    let tokens = vec![ident("a", 0), punct('~', 1), ident("b", 2), punct('~', 3), ident("c", 4)];
    assert_eq!(
        SeqTokenStream::parse(&tokens),
        Ok(SeqTokenStream {
            tokens: vec![
                pasted("a", 0, "b", 2),
                SeqTokenTree::Punct(plain_punct('~', 3)),
                bare("c", 4),
            ]
        })
    );
}

#[test]
fn repeat_section_lookahead() {
    let section = |delimiter| {
        vec![punct('#', 0), group(delimiter, vec![ident("x", 2)], 1), punct('*', 3)]
    };
    let tokens = section(Delimiter::Parenthesis);
    assert!(SeqParseStream::from_token_stream(&tokens).peek_repeat_section());
    assert!(SeqParseStream::from_token_stream(&tokens).peek_punct());
    for delimiter in [Delimiter::Brace, Delimiter::Bracket, Delimiter::Invisible] {
        let tokens = section(delimiter);
        assert!(!SeqParseStream::from_token_stream(&tokens).peek_repeat_section());
    }
    let tokens = vec![punct('#', 0), group(Delimiter::Parenthesis, vec![], 1)];
    assert!(!SeqParseStream::from_token_stream(&tokens).peek_repeat_section());
    let tokens = vec![punct('#', 0), group(Delimiter::Parenthesis, vec![], 1), punct('+', 2)];
    assert!(!SeqParseStream::from_token_stream(&tokens).peek_repeat_section());
    let tokens = vec![punct('$', 0), group(Delimiter::Parenthesis, vec![], 1), punct('*', 2)];
    assert!(!SeqParseStream::from_token_stream(&tokens).peek_repeat_section());
    let tokens = vec![punct('#', 0), ident("x", 1), punct('*', 2)];
    assert!(!SeqParseStream::from_token_stream(&tokens).peek_repeat_section());
}

#[test]
fn repeat_section_is_one_group() {
    let tokens = vec![
        punct('#', 0),
        group(Delimiter::Parenthesis, vec![ident("x", 2), punct(',', 3)], 1),
        punct('*', 4),
        ident("after", 5),
    ];
    let mut cursor = SeqParseStream::from_token_stream(&tokens);
    let parsed = cursor.parse_seq_group().unwrap();
    assert_eq!(parsed.delimiter, SeqDelimiter::RepeatSection);
    assert_eq!(
        parsed.stream,
        SeqTokenStream { tokens: vec![bare("x", 2), SeqTokenTree::Punct(plain_punct(',', 3))] }
    );
    assert_eq!(cursor.position(), 3);
    assert_eq!(cursor.parse_seq_group(), Err(wrong(Expected::Group, 5)));
    assert_eq!(cursor.position(), 3);
}

#[test]
fn incomplete_repeat_section_is_punctuation_and_group() {
    let tokens =
        vec![punct('#', 0), group(Delimiter::Bracket, vec![ident("x", 2)], 1), punct('*', 3)];
    assert_eq!(
        SeqTokenStream::parse(&tokens),
        Ok(SeqTokenStream {
            tokens: vec![
                SeqTokenTree::Punct(plain_punct('#', 0)),
                parsed_group(SeqDelimiter::Delimiter(Delimiter::Bracket), vec![bare("x", 2)]),
                SeqTokenTree::Punct(plain_punct('*', 3)),
            ]
        })
    );
}

#[test]
fn groups_are_parsed_in_depth() {
    // f ( a [ b~c ] ) { }
    let tokens = vec![
        ident("f", 0),
        group(
            Delimiter::Parenthesis,
            vec![
                ident("a", 2),
                group(Delimiter::Bracket, vec![ident("b", 4), punct('~', 5), ident("c", 6)], 3),
            ],
            1,
        ),
        group(Delimiter::Brace, vec![], 7),
    ];
    assert_eq!(
        SeqTokenStream::parse(&tokens),
        Ok(SeqTokenStream {
            tokens: vec![
                bare("f", 0),
                parsed_group(
                    SeqDelimiter::Delimiter(Delimiter::Parenthesis),
                    vec![
                        bare("a", 2),
                        parsed_group(
                            SeqDelimiter::Delimiter(Delimiter::Bracket),
                            vec![pasted("b", 4, "c", 6)]
                        ),
                    ]
                ),
                parsed_group(SeqDelimiter::Delimiter(Delimiter::Brace), vec![]),
            ]
        })
    );
}

#[test]
fn error_inside_a_group_is_reported_and_nothing_is_consumed() {
    let tokens = vec![
        ident("f", 0),
        group(Delimiter::Parenthesis, vec![ident("a", 2), punct('~', 3), literal("1", 4)], 1),
    ];
    let mut cursor = SeqParseStream::from_token_stream(&tokens);
    assert_eq!(SeqTokenStream::seq_parse(&mut cursor), Err(wrong(Expected::Identifier, 4)));
    assert_eq!(cursor.position(), 0);
    assert_eq!(cursor.parse_ident(), Ok(plain_ident("f", 0)));
    assert_eq!(cursor.parse_seq_group(), Err(wrong(Expected::Identifier, 4)));
    assert_eq!(cursor.position(), 1);
}

#[test]
fn parsing_from_the_middle_takes_the_rest() {
    let tokens = vec![ident("a", 0), punct('+', 1), literal("2", 2)];
    let mut cursor = SeqParseStream::from_token_stream(&tokens);
    cursor.parse_ident().unwrap();
    assert_eq!(
        SeqTokenStream::seq_parse(&mut cursor),
        Ok(SeqTokenStream {
            tokens: vec![
                SeqTokenTree::Punct(plain_punct('+', 1)),
                SeqTokenTree::Literal(plain_literal("2", 2)),
            ]
        })
    );
    assert!(cursor.is_empty());
    assert_eq!(SeqTokenStream::seq_parse(&mut cursor), Ok(SeqTokenStream { tokens: vec![] }));
}

#[test]
fn repeat_section_detection() {
    let section = parsed_group(SeqDelimiter::RepeatSection, vec![bare("x", 0)]);
    assert!(section.has_repeat_section());
    assert!(!bare("x", 0).has_repeat_section());
    assert!(!SeqTokenTree::Punct(plain_punct('#', 0)).has_repeat_section());
    assert!(!SeqTokenTree::Literal(plain_literal("1", 0)).has_repeat_section());
    let inside = parsed_group(
        SeqDelimiter::Delimiter(Delimiter::Brace),
        vec![bare("a", 0), parsed_group(SeqDelimiter::RepeatSection, vec![])],
    );
    assert!(inside.has_repeat_section());
    let without = parsed_group(SeqDelimiter::Delimiter(Delimiter::Brace), vec![bare("a", 0)]);
    assert!(!without.has_repeat_section());
    assert!(SeqTokenStream { tokens: vec![bare("a", 0), inside] }.has_repeat_section());
    assert!(!SeqTokenStream { tokens: vec![bare("a", 0), without] }.has_repeat_section());
    assert!(!SeqTokenStream { tokens: vec![] }.has_repeat_section());
}

#[test]
fn token_spans() {
    assert_eq!(ident("a", 3).span(), Span::Source(3));
    assert_eq!(punct('+', 4).span(), Span::Source(4));
    assert_eq!(literal("1", 5).span(), Span::Source(5));
    assert_eq!(group(Delimiter::Brace, vec![ident("a", 3)], 6).span(), Span::Source(6));
    assert!(literal("1", 5).is_literal());
    assert!(!ident("a", 3).is_literal());
}

#[test]
fn clones_are_equal() {
    let token = group(
        Delimiter::Brace,
        vec![
            ident("a", 1),
            group(Delimiter::Parenthesis, vec![literal("\"s\"", 3)], 2),
            punct('+', 4),
        ],
        0,
    );
    assert_eq!(token.clone(), token);
    assert_eq!(plain_ident("a", 1).clone(), plain_ident("a", 1));
    assert_eq!(plain_literal("1", 1).clone(), plain_literal("1", 1));
}
