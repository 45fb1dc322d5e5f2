use macro_errors::Error;
use proc_macro2::{Delimiter, Spacing, Span, TokenStream, TokenTree};
use std::ops::Range;

/// What a report says, read back from its token trees: the bytes of the
/// source at which its path stands, those at which its braces stand, and the
/// string literal between the braces as it is written.
type Report = (Range<usize>, Range<usize>, String);

/// Parses `source` and returns each of its token trees as a stream of its own.
fn tokens_of(source: &str) -> Vec<TokenStream> {
    let stream: TokenStream = source.parse().unwrap();
    stream.into_iter().map(TokenStream::from).collect()
}

/// The span of the first token tree of `stream`.
fn span_of(stream: &TokenStream) -> Span {
    stream.clone().into_iter().next().unwrap().span()
}

fn is_punct(tree: &TokenTree, ch: char, spacing: Spacing) -> bool {
    match tree {
        TokenTree::Punct(punct) => punct.as_char() == ch && punct.spacing() == spacing,
        _ => false,
    }
}

fn is_ident(tree: &TokenTree, name: &str) -> bool {
    match tree {
        TokenTree::Ident(ident) => ident.to_string() == name,
        _ => false,
    }
}

/// Reads `stream` as a run of `::core::compile_error!{ "..." }` invocations.
fn read_reports(stream: TokenStream) -> Vec<Report> {
    let trees: Vec<TokenTree> = stream.into_iter().collect();
    assert_eq!(trees.len() % 8, 0);
    let mut reports = Vec::new();
    for report in trees.chunks(8) {
        assert!(is_punct(&report[0], ':', Spacing::Joint));
        assert!(is_punct(&report[1], ':', Spacing::Alone));
        assert!(is_ident(&report[2], "core"));
        assert!(is_punct(&report[3], ':', Spacing::Joint));
        assert!(is_punct(&report[4], ':', Spacing::Alone));
        assert!(is_ident(&report[5], "compile_error"));
        assert!(is_punct(&report[6], '!', Spacing::Alone));
        let start = report[0].span().byte_range();
        for tree in &report[..7] {
            assert_eq!(tree.span().byte_range(), start);
        }
        let group = match &report[7] {
            TokenTree::Group(group) => group.clone(),
            other => panic!("expected a group, found {}", other),
        };
        assert_eq!(group.delimiter(), Delimiter::Brace);
        let end = group.span().byte_range();
        let inner: Vec<TokenTree> = group.stream().into_iter().collect();
        assert_eq!(inner.len(), 1);
        assert_eq!(inner[0].span().byte_range(), end);
        let literal = match &inner[0] {
            TokenTree::Literal(literal) => literal.to_string(),
            other => panic!("expected a literal, found {}", other),
        };
        reports.push((start, end, literal));
    }
    reports
}

#[test]
fn new_reports_the_message_at_the_span() {
    let tokens = tokens_of("alpha beta gamma");
    let beta = span_of(&tokens[1]);
    let error = Error::new(beta, "unknown field");
    let rendered = TokenStream::from(error);
    assert_eq!(
        rendered.to_string(),
        ":: core :: compile_error ! { \"unknown field\" }"
    );
    assert_eq!(
        read_reports(rendered),
        vec![(beta.byte_range(), beta.byte_range(), "\"unknown field\"".to_string())]
    );
}

#[test]
fn new_at_different_spans_differs_in_place_only() {
    let tokens = tokens_of("alpha beta");
    let alpha = span_of(&tokens[0]);
    let beta = span_of(&tokens[1]);
    assert_ne!(alpha.byte_range(), beta.byte_range());
    let first = read_reports(Error::new(alpha, "m").into());
    let second = read_reports(Error::new(beta, "m").into());
    assert_eq!(first.len(), 1);
    assert_eq!(second.len(), 1);
    assert_eq!(first[0].0, alpha.byte_range());
    assert_eq!(second[0].0, beta.byte_range());
    assert_eq!(first[0].2, second[0].2);
}

#[test]
fn new_accepts_an_empty_message() {
    let error = Error::new(Span::call_site(), "");
    let rendered = TokenStream::from(error);
    assert_eq!(rendered.to_string(), ":: core :: compile_error ! { \"\" }");
}

#[test]
fn new_writes_the_message_as_a_string_literal() {
    let error = Error::new(Span::call_site(), "expected \"name\"\nfound 'x'");
    let reports = read_reports(error.into());
    assert_eq!(reports.len(), 1);
    assert_eq!(reports[0].2, "\"expected \\\"name\\\"\\nfound 'x'\"");
}

#[test]
fn new_spanned_ranges_from_the_first_token_to_the_last() {
    let source: TokenStream = "alpha + (beta, gamma) delta".parse().unwrap();
    let trees: Vec<TokenTree> = source.clone().into_iter().collect();
    assert_eq!(trees.len(), 4);
    let first = trees[0].span().byte_range();
    let last = trees[3].span().byte_range();
    let error = Error::new_spanned(&source, "not supported here");
    assert_eq!(
        read_reports(error.into()),
        vec![(first, last, "\"not supported here\"".to_string())]
    );
}

#[test]
fn new_spanned_takes_a_group_as_one_token() {
    let source: TokenStream = "(beta, gamma)".parse().unwrap();
    let group = span_of(&source).byte_range();
    let error = Error::new_spanned(&source, "m");
    assert_eq!(
        read_reports(error.into()),
        vec![(group.clone(), group, "\"m\"".to_string())]
    );
}

#[test]
fn new_spanned_on_one_token_is_new_at_its_span() {
    let tokens = tokens_of("alpha beta");
    let spanned = read_reports(Error::new_spanned(&tokens[1], "m").into());
    let at = read_reports(Error::new(span_of(&tokens[1]), "m").into());
    assert_eq!(spanned, at);
}

#[test]
fn new_spanned_leaves_the_tokens_as_they_are() {
    let source: TokenStream = "alpha beta".parse().unwrap();
    let before = source.to_string();
    let error = Error::new_spanned(&source, "m");
    assert_eq!(source.to_string(), before);
    assert_ne!(TokenStream::from(error).to_string(), before);
}

#[test]
fn new_spanned_without_tokens_reports_at_the_call_site() {
    let nothing = TokenStream::new();
    let site = Span::call_site().byte_range();
    let error = Error::new_spanned(&nothing, "nothing to point at");
    assert_eq!(
        read_reports(error.into()),
        vec![(site.clone(), site, "\"nothing to point at\"".to_string())]
    );
}

#[test]
fn new_from_spans_reports_on_each_in_their_order() {
    let tokens = tokens_of("alpha beta gamma");
    let spans: Vec<Range<usize>> = tokens.iter().map(|t| span_of(t).byte_range()).collect();
    let error = Error::new_from_spans(tokens, "duplicate key");
    let message = "\"duplicate key\"".to_string();
    assert_eq!(
        read_reports(error.into()),
        vec![
            (spans[0].clone(), spans[0].clone(), message.clone()),
            (spans[1].clone(), spans[1].clone(), message.clone()),
            (spans[2].clone(), spans[2].clone(), message),
        ]
    );
}

#[test]
fn new_from_spans_on_one_place_is_new_spanned() {
    let source: TokenStream = "alpha beta".parse().unwrap();
    let multi = read_reports(Error::new_from_spans(vec![source.clone()], "m").into());
    let single = read_reports(Error::new_spanned(&source, "m").into());
    assert_eq!(multi, single);
}

#[test]
fn new_from_spans_equals_the_single_reports_one_behind_the_other() {
    let tokens = tokens_of("alpha beta");
    let mut singles = read_reports(Error::new_spanned(&tokens[0], "m").into());
    singles.extend(read_reports(Error::new_spanned(&tokens[1], "m").into()));
    let multi = read_reports(Error::new_from_spans(tokens, "m").into());
    assert_eq!(multi, singles);
}

#[test]
fn err_is_err_of_new() {
    let tokens = tokens_of("alpha");
    let alpha = span_of(&tokens[0]);
    let result: Result<u32, Error> = Error::err(alpha, "bad value");
    match result {
        Ok(_) => panic!("err returned Ok"),
        Err(error) => assert_eq!(
            read_reports(error.into()),
            read_reports(Error::new(alpha, "bad value").into())
        ),
    }
}

#[test]
fn err_spanned_is_err_of_new_spanned() {
    let source: TokenStream = "alpha beta".parse().unwrap();
    let result: Result<(), Error> = Error::err_spanned(&source, "bad value");
    match result {
        Ok(_) => panic!("err_spanned returned Ok"),
        Err(error) => assert_eq!(
            read_reports(error.into()),
            read_reports(Error::new_spanned(&source, "bad value").into())
        ),
    }
}

#[test]
fn err_from_spans_is_err_of_new_from_spans() {
    let tokens = tokens_of("alpha beta");
    let result: Result<String, Error> = Error::err_from_spans(tokens.clone(), "bad value");
    match result {
        Ok(_) => panic!("err_from_spans returned Ok"),
        Err(error) => assert_eq!(
            read_reports(error.into()),
            read_reports(Error::new_from_spans(tokens, "bad value").into())
        ),
    }
}

#[test]
fn builder_of_error_is_empty() {
    let builder = Error::builder();
    assert!(builder.is_empty());
}

#[test]
fn from_token_stream_keeps_the_token_trees() {
    let source: TokenStream = "anything (at all) 1 + 2".parse().unwrap();
    let error = Error::from(source.clone());
    assert_eq!(TokenStream::from(error).to_string(), source.to_string());
}

#[test]
fn from_empty_token_stream_is_an_error_without_reports() {
    let error = Error::from(TokenStream::new());
    assert!(TokenStream::from(error).is_empty());
}

#[test]
fn from_syn_error_reports_its_message_on_its_span() {
    let tokens = tokens_of("alpha beta");
    let beta = span_of(&tokens[1]);
    let error = Error::from(syn::Error::new(beta, "expected `name`"));
    assert_eq!(
        read_reports(error.into()),
        vec![(beta.byte_range(), beta.byte_range(), "\"expected `name`\"".to_string())]
    );
}

#[test]
fn from_syn_error_keeps_the_order_of_combined_messages() {
    let tokens = tokens_of("alpha beta gamma");
    let alpha = span_of(&tokens[0]);
    let gamma = span_of(&tokens[2]);
    let mut foreign = syn::Error::new(gamma, "second thoughts");
    foreign.combine(syn::Error::new(alpha, "first thoughts"));
    let error = Error::from(foreign);
    assert_eq!(
        read_reports(error.into()),
        vec![
            (gamma.byte_range(), gamma.byte_range(), "\"second thoughts\"".to_string()),
            (alpha.byte_range(), alpha.byte_range(), "\"first thoughts\"".to_string()),
        ]
    );
}

#[test]
fn from_syn_error_is_what_new_builds() {
    let tokens = tokens_of("alpha");
    let alpha = span_of(&tokens[0]);
    let taken = read_reports(Error::from(syn::Error::new(alpha, "m")).into());
    let built = read_reports(Error::new(alpha, "m").into());
    assert_eq!(taken, built);
}
