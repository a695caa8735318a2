use aggregator::ws::book::read_book;
use aggregator::ws::error::Error;
use aggregator::ws::json::{
    scan_number, scan_string, skip_spaces, skip_value, starts_with, string_is, MAX_DEPTH,
};
use aggregator::ws::models::{Numeric, RawLevel, Span};
use aggregator::ws::utils::{deserialize, deserialize_first_10, deserialize_first_n, deserialize_level};

fn text(field: Numeric) -> Span {
    match field {
        Numeric::Decimal(span) => span,
        Numeric::Infinity => panic!("a number was expected"),
    }
}

#[test]
fn spaces_are_skipped_up_to_the_next_token() {
    assert_eq!(skip_spaces(b" \t\r\n x", 0), 5);
    assert_eq!(skip_spaces(b"x  ", 0), 0);
    assert_eq!(skip_spaces(b"x  ", 1), 3);
    assert_eq!(skip_spaces(b"", 0), 0);
    assert_eq!(skip_spaces(b"\x0b", 0), 0);
}

#[test]
fn a_string_ends_after_its_closing_quote() {
    assert_eq!(scan_string(b"\"\"", 0), Some(2));
    assert_eq!(scan_string(b"x\"ab\"y", 1), Some(5));
    assert_eq!(scan_string(b"\"a\\\"b\"", 0), Some(6));
    assert_eq!(scan_string(b"\"\\u00e9\\n\\\\\"", 0), Some(12));
    assert_eq!(scan_string("\"é\"".as_bytes(), 0), Some(4));
    assert_eq!(scan_string(b"\"abc", 0), None);
    assert_eq!(scan_string(b"abc\"", 0), None);
    assert_eq!(scan_string(b"\"a\\xb\"", 0), None);
    assert_eq!(scan_string(b"\"\\u00g0\"", 0), None);
    assert_eq!(scan_string(b"\"\\u00\"", 0), None);
    assert_eq!(scan_string(b"\"a\nb\"", 0), None);
    assert_eq!(scan_string(b"\"a\\", 0), None);
    assert_eq!(scan_string(b"\"\"", 2), None);
}

#[test]
fn a_number_ends_where_its_grammar_ends() {
    assert_eq!(scan_number(b"0", 0), Some(1));
    assert_eq!(scan_number(b"-0", 0), Some(2));
    assert_eq!(scan_number(b"01", 0), Some(1));
    assert_eq!(scan_number(b"120,", 0), Some(3));
    assert_eq!(scan_number(b"0.07500200]", 0), Some(10));
    assert_eq!(scan_number(b"-12.5e+10 ", 0), Some(9));
    assert_eq!(scan_number(b"1E5", 0), Some(3));
    assert_eq!(scan_number(b"1e-5x", 0), Some(4));
    assert_eq!(scan_number(b"1.", 0), None);
    assert_eq!(scan_number(b".5", 0), None);
    assert_eq!(scan_number(b"-", 0), None);
    assert_eq!(scan_number(b"+1", 0), None);
    assert_eq!(scan_number(b"1e", 0), None);
    assert_eq!(scan_number(b"1e+", 0), None);
    assert_eq!(scan_number(b"", 0), None);
    assert_eq!(scan_number(b"12", 2), None);
}

#[test]
fn a_word_is_found_where_it_stands() {
    assert!(starts_with(b"xtrue", 1, b"true"));
    assert!(!starts_with(b"xtru", 1, b"true"));
    assert!(!starts_with(b"xtrue", 0, b"true"));
    assert!(starts_with(b"abc", 3, b""));
    assert!(string_is(b"\"bids\"", 0, 6, b"bids"));
    assert!(!string_is(b"\"bids\"", 0, 6, b"bid"));
    assert!(!string_is(b"\"bids\"", 0, 6, b"asks"));
}

#[test]
fn a_value_of_any_kind_is_skipped_whole() {
    assert_eq!(skip_value(b"true,", 0, MAX_DEPTH), Some(4));
    assert_eq!(skip_value(b"false", 0, MAX_DEPTH), Some(5));
    assert_eq!(skip_value(b"null", 0, MAX_DEPTH), Some(4));
    assert_eq!(skip_value(b"nul", 0, MAX_DEPTH), None);
    assert_eq!(skip_value(b"\"a]\"", 0, MAX_DEPTH), Some(4));
    assert_eq!(skip_value(b"-1.5", 0, MAX_DEPTH), Some(4));
    assert_eq!(skip_value(b"[]", 0, MAX_DEPTH), Some(2));
    assert_eq!(skip_value(b"[ ]x", 0, MAX_DEPTH), Some(3));
    assert_eq!(skip_value(b"{}", 0, MAX_DEPTH), Some(2));
    assert_eq!(skip_value(b"[1, [2, {\"a\" : [ ]}], \"]\"]", 0, MAX_DEPTH), Some(26));
    assert_eq!(skip_value(b"{\"a\":{\"b\":null},\"c\":[true]} ", 0, MAX_DEPTH), Some(27));
    assert_eq!(skip_value(b"[1,]", 0, MAX_DEPTH), None);
    assert_eq!(skip_value(b"[1 2]", 0, MAX_DEPTH), None);
    assert_eq!(skip_value(b"{\"a\"}", 0, MAX_DEPTH), None);
    assert_eq!(skip_value(b"{\"a\":1,}", 0, MAX_DEPTH), None);
    assert_eq!(skip_value(b"{a:1}", 0, MAX_DEPTH), None);
    assert_eq!(skip_value(b"[1", 0, MAX_DEPTH), None);
    assert_eq!(skip_value(b" 1", 0, MAX_DEPTH), None);
    assert_eq!(skip_value(b"", 0, MAX_DEPTH), None);
}

#[test]
fn nesting_is_bounded() {
    assert_eq!(skip_value(b"[[1]]", 0, 2), Some(5));
    assert_eq!(skip_value(b"[[1]]", 0, 1), None);
    assert_eq!(skip_value(b"1", 0, 0), Some(1));
    assert_eq!(skip_value(b"[]", 0, 0), None);
    let deep = |n: usize| {
        let mut s = vec![b'['; n];
        s.extend(vec![b']'; n]);
        s
    };
    assert_eq!(skip_value(&deep(MAX_DEPTH), 0, MAX_DEPTH), Some(2 * MAX_DEPTH));
    assert_eq!(skip_value(&deep(MAX_DEPTH + 1), 0, MAX_DEPTH), None);
    assert_eq!(skip_value(&deep(100_000), 0, MAX_DEPTH), None);
}

#[test]
fn a_numeric_field_is_quoted_or_bare() {
    assert_eq!(deserialize(b"\"0.5\",", 0), Some((Numeric::Decimal(Span { start: 1, end: 4 }), 5)));
    assert_eq!(deserialize(b"0.5,", 0), Some((Numeric::Decimal(Span { start: 0, end: 3 }), 3)));
    assert_eq!(deserialize(b"\"INF\"", 0), Some((Numeric::Infinity, 5)));
    assert_eq!(deserialize(b"\"inf\"", 0), Some((Numeric::Decimal(Span { start: 1, end: 4 }), 5)));
    assert_eq!(deserialize(b"\"INFO\"", 0), Some((Numeric::Decimal(Span { start: 1, end: 5 }), 6)));
    assert_eq!(deserialize(b"\"\"", 0), Some((Numeric::Decimal(Span { start: 1, end: 1 }), 2)));
    assert_eq!(deserialize(b"INF", 0), None);
    assert_eq!(deserialize(b"\"1\\u0030\"", 0), None);
    assert_eq!(deserialize(b"\"1", 0), None);
    assert_eq!(deserialize(b"null", 0), None);
    assert_eq!(deserialize(b"", 0), None);
}

#[test]
fn a_level_is_a_pair_of_fields() {
    let (level, end) = deserialize_level(b"[ \"1.5\" , 2 ] ", 0).unwrap();
    assert_eq!(text(level.price), Span { start: 3, end: 6 });
    assert_eq!(text(level.amount), Span { start: 10, end: 11 });
    assert_eq!(end, 13);
    assert_eq!(deserialize_level(b"[\"1\"]", 0), None);
    assert_eq!(deserialize_level(b"[\"1\",\"2\",\"3\"]", 0), None);
    assert_eq!(deserialize_level(b"[\"1\" \"2\"]", 0), None);
    assert_eq!(deserialize_level(b"\"1\",\"2\"", 0), None);
    assert_eq!(deserialize_level(b"[\"1\",\"2\"", 0), None);
}

#[test]
fn the_first_levels_of_an_array_are_kept() {
    let input = b"[[\"1\",\"2\"],[3,4],[\"5\",\"6\"]] ";
    let (levels, end): ([RawLevel; 2], usize) = deserialize_first_n(input, 0).unwrap();
    assert_eq!(text(levels[0].price), Span { start: 3, end: 4 });
    assert_eq!(text(levels[1].price), Span { start: 12, end: 13 });
    assert_eq!(text(levels[1].amount), Span { start: 14, end: 15 });
    assert_eq!(end, 27);
    let (all, end): ([RawLevel; 3], usize) = deserialize_first_n(input, 0).unwrap();
    assert_eq!(text(all[2].amount), Span { start: 23, end: 24 });
    assert_eq!(end, 27);
    assert_eq!(deserialize_first_n::<4>(input, 0).unwrap_err(), Error::InsufficientDepth);
    assert_eq!(deserialize_first_n::<0>(input, 0).unwrap().1, 27);
    assert_eq!(deserialize_first_n::<0>(b"[ ]", 0).unwrap().1, 3);
    assert_eq!(deserialize_first_n::<1>(b"[ ]", 0).unwrap_err(), Error::InsufficientDepth);
    assert_eq!(deserialize_first_n::<1>(b"[[1,2],7]", 0).unwrap().1, 9);
    assert_eq!(deserialize_first_n::<2>(b"[[1,2],7]", 0).unwrap_err(), Error::Parse);
    assert_eq!(deserialize_first_n::<1>(b"[[1,2],]", 0).unwrap_err(), Error::Parse);
    assert_eq!(deserialize_first_n::<1>(b"[[1,2]", 0).unwrap_err(), Error::Parse);
    assert_eq!(deserialize_first_n::<1>(b"{}", 0).unwrap_err(), Error::Parse);
    assert_eq!(deserialize_first_10(input, 0).unwrap_err(), Error::InsufficientDepth);
}

#[test]
fn a_book_is_read_where_it_opens() {
    let input = b"x{\"u\":1,\"asks\":[[1,2]],\"bids\":[[3,4],[5,6]]}y";
    let (book, end) = read_book::<1>(input, 1).unwrap();
    assert_eq!(text(book.ask[0].price), Span { start: 17, end: 18 });
    assert_eq!(text(book.bid[0].amount), Span { start: 34, end: 35 });
    assert_eq!(end, input.len() - 1);
    assert_eq!(read_book::<2>(input, 1).unwrap_err(), Error::InsufficientDepth);
    assert_eq!(read_book::<1>(input, 0).unwrap_err(), Error::Parse);
}
