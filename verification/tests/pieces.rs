use reddit_cli::number::{i64_text, read_i64, read_unsigned, read_usize, u64_text};
use reddit_cli::rank::find_leaders;
use reddit_cli::text::{chars_of, joined, split_at_char, string_of, trimmed};
use reddit_cli::web::{parse_address, write_query};

#[test]
fn numbers_are_written_and_read_back() {
    for n in [0u64, 9, 10, 12345, u64::MAX] {
        assert_eq!(u64_text(n), n.to_string());
        assert_eq!(read_unsigned(&chars_of(&u64_text(n)), u64::MAX), Some(n));
    }
    for i in [0i64, -1, 42, i64::MIN, i64::MAX] {
        assert_eq!(i64_text(i), i.to_string());
        assert_eq!(read_i64(&chars_of(&i64_text(i))), Some(i));
    }
    assert_eq!(read_i64(&chars_of("9223372036854775808")), None);
    assert_eq!(read_i64(&chars_of("-")), None);
    assert_eq!(read_usize("007"), Some(7));
    assert_eq!(read_usize("1_000"), None);
}

#[test]
fn splitting_undoes_joining() {
    let parts = vec!["a".to_owned(), "".to_owned(), "b c".to_owned()];
    let line = joined(&parts, "&");
    assert_eq!(line, "a&&b c");
    assert_eq!(split_at_char(&chars_of(&line), '&'), parts);
}

#[test]
fn white_space_is_trimmed() {
    assert_eq!(string_of(trimmed(&chars_of("\u{a0}\t x y\u{3000}\n"))), "x y");
    assert_eq!(string_of(trimmed(&chars_of(" \n "))), "");
}

#[test]
fn the_first_by_rank_are_found() {
    let ranks = vec![(1i128, 0i128), (5, 1), (5, 2), (3, 0), (5, 1)];
    assert_eq!(find_leaders(&ranks, 3), vec![2, 1, 4]);
    assert_eq!(find_leaders(&ranks, 10), vec![2, 1, 4, 3, 0]);
    assert_eq!(find_leaders(&ranks, 0), Vec::<usize>::new());
}

#[test]
fn addresses_are_taken_apart() {
    let address = parse_address("https://WWW.Reddit.com:443/r/a b/../c?x#y").unwrap();
    assert_eq!(address.text, "https://www.reddit.com/r/c?x#y");
    assert_eq!(address.host.as_deref(), Some("www.reddit.com"));
    assert_eq!(address.path, "/r/c");
    assert_eq!(
        parse_address("r/rust").unwrap_err().message(),
        "relative URL without a base"
    );
    assert_eq!(parse_address("data:text/plain,x").unwrap().host, None);
}

#[test]
fn queries_keep_their_parameters_apart() {
    let one = vec![("a".to_owned(), "b&c=d".to_owned())];
    let two = vec![("a".to_owned(), "b".to_owned()), ("c".to_owned(), "d".to_owned())];
    assert_eq!(write_query(&one), "a=b%26c%3Dd");
    assert_eq!(write_query(&two), "a=b&c=d");
    assert_eq!(write_query(&[]), "");
    let all = vec![("\u{20ac} /?#%".to_owned(), "~._-Az09".to_owned())];
    assert_eq!(write_query(&all), "%E2%82%AC%20%2F%3F%23%25=~._-Az09");
}
