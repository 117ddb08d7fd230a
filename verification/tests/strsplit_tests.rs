use primitives::strsplit::{until_char, Delimiter, StrSplit};

fn pieces<'a, D: Delimiter>(split: StrSplit<'a, D>) -> Vec<&'a str> {
    split.collect()
}

#[test]
fn lib_until_char_test() {
    assert_eq!(until_char("hello world!", 'o'), "hell");
}

#[test]
fn lib_it_works() {
    let haystack = "a b c d e";
    let letters = StrSplit::new(haystack, " ");
    assert!(letters.eq(vec!["a", "b", "c", "d", "e"].into_iter()));
}

#[test]
fn lib_tail_test() {
    let haystack = "a b c d ";
    let letters = StrSplit::new(haystack, " ");
    assert!(letters.eq(vec!["a", "b", "c", "d", ""].into_iter()));
}

#[test]
fn lib_1_until_char_test() {
    assert_eq!(until_char("hello world!", 'o'), "hell");
    let delimiter = format!("{}", 'o');
    let mut split = StrSplit::new("hello world!", delimiter.as_str());
    assert_eq!(split.next(), Some("hell"));
}

#[test]
fn lib_1_it_works() {
    let haystack = "a b c d e";
    let delimiter = String::from(" ");
    let letters = StrSplit::new(haystack, delimiter.as_str());
    assert!(letters.eq(vec!["a", "b", "c", "d", "e"].into_iter()));
}

#[test]
fn lib_1_tail_test() {
    let haystack = "a b c d ";
    let delimiter = String::from(" ");
    let letters = StrSplit::new(haystack, delimiter.as_str());
    assert!(letters.eq(vec!["a", "b", "c", "d", ""].into_iter()));
}

#[test]
fn text_without_delimiter_is_one_piece() {
    let mut split = StrSplit::new("abc", ",");
    assert_eq!(split.next(), Some("abc"));
    assert_eq!(split.next(), None);
    assert_eq!(split.next(), None);
}

#[test]
fn empty_text_is_one_empty_piece() {
    let mut split = StrSplit::new("", ",");
    assert_eq!(split.next(), Some(""));
    assert_eq!(split.next(), None);
}

#[test]
fn until_char_without_the_char_is_the_whole_text() {
    assert_eq!(until_char("hello", 'z'), "hello");
    assert_eq!(until_char("", 'z'), "");
}

#[test]
fn until_char_at_the_start_is_empty() {
    assert_eq!(until_char("hello", 'h'), "");
}

#[test]
fn delimiter_of_several_bytes() {
    let all = pieces(StrSplit::new("one, two, three", ", "));
    assert_eq!(all, vec!["one", "two", "three"]);
}

#[test]
fn neighbouring_delimiters_give_empty_pieces() {
    let all = pieces(StrSplit::new(",a,,b,", ','));
    assert_eq!(all, vec!["", "a", "", "b", ""]);
}

#[test]
fn first_of_overlapping_occurrences_wins() {
    let all = pieces(StrSplit::new("aaa", "aa"));
    assert_eq!(all, vec!["", "a"]);
}

#[test]
fn partial_match_before_the_delimiter() {
    let all = pieces(StrSplit::new("a-b-->c", "-->"));
    assert_eq!(all, vec!["a-b", "c"]);
}

#[test]
fn char_of_two_bytes() {
    let all = pieces(StrSplit::new("caf\u{e9} au lait\u{e9}", '\u{e9}'));
    assert_eq!(all, vec!["caf", " au lait", ""]);
    assert_eq!('\u{e9}'.find_next("caf\u{e9}"), Some((3, 5)));
}

#[test]
fn char_of_three_bytes() {
    assert_eq!('\u{20ac}'.find_next("5\u{20ac} or 6\u{20ac}"), Some((1, 4)));
    assert_eq!(until_char("\u{e9}\u{20ac}x", '\u{20ac}'), "\u{e9}");
}

#[test]
fn char_of_four_bytes() {
    assert_eq!('\u{1f600}'.find_next("ab\u{1f600}cd"), Some((2, 6)));
    let all = pieces(StrSplit::new("ab\u{1f600}cd", '\u{1f600}'));
    assert_eq!(all, vec!["ab", "cd"]);
}

#[test]
fn char_of_one_byte() {
    assert_eq!('b'.find_next("abc"), Some((1, 2)));
    assert_eq!('z'.find_next("abc"), None);
}

#[test]
fn text_delimiter_positions_are_counted_in_bytes() {
    assert_eq!("\u{20ac}".find_next("\u{e9}\u{e9}\u{20ac}!"), Some((4, 7)));
    assert_eq!("!".find_next("\u{e9}\u{e9}\u{20ac}!"), Some((7, 8)));
    assert_eq!("?".find_next("\u{e9}\u{e9}\u{20ac}!"), None);
}

#[test]
fn char_agrees_with_the_text_of_that_char() {
    let text = "na\u{ef}ve \u{2014} caf\u{e9} \u{1f600}!";
    for c in text.chars() {
        let as_text = c.to_string();
        assert_eq!(c.find_next(text), as_text.as_str().find_next(text));
        assert_eq!(
            c.find_next(text),
            text.find(c).map(|start| (start, start + c.len_utf8()))
        );
    }
}

#[test]
fn empty_delimiter_is_found_at_the_start() {
    assert_eq!("".find_next("abc"), Some((0, 0)));
    let mut split = StrSplit::new("abc", "");
    assert_eq!(split.next(), Some(""));
    assert_eq!(split.next(), Some(""));
}

#[test]
fn delimiter_longer_than_the_text() {
    assert_eq!("abcd".find_next("abc"), None);
    assert_eq!(pieces(StrSplit::new("abc", "abcd")), vec!["abc"]);
}

#[test]
fn whole_text_is_the_delimiter() {
    assert_eq!(pieces(StrSplit::new("abc", "abc")), vec!["", ""]);
}

#[test]
fn text_delimiter_agrees_with_find_of_str() {
    let texts = ["", "a", "abcabc", "aaab", "na\u{ef}ve caf\u{e9}", "\u{1f600}\u{1f600}x\u{1f600}"];
    let needles = ["", "a", "b", "ab", "abc", "aab", "\u{ef}", "\u{e9}", "x\u{1f600}", "zz"];
    for text in texts {
        for needle in needles {
            assert_eq!(
                needle.find_next(text),
                text.find(needle).map(|start| (start, start + needle.len()))
            );
        }
    }
}

#[test]
fn pieces_and_delimiters_make_up_the_text() {
    let text = "k1=v1;k2=v2;;k3";
    let mut rebuilt = String::new();
    let mut first = true;
    for piece in StrSplit::new(text, ';') {
        if !first {
            rebuilt.push(';');
        }
        first = false;
        assert!(!piece.contains(';'));
        rebuilt.push_str(piece);
    }
    assert_eq!(rebuilt, text);
}
