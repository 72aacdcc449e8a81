use strsplit::until_char;
use strsplit::Delimiter;
use strsplit::StrSplit;

fn segments<'h, D: Delimiter>(it: &mut StrSplit<'h, D>) -> Vec<&'h str> {
    let mut got: Vec<&'h str> = Vec::new();
    loop {
        match it.next() {
            Some(seg) => got.push(seg),
            None => break,
        }
    }
    got
}

#[test]
fn simple_str() {
    let haystack = "a b c";
    let mut letters = StrSplit::new(haystack, " ");
    assert!(segments(&mut letters) == vec!["a", "b", "c"]);
}

#[test]
fn empty_tail() {
    let haystack = "a b c ";
    let mut letters = StrSplit::new(haystack, " ");
    assert!(segments(&mut letters) == vec!["a", "b", "c", ""]);
}

#[test]
fn get_head() {
    assert!(until_char("abc", 'b').eq("a"));
}

#[test]
fn empty_haystack() {
    let mut letters = StrSplit::new("", " ");
    assert!(segments(&mut letters) == vec![""]);
}

#[test]
fn absent_delimiter() {
    let mut letters = StrSplit::new("abc", 'z');
    assert!(segments(&mut letters) == vec!["abc"]);
}

#[test]
fn leading_delimiter() {
    let mut letters = StrSplit::new(" a", " ");
    assert!(segments(&mut letters) == vec!["", "a"]);
}

#[test]
fn trailing_char_delimiter() {
    let mut letters = StrSplit::new("ab!", '!');
    assert!(segments(&mut letters) == vec!["ab", ""]);
}

#[test]
fn multibyte_delimiter() {
    // The delimiter '\u{e9}' is two bytes long in UTF-8 and sits between
    // characters that are two and three bytes long themselves.
    let haystack = "\u{3b1}\u{e9}\u{4e00}";
    let mut letters = StrSplit::new(haystack, '\u{e9}');
    assert!(segments(&mut letters) == vec!["\u{3b1}", "\u{4e00}"]);
}

#[test]
fn multibyte_literal() {
    let haystack = "x\u{4e8c}y";
    let mut letters = StrSplit::new(haystack, "\u{4e8c}");
    assert!(segments(&mut letters) == vec!["x", "y"]);
}

#[test]
fn multibyte_head() {
    assert!(until_char("a\u{e9}b", '\u{e9}').eq("a"));
}

#[test]
fn head_without_occurrence() {
    assert!(until_char("abc", 'z').eq("abc"));
}

#[test]
fn empty_pattern_never_matches() {
    let mut letters = StrSplit::new("abc", "");
    assert!(segments(&mut letters) == vec!["abc"]);
}

#[test]
fn pattern_longer_than_haystack() {
    let mut letters = StrSplit::new("ab", "abc");
    assert!(segments(&mut letters) == vec!["ab"]);
}

#[test]
fn overlapping_occurrences() {
    // Occurrences are consumed leftmost-first: in "aaa" the first "aa"
    // wins and only a single 'a' is left over.
    let mut letters = StrSplit::new("aaa", "aa");
    assert!(segments(&mut letters) == vec!["", "a"]);
}

#[test]
fn exhaustion_is_permanent() {
    let mut letters = StrSplit::new("a b", " ");
    assert!(letters.next() == Some("a"));
    assert!(letters.next() == Some("b"));
    assert!(letters.next() == None);
    assert!(letters.next() == None);
    assert!(letters.next() == None);
}

#[test]
fn reconstruction_concrete() {
    let haystack = "one, two, three";
    let mut letters = StrSplit::new(haystack, ", ");
    let segs = segments(&mut letters);
    assert!(segs == vec!["one", "two", "three"]);
    assert!(segs.join(", ") == haystack);
}
