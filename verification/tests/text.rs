use netif::text::{chars_of, split_ranges};

fn groups(s: &str, sep: char) -> Vec<String> {
    let v = chars_of(s);
    split_ranges(&v, sep).into_iter().map(|(from, to)| v[from..to].iter().collect()).collect()
}

#[test]
fn chars_of_lists_the_characters() {
    assert_eq!(chars_of(""), Vec::<char>::new());
    assert_eq!(chars_of("a:\u{e9}\0"), vec!['a', ':', '\u{e9}', '\0']);
}

#[test]
fn split_ranges_cuts_at_every_separator() {
    assert_eq!(groups("12:34:56", ':'), vec!["12", "34", "56"]);
    assert_eq!(groups("", ':'), vec![""]);
    assert_eq!(groups("abc", ':'), vec!["abc"]);
    assert_eq!(groups(":", ':'), vec!["", ""]);
    assert_eq!(groups("::a:", ':'), vec!["", "", "a", ""]);
    assert_eq!(groups("a\0b", '\0'), vec!["a", "b"]);
}

#[test]
fn split_ranges_gives_the_positions_of_the_groups() {
    let v = chars_of("ab::c:");
    assert_eq!(split_ranges(&v, ':'), vec![(0, 2), (3, 3), (4, 5), (6, 6)]);
    let v = chars_of("\u{e9}\u{e9}:x");
    assert_eq!(split_ranges(&v, ':'), vec![(0, 2), (3, 4)]);
    assert_eq!(split_ranges(&Vec::new(), ':'), vec![(0, 0)]);
}
