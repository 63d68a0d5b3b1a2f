use flavours::names::{name_lt, sort_names, sorted_unique};

#[test]
fn names_order_like_strings() {
    let pairs = [("a", "b"), ("a", "ab"), ("", "a"), ("B", "a"), ("é", "z"), ("abc", "abd")];
    for (x, y) in pairs.iter() {
        assert_eq!(name_lt(x, y), x < y, "{} {}", x, y);
        assert_eq!(name_lt(y, x), y < x, "{} {}", y, x);
    }
    assert!(!name_lt("same", "same"));
}

#[test]
fn sorted_without_repeats() {
    let names: Vec<String> = ["gruvbox", "ayu", "nord", "ayu", "Zenburn", "gruvbox-dark"]
        .iter()
        .map(|s| String::from(*s))
        .collect();
    let mut expected = names.clone();
    expected.sort();
    expected.dedup();
    assert_eq!(sorted_unique(names), expected);
    assert!(sorted_unique(Vec::new()).is_empty());
}

#[test]
fn sorting_keeps_repeats() {
    let names: Vec<String> = ["b", "a", "b", "", "ab", "a"].iter().map(|s| String::from(*s)).collect();
    let mut expected = names.clone();
    expected.sort();
    assert_eq!(sort_names(names), expected);
}

#[test]
fn white_space_matches_std() {
    for u in 0..0x3100u32 {
        if let Some(c) = char::from_u32(u) {
            assert_eq!(flavours::text::is_whitespace(c), c.is_whitespace(), "{:x}", u);
        }
    }
}
