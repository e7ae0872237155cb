use kartoteka::order::{sorted_unique, str_less};

#[test]
fn str_order_matches_std() {
    let words = ["", "a", "ab", "b", "B", "é", "z", "aa"];
    for x in words {
        for y in words {
            assert_eq!(str_less(x, y), x < y, "{x:?} < {y:?}");
        }
    }
}

#[test]
fn sorted_unique_sorts_and_dedups() {
    let v: Vec<String> = ["pear", "apple", "pear", "Fig", "apple"].iter().map(|s| s.to_string()).collect();
    assert_eq!(sorted_unique(&v), vec!["Fig", "apple", "pear"]);
    assert!(sorted_unique(&vec![]).is_empty());
}
