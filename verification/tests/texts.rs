use comicinfo::sorting::sort_strings;
use comicinfo::text::{join_strings, slice_eq, slice_le, str_eq, str_le};

fn strings(items: &[&str]) -> Vec<String> {
    items.iter().map(|s| s.to_string()).collect()
}

#[test]
fn str_le_is_the_order_of_std() {
    let samples = ["", "a", "ab", "b", "B", "é", "z", "zz", "日本", "a,b", "tag: x"];
    for a in samples {
        for b in samples {
            assert_eq!(str_le(a, b), a <= b, "{:?} {:?}", a, b);
            assert_eq!(str_eq(a, b), a == b, "{:?} {:?}", a, b);
        }
    }
}

#[test]
fn slice_order_on_prefixes() {
    assert!(slice_le(&[], &[]));
    assert!(slice_le(&[], &[0]));
    assert!(!slice_le(&[0], &[]));
    assert!(slice_le(&[1, 2], &[1, 2, 0]));
    assert!(!slice_le(&[1, 3], &[1, 2, 9]));
    assert!(slice_eq(&[1, 2], &[1, 2]));
    assert!(!slice_eq(&[1, 2], &[1, 2, 3]));
    assert!(!slice_eq(&[1, 2], &[1, 3]));
}

#[test]
fn sort_strings_sorts_as_std() {
    let input = strings(&["pear", "apple", "", "fig", "apple", "Zeta", "émile", "figs"]);
    let mut expected = input.clone();
    expected.sort();
    assert_eq!(sort_strings(input), expected);
    assert_eq!(sort_strings(Vec::new()), Vec::<String>::new());
}

#[test]
fn join_strings_puts_separator_between() {
    assert_eq!(join_strings(&strings(&[]), ","), "");
    assert_eq!(join_strings(&strings(&["a"]), ","), "a");
    assert_eq!(join_strings(&strings(&["a", "b", "c"]), ","), "a,b,c");
    assert_eq!(join_strings(&strings(&["", ""]), ","), ",");
    assert_eq!(join_strings(&strings(&["x", "y"]), ": "), "x: y");
}
