//! The order of names.

use tis::order::{comes_before, sort_names};

fn strings(names: &[&str]) -> Vec<String> {
    names.iter().map(|s| s.to_string()).collect()
}

#[test]
fn letter_case_is_ignored() {
    let sorted = sort_names(strings(&["b.jpg", "A.jpg", "c.jpg", "B2.jpg", "a2.jpg"]), true);
    assert_eq!(sorted, strings(&["A.jpg", "a2.jpg", "b.jpg", "B2.jpg", "c.jpg"]));
}

#[test]
fn letter_case_counts_without_folding() {
    let sorted = sort_names(strings(&["b", "A", "a", "B"]), false);
    assert_eq!(sorted, strings(&["A", "B", "a", "b"]));
}

#[test]
fn nothing_is_lost() {
    let names = strings(&["x", "y", "x", "", "Z", "ü", "z", "x"]);
    let sorted = sort_names(names.clone(), true);
    let mut a = names;
    let mut b = sorted.clone();
    a.sort();
    b.sort();
    assert_eq!(a, b);
    for w in sorted.windows(2) {
        assert!(w[0].to_ascii_lowercase() <= w[1].to_ascii_lowercase());
    }
}

#[test]
fn order_matches_std() {
    let names = ["", "a", "A", "ab", "Ab", "b", "ä", "Ä", "日", "_", "Z", "[", "a b", "a.b"];
    for x in names {
        for y in names {
            assert_eq!(comes_before(x, y, false), x <= y);
            assert_eq!(
                comes_before(x, y, true),
                x.to_ascii_lowercase() <= y.to_ascii_lowercase()
            );
        }
    }
}

#[test]
fn many_names_in_order() {
    let mut names = Vec::new();
    let mut n: u64 = 12345;
    for _ in 0..2000 {
        n = n.wrapping_mul(6364136223846793005).wrapping_add(1442695040888963407);
        names.push(format!("img{}", n >> 40));
    }
    let mut expected = names.clone();
    expected.sort();
    assert_eq!(sort_names(names, false), expected);
}

#[test]
fn no_names() {
    assert_eq!(sort_names(Vec::new(), true), Vec::<String>::new());
}
