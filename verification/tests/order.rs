use pyq::order::{rank, Rank};

#[test]
fn rank_orders_by_the_first_difference() {
    assert_eq!(rank("alpha", "zeta"), Rank::Before);
    assert_eq!(rank("zeta", "alpha"), Rank::After);
    assert_eq!(rank("json", "jsonschema"), Rank::Before);
    assert_eq!(rank("jsonschema", "json"), Rank::After);
}

#[test]
fn rank_of_equal_names_is_same() {
    assert_eq!(rank("os", "os"), Rank::Same);
    assert_eq!(rank("", ""), Rank::Same);
}

#[test]
fn rank_puts_the_empty_name_first() {
    assert_eq!(rank("", "a"), Rank::Before);
    assert_eq!(rank("a", ""), Rank::After);
}

#[test]
fn rank_is_case_sensitive() {
    assert_eq!(rank("Zeta", "alpha"), Rank::Before);
    assert_eq!(rank("os", "OS"), Rank::After);
}

#[test]
fn rank_compares_characters_not_bytes_of_one_letter() {
    // 'é' is U+00E9, '中' is U+4E2D, '😀' is U+1F600
    assert_eq!(rank("é", "中"), Rank::Before);
    assert_eq!(rank("中", "😀"), Rank::Before);
    assert_eq!(rank("z", "é"), Rank::Before);
}

#[test]
fn rank_agrees_with_the_order_of_strings() {
    let words = ["", "a", "ab", "abc", "b", "B", "-x", "os.path", "中", "é", "json"];
    for a in words {
        for b in words {
            let expected = match a.cmp(b) {
                std::cmp::Ordering::Less => Rank::Before,
                std::cmp::Ordering::Equal => Rank::Same,
                std::cmp::Ordering::Greater => Rank::After,
            };
            assert_eq!(rank(a, b), expected);
        }
    }
}
