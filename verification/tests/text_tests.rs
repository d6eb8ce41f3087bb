use budgy::text::{compare_text, insert_sorted_text, TextOrder};

#[test]
fn compares_texts() {
    assert_eq!(compare_text("a", "b"), TextOrder::Less);
    assert_eq!(compare_text("b", "a"), TextOrder::Greater);
    assert_eq!(compare_text("abc", "abc"), TextOrder::Equal);
    assert_eq!(compare_text("ab", "abc"), TextOrder::Less);
    assert_eq!(compare_text("", ""), TextOrder::Equal);
    assert_eq!(compare_text("Z", "a"), TextOrder::Less);
    assert_eq!(compare_text("é", "z"), TextOrder::Greater);
}

#[test]
fn inserts_in_order_once() {
    let mut keys: Vec<String> = vec![];
    for k in ["m", "c", "x", "c", "a", "m"] {
        insert_sorted_text(&mut keys, &k.to_string());
    }
    assert_eq!(keys, vec!["a", "c", "m", "x"]);
}
