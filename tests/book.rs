use tak_match::book::openings_from_text;

fn words(v: &[&str]) -> Vec<String> {
    v.iter().map(|s| s.to_string()).collect()
}

#[test]
fn book_lines_become_openings() {
    let text = "a1 e5\n\nc3\tc4  d3\r\n   \ne1";
    assert_eq!(
        openings_from_text(text),
        vec![words(&["a1", "e5"]), words(&["c3", "c4", "d3"]), words(&["e1"])]
    );
}

#[test]
fn empty_book_has_no_openings() {
    assert!(openings_from_text("").is_empty());
    assert!(openings_from_text("\n \n\t\n").is_empty());
}
