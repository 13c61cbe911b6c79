use rime::autocomplete::{completions, completions_of, popup_rows, Suggestion, POPUP_MAX_ROWS};

const FUNCTIONS: &[(&str, &str)] = &[
    ("sum", "sum(range)"),
    ("product", "product(range)"),
    ("average", "average(range)"),
    ("median", "median(range)"),
    ("min", "min(a, b, …)"),
    ("max", "max(a, b, …)"),
    ("round", "round(x, places)"),
    ("sqrt", "sqrt(x)"),
    ("stdev", "stdev(range)"),
];

fn texts(v: &[Suggestion]) -> Vec<&str> {
    v.iter().map(|s| s.text.as_str()).collect()
}

#[test]
fn suggestions_carry_text_and_hint() {
    let plain = Suggestion::new("sum");
    assert_eq!(plain.text, "sum");
    assert_eq!(plain.hint, None);
    let hinted = Suggestion::with_hint("sum", "sum(range)");
    assert_eq!(hinted.text, "sum");
    assert_eq!(hinted.hint.as_deref(), Some("sum(range)"));
    let from: Suggestion = String::from("avg").into();
    assert_eq!(from.text, "avg");
    assert_eq!(from.hint, None);
    assert_eq!(POPUP_MAX_ROWS, 8);
}

#[test]
fn completions_keep_vocabulary_order_and_hints() {
    let s = completions(FUNCTIONS, "s");
    assert_eq!(texts(&s), vec!["sum", "sqrt", "stdev"]);
    assert_eq!(s[1].hint.as_deref(), Some("sqrt(x)"));
    let m = completions(FUNCTIONS, "M");
    assert_eq!(texts(&m), vec!["median", "min", "max"]);
}

#[test]
fn completions_are_empty_for_no_input_or_an_exact_name() {
    assert!(completions(FUNCTIONS, "").is_empty());
    assert!(completions(FUNCTIONS, "sum").is_empty());
    assert!(completions(FUNCTIONS, "zzz").is_empty());
    assert_eq!(texts(&completions(FUNCTIONS, "su")), vec!["sum"]);
}

#[test]
fn the_popup_shows_at_most_eight_rows_and_none_when_empty() {
    assert!(popup_rows(Vec::new()).is_none());
    let few: Vec<Suggestion> = ["a", "b"].iter().map(|t| Suggestion::new(t)).collect();
    assert_eq!(texts(&popup_rows(few).unwrap()), vec!["a", "b"]);
    let many: Vec<Suggestion> = (0..12).map(|i| Suggestion::new(&i.to_string())).collect();
    let rows = popup_rows(many).unwrap();
    assert_eq!(rows.len(), POPUP_MAX_ROWS);
    assert_eq!(rows[7].text, "7");
}

#[test]
fn completions_of_a_lowered_input_keep_vocabulary_order() {
    assert_eq!(texts(&completions_of(FUNCTIONS, "m")), vec!["median", "min", "max"]);
    assert!(completions_of(FUNCTIONS, "M").is_empty(), "the needle is taken as given");
    assert_eq!(completions_of(FUNCTIONS, "").len(), FUNCTIONS.len());
}
