use herbie::labels::parse_labels;

fn strings(v: &[&str]) -> Vec<String> {
    v.iter().map(|s| s.to_string()).collect()
}

#[test]
fn extracts_unicode_labels_from_detail() {
    assert_eq!(parse_labels("今天 #工作 很忙 #项目-x"), strings(&["工作", "项目-x"]));
}

#[test]
fn skips_hash_inside_urls() {
    assert_eq!(parse_labels("见 https://example.com/page#section 和 #工作"), strings(&["工作"]));
}

#[test]
fn skips_hash_that_is_part_of_an_http_url_token() {
    assert_eq!(parse_labels("https://git.io/abc#def #todo"), strings(&["todo"]));
}

#[test]
fn skips_url_hash_when_url_is_adjacent_to_cjk_text() {
    assert_eq!(parse_labels("查https://example.com/p#sec"), Vec::<String>::new());
    assert_eq!(parse_labels("中文https://a.io/x#y 和 #keep"), strings(&["keep"]));
}

#[test]
fn dedupes_same_named_labels() {
    assert_eq!(parse_labels("#a #a #b"), strings(&["a", "b"]));
}

#[test]
fn is_case_sensitive() {
    assert_eq!(parse_labels("#Work #WORK"), strings(&["Work", "WORK"]));
}

#[test]
fn returns_empty_for_empty_detail() {
    assert!(parse_labels("").is_empty());
}

#[test]
fn only_matches_valid_label_chars_1_to_60() {
    assert!(parse_labels("#").is_empty());
    assert_eq!(parse_labels("#a"), strings(&["a"]));
}

#[test]
fn does_not_treat_plain_words_as_labels() {
    assert!(parse_labels("just some text no tags").is_empty());
}

#[test]
fn handles_labels_adjacent_to_punctuation() {
    assert_eq!(parse_labels("do #work, then #home."), strings(&["work", "home"]));
}

#[test]
fn ignores_hash_not_followed_by_valid_label_char() {
    assert!(parse_labels("#! and # work").is_empty());
}

#[test]
fn parses_labels_across_multiple_lines() {
    assert_eq!(parse_labels("line1 #a\nline2 #b"), strings(&["a", "b"]));
}

#[test]
fn skips_multiple_urls_and_labels_outside_them() {
    assert_eq!(parse_labels("https://a.io/x#y https://b.io/z#w #keep"), strings(&["keep"]));
}

#[test]
fn does_not_capture_hash_inside_a_url_with_trailing_label() {
    assert_eq!(parse_labels("https://a.io#x#y #ok"), strings(&["ok"]));
}

#[test]
fn preserves_unicode_and_underscore_dash_combos() {
    assert_eq!(parse_labels("#项目_1 #A-B #测试-2"), strings(&["项目_1", "A-B", "测试-2"]));
}

#[test]
fn labels_stop_at_sixty_characters() {
    let long = "a".repeat(61);
    assert_eq!(parse_labels(&format!("#{}", long)), vec!["a".repeat(60)]);
    let exact = "b".repeat(60);
    assert_eq!(parse_labels(&format!("#{}", exact)), vec![exact.clone()]);
}

#[test]
fn labels_never_repeat_and_are_written_with_a_hash() {
    let detail = "#x #y #x #y #z see http://h.io/#x";
    let labels = parse_labels(detail);
    assert_eq!(labels, strings(&["x", "y", "z"]));
    for l in &labels {
        assert!(detail.contains(&format!("#{}", l)));
    }
}

#[test]
fn hash_directly_after_a_word_is_still_a_label() {
    assert_eq!(parse_labels("abc#def"), strings(&["def"]));
}
