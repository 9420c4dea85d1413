use task_manager::input::{parse_priority, parse_tags, priority_or_zero, split_commas};

fn strings(list: &[&str]) -> Vec<String> {
    list.iter().map(|s| s.to_string()).collect()
}

#[test]
fn priority_is_trimmed_and_parsed() {
    assert_eq!(parse_priority(" 7 \n"), 7);
    assert_eq!(parse_priority("42"), 42);
    assert_eq!(parse_priority("+3"), 3);
    assert_eq!(parse_priority("4294967295"), u32::MAX);
}

#[test]
fn priority_defaults_to_zero() {
    assert_eq!(parse_priority(""), 0);
    assert_eq!(parse_priority("high"), 0);
    assert_eq!(parse_priority("-1"), 0);
    assert_eq!(parse_priority("4294967296"), 0);
    assert_eq!(parse_priority("+"), 0);
    assert_eq!(parse_priority("1 2"), 0);
}

#[test]
fn priority_untrimmed_text_is_not_a_number() {
    assert_eq!(priority_or_zero(" 7"), 0);
    assert_eq!(priority_or_zero("007"), 7);
}

#[test]
fn tags_are_trimmed_and_empty_ones_dropped() {
    assert_eq!(parse_tags(" work , urgent,,home \n"), strings(&["work", "urgent", "home"]));
    assert_eq!(parse_tags("   "), Vec::<String>::new());
    assert_eq!(parse_tags(",,"), Vec::<String>::new());
    assert_eq!(parse_tags("a,a"), strings(&["a", "a"]));
}

#[test]
fn split_keeps_every_piece() {
    assert_eq!(split_commas(""), strings(&[""]));
    assert_eq!(split_commas("a, b,,"), strings(&["a", " b", "", ""]));
    assert_eq!(split_commas("é,ü"), strings(&["é", "ü"]));
}
