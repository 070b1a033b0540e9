use pbanki::text::{
    paginate_text, remove_double_brackets, remove_zero_digits, strip_directives_and_paginate,
};

#[test]
fn paginate_example_budget_ten() {
    let got = paginate_text("The quick brown fox jumps", 10);
    assert_eq!(got, vec!["The quick", "brown fox", "jumps"]);
}

#[test]
fn paginate_empty_text_gives_one_empty_page() {
    assert_eq!(paginate_text("", 20), vec![String::new()]);
}

#[test]
fn paginate_whitespace_only_gives_one_empty_page() {
    assert_eq!(paginate_text("  \t\n  ", 20), vec![String::new()]);
}

#[test]
fn paginate_single_over_budget_word_stands_alone() {
    assert_eq!(paginate_text("abcdefghijk", 5), vec!["abcdefghijk"]);
}

#[test]
fn paginate_over_budget_word_among_others() {
    let got = paginate_text("ab abcdefghijk cd", 5);
    assert_eq!(got, vec!["ab", "abcdefghijk", "cd"]);
}

#[test]
fn paginate_never_splits_words() {
    let got = paginate_text("aa bb cc", 2);
    assert_eq!(got, vec!["aa", "bb", "cc"]);
}

#[test]
fn paginate_fills_page_to_budget_exactly() {
    let got = paginate_text("ab cd ef", 5);
    assert_eq!(got, vec!["ab cd", "ef"]);
}

#[test]
fn paginate_zero_budget_one_word_per_page() {
    assert_eq!(paginate_text("a b c", 0), vec!["a", "b", "c"]);
}

#[test]
fn paginate_collapses_runs_of_whitespace() {
    let got = paginate_text("  one\t\ttwo \n three  ", 20);
    assert_eq!(got, vec!["one two three"]);
}

#[test]
fn paginate_counts_characters_not_bytes() {
    let got = paginate_text("\u{e9}\u{e9} \u{e9}\u{e9}", 2);
    assert_eq!(got, vec!["\u{e9}\u{e9}", "\u{e9}\u{e9}"]);
}

#[test]
fn paginate_preserves_every_word_in_order() {
    let text = "one two three four five six seven eight nine ten";
    let got = paginate_text(text, 9);
    let rejoined = got.join(" ");
    let original: Vec<&str> = text.split_whitespace().collect();
    let reread: Vec<&str> = rejoined.split_whitespace().collect();
    assert_eq!(original, reread);
}

#[test]
fn remove_brackets_example() {
    assert_eq!(remove_double_brackets("a[[hidden]]b"), "ab");
}

#[test]
fn remove_brackets_keeps_lone_brackets() {
    assert_eq!(remove_double_brackets("a[b]c"), "a[b]c");
    assert_eq!(remove_double_brackets("[ ["), "[ [");
    assert_eq!(remove_double_brackets("a]]b"), "a]]b");
}

#[test]
fn remove_brackets_unclosed_span_drops_rest() {
    assert_eq!(remove_double_brackets("a[[bc"), "a");
}

#[test]
fn remove_brackets_two_spans() {
    assert_eq!(remove_double_brackets("[[a]]x[[b]]y"), "xy");
}

#[test]
fn remove_brackets_lone_closer_inside_span() {
    assert_eq!(remove_double_brackets("[[a]b]]c"), "c");
}

#[test]
fn remove_brackets_empty_input() {
    assert_eq!(remove_double_brackets(""), "");
}

#[test]
fn strip_and_paginate_strips_directives_first() {
    let got = strip_directives_and_paginate("a[[hidden]]b", true, 10);
    assert_eq!(got, vec!["ab"]);
}

#[test]
fn strip_and_paginate_can_leave_directives_alone() {
    let got = strip_directives_and_paginate("a[[hidden]]b", false, 20);
    assert_eq!(got, vec!["a[[hidden]]b"]);
}

#[test]
fn strip_and_paginate_same_output_as_pre_stripped_text() {
    let with_spans = "alpha [[one]]beta gamma[[two]] delta";
    let plain = "alpha beta gamma delta";
    let a = strip_directives_and_paginate(with_spans, true, 8);
    let b = strip_directives_and_paginate(plain, true, 8);
    assert_eq!(a, b);
}

#[test]
fn remove_zero_digits_trims_count_label() {
    assert_eq!(remove_zero_digits("0 cards due"), " cards due");
    assert_eq!(remove_zero_digits("10 and 20"), "1 and 2");
    assert_eq!(remove_zero_digits("no zeros"), "no zeros");
}
