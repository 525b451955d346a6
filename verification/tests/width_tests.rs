use tvguide::width::{
    center_to_width, display_width, measure_char, pad_to_width, pictograph, spaces,
    strip_pictographs, truncate_to_width,
};

fn chars(s: &str) -> Vec<char> {
    s.chars().collect()
}

fn text(v: &[char]) -> String {
    v.iter().collect()
}

#[test]
fn char_widths_narrow_and_wide() {
    assert_eq!(measure_char('a'), 1);
    assert_eq!(measure_char('0'), 1);
    assert_eq!(measure_char(' '), 1);
    // Hiragana, CJK ideograph, fullwidth Latin: two cells each.
    assert_eq!(measure_char('\u{3042}'), 2);
    assert_eq!(measure_char('\u{4e2d}'), 2);
    assert_eq!(measure_char('\u{ff21}'), 2);
}

#[test]
fn pictograph_classification() {
    assert!(pictograph('\u{2600}'));
    assert!(pictograph('\u{1f600}'));
    assert!(pictograph('\u{200d}'));
    assert!(!pictograph('a'));
    assert!(!pictograph('\u{4e2d}'));
}

#[test]
fn display_width_counts_cells_not_chars() {
    assert_eq!(display_width(&chars("abc")), 3);
    assert_eq!(display_width(&chars("a\u{3042}b")), 4);
    assert_eq!(display_width(&chars("")), 0);
}

#[test]
fn strip_removes_pictographs_and_width_excludes_them() {
    let v = chars("a\u{1f600}b\u{2600}c");
    let stripped = strip_pictographs(&v);
    assert_eq!(text(&stripped), "abc");
    assert_eq!(display_width(&stripped), 3);
}

#[test]
fn strip_keeps_plain_text_unchanged() {
    let v = chars("News 06:00 \u{3042}");
    let stripped = strip_pictographs(&v);
    assert_eq!(text(&stripped), "News 06:00 \u{3042}");
}

#[test]
fn truncate_exact_ascii() {
    let t = truncate_to_width(&chars("abcdef"), 3);
    assert_eq!(text(&t), "abc");
}

#[test]
fn truncate_stops_before_wide_char_that_overflows() {
    // 'a' uses one cell; the wide char needs two but only one is left.
    let t = truncate_to_width(&chars("a\u{3042}b"), 2);
    assert_eq!(text(&t), "a");
    let t3 = truncate_to_width(&chars("a\u{3042}b"), 3);
    assert_eq!(text(&t3), "a\u{3042}");
}

#[test]
fn truncate_width_never_exceeds_budget() {
    let samples = ["", "abc", "\u{3042}\u{3044}\u{3046}", "a\u{4e2d}b\u{4e2d}c", "hello world"];
    for s in samples.iter() {
        for w in 0..8usize {
            let t = truncate_to_width(&chars(s), w);
            assert!(display_width(&t) <= w);
            // A prefix: the input starts with the truncation.
            let input = chars(s);
            assert_eq!(&input[..t.len()], &t[..]);
        }
    }
}

#[test]
fn pad_fills_to_exact_width() {
    let p = pad_to_width(&chars("ab"), 5);
    assert_eq!(text(&p), "ab   ");
    assert_eq!(display_width(&p), 5);
}

#[test]
fn pad_truncates_overlong_content() {
    // Three wide chars measure six cells; in five cells only two fit,
    // and one space fills the remainder.
    let p = pad_to_width(&chars("\u{3042}\u{3044}\u{3046}"), 5);
    assert_eq!(text(&p), "\u{3042}\u{3044} ");
    assert_eq!(display_width(&p), 5);
}

#[test]
fn center_puts_odd_leftover_on_the_right() {
    let c = center_to_width(&chars("ab"), 5);
    assert_eq!(text(&c), " ab  ");
    assert_eq!(display_width(&c), 5);
}

#[test]
fn center_even_leftover_splits_equally() {
    let c = center_to_width(&chars("ab"), 6);
    assert_eq!(text(&c), "  ab  ");
}

#[test]
fn spaces_builds_space_runs() {
    assert_eq!(text(&spaces(4)), "    ");
    assert_eq!(text(&spaces(0)), "");
}
