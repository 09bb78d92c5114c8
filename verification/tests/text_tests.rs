use tasklog::classify::classify_line;
use tasklog::classify::LineKind;
use tasklog::text::find_char_in;
use tasklog::text::get_text_after;
use tasklog::text::get_text_between;
use tasklog::text::trim_of;

#[test]
fn between_plain_pair() {
    assert_eq!(get_text_between("a [proj] b", '[', ']'), "proj");
}

#[test]
fn between_trims_inner_spaces() {
    assert_eq!(get_text_between("x ( 30 ) y", '(', ')'), "30");
}

#[test]
fn between_missing_left_starts_after_first_char() {
    assert_eq!(get_text_between("abc]def", '[', ']'), "bc");
}

#[test]
fn between_missing_right_runs_to_line_end() {
    assert_eq!(get_text_between("a [rest of line", '[', ']'), "rest of line");
}

#[test]
fn between_crossed_pair_is_empty() {
    assert_eq!(get_text_between("a ) b ( c", '(', ')'), "");
}

#[test]
fn after_takes_trimmed_remainder() {
    assert_eq!(get_text_after("name\u{FF1A}  some notes  ", '\u{FF1A}'), "some notes");
}

#[test]
fn after_first_occurrence_only() {
    assert_eq!(get_text_after("a\u{FF1A}b\u{FF1A}c", '\u{FF1A}'), "b\u{FF1A}c");
}

#[test]
fn after_missing_separator_is_empty() {
    assert_eq!(get_text_after("no separator here", '\u{FF1A}'), "");
}

#[test]
fn trim_strips_both_ends() {
    assert_eq!(trim_of("  a b \t"), "a b");
    assert_eq!(trim_of("   "), "");
    assert_eq!(trim_of("x"), "x");
}

#[test]
fn find_first_occurrence() {
    assert_eq!(find_char_in("abcabc", 'b'), Some(1));
    assert_eq!(find_char_in("abc", 'z'), None);
    assert_eq!(find_char_in("", 'a'), None);
}

#[test]
fn classify_header_lines() {
    assert_eq!(classify_line("- a task"), LineKind::TaskHeader);
    assert_eq!(classify_line("- "), LineKind::TaskHeader);
}

#[test]
fn classify_subfield_lines() {
    assert_eq!(classify_line("  - 09:00"), LineKind::SubField);
    assert_eq!(classify_line("  -"), LineKind::SubField);
    assert_eq!(classify_line("  -tight"), LineKind::SubField);
}

#[test]
fn classify_ignored_lines() {
    assert_eq!(classify_line(""), LineKind::Ignored);
    assert_eq!(classify_line("-"), LineKind::Ignored);
    assert_eq!(classify_line("-no space"), LineKind::Ignored);
    assert_eq!(classify_line(" - one space"), LineKind::Ignored);
    assert_eq!(classify_line("plain text"), LineKind::Ignored);
}
