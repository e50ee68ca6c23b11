use line_tally::lines::{process_markdown_file, LineCounter};
use line_tally::stats::{FileStats, LanguageStats};

fn stats(lines: u64, code: u64, comments: u64, blanks: u64) -> FileStats {
    FileStats { lines, code, comments, blanks }
}

#[test]
fn mixed_text_counts_code_and_blanks() {
    assert_eq!(process_markdown_file("a\n\nb\n"), stats(3, 2, 0, 1));
}

#[test]
fn empty_text_counts_nothing() {
    assert_eq!(process_markdown_file(""), stats(0, 0, 0, 0));
}

#[test]
fn last_line_without_terminator_counts() {
    assert_eq!(process_markdown_file("a\nb"), stats(2, 2, 0, 0));
}

#[test]
fn crlf_endings_add_no_blank_line() {
    assert_eq!(process_markdown_file("a\r\n\r\nb\r\n"), stats(3, 2, 0, 1));
}

#[test]
fn lone_carriage_return_at_end_is_code() {
    assert_eq!(process_markdown_file("a\n\r"), stats(2, 2, 0, 0));
}

#[test]
fn whitespace_line_is_code() {
    assert_eq!(process_markdown_file("  \n\t\n"), stats(2, 2, 0, 0));
}

#[test]
fn only_line_feeds_are_all_blank() {
    assert_eq!(process_markdown_file("\n\n\n\n"), stats(4, 0, 0, 4));
}

#[test]
fn non_empty_lines_are_all_code() {
    assert_eq!(process_markdown_file("# title\nbody\nmore"), stats(3, 3, 0, 0));
}

#[test]
fn multibyte_text_counts_lines() {
    assert_eq!(process_markdown_file("é\n\n日本\n"), stats(3, 2, 0, 1));
}

#[test]
fn counts_always_add_up() {
    for text in ["", "x", "\n", "a\n\nb", "\r\n\r\n", "a\rb\n\n\nc\n"] {
        let s = process_markdown_file(text);
        assert_eq!(s.lines, s.code + s.comments + s.blanks);
    }
}

#[test]
fn plain_text_counter_matches_function() {
    let c = LineCounter::PlainText;
    assert_eq!(c.count("x\n\n"), process_markdown_file("x\n\n"));
}

#[test]
fn file_stats_add_is_field_wise() {
    let mut a = stats(3, 2, 0, 1);
    a.add(stats(5, 1, 2, 2));
    assert_eq!(a, stats(8, 3, 2, 3));
}

#[test]
fn language_stats_add_counts_one_file() {
    let mut l = LanguageStats::zero();
    l.add(stats(2, 1, 0, 1));
    l.add(stats(1, 1, 0, 0));
    assert_eq!(l.file_count, 2);
    assert_eq!(l.stats, stats(3, 2, 0, 1));
}

#[test]
fn defaults_are_zero() {
    assert_eq!(FileStats::default(), stats(0, 0, 0, 0));
    assert_eq!(LanguageStats::default().file_count, 0);
}
