use line_tally::aggregate::StatisticsManager;
use line_tally::classify::extension;
use line_tally::lines::LineCounter;
use line_tally::registry::Registry;
use line_tally::stats::FileStats;

#[test]
fn two_markdown_files_fold_into_one_entry() {
    let mut m = StatisticsManager::new();
    assert_eq!(m.process_file("a.md", "x\n"), Ok(true));
    assert_eq!(m.process_file("b.md", "\n\n"), Ok(true));
    let s = m.language_stats("Markdown").unwrap();
    assert_eq!(s.file_count, 2);
    assert_eq!(s.stats.code, 1);
    assert_eq!(s.stats.blanks, 2);
    assert_eq!(s.stats.lines, 3);
    assert_eq!(s.stats.comments, 0);
    assert_eq!(m.total_files(), 2);
}

#[test]
fn unregistered_extension_is_excluded() {
    let mut m = StatisticsManager::new();
    assert_eq!(m.process_file("notes.txt", "hello\n"), Ok(false));
    assert_eq!(m.total_files(), 0);
    assert!(m.entries().is_empty());
}

#[test]
fn unclassified_files_change_nothing() {
    let mut m = StatisticsManager::new();
    assert_eq!(m.process_file("doc.md", "a\n"), Ok(true));
    for path in ["prog.bin", "Makefile", ".md", "dir/.gitignore", "x.md/readme"] {
        assert_eq!(m.process_file(path, "z\n\n"), Ok(false));
    }
    assert_eq!(m.total_files(), 1);
    assert_eq!(m.entries().len(), 1);
    let s = m.language_stats("Markdown").unwrap();
    assert_eq!(s.file_count, 1);
    assert_eq!(s.stats.lines, 1);
}

#[test]
fn order_of_files_does_not_matter() {
    let files = [("a.md", "x\n\ny\n"), ("b.md", ""), ("c.md", "\n")];
    let mut forward = StatisticsManager::new();
    for (p, c) in files {
        assert_eq!(forward.process_file(p, c), Ok(true));
    }
    let mut backward = StatisticsManager::new();
    for (p, c) in files.iter().rev() {
        assert_eq!(backward.process_file(p, c), Ok(true));
    }
    let f = forward.language_stats("Markdown").unwrap();
    let b = backward.language_stats("Markdown").unwrap();
    assert_eq!(f, b);
    assert_eq!(f.file_count, 3);
    assert_eq!(f.stats, FileStats { lines: 4, code: 2, comments: 0, blanks: 2 });
}

#[test]
fn file_count_is_number_of_files_of_language() {
    let mut reg = Registry::standard();
    reg.register("txt", "Text", LineCounter::PlainText);
    let mut m = StatisticsManager::with_registry(reg);
    assert_eq!(m.process_file("a.md", "1\n"), Ok(true));
    assert_eq!(m.process_file("b.txt", "1\n2\n"), Ok(true));
    assert_eq!(m.process_file("c.md", ""), Ok(true));
    assert_eq!(m.process_file("d.rs", "fn f() {}\n"), Ok(false));
    assert_eq!(m.language_stats("Markdown").unwrap().file_count, 2);
    assert_eq!(m.language_stats("Text").unwrap().file_count, 1);
    assert_eq!(m.language_stats("Text").unwrap().stats.lines, 2);
    assert!(m.language_stats("Rust").is_none());
    assert_eq!(m.total_files(), 3);
    assert_eq!(m.entries().len(), 2);
}

#[test]
fn language_names_are_case_sensitive() {
    let mut m = StatisticsManager::new();
    assert_eq!(m.process_file("a.md", "x"), Ok(true));
    assert!(m.language_stats("markdown").is_none());
    assert_eq!(m.process_file("A.MD", "x"), Ok(false));
}

#[test]
fn later_registration_replaces_earlier() {
    let mut reg = Registry::empty();
    reg.register("md", "Notes", LineCounter::PlainText);
    reg.register("md", "Markdown", LineCounter::PlainText);
    let b = reg.resolve(&"md".to_string()).unwrap();
    assert_eq!(b.language, "Markdown");
    assert!(reg.resolve(&"txt".to_string()).is_none());
}

#[test]
fn empty_registry_counts_nothing() {
    let mut m = StatisticsManager::with_registry(Registry::empty());
    assert_eq!(m.process_file("a.md", "x\n"), Ok(false));
    assert_eq!(m.total_files(), 0);
}

#[test]
fn classify_reports_language() {
    let m = StatisticsManager::new();
    assert_eq!(m.classify("docs/guide.md"), Some("Markdown".to_string()));
    assert_eq!(m.classify("docs/guide.rs"), None);
    assert_eq!(m.classify("docs/md"), None);
}

#[test]
fn extension_follows_last_dot_of_file_name() {
    assert_eq!(extension("a/b/c.tar.gz"), Some("gz".to_string()));
    assert_eq!(extension("readme.md"), Some("md".to_string()));
    assert_eq!(extension("a.b/c"), None);
    assert_eq!(extension(".bashrc"), None);
    assert_eq!(extension("dir/.profile.md"), Some("md".to_string()));
    assert_eq!(extension("name."), Some(String::new()));
    assert_eq!(extension("noext"), None);
    assert_eq!(extension(""), None);
}

#[test]
fn entries_hold_language_totals() {
    let mut m = StatisticsManager::new();
    assert_eq!(m.process_file("a.md", "x\ny\n\n"), Ok(true));
    let e = m.entries();
    assert_eq!(e.len(), 1);
    assert_eq!(e[0].language, "Markdown");
    assert_eq!(e[0].stats.stats, FileStats { lines: 3, code: 2, comments: 0, blanks: 1 });
}

#[test]
fn entries_are_sorted_by_language_name() {
    let mut reg = Registry::standard();
    reg.register("txt", "Text", LineCounter::PlainText);
    reg.register("adoc", "AsciiDoc", LineCounter::PlainText);
    reg.register("rst", "Zest", LineCounter::PlainText);
    reg.register("org", "Org", LineCounter::PlainText);
    let mut m = StatisticsManager::with_registry(reg);
    for path in ["a.txt", "b.rst", "c.md", "d.adoc", "e.org", "f.md", "g.txt"] {
        assert_eq!(m.process_file(path, "x\n"), Ok(true));
    }
    let names: Vec<&str> = m.entries().iter().map(|e| e.language.as_str()).collect();
    assert_eq!(names, vec!["AsciiDoc", "Markdown", "Org", "Text", "Zest"]);
    assert_eq!(m.total_files(), 7);
}

#[test]
fn reprocessing_a_file_counts_it_twice() {
    let mut m = StatisticsManager::new();
    assert_eq!(m.process_file("a.md", "x\n\n"), Ok(true));
    assert_eq!(m.process_file("a.md", "x\n\n"), Ok(true));
    let s = m.language_stats("Markdown").unwrap();
    assert_eq!(s.file_count, 2);
    assert_eq!(s.stats.lines, 4);
}
