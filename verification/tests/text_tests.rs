use crush::text::{tokenize, trim_line};

#[test]
fn test_tokenize_splits_on_whitespace_runs() {
    assert_eq!(tokenize("ls | grep test"), vec!["ls", "|", "grep", "test"]);
    assert_eq!(tokenize("  ls   -l\t> ls.txt "), vec!["ls", "-l", ">", "ls.txt"]);
    assert_eq!(tokenize("sort<x"), vec!["sort<x"]);
}

#[test]
fn test_tokenize_empty_and_blank_lines() {
    assert_eq!(tokenize("").len(), 0);
    assert_eq!(tokenize("   \t  ").len(), 0);
}

#[test]
fn test_trim_line() {
    assert_eq!(trim_line("  ls -l  ").as_str(), "ls -l");
    assert_eq!(trim_line("exit\n").as_str(), "exit");
    assert_eq!(trim_line("").as_str(), "");
    assert_eq!(trim_line(" \t ").as_str(), "");
    assert_eq!(trim_line("no-edges").as_str(), "no-edges");
}
