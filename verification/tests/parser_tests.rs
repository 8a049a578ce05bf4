use crush::parser::{is_operator, parse_user_input};
use crush::roundtrip::reconstruct_tokens;

#[test]
fn test_piped_parse_user_input() {
    let user_input_test: &str = "ls | grep test";

    let tokens: Vec<&str> = user_input_test.split_whitespace().collect();
    let commands = parse_user_input(tokens);

    assert_eq!(commands.len(), 2);
    assert_eq!(commands[0].tokens, vec!["ls"]);
    assert_eq!(commands[0].piped_output, true);
    assert_eq!(commands[0].piped_input, false);
    assert_eq!(commands[1].tokens, vec!["grep", "test"]);
    assert_eq!(commands[1].piped_output, false);
    assert_eq!(commands[1].piped_input, true);
}

#[test]
fn test_directed_output_parse_user_input() {
    let user_input_test: &str = "ls -l > ls.txt";

    let tokens: Vec<&str> = user_input_test.split_whitespace().collect();
    let commands = parse_user_input(tokens);

    assert_eq!(commands.len(), 1);
    assert_eq!(commands[0].tokens, vec!["ls", "-l"]);
    assert_eq!(commands[0].directed_input, false);
    assert_eq!(commands[0].input_filename, None);
    assert_eq!(commands[0].directed_output, true);
    assert_eq!(commands[0].output_filename, Some("ls.txt".to_owned()));
    assert_eq!(commands[0].piped_output, false);
    assert_eq!(commands[0].piped_input, false);
}

#[test]
fn test_directed_input_parse_user_input() {
    let user_input_test: &str = "sort < unsorted.txt";

    let tokens: Vec<&str> = user_input_test.split_whitespace().collect();
    let commands = parse_user_input(tokens);

    assert_eq!(commands.len(), 1);
    assert_eq!(commands[0].tokens, vec!["sort"]);
    assert_eq!(commands[0].directed_input, true);
    assert_eq!(commands[0].input_filename, Some("unsorted.txt".to_owned()));
    assert_eq!(commands[0].directed_output, false);
    assert_eq!(commands[0].output_filename, None);
    assert_eq!(commands[0].piped_output, false);
    assert_eq!(commands[0].piped_input, false);
}

#[test]
fn test_both_redirections_parse_user_input() {
    let user_input_test: &str = "sort < a.txt > b.txt";

    let tokens: Vec<&str> = user_input_test.split_whitespace().collect();
    let commands = parse_user_input(tokens);

    assert_eq!(commands.len(), 1);
    assert_eq!(commands[0].tokens, vec!["sort"]);
    assert_eq!(commands[0].directed_input, true);
    assert_eq!(commands[0].input_filename, Some("a.txt".to_owned()));
    assert_eq!(commands[0].directed_output, true);
    assert_eq!(commands[0].output_filename, Some("b.txt".to_owned()));
    assert_eq!(commands[0].piped_output, false);
    assert_eq!(commands[0].piped_input, false);
}

#[test]
fn test_no_operators_single_command() {
    let tokens: Vec<&str> = "grep -rn pattern file.txt".split_whitespace().collect();
    let commands = parse_user_input(tokens);

    assert_eq!(commands.len(), 1);
    assert_eq!(commands[0].tokens, vec!["grep", "-rn", "pattern", "file.txt"]);
    assert_eq!(commands[0].piped_input, false);
    assert_eq!(commands[0].piped_output, false);
    assert_eq!(commands[0].directed_input, false);
    assert_eq!(commands[0].directed_output, false);
    assert_eq!(commands[0].input_filename, None);
    assert_eq!(commands[0].output_filename, None);
}

#[test]
fn test_empty_tokens_parse_to_no_commands() {
    let commands = parse_user_input(Vec::new());
    assert_eq!(commands.len(), 0);
}

#[test]
fn test_dangling_operators_do_not_panic() {
    // A redirection with no filename keeps the mark and no filename.
    let commands = parse_user_input(vec!["ls", ">"]);
    assert_eq!(commands.len(), 1);
    assert_eq!(commands[0].directed_output, true);
    assert_eq!(commands[0].output_filename, None);

    // An operator right after a redirection is not taken as a filename.
    let commands = parse_user_input(vec!["cmd", ">", "|"]);
    assert_eq!(commands.len(), 1);
    assert_eq!(commands[0].directed_output, true);
    assert_eq!(commands[0].output_filename, None);
    assert_eq!(commands[0].piped_output, true);

    // A trailing pipe leaves the mark with no following stage.
    let commands = parse_user_input(vec!["ls", "|"]);
    assert_eq!(commands.len(), 1);
    assert_eq!(commands[0].piped_output, true);

    // A leading operator yields an empty-argument first descriptor.
    let commands = parse_user_input(vec!["|", "wc"]);
    assert_eq!(commands.len(), 2);
    assert_eq!(commands[0].tokens.len(), 0);
    assert_eq!(commands[0].piped_output, true);
    assert_eq!(commands[1].tokens, vec!["wc"]);
    assert_eq!(commands[1].piped_input, true);
}

#[test]
fn test_is_operator() {
    assert!(is_operator("|"));
    assert!(is_operator(">"));
    assert!(is_operator("<"));
    assert!(!is_operator("ls"));
    assert!(!is_operator(""));
    assert!(!is_operator(">>"));
    assert!(!is_operator("a|b"));
}

#[test]
fn test_reconstruct_tokens_of_pipeline() {
    let commands = parse_user_input(vec!["ls", "-l", "|", "grep", "test", ">", "out.txt"]);
    let rebuilt = reconstruct_tokens(&commands);
    assert_eq!(rebuilt, vec!["ls", "-l", "|", "grep", "test", ">", "out.txt"]);
}

#[test]
fn test_reparse_of_reconstruction_is_identity() {
    let lines = [
        "ls | grep test",
        "ls -l > ls.txt",
        "sort < unsorted.txt",
        "sort < a.txt > b.txt",
        "a b c",
        "ls |",
        "cmd > |",
        "| wc",
        "< in.txt",
        "> a < b sort | uniq | wc -l",
    ];
    for line in lines {
        let tokens: Vec<&str> = line.split_whitespace().collect();
        let commands = parse_user_input(tokens);
        let rebuilt = reconstruct_tokens(&commands);
        let rebuilt_refs: Vec<&str> = rebuilt.iter().map(|s| s.as_str()).collect();
        let reparsed = parse_user_input(rebuilt_refs);
        assert_eq!(commands, reparsed);
    }
}
