use crush::parser::parse_user_input;
use crush::shell::{change_dir_target, classify_line, is_cd_pipeline, LineKind};

#[test]
fn test_classify_line() {
    assert_eq!(classify_line(""), LineKind::Empty);
    assert_eq!(classify_line("exit"), LineKind::Exit);
    assert_eq!(classify_line("exits"), LineKind::Command);
    assert_eq!(classify_line("exi"), LineKind::Command);
    assert_eq!(classify_line("ls -l"), LineKind::Command);
}

#[test]
fn test_is_cd_pipeline() {
    assert!(is_cd_pipeline(&parse_user_input(vec!["cd", "/tmp"])));
    assert!(is_cd_pipeline(&parse_user_input(vec!["cd"])));
    assert!(!is_cd_pipeline(&parse_user_input(vec!["ls"])));
    assert!(!is_cd_pipeline(&parse_user_input(vec!["cde", "x"])));
    assert!(!is_cd_pipeline(&parse_user_input(Vec::new())));
    // A first stage with no argument tokens is not the built-in.
    assert!(!is_cd_pipeline(&parse_user_input(vec!["<", "f"])));
}

#[test]
fn test_change_dir_requires_exactly_one_argument() {
    // `cd` alone, or with two or more arguments, changes nothing.
    let commands = parse_user_input(vec!["cd"]);
    assert_eq!(change_dir_target(&commands[0]), None);

    let commands = parse_user_input(vec!["cd", "a", "b"]);
    assert_eq!(change_dir_target(&commands[0]), None);

    let commands = parse_user_input(vec!["cd", "/tmp"]);
    assert_eq!(change_dir_target(&commands[0]), Some(&"/tmp".to_owned()));
}

#[test]
fn test_change_dir_ignores_redirections_on_the_stage() {
    // Redirection marks on the `cd` stage do not count as arguments.
    let commands = parse_user_input(vec!["cd", "/tmp", ">", "out.txt"]);
    assert_eq!(change_dir_target(&commands[0]), Some(&"/tmp".to_owned()));
}
