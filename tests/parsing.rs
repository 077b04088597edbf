use minishell::command::{Command, CommandChain};
use minishell::exit_code::parse_exit_code;
use minishell::parser::{parse_cmds, parse_command, ParseError};

fn cmd(words: &[&str]) -> Command {
    Command {
        bin: words[0].to_string(),
        args: words[1..].iter().map(|w| w.to_string()).collect(),
    }
}

#[test]
fn command_splits_on_whitespace() {
    assert_eq!(parse_command("  ls   -la\t/tmp "), Ok(cmd(&["ls", "-la", "/tmp"])));
    assert_eq!(parse_command("echo"), Ok(cmd(&["echo"])));
    assert_eq!(parse_command("a\u{3000}b\u{a0}c"), Ok(cmd(&["a", "b", "c"])));
}

#[test]
fn command_without_words_is_rejected() {
    assert_eq!(parse_command(""), Err(ParseError::NoCommand));
    assert_eq!(parse_command(" \t "), Err(ParseError::NoCommand));
}

#[test]
fn sequence_keeps_order() {
    let chains = parse_cmds("echo 1; echo 2").unwrap();
    assert_eq!(
        chains,
        vec![
            CommandChain::Command(cmd(&["echo", "1"])),
            CommandChain::Command(cmd(&["echo", "2"])),
        ]
    );
}

#[test]
fn pipe_gives_two_stages() {
    let chains = parse_cmds("echo hi | wc -c").unwrap();
    assert_eq!(chains, vec![CommandChain::Piped(cmd(&["echo", "hi"]), cmd(&["wc", "-c"]))]);
}

#[test]
fn three_stages_are_rejected() {
    assert_eq!(
        parse_cmds("a | b | c"),
        Err(ParseError::UnsupportedPipeline("a | b | c".to_string()))
    );
    assert_eq!(
        parse_cmds("echo ok; a | b | c"),
        Err(ParseError::UnsupportedPipeline(" a | b | c".to_string()))
    );
}

#[test]
fn first_error_wins() {
    assert_eq!(parse_cmds("echo a;; a | b | c"), Err(ParseError::NoCommand));
}

#[test]
fn blank_line_has_no_elements() {
    assert_eq!(parse_cmds(""), Ok(vec![]));
    assert_eq!(parse_cmds("   \t "), Ok(vec![]));
}

#[test]
fn trailing_separator_is_dropped() {
    assert_eq!(parse_cmds("echo 1;"), Ok(vec![CommandChain::Command(cmd(&["echo", "1"]))]));
    assert_eq!(parse_cmds("echo 1;  "), Ok(vec![CommandChain::Command(cmd(&["echo", "1"]))]));
}

#[test]
fn empty_segments_and_stages_are_rejected() {
    assert_eq!(parse_cmds(";"), Err(ParseError::NoCommand));
    assert_eq!(parse_cmds("echo 1;;echo 2"), Err(ParseError::NoCommand));
    assert_eq!(parse_cmds("echo |"), Err(ParseError::NoCommand));
    assert_eq!(parse_cmds("| wc"), Err(ParseError::NoCommand));
}

#[test]
fn history_text_of_commands() {
    assert_eq!(cmd(&["echo", "a"]).text(), "echo a");
    assert_eq!(cmd(&["ls", "-l", "/"]).text(), "ls -l /");
    assert_eq!(cmd(&["history"]).text(), "history ");
}

#[test]
fn exit_codes() {
    assert_eq!(parse_exit_code("3"), Some(3));
    assert_eq!(parse_exit_code("0"), Some(0));
    assert_eq!(parse_exit_code("-12"), Some(-12));
    assert_eq!(parse_exit_code("+7"), Some(7));
    assert_eq!(parse_exit_code("2147483647"), Some(2147483647));
    assert_eq!(parse_exit_code("-2147483648"), Some(-2147483648));
    assert_eq!(parse_exit_code("2147483648"), None);
    assert_eq!(parse_exit_code("99999999999"), None);
    assert_eq!(parse_exit_code(""), None);
    assert_eq!(parse_exit_code("-"), None);
    assert_eq!(parse_exit_code("+"), None);
    assert_eq!(parse_exit_code("3x"), None);
    assert_eq!(parse_exit_code(" 3"), None);
}
