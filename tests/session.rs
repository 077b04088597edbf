use minishell::command::Command;
use minishell::parser::parse_cmds;
use minishell::session::{
    ArgumentError, CommandRunner, ElementError, ExecError, LineRun, Reply, Request,
};

fn cmd(words: &[&str]) -> Command {
    Command {
        bin: words[0].to_string(),
        args: words[1..].iter().map(|w| w.to_string()).collect(),
    }
}

fn start(line: &str) -> LineRun {
    LineRun::new(parse_cmds(line).unwrap())
}

fn ok(bytes: &str) -> Reply<String> {
    Reply::Output(Ok(bytes.as_bytes().to_vec()))
}

#[test]
fn single_command_output_is_printed_verbatim() {
    let mut runner = CommandRunner::new("/home".to_string());
    let mut line = start("echo X");
    assert_eq!(runner.step(&mut line, Reply::Done), Request::Execute(cmd(&["echo", "X"]), None));
    assert_eq!(runner.step(&mut line, ok("X\n")), Request::Print(b"X\n".to_vec()));
    assert_eq!(runner.step(&mut line, Reply::Done), Request::Finished);
}

#[test]
fn sequence_prints_in_order() {
    let mut runner = CommandRunner::new("/".to_string());
    let mut line = start("echo 1; echo 2");
    assert_eq!(runner.step(&mut line, Reply::Done), Request::Execute(cmd(&["echo", "1"]), None));
    assert_eq!(runner.step(&mut line, ok("1\n")), Request::Print(b"1\n".to_vec()));
    assert_eq!(runner.step(&mut line, Reply::Done), Request::Execute(cmd(&["echo", "2"]), None));
    assert_eq!(runner.step(&mut line, ok("2\n")), Request::Print(b"2\n".to_vec()));
    assert_eq!(runner.step(&mut line, Reply::Done), Request::Finished);
}

#[test]
fn pipe_feeds_first_output_to_second() {
    let mut runner = CommandRunner::new("/".to_string());
    let mut line = start("echo hi | wc -c");
    assert_eq!(runner.step(&mut line, Reply::Done), Request::Execute(cmd(&["echo", "hi"]), None));
    assert_eq!(
        runner.step(&mut line, ok("hi\n")),
        Request::Execute(cmd(&["wc", "-c"]), Some(b"hi\n".to_vec()))
    );
    assert_eq!(runner.step(&mut line, ok("3\n")), Request::Print(b"3\n".to_vec()));
    assert_eq!(runner.step(&mut line, Reply::Done), Request::Finished);
    assert!(runner.history().is_empty());
}

#[test]
fn failed_first_stage_abandons_the_line() {
    let mut runner = CommandRunner::new("/".to_string());
    let mut line = start("nope | wc; echo later");
    assert_eq!(runner.step(&mut line, Reply::Done), Request::Execute(cmd(&["nope"]), None));
    assert_eq!(
        runner.step(&mut line, Reply::Output(Err(ExecError::Spawn))),
        Request::Discard(ElementError::Exec(ExecError::Spawn))
    );
    assert_eq!(runner.step(&mut line, Reply::Done), Request::Finished);
}

#[test]
fn failed_single_command_goes_on() {
    let mut runner = CommandRunner::new("/".to_string());
    let mut line = start("nope; echo later");
    assert_eq!(runner.step(&mut line, Reply::Done), Request::Execute(cmd(&["nope"]), None));
    assert_eq!(
        runner.step(&mut line, Reply::Output(Err(ExecError::Io))),
        Request::Discard(ElementError::Exec(ExecError::Io))
    );
    assert_eq!(runner.step(&mut line, Reply::Done), Request::Execute(cmd(&["echo", "later"]), None));
}

#[test]
fn failed_cd_keeps_directory() {
    let mut runner = CommandRunner::new("/home".to_string());
    let mut line = start("cd /nonexistent; ls");
    assert_eq!(
        runner.step(&mut line, Reply::Done),
        Request::ChangeDirectory("/nonexistent".to_string())
    );
    assert_eq!(
        runner.step(&mut line, Reply::Directory(None)),
        Request::Discard(ElementError::Directory)
    );
    assert_eq!(runner.pwd(), "/home");
    assert_eq!(runner.step(&mut line, Reply::Done), Request::Execute(cmd(&["ls"]), None));
    assert_eq!(runner.pwd(), "/home");
}

#[test]
fn cd_moves_directory() {
    let mut runner = CommandRunner::new("/home".to_string());
    let mut line = start("cd /tmp; ls");
    assert_eq!(runner.step(&mut line, Reply::Done), Request::ChangeDirectory("/tmp".to_string()));
    assert_eq!(
        runner.step(&mut line, Reply::Directory(Some("/tmp".to_string()))),
        Request::Execute(cmd(&["ls"]), None)
    );
    assert_eq!(runner.pwd(), "/tmp");
}

#[test]
fn cd_needs_one_path() {
    let mut runner = CommandRunner::new("/home".to_string());
    let mut line = start("cd; cd a b");
    let bad = Request::Discard(ElementError::Argument(ArgumentError::ExpectedSinglePath));
    assert_eq!(runner.step(&mut line, Reply::Done), bad);
    assert_eq!(
        runner.step(&mut line, Reply::Done),
        Request::Discard(ElementError::Argument(ArgumentError::ExpectedSinglePath))
    );
    assert_eq!(runner.step(&mut line, Reply::Done), Request::Finished);
    assert_eq!(runner.history(), &vec!["cd ".to_string(), "cd a b".to_string()]);
}

#[test]
fn history_lists_earlier_entries() {
    let mut runner = CommandRunner::new("/".to_string());
    for text in ["echo a", "echo b"] {
        let mut line = start(text);
        assert!(matches!(runner.step(&mut line, Reply::Done), Request::Execute(_, None)));
        assert!(matches!(runner.step(&mut line, ok("x\n")), Request::Print(_)));
        assert_eq!(runner.step(&mut line, Reply::Done), Request::Finished);
    }
    let mut line = start("history");
    assert_eq!(
        runner.step(&mut line, Reply::Done),
        Request::PrintText("echo a\necho b\n".to_string())
    );
    assert_eq!(runner.step(&mut line, Reply::Done), Request::Finished);
    assert_eq!(runner.history().len(), 3);
    assert_eq!(runner.history()[2], "history ");
}

#[test]
fn exit_with_status() {
    let mut runner = CommandRunner::new("/".to_string());
    let mut line = start("exit 3; echo never");
    assert_eq!(runner.step(&mut line, Reply::Done), Request::Terminate(3));
    assert_eq!(runner.step(&mut line, Reply::Done), Request::Finished);
}

#[test]
fn exit_without_status() {
    let mut runner = CommandRunner::new("/".to_string());
    let mut line = start("exit");
    assert_eq!(runner.step(&mut line, Reply::Done), Request::Terminate(0));
}

#[test]
fn exit_with_bad_status_goes_on() {
    let mut runner = CommandRunner::new("/".to_string());
    let mut line = start("exit x; echo on");
    assert_eq!(
        runner.step(&mut line, Reply::Done),
        Request::Discard(ElementError::Argument(ArgumentError::InvalidExitCode))
    );
    assert_eq!(runner.step(&mut line, Reply::Done), Request::Execute(cmd(&["echo", "on"]), None));
}

#[test]
fn builtins_inside_a_pipe_are_external() {
    let mut runner = CommandRunner::new("/".to_string());
    let mut line = start("cd /tmp | history");
    assert_eq!(runner.step(&mut line, Reply::Done), Request::Execute(cmd(&["cd", "/tmp"]), None));
    assert_eq!(
        runner.step(&mut line, ok("")),
        Request::Execute(cmd(&["history"]), Some(vec![]))
    );
    assert_eq!(runner.pwd(), "/");
}

#[test]
fn empty_line_is_silent() {
    let mut runner = CommandRunner::new("/".to_string());
    let mut line = start("");
    assert_eq!(runner.step(&mut line, Reply::Done), Request::Finished);
    assert!(runner.history().is_empty());
}

#[test]
fn unexpected_reply_ends_the_element() {
    let mut runner = CommandRunner::new("/".to_string());
    let mut line = start("ls; pwd");
    assert_eq!(runner.step(&mut line, Reply::Done), Request::Execute(cmd(&["ls"]), None));
    assert_eq!(runner.step(&mut line, Reply::Done), Request::Execute(cmd(&["pwd"]), None));
}
