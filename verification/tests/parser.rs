use rush::parser::{builtin_name, Cmd, CmdLine, ParseError};

fn strings(items: &[&str]) -> Vec<String> {
    items.iter().map(|s| s.to_string()).collect()
}

#[test]
fn two_stages_with_output_file() {
    let line = CmdLine::new("ls -la | grep foo > out.txt").unwrap();
    assert_eq!(line.cmds.len(), 2);
    assert_eq!(line.cmds[0].cmd, "ls");
    assert_eq!(line.cmds[0].argv, strings(&["-la"]));
    assert_eq!(line.cmds[1].cmd, "grep");
    assert_eq!(line.cmds[1].argv, strings(&["foo"]));
    assert_eq!(line.output_filename, Some("out.txt".to_string()));
    assert_eq!(line.input_filename, None);
    assert!(!line.is_daemon);
    assert!(!line.cmds[0].is_builtin);
    assert!(!line.cmds[1].is_builtin);
    assert_eq!(line.cmds[0].pid, None);
    assert_eq!(line.repr_string, "ls -la | grep foo > out.txt");
    assert!(!line.running);
    assert!(line.newly_added);
}

#[test]
fn input_file_and_background_marker() {
    let line = CmdLine::new("cat < in.txt | wc &").unwrap();
    assert_eq!(line.input_filename, Some("in.txt".to_string()));
    assert_eq!(line.output_filename, None);
    assert!(line.is_daemon);
    assert_eq!(line.repr_string, "cat < in.txt | wc");
    assert_eq!(line.cmds.len(), 2);
    assert_eq!(line.cmds[0].cmd, "cat");
    assert!(line.cmds[0].argv.is_empty());
    assert_eq!(line.cmds[1].cmd, "wc");
    assert!(line.cmds[1].argv.is_empty());
}

#[test]
fn output_in_first_stage_is_misplaced() {
    assert_eq!(
        CmdLine::new("grep foo > out.txt | wc"),
        Err(ParseError::MisplacedOutputRedirection)
    );
}

#[test]
fn both_redirections_on_one_stage() {
    let line = CmdLine::new("echo hi > a.txt < b.txt").unwrap();
    assert_eq!(line.cmds.len(), 1);
    assert_eq!(line.cmds[0].cmd, "echo");
    assert_eq!(line.cmds[0].argv, strings(&["hi"]));
    assert_eq!(line.input_filename, Some("b.txt".to_string()));
    assert_eq!(line.output_filename, Some("a.txt".to_string()));
    assert_eq!(line.repr_string, "echo hi > a.txt < b.txt");
}

#[test]
fn input_in_later_stage_is_misplaced() {
    assert_eq!(
        CmdLine::new("ls | sort < names"),
        Err(ParseError::MisplacedInputRedirection)
    );
}

#[test]
fn marker_in_earlier_stage_is_misplaced() {
    assert_eq!(
        CmdLine::new("sleep 5 & | wc"),
        Err(ParseError::MisplacedBackgroundMarker)
    );
}

#[test]
fn marker_before_the_last_token_is_misplaced() {
    assert_eq!(
        CmdLine::new("sleep & 5"),
        Err(ParseError::MisplacedBackgroundMarker)
    );
    assert_eq!(
        CmdLine::new("sleep 5 & &"),
        Err(ParseError::MisplacedBackgroundMarker)
    );
}

#[test]
fn operator_without_file_name() {
    assert_eq!(
        CmdLine::new("cat <"),
        Err(ParseError::MissingRedirectionTarget)
    );
    assert_eq!(
        CmdLine::new("ls >"),
        Err(ParseError::MissingRedirectionTarget)
    );
}

#[test]
fn missing_file_name_comes_before_misplacement() {
    assert_eq!(
        CmdLine::new("a > x | b <"),
        Err(ParseError::MissingRedirectionTarget)
    );
}

#[test]
fn first_broken_rule_is_reported() {
    assert_eq!(
        CmdLine::new("a > x | b < y"),
        Err(ParseError::MisplacedOutputRedirection)
    );
    assert_eq!(
        CmdLine::new("a | b < y > z | c"),
        Err(ParseError::MisplacedInputRedirection)
    );
    assert_eq!(
        CmdLine::new("a & > z | c"),
        Err(ParseError::MisplacedOutputRedirection)
    );
}

#[test]
fn empty_stages_are_dropped() {
    let line = CmdLine::new("ls || wc").unwrap();
    assert_eq!(line.cmds.len(), 2);
    assert_eq!(line.cmds[0].cmd, "ls");
    assert_eq!(line.cmds[1].cmd, "wc");
    assert_eq!(line.repr_string, "ls | wc");
}

#[test]
fn empty_line_has_no_stage() {
    let line = CmdLine::new("").unwrap();
    assert!(line.cmds.is_empty());
    assert_eq!(line.repr_string, "");
    assert_eq!(line.input_filename, None);
    assert_eq!(line.output_filename, None);
    assert!(!line.is_daemon);
    let blank = CmdLine::new("  \t ").unwrap();
    assert!(blank.cmds.is_empty());
}

#[test]
fn output_before_an_empty_last_piece_is_misplaced() {
    assert_eq!(
        CmdLine::new("ls > out |"),
        Err(ParseError::MisplacedOutputRedirection)
    );
}

#[test]
fn later_redirection_replaces_earlier() {
    let line = CmdLine::new("sort < a < b > c > d").unwrap();
    assert_eq!(line.input_filename, Some("b".to_string()));
    assert_eq!(line.output_filename, Some("d".to_string()));
    assert!(line.cmds[0].argv.is_empty());
}

#[test]
fn token_after_operator_is_a_file_name() {
    let line = CmdLine::new("cat < &").unwrap();
    assert_eq!(line.input_filename, Some("&".to_string()));
    assert!(!line.is_daemon);
    assert_eq!(line.repr_string, "cat < &");
}

#[test]
fn first_token_is_the_command_name() {
    let line = CmdLine::new("& ls").unwrap();
    assert_eq!(line.cmds[0].cmd, "&");
    assert_eq!(line.cmds[0].argv, strings(&["ls"]));
    assert!(!line.is_daemon);
}

#[test]
fn display_string_uses_single_spaces() {
    let line = CmdLine::new("  ls    -l\t-a |wc   -l   &  ").unwrap();
    assert_eq!(line.repr_string, "ls -l -a | wc -l");
    assert!(line.is_daemon);
    assert_eq!(line.cmds[0].argv, strings(&["-l", "-a"]));
    assert_eq!(line.cmds[1].argv, strings(&["-l"]));
}

#[test]
fn builtin_names_are_flagged() {
    for name in ["cd", "exit", "history", "jobs", "kill", "pwd"] {
        assert!(builtin_name(name), "{}", name);
        let line = CmdLine::new(name).unwrap();
        assert!(line.cmds[0].is_builtin);
    }
    for name in ["ls", "CD", "pwdx", "", "kil", "exit "] {
        assert!(!builtin_name(name), "{}", name);
    }
    let line = CmdLine::new("ls | pwd | cat").unwrap();
    assert!(!line.cmds[0].is_builtin);
    assert!(line.cmds[1].is_builtin);
    assert!(!line.cmds[2].is_builtin);
}

#[test]
fn stage_without_token_is_nothing() {
    assert_eq!(Cmd::new("   "), Ok(None));
    assert_eq!(Cmd::new(""), Ok(None));
}

#[test]
fn stage_keeps_what_it_says() {
    let (cmd, info) = Cmd::new(" grep -v  x < in > out & ").unwrap().unwrap();
    assert_eq!(cmd.cmd, "grep");
    assert_eq!(cmd.argv, strings(&["-v", "x"]));
    assert!(!cmd.is_builtin);
    assert_eq!(cmd.pid, None);
    assert_eq!(info.repr_string, "grep -v x < in > out");
    assert_eq!(info.input_filename, Some("in".to_string()));
    assert_eq!(info.output_filename, Some("out".to_string()));
    assert!(info.is_daemon);
    assert!(!info.stray_marker);
    let (_, stray) = Cmd::new("sleep & 1").unwrap().unwrap();
    assert!(stray.is_daemon);
    assert!(stray.stray_marker);
    assert_eq!(stray.repr_string, "sleep & 1");
    assert_eq!(Cmd::new("cat >"), Err(ParseError::MissingRedirectionTarget));
}

#[test]
fn display_string_parses_back_in_the_foreground() {
    for text in [
        "ls -la | grep foo > out.txt",
        "cat < in.txt | wc &",
        "  a   b  |c|   d e >  f   & ",
        "echo hi > a.txt < b.txt",
        "ls || wc",
        "| ls",
        "ls |",
        "",
        "&",
        "cat < &",
        "pwd | history | jobs",
        "x\u{3000}y\t|\u{a0}z",
    ] {
        let line = CmdLine::new(text).unwrap();
        let again = CmdLine::new(&line.repr_string).unwrap();
        assert!(!again.is_daemon, "{:?}", text);
        assert_eq!(again.cmds, line.cmds, "{:?}", text);
        assert_eq!(again.repr_string, line.repr_string, "{:?}", text);
        assert_eq!(again.input_filename, line.input_filename, "{:?}", text);
        assert_eq!(again.output_filename, line.output_filename, "{:?}", text);
    }
}

#[test]
fn background_line_ends_in_the_marker() {
    for text in ["ls &", "a | b | c -x &", "sleep 1 > out &  "] {
        let line = CmdLine::new(text).unwrap();
        assert!(line.is_daemon);
        assert_eq!(text.split_whitespace().last(), Some("&"));
        assert!(!line.repr_string.contains('&'));
    }
    assert!(!CmdLine::new("ls").unwrap().is_daemon);
}
