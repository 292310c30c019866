use procpool::{parse_command, split_program};

fn strings(v: &[&str]) -> Vec<String> {
    v.iter().map(|s| s.to_string()).collect()
}

#[test]
fn parse_plain_words() {
    let (program, args) = parse_command("echo hello world");
    assert_eq!(program, "echo");
    assert_eq!(args, strings(&["hello", "world"]));
}

#[test]
fn parse_quoted_span_is_one_argument_without_quotes() {
    let (program, args) = parse_command("echo \"hello world\"");
    assert_eq!(program, "echo");
    assert_eq!(args, strings(&["hello world"]));
}

#[test]
fn parse_program_without_arguments() {
    let (program, args) = parse_command("ls");
    assert_eq!(program, "ls");
    assert!(args.is_empty());
}

#[test]
fn parse_trailing_space_gives_no_arguments() {
    let (program, args) = parse_command("ls ");
    assert_eq!(program, "ls");
    assert!(args.is_empty());
}

#[test]
fn parse_repeated_spaces_between_arguments() {
    let (program, args) = parse_command("ls  -a   -l");
    assert_eq!(program, "ls");
    assert_eq!(args, strings(&["-a", "-l"]));
}

#[test]
fn parse_mixed_quoted_and_plain() {
    let (program, args) = parse_command("xterm -e \"vi /some/path\" x");
    assert_eq!(program, "xterm");
    assert_eq!(args, strings(&["-e", "vi /some/path", "x"]));
}

#[test]
fn parse_empty_line() {
    let (program, args) = parse_command("");
    assert_eq!(program, "");
    assert!(args.is_empty());
}

#[test]
fn split_program_at_first_space() {
    let (program, rest) = split_program("sleep 1 2");
    assert_eq!(program, "sleep");
    assert_eq!(rest, Some("1 2".to_string()));
}

#[test]
fn split_program_without_space() {
    let (program, rest) = split_program("whoami");
    assert_eq!(program, "whoami");
    assert_eq!(rest, None);
}

#[test]
fn split_program_non_ascii() {
    let (program, rest) = split_program("ech\u{00f6} \u{8bd5}");
    assert_eq!(program, "ech\u{00f6}");
    assert_eq!(rest, Some("\u{8bd5}".to_string()));
}
