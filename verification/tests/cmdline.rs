use psutil::cmdline::{join_arguments, split_arguments};
use psutil::{Constants, Process};

fn process() -> Process {
    let c = Constants::new(100, 4096).unwrap();
    let stat = format!("7 (x) R{}", " 0".repeat(49));
    Process::new(&stat, 0, 0, &c).unwrap()
}

fn strings(args: &[&str]) -> Vec<String> {
    args.iter().map(|a| a.to_string()).collect()
}

#[test]
fn empty_record_has_no_command_line() {
    assert_eq!(split_arguments(""), None);
    assert_eq!(process().cmdline_vec(""), None);
    assert_eq!(process().cmdline(""), None);
}

#[test]
fn arguments_end_with_nul() {
    assert_eq!(process().cmdline_vec("foo\0bar\0"), Some(strings(&["foo", "bar"])));
    assert_eq!(process().cmdline("foo\0bar\0"), Some("foo bar".to_string()));
}

#[test]
fn arguments_end_with_nul_or_space() {
    assert_eq!(split_arguments("foo\0bar"), Some(strings(&["foo", "bar"])));
    assert_eq!(split_arguments("foo bar\0"), Some(strings(&["foo", "bar"])));
    assert_eq!(split_arguments("a b\0c d"), Some(strings(&["a", "b", "c", "d"])));
    assert_eq!(split_arguments("foo"), Some(strings(&["foo"])));
    assert_eq!(split_arguments("/sbin/init\0"), Some(strings(&["/sbin/init"])));
}

#[test]
fn only_the_last_empty_argument_is_dropped() {
    assert_eq!(split_arguments("\0"), Some(strings(&[""])));
    assert_eq!(split_arguments(" "), Some(strings(&[""])));
    assert_eq!(split_arguments("\0\0"), Some(strings(&["", ""])));
    assert_eq!(split_arguments("a\0\0"), Some(strings(&["a", ""])));
    assert_eq!(split_arguments("a\0\0b\0"), Some(strings(&["a", "", "b"])));
    assert_eq!(split_arguments("\0a"), Some(strings(&["", "a"])));
}

#[test]
fn splitting_agrees_with_split_terminator() {
    for record in ["x", "a\0b\0", "a b", " a", "a  b ", "\0", "sh\0-c\0echo hi\0", "é\0日本\0"] {
        let expected: Vec<String> = record
            .split_terminator(|c: char| c == '\0' || c == ' ')
            .map(|x| x.to_string())
            .collect();
        assert_eq!(split_arguments(record), Some(expected));
    }
}

#[test]
fn arguments_are_joined_with_spaces() {
    assert_eq!(join_arguments(&strings(&[])), "");
    assert_eq!(join_arguments(&strings(&["a"])), "a");
    assert_eq!(join_arguments(&strings(&["a", "b"])), "a b");
    assert_eq!(join_arguments(&strings(&["a", "", "b"])), "a  b");
    assert_eq!(join_arguments(&strings(&[""])), "");
    assert_eq!(join_arguments(&strings(&["", ""])), " ");
    assert_eq!(process().cmdline("sh\0-c\0echo hi\0"), Some("sh -c echo hi".to_string()));
    assert_eq!(process().cmdline("\0"), Some("".to_string()));
}
