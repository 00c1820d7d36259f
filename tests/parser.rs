use pkit::parser::{get_flags, remove_args, ClICommand};

fn toks(v: &[&str]) -> Vec<String> {
    v.iter().map(|s| s.to_string()).collect()
}

#[test]
fn flags_with_and_without_values() {
    let mut t = toks(&["run", "--flag1", "value1", "--flag2", "--flag3", "value3", "sub"]);
    let flags = get_flags(&mut t);
    let got: Vec<(String, String)> = flags.into_iter().map(|f| (f.flag, f.value)).collect();
    assert_eq!(
        got,
        vec![
            (String::from("--flag1"), String::from("value1")),
            (String::from("--flag2"), String::new()),
            (String::from("--flag3"), String::from("value3")),
        ]
    );
    assert_eq!(t, toks(&["run", "sub"]));
}

#[test]
fn trailing_flag_has_empty_value() {
    let mut t = toks(&["a", "-v"]);
    let flags = get_flags(&mut t);
    assert_eq!(flags.len(), 1);
    assert_eq!(flags[0].flag, "-v");
    assert_eq!(flags[0].value, "");
    assert_eq!(t, toks(&["a"]));
}

#[test]
fn value_equal_to_a_command_removes_both() {
    let mut t = toks(&["x", "--n", "x"]);
    let flags = get_flags(&mut t);
    assert_eq!(flags[0].value, "x");
    assert!(t.is_empty());
}

#[test]
fn remove_args_filters() {
    assert_eq!(remove_args(toks(&["a", "b", "a", "c"]), &toks(&["a"])), toks(&["b", "c"]));
}

#[test]
fn command_accessors() {
    let mut c = ClICommand::parse(&toks(&["install", "python", "--version", "3.11"]));
    assert_eq!(c.get_first(), "install");
    assert_eq!(c.get_flag("--version").unwrap().value, "3.11");
    assert!(c.get_flag("--other").is_none());
    c.remove_first();
    assert_eq!(c.get_first(), "python");
    c.remove_first();
    assert_eq!(c.get_first(), "");
    c.remove_first();
    assert!(c.command.is_empty());
    let e = ClICommand::new();
    assert!(e.command.is_empty() && e.flags.is_empty());
}
