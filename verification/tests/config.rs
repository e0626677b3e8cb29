use forever_perfmon::config::{
    optional_bool, optional_string, optional_string_or_false, parse_bool_assignment,
    parse_string_assignment, required_string, unescape_basic_string, Config,
};

#[test]
fn parses_toml_style_strings() {
    let raw = r#"
csv_dir = "X:\\_TEMP\\performancer_log"
csv_output = false
snapshot_dir = "D:\\snapshots"
hyperv_vm_name = "ubuntu_22_04"
"#;
    assert_eq!(
        optional_string(raw, "csv_dir").as_deref(),
        Some(r"X:\_TEMP\performancer_log")
    );
    assert_eq!(
        optional_string(raw, "hyperv_vm_name").as_deref(),
        Some("ubuntu_22_04")
    );
    assert_eq!(optional_bool(raw, "csv_output"), Some(false));
    assert_eq!(
        optional_string_or_false("hyperv_vm_name = false", "hyperv_vm_name"),
        Some(None)
    );
}

#[test]
fn string_assignment_trims_and_drops_comments() {
    assert_eq!(
        parse_string_assignment("  name =  value  # note", "name").as_deref(),
        Some("value")
    );
    assert_eq!(
        parse_string_assignment("name = \"a # b\"", "name").as_deref(),
        Some("\"a")
    );
    assert_eq!(parse_string_assignment("other = 1", "name"), None);
    assert_eq!(parse_string_assignment("name =", "name"), None);
    assert_eq!(parse_string_assignment("name", "name"), None);
    assert_eq!(parse_string_assignment("# name = x", "name"), None);
    assert_eq!(parse_string_assignment("name = \"\"", "name").as_deref(), Some(""));
    assert_eq!(parse_string_assignment("name = \"", "name").as_deref(), Some("\""));
    assert_eq!(parse_string_assignment("a = b = c", "a").as_deref(), Some("b = c"));
}

#[test]
fn bool_assignment_takes_only_true_and_false() {
    assert_eq!(parse_bool_assignment("flag = true", "flag"), Some(true));
    assert_eq!(parse_bool_assignment(" flag=false # off", "flag"), Some(false));
    assert_eq!(parse_bool_assignment("flag = \"true\"", "flag"), None);
    assert_eq!(parse_bool_assignment("flag = yes", "flag"), None);
    assert_eq!(parse_bool_assignment("other = true", "flag"), None);
}

#[test]
fn unescapes_basic_strings() {
    assert_eq!(unescape_basic_string(r"a\nb\tc\rd"), "a\nb\tc\rd");
    assert_eq!(unescape_basic_string(r#"q\"q\\"#), "q\"q\\");
    assert_eq!(unescape_basic_string(r"\x"), r"\x");
    assert_eq!(unescape_basic_string("end\\"), "end\\");
    assert_eq!(unescape_basic_string("plain"), "plain");
}

#[test]
fn first_matching_line_wins() {
    let raw = "flag = maybe\r\nflag = true\r\nflag = false\r\nname = one\nname = two";
    assert_eq!(optional_bool(raw, "flag"), Some(true));
    assert_eq!(optional_string(raw, "name").as_deref(), Some("one"));
    assert_eq!(optional_string(raw, "absent"), None);
    assert_eq!(optional_string("", "name"), None);
}

#[test]
fn string_or_false_switch() {
    assert_eq!(
        optional_string_or_false("vm = true", "vm"),
        Some(Some("ubuntu_22_04".to_string()))
    );
    assert_eq!(
        optional_string_or_false("vm = \"other\"", "vm"),
        Some(Some("other".to_string()))
    );
    assert_eq!(optional_string_or_false("x = 1", "vm"), None);
}

#[test]
fn required_string_reports_missing_key() {
    assert_eq!(required_string("csv_dir = d", "csv_dir").ok().as_deref(), Some("d"));
    let err = required_string("", "snapshot_dir").err().unwrap();
    assert_eq!(err.key, "snapshot_dir");
    assert_eq!(err.message(), "missing `snapshot_dir` in forever-perfmon.toml");
}

#[test]
fn config_defaults_and_errors() {
    let c = Config::parse("csv_dir = \"C:\\\\logs\"\nsnapshot_dir = S\n").ok().unwrap();
    assert_eq!(c.csv_dir, "C:\\logs");
    assert_eq!(c.snapshot_dir, "S");
    assert!(c.csv_output);
    assert_eq!(c.hyperv_vm_name.as_deref(), Some("ubuntu_22_04"));

    let c = Config::parse("csv_dir = a\nsnapshot_dir = b\ncsv_output = false\nhyperv_vm_name = false")
        .ok()
        .unwrap();
    assert!(!c.csv_output);
    assert_eq!(c.hyperv_vm_name, None);

    let e = Config::parse("snapshot_dir = b").err().unwrap();
    assert_eq!(e.key, "csv_dir");
    let e = Config::parse("csv_dir = a").err().unwrap();
    assert_eq!(e.key, "snapshot_dir");
}

#[test]
fn plain_text_unescapes_to_itself() {
    for text in ["", "abc", "C:/logs/perf", "quote\"inside"] {
        assert_eq!(unescape_basic_string(text), text);
    }
}
