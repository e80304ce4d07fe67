use gitopolis::exec::format_args_for_display;

#[test]
fn test_format_args_no_quoting_needed() {
    let args = vec!["git".to_string(), "status".to_string()];
    assert_eq!(format_args_for_display(&args), "git status");
}

#[test]
fn test_format_args_simple_quoting() {
    let args = vec!["echo".to_string(), "hello world".to_string()];
    assert_eq!(format_args_for_display(&args), "echo 'hello world'");
}

#[test]
fn test_format_args_flag_with_value() {
    let args = vec![
        "git".to_string(),
        "log".to_string(),
        "-n".to_string(),
        "5".to_string(),
        "--since=One Week".to_string(),
    ];
    assert_eq!(
        format_args_for_display(&args),
        "git log -n 5 --since='One Week'"
    );
}

#[test]
fn test_format_args_flag_with_value_containing_single_quote() {
    let args = vec![
        "git".to_string(),
        "commit".to_string(),
        "-m=Don't panic".to_string(),
    ];
    assert_eq!(
        format_args_for_display(&args),
        "git commit -m=\"Don't panic\""
    );
}

#[test]
fn test_format_args_non_flag_key_value() {
    // If it doesn't start with -, quote the whole thing
    let args = vec!["foo=bar baz".to_string()];
    assert_eq!(format_args_for_display(&args), "'foo=bar baz'");
}

#[test]
fn test_format_args_flag_with_no_spaces() {
    let args = vec!["--since=yesterday".to_string()];
    assert_eq!(format_args_for_display(&args), "--since=yesterday");
}

#[test]
fn test_format_args_mixed() {
    let args = vec![
        "git".to_string(),
        "log".to_string(),
        "--author=John Doe".to_string(),
        "--format=%H".to_string(),
        "-n".to_string(),
        "10".to_string(),
    ];
    assert_eq!(
        format_args_for_display(&args),
        "git log --author='John Doe' --format=%H -n 10"
    );
}

#[test]
fn test_format_args_with_special_chars() {
    let args = vec!["echo".to_string(), "hello|world".to_string()];
    assert_eq!(format_args_for_display(&args), "echo 'hello|world'");
}

#[test]
fn test_format_args_double_dash_flag() {
    let args = vec!["grep".to_string(), "--exclude=*.tmp files".to_string()];
    assert_eq!(
        format_args_for_display(&args),
        "grep --exclude='*.tmp files'"
    );
}

#[test]
fn quote_arg_uses_single_quotes_for_plain_tokens() {
    assert_eq!(gitopolis::exec::quote_arg("a b"), "'a b'");
}

#[test]
fn quote_arg_escapes_backslashes_and_quotes_in_double_quoted_form() {
    assert_eq!(
        gitopolis::exec::quote_arg("it's a \\ \"test\""),
        "\"it's a \\\\ \\\"test\\\"\""
    );
}

#[test]
fn needs_quoting_spots_whitespace_and_metacharacters() {
    assert!(gitopolis::exec::needs_quoting("a b"));
    assert!(gitopolis::exec::needs_quoting("a|b"));
    assert!(gitopolis::exec::needs_quoting("a#b"));
    assert!(!gitopolis::exec::needs_quoting("plain-token_1"));
}
