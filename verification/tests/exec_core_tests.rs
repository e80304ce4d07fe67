use gitopolis::exec::build_invocation;
use gitopolis::exec::compose_oneline_output;
use gitopolis::exec::exec_banner;
use gitopolis::exec::failed_summary_line;
use gitopolis::exec::missing_notice;
use gitopolis::exec::nonzero_exit_notice;
use gitopolis::exec::oneline_record;
use gitopolis::exec::resolve_shell;
use gitopolis::exec::skipped_summary_line;
use gitopolis::exec::summarize_outcomes;
use gitopolis::exec::RepoOutcome;
use gitopolis::exec::RunSummary;

fn strings(items: &[&str]) -> Vec<String> {
    items.iter().map(|s| s.to_string()).collect()
}

#[test]
fn shell_resolution_prefers_the_environment_shell() {
    let r = resolve_shell(Some("/usr/bin/zsh".to_string()), false, false);
    assert_eq!(r.program, "/usr/bin/zsh");
    assert_eq!(r.fixed_args, vec!["-c".to_string()]);
    assert!(r.posix_like);
}

#[test]
fn shell_resolution_windows_powershell_and_cmd() {
    let ps = resolve_shell(None, true, true);
    assert_eq!(ps.program, "powershell");
    assert_eq!(ps.fixed_args, strings(&["-NoLogo", "-c"]));
    assert!(!ps.posix_like);

    let cmd = resolve_shell(None, false, true);
    assert_eq!(cmd.program, "cmd");
    assert_eq!(cmd.fixed_args, strings(&["/s", "/c"]));
    assert!(!cmd.posix_like);
}

#[test]
fn shell_resolution_falls_back_to_bin_sh() {
    let r = resolve_shell(None, false, false);
    assert_eq!(r.program, "/bin/sh");
    assert_eq!(r.fixed_args, vec!["-c".to_string()]);
    assert!(r.posix_like);
}

#[test]
fn single_token_with_pipe_is_passed_uninterpreted() {
    // A one-token command goes to the shell verbatim: no quoting is applied,
    // so its pipe reaches the shell for interpretation.
    let sh = resolve_shell(None, false, false);
    let inv = build_invocation(&sh, &strings(&["ls | wc -l"]), "some_repo");
    assert_eq!(inv.program, "/bin/sh");
    assert_eq!(inv.args, strings(&["-c", "ls | wc -l"]));
    assert_eq!(inv.working_dir, "some_repo");
}

#[test]
fn multi_token_posix_uses_positional_parameters_verbatim() {
    // Every token rides behind "$@" unchanged, spaces and metacharacters
    // included.
    let sh = resolve_shell(None, false, false);
    let tokens = strings(&["git", "log", "--format=%H $x", "a|b"]);
    let inv = build_invocation(&sh, &tokens, "r");
    assert_eq!(
        inv.args,
        strings(&["-c", "\"$@\"", "--", "git", "log", "--format=%H $x", "a|b"])
    );
}

#[test]
fn multi_token_windows_joins_with_quoting() {
    let cmd = resolve_shell(None, false, true);
    let tokens = strings(&["echo", "a b", "say \"hi\"", "plain"]);
    let inv = build_invocation(&cmd, &tokens, "r");
    assert_eq!(
        inv.args,
        strings(&["/s", "/c", "echo \"a b\" \"say \"\"hi\"\"\" plain"])
    );
}

#[test]
fn oneline_capture_flattens_newlines_and_trims() {
    let r = compose_oneline_output("line1\nline2\nline3", "", true);
    assert_eq!(r, Some("line1 line2 line3".to_string()));

    let r = compose_oneline_output("  padded \n", "", true);
    assert_eq!(r, Some("padded".to_string()));
}

#[test]
fn oneline_capture_appends_stderr_only_on_failure() {
    assert_eq!(
        compose_oneline_output("out", "boom", false),
        Some("out boom".to_string())
    );
    assert_eq!(
        compose_oneline_output("", "boom", false),
        Some("boom".to_string())
    );
    assert_eq!(
        compose_oneline_output("out", "warning", true),
        Some("out".to_string())
    );
    assert_eq!(compose_oneline_output("", "", true), None);
    assert_eq!(compose_oneline_output("", "", false), None);
}

#[test]
fn fan_out_processes_every_repo_and_counts_skips_exactly() {
    // Two absent repos among five: the loop keeps going, the skip count is
    // exactly two, and the run exits 1.
    let outcomes = vec![
        RepoOutcome::Missing,
        RepoOutcome::Completed { success: true },
        RepoOutcome::Missing,
        RepoOutcome::Completed { success: true },
        RepoOutcome::Completed { success: true },
    ];
    let summary = summarize_outcomes(&outcomes);
    assert_eq!(summary.skipped_count, 2);
    assert_eq!(summary.failed_count, 0);
    assert_eq!(summary.exit_code(), 1);
}

#[test]
fn fan_out_counts_failures_and_exit_codes() {
    let outcomes = vec![
        RepoOutcome::Completed { success: true },
        RepoOutcome::Completed { success: false },
        RepoOutcome::Completed { success: false },
    ];
    let summary = summarize_outcomes(&outcomes);
    assert_eq!(summary.failed_count, 2);
    assert_eq!(summary.skipped_count, 0);
    assert_eq!(summary.exit_code(), 1);

    let all_good = summarize_outcomes(&vec![
        RepoOutcome::Completed { success: true },
        RepoOutcome::Completed { success: true },
    ]);
    assert_eq!(all_good.exit_code(), 0);
}

#[test]
fn run_summary_records_incrementally() {
    let mut s = RunSummary::new();
    s.record_exit(true);
    s.record_exit(false);
    s.record_skip();
    assert_eq!(s.failed_count, 1);
    assert_eq!(s.skipped_count, 1);
    assert_eq!(s.exit_code(), 1);
}

#[test]
fn streaming_banner_shows_path_and_display_command() {
    // Two blocks of a streaming run each start with this banner; the command
    // echo line uses the display formatter.
    let banner = exec_banner("repo_one", &strings(&["echo", "hello"]));
    assert_eq!(banner, "\u{1f3e2} repo_one> echo hello");
}

#[test]
fn missing_notice_has_both_shapes() {
    assert_eq!(
        missing_notice("gone", true),
        "gone\tRepo folder missing, skipped."
    );
    assert_eq!(
        missing_notice("gone", false),
        "\u{1f3e2} gone> Repo folder missing, skipped."
    );
}

#[test]
fn oneline_record_is_tab_separated() {
    assert_eq!(
        oneline_record("r1", &Some("flat out".to_string())),
        "r1\tflat out"
    );
    assert_eq!(oneline_record("r2", &None), "r2\t");
}

#[test]
fn diagnostic_and_summary_lines() {
    assert_eq!(nonzero_exit_notice(3), "Command exited with code 3");
    assert_eq!(nonzero_exit_notice(-1), "Command exited with code -1");
    assert_eq!(
        failed_summary_line(2),
        "2 commands exited with non-zero status code"
    );
    assert_eq!(skipped_summary_line(1), "1 repos skipped");
    assert_eq!(skipped_summary_line(10), "10 repos skipped");
}
