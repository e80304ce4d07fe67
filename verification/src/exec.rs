//! The fan-out command-execution core.
//!
//! Everything here is pure: resolving which shell to use from explicit
//! environment values, building the concrete subprocess invocation, the
//! best-effort display rendering of a command, flattening captured output
//! into a oneline record, and aggregating per-repo results into a final exit
//! code. Spawning processes and draining their pipes is left to the caller.

use vstd::prelude::*;

use crate::text::chars_to_string;
use crate::text::contains_char;
use crate::text::escape_dq_spec;
use crate::text::first_pos;
use crate::text::is_ws_char;
use crate::text::lemma_first_pos_unique;
use crate::text::str_to_chars;
use crate::text::vec_contains_char;
use crate::text::find_char;
use crate::text::append_chars;
use crate::text::append_escape_dq;
use crate::text::char_is_ws;
use crate::text::views_of_strings;

verus! {

/// The shell metacharacters that force display quoting.
pub open spec fn special_display_char(c: char) -> bool {
    c == '|' || c == '&' || c == ';' || c == '<' || c == '>' || c == '(' || c == ')' || c == '$'
        || c == '`' || c == '\\' || c == '"' || c == '\'' || c == '*' || c == '?' || c == '['
        || c == ']' || c == '{' || c == '}' || c == '!' || c == '#'
}

/// Whether `c` makes a token unsafe to display bare: whitespace or a shell
/// metacharacter.
pub open spec fn display_quote_char(c: char) -> bool {
    is_ws_char(c) || special_display_char(c)
}

/// Whether any character of `s` forces display quoting.
pub open spec fn needs_quoting_spec(s: Seq<char>) -> bool {
    exists|i: int| 0 <= i < s.len() && display_quote_char(s[i])
}

fn char_needs_quoting(c: char) -> (b: bool)
    ensures
        b == display_quote_char(c),
{
    char_is_ws(c) || c == '|' || c == '&' || c == ';' || c == '<' || c == '>' || c == '(' || c
        == ')' || c == '$' || c == '`' || c == '\\' || c == '"' || c == '\'' || c == '*' || c == '?'
        || c == '[' || c == ']' || c == '{' || c == '}' || c == '!' || c == '#'
}

fn needs_quoting_chars(v: &Vec<char>) -> (b: bool)
    ensures
        b == needs_quoting_spec(v@),
{
    let mut i: usize = 0;
    while i < v.len()
        invariant
            i <= v@.len(),
            forall|j: int| 0 <= j < i ==> !display_quote_char(v@[j]),
        decreases v@.len() - i,
    {
        if char_needs_quoting(v[i]) {
            return true;
        }
        i = i + 1;
    }
    false
}

/// Whether the token contains whitespace or a shell metacharacter, so that
/// the display rendering must quote it.
pub fn needs_quoting(arg: &str) -> (b: bool)
    ensures
        b == needs_quoting_spec(arg@),
{
    let cs = str_to_chars(arg);
    needs_quoting_chars(&cs)
}

/// The display quoting of one whole token: single quotes, or double quotes
/// with backslash escaping when the token itself holds a single quote.
pub open spec fn quote_arg_spec(s: Seq<char>) -> Seq<char> {
    if contains_char(s, '\'') {
        seq!['"'] + escape_dq_spec(s) + seq!['"']
    } else {
        seq!['\''] + s + seq!['\'']
    }
}

/// Quotes one token for display.
pub fn quote_arg(arg: &str) -> (r: String)
    ensures
        r@ == quote_arg_spec(arg@),
{
    let cs = str_to_chars(arg);
    let mut out: Vec<char> = Vec::new();
    if vec_contains_char(&cs, '\'') {
        out.push('"');
        append_escape_dq(&mut out, &cs);
        out.push('"');
        proof {
            assert(out@ =~= quote_arg_spec(arg@));
        }
    } else {
        out.push('\'');
        append_chars(&mut out, &cs);
        out.push('\'');
        proof {
            assert(out@ =~= quote_arg_spec(arg@));
        }
    }
    chars_to_string(&out)
}

/// The display rendering of a `key=value` token: only the value portion is
/// quoted, and only when it needs quoting.
pub open spec fn format_key_value_spec(s: Seq<char>) -> Seq<char>
    recommends
        contains_char(s, '='),
{
    let eq = first_pos(s, '=');
    let key = s.subrange(0, eq);
    let value = s.subrange(eq + 1, s.len() as int);
    if needs_quoting_spec(value) {
        if contains_char(value, '\'') {
            key + seq!['=', '"'] + escape_dq_spec(value) + seq!['"']
        } else {
            key + seq!['=', '\''] + value + seq!['\'']
        }
    } else {
        s
    }
}

/// Renders a `key=value` token for display, quoting only the value portion
/// when it needs quoting.
pub fn format_key_value_for_display(arg: &str) -> (r: String)
    requires
        contains_char(arg@, '='),
    ensures
        r@ == format_key_value_spec(arg@),
{
    let cs = str_to_chars(arg);
    let n = cs.len();
    let eq = match find_char(&cs, '=') {
        Some(i) => i,
        None => {
            proof {
                assert(false);
            }
            0
        },
    };
    proof {
        lemma_first_pos_unique(cs@, '=', eq as int);
    }
    assert(eq < n);
    let mut value: Vec<char> = Vec::new();
    let mut i: usize = eq + 1;
    while i < cs.len()
        invariant
            eq + 1 <= i <= cs@.len(),
            value@ == cs@.subrange(eq + 1, i as int),
        decreases cs@.len() - i,
    {
        value.push(cs[i]);
        i = i + 1;
        proof {
            assert(value@ =~= cs@.subrange(eq + 1, i as int));
        }
    }
    if needs_quoting_chars(&value) {
        let mut out: Vec<char> = Vec::new();
        let mut k: usize = 0;
        while k < eq
            invariant
                k <= eq < cs@.len(),
                out@ == cs@.subrange(0, k as int),
            decreases eq - k,
        {
            out.push(cs[k]);
            k = k + 1;
            proof {
                assert(out@ =~= cs@.subrange(0, k as int));
            }
        }
        if vec_contains_char(&value, '\'') {
            out.push('=');
            out.push('"');
            append_escape_dq(&mut out, &value);
            out.push('"');
            proof {
                assert(out@ =~= format_key_value_spec(arg@));
            }
        } else {
            out.push('=');
            out.push('\'');
            append_chars(&mut out, &value);
            out.push('\'');
            proof {
                assert(out@ =~= format_key_value_spec(arg@));
            }
        }
        chars_to_string(&out)
    } else {
        arg.to_owned()
    }
}

/// The display rendering of one token: quoted only when needed, with the
/// `key=value` special case for tokens that begin with a dash.
pub open spec fn display_token_spec(s: Seq<char>) -> Seq<char> {
    if needs_quoting_spec(s) {
        if s.len() > 0 && s[0] == '-' && contains_char(s, '=') {
            format_key_value_spec(s)
        } else {
            quote_arg_spec(s)
        }
    } else {
        s
    }
}

fn display_token(arg: &str) -> (r: String)
    ensures
        r@ == display_token_spec(arg@),
{
    let cs = str_to_chars(arg);
    if needs_quoting_chars(&cs) {
        if cs.len() > 0 && cs[0] == '-' && vec_contains_char(&cs, '=') {
            format_key_value_for_display(arg)
        } else {
            quote_arg(arg)
        }
    } else {
        arg.to_owned()
    }
}

/// Space-joined concatenation of token renderings.
pub open spec fn join_space_spec(parts: Seq<Seq<char>>) -> Seq<char>
    decreases parts.len(),
{
    if parts.len() == 0 {
        Seq::empty()
    } else if parts.len() == 1 {
        parts[0]
    } else {
        parts[0] + seq![' '] + join_space_spec(parts.drop_first())
    }
}

proof fn lemma_join_space_push(parts: Seq<Seq<char>>, t: Seq<char>)
    ensures
        join_space_spec(parts.push(t)) == if parts.len() == 0 {
            t
        } else {
            join_space_spec(parts) + seq![' '] + t
        },
    decreases parts.len(),
{
    if parts.len() == 0 {
        assert(join_space_spec(parts.push(t)) =~= t);
    } else if parts.len() == 1 {
        assert(parts.push(t).drop_first() =~= seq![t]);
        assert(join_space_spec(seq![t]) == t);
        assert(parts.push(t)[0] == parts[0]);
        assert(join_space_spec(parts.push(t)) =~= parts[0] + seq![' '] + t);
    } else {
        assert(parts.push(t).drop_first() =~= parts.drop_first().push(t));
        lemma_join_space_push(parts.drop_first(), t);
        assert(join_space_spec(parts.push(t)) =~= join_space_spec(parts) + seq![' '] + t);
    }
}

/// The display rendering of a whole command line.
pub open spec fn format_args_spec(args: Seq<Seq<char>>) -> Seq<char> {
    join_space_spec(args.map_values(|t: Seq<char>| display_token_spec(t)))
}

/// Renders command tokens as one human-readable, best-effort copy-pasteable
/// line. This output is cosmetic and never feeds the execution path.
pub fn format_args_for_display(args: &[String]) -> (r: String)
    ensures
        r@ == format_args_spec(views_of_strings(args@)),
{
    let ghost displayed = views_of_strings(args@).map_values(|t: Seq<char>| display_token_spec(t));
    let mut out: Vec<char> = Vec::new();
    let mut i: usize = 0;
    while i < args.len()
        invariant
            i <= args@.len(),
            displayed == views_of_strings(args@).map_values(
                |t: Seq<char>| display_token_spec(t),
            ),
            out@ == join_space_spec(displayed.subrange(0, i as int)),
        decreases args@.len() - i,
    {
        let t = display_token(args[i].as_str());
        let tc = str_to_chars(t.as_str());
        if i > 0 {
            out.push(' ');
        }
        append_chars(&mut out, &tc);
        proof {
            let pre = displayed.subrange(0, i as int);
            assert(displayed.subrange(0, i + 1) =~= pre.push(displayed[i as int]));
            lemma_join_space_push(pre, displayed[i as int]);
        }
        i = i + 1;
    }
    proof {
        assert(displayed.subrange(0, args@.len() as int) =~= displayed);
    }
    chars_to_string(&out)
}

// ---------------------------------------------------------------------------
// Shell resolution
// ---------------------------------------------------------------------------

/// Which shell binary to invoke, with its fixed leading arguments, resolved
/// once per process. `posix_like` records whether the shell supports the
/// positional-parameter mechanism (`"$@"`).
pub struct ShellResolution {
    pub program: String,
    pub fixed_args: Vec<String>,
    pub posix_like: bool,
}

/// Resolves the shell from explicit environment values: a preferred shell if
/// the user's environment names one; on Windows, PowerShell when the session
/// marker is present, else the system command interpreter; else `/bin/sh`.
pub fn resolve_shell(
    preferred_shell: Option<String>,
    powershell_session: bool,
    windows: bool,
) -> (r: ShellResolution)
    ensures
        match preferred_shell {
            Some(shell) => r.program == shell && r.fixed_args@.len() == 1 && r.fixed_args@[0]@
                == "-c"@ && r.posix_like,
            None => {
                if windows {
                    if powershell_session {
                        r.program@ == "powershell"@ && r.fixed_args@.len() == 2
                            && r.fixed_args@[0]@ == "-NoLogo"@ && r.fixed_args@[1]@ == "-c"@
                            && !r.posix_like
                    } else {
                        r.program@ == "cmd"@ && r.fixed_args@.len() == 2 && r.fixed_args@[0]@
                            == "/s"@ && r.fixed_args@[1]@ == "/c"@ && !r.posix_like
                    }
                } else {
                    r.program@ == "/bin/sh"@ && r.fixed_args@.len() == 1 && r.fixed_args@[0]@
                        == "-c"@ && r.posix_like
                }
            },
        },
{
    match preferred_shell {
        Some(shell) => {
            let mut fixed_args: Vec<String> = Vec::new();
            fixed_args.push("-c".to_owned());
            ShellResolution { program: shell, fixed_args, posix_like: true }
        },
        None => {
            if windows {
                if powershell_session {
                    let mut fixed_args: Vec<String> = Vec::new();
                    fixed_args.push("-NoLogo".to_owned());
                    fixed_args.push("-c".to_owned());
                    ShellResolution {
                        program: "powershell".to_owned(),
                        fixed_args,
                        posix_like: false,
                    }
                } else {
                    let mut fixed_args: Vec<String> = Vec::new();
                    fixed_args.push("/s".to_owned());
                    fixed_args.push("/c".to_owned());
                    ShellResolution { program: "cmd".to_owned(), fixed_args, posix_like: false }
                }
            } else {
                let mut fixed_args: Vec<String> = Vec::new();
                fixed_args.push("-c".to_owned());
                ShellResolution { program: "/bin/sh".to_owned(), fixed_args, posix_like: true }
            }
        },
    }
}

// ---------------------------------------------------------------------------
// Command building
// ---------------------------------------------------------------------------

/// The characters that force quoting when tokens are joined into one string
/// for a Windows shell.
pub open spec fn windows_quote_char(c: char) -> bool {
    c == ' ' || c == '"' || c == '&' || c == '|'
}

/// One token as it is written into the joined Windows command string: quoted
/// with doubled inner quotes when it holds a space, quote, `&` or `|`.
pub open spec fn windows_token_spec(t: Seq<char>) -> Seq<char> {
    if exists|i: int| 0 <= i < t.len() && windows_quote_char(t[i]) {
        seq!['"'] + crate::text::double_dq_spec(t) + seq!['"']
    } else {
        t
    }
}

/// The whole command joined into one best-effort quoted string for a shell
/// without positional parameters.
pub open spec fn windows_join_spec(tokens: Seq<Seq<char>>) -> Seq<char> {
    join_space_spec(tokens.map_values(|t: Seq<char>| windows_token_spec(t)))
}

fn windows_token(arg: &str) -> (r: String)
    ensures
        r@ == windows_token_spec(arg@),
{
    let cs = str_to_chars(arg);
    let mut i: usize = 0;
    let mut quote = false;
    while i < cs.len()
        invariant
            i <= cs@.len(),
            quote == exists|j: int| 0 <= j < i && windows_quote_char(cs@[j]),
        decreases cs@.len() - i,
    {
        let c = cs[i];
        if c == ' ' || c == '"' || c == '&' || c == '|' {
            quote = true;
        }
        i = i + 1;
    }
    if quote {
        let mut out: Vec<char> = Vec::new();
        out.push('"');
        crate::text::append_double_dq(&mut out, &cs);
        out.push('"');
        proof {
            assert(out@ =~= windows_token_spec(arg@));
        }
        chars_to_string(&out)
    } else {
        arg.to_owned()
    }
}

fn windows_join(exec_args: &[String]) -> (r: String)
    ensures
        r@ == windows_join_spec(views_of_strings(exec_args@)),
{
    let ghost joined = views_of_strings(exec_args@).map_values(
        |t: Seq<char>| windows_token_spec(t),
    );
    let mut out: Vec<char> = Vec::new();
    let mut i: usize = 0;
    while i < exec_args.len()
        invariant
            i <= exec_args@.len(),
            joined == views_of_strings(exec_args@).map_values(
                |t: Seq<char>| windows_token_spec(t),
            ),
            out@ == join_space_spec(joined.subrange(0, i as int)),
        decreases exec_args@.len() - i,
    {
        let t = windows_token(exec_args[i].as_str());
        let tc = str_to_chars(t.as_str());
        if i > 0 {
            out.push(' ');
        }
        append_chars(&mut out, &tc);
        proof {
            let pre = joined.subrange(0, i as int);
            assert(joined.subrange(0, i + 1) =~= pre.push(joined[i as int]));
            lemma_join_space_push(pre, joined[i as int]);
        }
        i = i + 1;
    }
    proof {
        assert(joined.subrange(0, exec_args@.len() as int) =~= joined);
    }
    chars_to_string(&out)
}

/// A concrete, spawnable process description: program, full argument list,
/// and the working directory (always the repo's path).
pub struct ExecInvocation {
    pub program: String,
    pub args: Vec<String>,
    pub working_dir: String,
}

/// Builds the subprocess invocation for one repository.
///
/// A single token is handed to the shell verbatim, so the shell interprets
/// pipes, redirection and chaining in it. Several tokens on a POSIX-like
/// shell ride behind `"$@"` and `--` as positional parameters, each one
/// verbatim. Several tokens on a Windows shell are joined into one
/// best-effort quoted string.
pub fn build_invocation(
    resolution: &ShellResolution,
    exec_args: &[String],
    repo_path: &str,
) -> (inv: ExecInvocation)
    ensures
        inv.program@ == resolution.program@,
        inv.working_dir@ == repo_path@,
        exec_args@.len() == 1 ==> inv.args@ == resolution.fixed_args@ + seq![exec_args@[0]],
        exec_args@.len() != 1 && resolution.posix_like ==> ({
            let f = resolution.fixed_args@.len() as int;
            &&& inv.args@.len() == f + 2 + exec_args@.len()
            &&& inv.args@.subrange(0, f) == resolution.fixed_args@
            &&& inv.args@[f]@ == "\"$@\""@
            &&& inv.args@[f + 1]@ == "--"@
            &&& forall|k: int| 0 <= k < exec_args@.len() ==> inv.args@[f + 2 + k] == exec_args@[k]
        }),
        exec_args@.len() != 1 && !resolution.posix_like ==> ({
            let f = resolution.fixed_args@.len() as int;
            &&& inv.args@.len() == f + 1
            &&& inv.args@.subrange(0, f) == resolution.fixed_args@
            &&& inv.args@[f]@ == windows_join_spec(views_of_strings(exec_args@))
        }),
{
    let mut args: Vec<String> = Vec::new();
    let mut i: usize = 0;
    while i < resolution.fixed_args.len()
        invariant
            i <= resolution.fixed_args@.len(),
            args@ == resolution.fixed_args@.subrange(0, i as int),
        decreases resolution.fixed_args@.len() - i,
    {
        args.push(resolution.fixed_args[i].clone());
        i = i + 1;
        proof {
            assert(args@ =~= resolution.fixed_args@.subrange(0, i as int));
        }
    }
    proof {
        assert(resolution.fixed_args@.subrange(0, resolution.fixed_args@.len() as int)
            =~= resolution.fixed_args@);
    }
    let ghost fixed = resolution.fixed_args@;
    if exec_args.len() == 1 {
        args.push(exec_args[0].clone());
        proof {
            assert(args@ =~= fixed + seq![exec_args@[0]]);
        }
    } else if resolution.posix_like {
        args.push("\"$@\"".to_owned());
        args.push("--".to_owned());
        let mut k: usize = 0;
        while k < exec_args.len()
            invariant
                k <= exec_args@.len(),
                args@.len() == fixed.len() + 2 + k,
                args@.subrange(0, fixed.len() as int) == fixed,
                args@[fixed.len() as int]@ == "\"$@\""@,
                args@[fixed.len() as int + 1]@ == "--"@,
                forall|j: int| 0 <= j < k ==> args@[fixed.len() as int + 2 + j] == exec_args@[j],
            decreases exec_args@.len() - k,
        {
            args.push(exec_args[k].clone());
            k = k + 1;
            proof {
                assert(args@.subrange(0, fixed.len() as int) =~= fixed);
            }
        }
    } else {
        args.push(windows_join(exec_args));
        proof {
            assert(args@.subrange(0, fixed.len() as int) =~= fixed);
        }
    }
    ExecInvocation { program: resolution.program.clone(), args, working_dir: repo_path.to_owned() }
}

// ---------------------------------------------------------------------------
// Oneline output composition
// ---------------------------------------------------------------------------

/// One captured stream flattened for a oneline record: surrounding whitespace
/// trimmed, then every newline replaced by a single space.
pub open spec fn flatten_output_spec(s: Seq<char>) -> Seq<char> {
    crate::text::flatten_newlines_spec(crate::text::trim_spec(s))
}

/// The oneline record's text: stdout alone on success; on failure, stderr is
/// appended after a space (or stands alone when stdout is empty).
pub open spec fn oneline_text_spec(so: Seq<char>, se: Seq<char>, success: bool) -> Seq<char> {
    let s = flatten_output_spec(so);
    let e = flatten_output_spec(se);
    if !success && e.len() > 0 {
        if s.len() == 0 {
            e
        } else {
            s + seq![' '] + e
        }
    } else {
        s
    }
}

/// Flattens both captured streams into the oneline record's text, or `None`
/// when there is nothing to report.
pub fn compose_oneline_output(
    stdout_text: &str,
    stderr_text: &str,
    success: bool,
) -> (r: Option<String>)
    ensures
        r is Some <==> oneline_text_spec(stdout_text@, stderr_text@, success).len() > 0,
        r is Some ==> r.unwrap()@ == oneline_text_spec(stdout_text@, stderr_text@, success),
{
    let so = str_to_chars(stdout_text);
    let se = str_to_chars(stderr_text);
    let s = crate::text::flatten_newlines(&crate::text::trim_vec(&so));
    let e = crate::text::flatten_newlines(&crate::text::trim_vec(&se));
    let out: Vec<char> = if !success && e.len() > 0 {
        if s.len() == 0 {
            e
        } else {
            let mut joined = s;
            joined.push(' ');
            append_chars(&mut joined, &e);
            proof {
                assert(joined@ =~= oneline_text_spec(stdout_text@, stderr_text@, success));
            }
            joined
        }
    } else {
        s
    };
    if out.len() == 0 {
        None
    } else {
        Some(chars_to_string(&out))
    }
}

// ---------------------------------------------------------------------------
// Fan-out aggregation
// ---------------------------------------------------------------------------

/// What happened to one repository during the fan-out.
pub enum RepoOutcome {
    /// The repo folder was absent; the repo was skipped.
    Missing,
    /// The command ran to completion, successfully or not.
    Completed { success: bool },
}

/// How many repos of the outcome list were skipped.
pub open spec fn count_skipped(outcomes: Seq<RepoOutcome>) -> nat
    decreases outcomes.len(),
{
    if outcomes.len() == 0 {
        0
    } else {
        count_skipped(outcomes.drop_last()) + (if outcomes.last() is Missing {
            1nat
        } else {
            0nat
        })
    }
}

/// How many commands of the outcome list exited unsuccessfully.
pub open spec fn count_failed(outcomes: Seq<RepoOutcome>) -> nat
    decreases outcomes.len(),
{
    if outcomes.len() == 0 {
        0
    } else {
        count_failed(outcomes.drop_last()) + (match outcomes.last() {
            RepoOutcome::Completed { success: false } => 1nat,
            _ => 0nat,
        })
    }
}

/// The process exit code the run reports for the given tallies.
pub open spec fn summary_exit_code(failed: nat, skipped: nat) -> int {
    if failed + skipped > 0 {
        1
    } else {
        0
    }
}

/// The tallies the fan-out loop accumulates.
pub struct RunSummary {
    pub failed_count: usize,
    pub skipped_count: usize,
}

impl RunSummary {
    /// A fresh summary with nothing recorded.
    pub fn new() -> (r: RunSummary)
        ensures
            r.failed_count == 0,
            r.skipped_count == 0,
    {
        RunSummary { failed_count: 0, skipped_count: 0 }
    }

    /// Records one repo whose folder was missing.
    pub fn record_skip(&mut self)
        requires
            old(self).skipped_count < usize::MAX,
        ensures
            final(self).skipped_count == old(self).skipped_count + 1,
            final(self).failed_count == old(self).failed_count,
    {
        self.skipped_count = self.skipped_count + 1;
    }

    /// Records one completed command.
    pub fn record_exit(&mut self, success: bool)
        requires
            old(self).failed_count < usize::MAX,
        ensures
            final(self).failed_count == old(self).failed_count + (if success {
                0int
            } else {
                1int
            }),
            final(self).skipped_count == old(self).skipped_count,
    {
        if !success {
            self.failed_count = self.failed_count + 1;
        }
    }

    /// The process exit code: `1` when anything was skipped or failed, else
    /// `0`.
    pub fn exit_code(&self) -> (r: i32)
        ensures
            r == summary_exit_code(self.failed_count as nat, self.skipped_count as nat),
    {
        if self.failed_count > 0 || self.skipped_count > 0 {
            1
        } else {
            0
        }
    }
}

/// Tallies a whole outcome list.
pub fn summarize_outcomes(outcomes: &Vec<RepoOutcome>) -> (r: RunSummary)
    ensures
        r.failed_count == count_failed(outcomes@),
        r.skipped_count == count_skipped(outcomes@),
{
    let mut r = RunSummary::new();
    let mut i: usize = 0;
    while i < outcomes.len()
        invariant
            i <= outcomes@.len(),
            r.failed_count == count_failed(outcomes@.subrange(0, i as int)),
            r.skipped_count == count_skipped(outcomes@.subrange(0, i as int)),
            r.failed_count + r.skipped_count <= i,
        decreases outcomes@.len() - i,
    {
        let ghost pre = outcomes@.subrange(0, i as int);
        match outcomes[i] {
            RepoOutcome::Missing => r.record_skip(),
            RepoOutcome::Completed { success } => r.record_exit(success),
        }
        i = i + 1;
        proof {
            assert(outcomes@.subrange(0, i as int).drop_last() =~= pre);
        }
    }
    proof {
        assert(outcomes@.subrange(0, outcomes@.len() as int) =~= outcomes@);
    }
    r
}

/// Law: the fan-out aggregates every outcome in the list; the skip tally is
/// exactly the number of repos whose folder was absent, and whenever any repo
/// was skipped the whole run's exit code is `1`.
pub proof fn lemma_absent_repos_skip_exactly(outcomes: Seq<RepoOutcome>)
    ensures
        count_skipped(outcomes) == outcomes.filter(|o: RepoOutcome| o is Missing).len(),
        count_skipped(outcomes) > 0 ==> summary_exit_code(
            count_failed(outcomes),
            count_skipped(outcomes),
        ) == 1,
    decreases outcomes.len(),
{
    reveal(Seq::filter);
    if outcomes.len() > 0 {
        lemma_absent_repos_skip_exactly(outcomes.drop_last());
    }
}

// ---------------------------------------------------------------------------
// Printed line shapes
// ---------------------------------------------------------------------------

/// The banner printed before a streaming execution:
/// `🏢 <path>> <display-formatted command>`.
pub fn exec_banner(path: &str, exec_args: &[String]) -> (r: String)
    ensures
        r@ == "🏢 "@ + path@ + "> "@ + format_args_spec(views_of_strings(exec_args@)),
{
    let mut out: Vec<char> = Vec::new();
    crate::text::append_str(&mut out, "🏢 ");
    crate::text::append_str(&mut out, path);
    crate::text::append_str(&mut out, "> ");
    let d = format_args_for_display(exec_args);
    crate::text::append_str(&mut out, d.as_str());
    proof {
        assert(out@ =~= "🏢 "@ + path@ + "> "@ + format_args_spec(views_of_strings(exec_args@)));
    }
    chars_to_string(&out)
}

/// The notice for a missing repo folder: a tab-separated record in oneline
/// mode, else the banner-shaped block line.
pub fn missing_notice(path: &str, oneline: bool) -> (r: String)
    ensures
        oneline ==> r@ == path@ + "\tRepo folder missing, skipped."@,
        !oneline ==> r@ == "🏢 "@ + path@ + "> Repo folder missing, skipped."@,
{
    let mut out: Vec<char> = Vec::new();
    if oneline {
        crate::text::append_str(&mut out, path);
        crate::text::append_str(&mut out, "\tRepo folder missing, skipped.");
        proof {
            assert(out@ =~= path@ + "\tRepo folder missing, skipped."@);
        }
    } else {
        crate::text::append_str(&mut out, "🏢 ");
        crate::text::append_str(&mut out, path);
        crate::text::append_str(&mut out, "> Repo folder missing, skipped.");
        proof {
            assert(out@ =~= "🏢 "@ + path@ + "> Repo folder missing, skipped."@);
        }
    }
    chars_to_string(&out)
}

/// The oneline record for one repo: `<path>\t<flattened output or empty>`.
pub fn oneline_record(path: &str, output: &Option<String>) -> (r: String)
    ensures
        match output {
            Some(text) => r@ == path@ + "\t"@ + text@,
            None => r@ == path@ + "\t"@,
        },
{
    let mut out: Vec<char> = Vec::new();
    crate::text::append_str(&mut out, path);
    crate::text::append_str(&mut out, "\t");
    match output {
        Some(text) => {
            crate::text::append_str(&mut out, text.as_str());
            proof {
                assert(out@ =~= path@ + "\t"@ + text@);
            }
        },
        None => {
            proof {
                assert(out@ =~= path@ + "\t"@);
            }
        },
    }
    chars_to_string(&out)
}

/// The diagnostic printed when a streamed command exits with a non-zero
/// code: `Command exited with code <code>`.
pub fn nonzero_exit_notice(code: i64) -> (r: String)
    ensures
        r@ == "Command exited with code "@ + crate::text::dec_int_spec(code as int),
{
    let mut out: Vec<char> = Vec::new();
    crate::text::append_str(&mut out, "Command exited with code ");
    let ds = crate::text::i64_to_dec_chars(code);
    append_chars(&mut out, &ds);
    proof {
        assert(out@ =~= "Command exited with code "@ + crate::text::dec_int_spec(code as int));
    }
    chars_to_string(&out)
}

/// The end-of-run summary line for failed commands:
/// `<n> commands exited with non-zero status code`.
pub fn failed_summary_line(n: u64) -> (r: String)
    ensures
        r@ == crate::text::dec_spec(n as nat) + " commands exited with non-zero status code"@,
{
    let mut out = crate::text::u64_to_dec_chars(n);
    crate::text::append_str(&mut out, " commands exited with non-zero status code");
    chars_to_string(&out)
}

/// The end-of-run summary line for skipped repos: `<n> repos skipped`.
pub fn skipped_summary_line(n: u64) -> (r: String)
    ensures
        r@ == crate::text::dec_spec(n as nat) + " repos skipped"@,
{
    let mut out = crate::text::u64_to_dec_chars(n);
    crate::text::append_str(&mut out, " repos skipped");
    chars_to_string(&out)
}

} // verus!
