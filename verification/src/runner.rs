//! A small runner for developer-facing recipes that keeps the logs of every run.

use vstd::prelude::*;

use crate::paths::{join_path, joined_path};
use crate::text::{
    byte_len, clamp, clamped, concat2, concat3, contains, decimal, decimal_of, has_part, join,
    joined, lemma_clamped, lines, lines_of, lossy, no_texts, number_string, push_text, same,
    signed_decimal, signed_decimal_of, text_of_bytes, texts, upper, uppercase, zero_padded,
};

verus! {

/// How many bytes of a log are shown after a failure, at most.
pub const FAILURE_EXCERPT_BYTES: u64 = 8192;

/// How many lines of a log are shown after a failure, at most.
pub const FAILURE_EXCERPT_LINES: usize = 80;

/// Where runs keep their logs unless something else is chosen.
pub const DEFAULT_LOG_ROOT: &'static str = "target/run";

/// How many names are tried for the directory of a run.
pub const RUN_DIR_ATTEMPTS: u32 = 1000;

/// What stands in place of a secret.
pub const REDACTED: &'static str = "<redacted>";

// ---------------------------------------------------------------------------
// Secrets
// ---------------------------------------------------------------------------

/// Whether an argument holds a secret: an assignment to something that is named like
/// one, in letters of either case.
pub open spec fn holds_secret(arg: Seq<char>) -> bool {
    let u = upper(arg);
    contains(u, "TOKEN="@) || contains(u, "PASSWORD="@) || contains(u, "SECRET="@) || contains(
        u,
        "PRIVATE_KEY="@,
    )
}

/// Whether an argument is a flag whose value is a secret.
pub open spec fn is_secret_flag(arg: Seq<char>) -> bool {
    let u = upper(arg);
    u == "--TOKEN"@ || u == "--PASSWORD"@ || u == "--SECRET"@ || u == "--PRIVATE-KEY"@
}

/// Whether the argument behind a list of arguments is the value of a secret flag.
pub open spec fn expects_secret(argv: Seq<Seq<char>>) -> bool
    decreases argv.len(),
{
    argv.len() > 0 && !expects_secret(argv.drop_last()) && is_secret_flag(argv.last())
}

/// A command line without its secrets.
pub open spec fn sanitized(argv: Seq<Seq<char>>) -> Seq<Seq<char>>
    decreases argv.len(),
{
    if argv.len() == 0 {
        seq![]
    } else {
        let arg = if expects_secret(argv.drop_last()) || holds_secret(argv.last()) {
            REDACTED@
        } else {
            argv.last()
        };
        sanitized(argv.drop_last()).push(arg)
    }
}

/// Whether an argument holds a secret.
fn arg_holds_secret(upper_arg: &str) -> (r: bool)
    ensures
        r == (contains(upper_arg@, "TOKEN="@) || contains(upper_arg@, "PASSWORD="@) || contains(
            upper_arg@,
            "SECRET="@,
        ) || contains(upper_arg@, "PRIVATE_KEY="@)),
{
    has_part(upper_arg, "TOKEN=") || has_part(upper_arg, "PASSWORD=") || has_part(
        upper_arg,
        "SECRET=",
    ) || has_part(upper_arg, "PRIVATE_KEY=")
}

/// A command line without its secrets.
pub fn sanitized_argv(argv: &[String]) -> (r: Vec<String>)
    ensures
        texts(r@) == sanitized(texts(argv@)),
{
    let mut result = no_texts();
    let mut redact_next = false;
    let mut i: usize = 0;
    let ghost all = texts(argv@);
    assert(all.take(0) =~= seq![]);
    while i < argv.len()
        invariant
            i <= argv@.len(),
            all == texts(argv@),
            redact_next == expects_secret(all.take(i as int)),
            texts(result@) == sanitized(all.take(i as int)),
        decreases argv@.len() - i,
    {
        let arg = argv[i].as_str();
        assert(all.take(i + 1).drop_last() =~= all.take(i as int));
        assert(all.take(i + 1).last() == arg@);
        if redact_next {
            push_text(&mut result, REDACTED);
            redact_next = false;
        } else {
            let u = uppercase(arg);
            let secret = arg_holds_secret(u.as_str());
            redact_next = same(u.as_str(), "--TOKEN") || same(u.as_str(), "--PASSWORD") || same(
                u.as_str(),
                "--SECRET",
            ) || same(u.as_str(), "--PRIVATE-KEY");
            if secret {
                push_text(&mut result, REDACTED);
            } else {
                push_text(&mut result, arg);
            }
        }
        i = i + 1;
    }
    assert(all.take(i as int) =~= all);
    result
}

/// A sanitized command line has an argument for each argument: the same, or the mark of
/// a secret.
pub proof fn law_sanitized_keeps_positions(argv: Seq<Seq<char>>)
    ensures
        sanitized(argv).len() == argv.len(),
        forall|i: int|
            0 <= i < argv.len() ==> #[trigger] sanitized(argv)[i] == (if expects_secret(
                argv.take(i),
            ) || holds_secret(argv[i]) {
                REDACTED@
            } else {
                argv[i]
            }),
    decreases argv.len(),
{
    if argv.len() > 0 {
        let before = argv.drop_last();
        law_sanitized_keeps_positions(before);
        assert forall|i: int| 0 <= i < argv.len() implies #[trigger] sanitized(argv)[i] == (
        if expects_secret(argv.take(i)) || holds_secret(argv[i]) {
            REDACTED@
        } else {
            argv[i]
        }) by {
            if i < before.len() {
                assert(sanitized(argv)[i] == sanitized(before)[i]);
                assert(before.take(i) =~= argv.take(i));
            } else {
                assert(argv.take(i) =~= before);
            }
        }
    }
}

/// No argument that holds a secret is shown.
pub proof fn law_no_secret_is_shown(argv: Seq<Seq<char>>, i: int)
    requires
        0 <= i < argv.len(),
        holds_secret(argv[i]),
    ensures
        sanitized(argv)[i] == REDACTED@,
{
    law_sanitized_keeps_positions(argv);
}

/// The value of a secret flag is not shown, unless the flag stands in the place of a
/// value itself.
pub proof fn law_no_secret_value_is_shown(argv: Seq<Seq<char>>, i: int)
    requires
        0 <= i,
        i + 1 < argv.len(),
        is_secret_flag(argv[i]),
        !expects_secret(argv.take(i)),
    ensures
        sanitized(argv)[i + 1] == REDACTED@,
{
    law_sanitized_keeps_positions(argv);
    assert(argv.take(i + 1).drop_last() =~= argv.take(i));
}

// ---------------------------------------------------------------------------
// The command and how it ended
// ---------------------------------------------------------------------------

/// The arguments of GNU `timeout`. The shell sends the errors of the command where its
/// output goes, so that those of `timeout` itself can be told apart.
pub open spec fn timeout_args(kill_after: Seq<char>, timeout: Seq<char>, command: Seq<Seq<char>>) -> Seq<
    Seq<char>,
> {
    seq![
        "--verbose"@,
        "--kill-after="@ + kill_after,
        timeout,
        "/bin/sh"@,
        "-c"@,
        "exec \"$@\" 2>&1"@,
        "bootc-runner"@,
    ] + command
}

/// The arguments of GNU `timeout`.
pub fn timeout_argv(kill_after: &str, timeout: &str, command: &Vec<String>) -> (r: Vec<String>)
    ensures
        texts(r@) == timeout_args(kill_after@, timeout@, texts(command@)),
{
    let mut args = no_texts();
    push_text(&mut args, "--verbose");
    let kill = concat2("--kill-after=", kill_after);
    push_text(&mut args, kill.as_str());
    push_text(&mut args, timeout);
    push_text(&mut args, "/bin/sh");
    push_text(&mut args, "-c");
    push_text(&mut args, "exec \"$@\" 2>&1");
    push_text(&mut args, "bootc-runner");
    crate::text::push_texts(&mut args, command);
    assert(texts(args@) =~= timeout_args(kill_after@, timeout@, texts(command@)));
    args
}

/// The exit code of a process and the signal that ended it, from what the system tells
/// of the two. A signal counts as the code that a shell gives it.
pub fn status_details(code: Option<i32>, signal: Option<i32>) -> (r: (i32, Option<i32>))
    requires
        code is None && signal is Some ==> signal->0 <= i32::MAX - 128,
    ensures
        r == (match (code, signal) {
            (Some(c), _) => (c, None::<i32>),
            (None, Some(s)) => ((128 + s) as i32, Some(s)),
            (None, None) => (1i32, None),
        }),
{
    match (code, signal) {
        (Some(c), _) => (c, None),
        (None, Some(s)) => (128 + s, Some(s)),
        (None, None) => (1, None),
    }
}

/// Whether a run was ended by `timeout`: it says so, and the exit code is one of its own.
pub open spec fn is_timeout(reported: bool, exit_code: i32) -> bool {
    reported && (exit_code == 124 || exit_code == 137)
}

/// Whether a run was ended by `timeout`.
pub fn timed_out(reported: bool, exit_code: i32) -> (r: bool)
    ensures
        r == is_timeout(reported, exit_code),
{
    reported && (exit_code == 124 || exit_code == 137)
}

/// A duration in seconds, with its milliseconds.
pub open spec fn duration_text(secs: nat, millis: nat) -> Seq<char> {
    decimal(secs) + "."@ + zero_padded(decimal(millis), 3) + "s"@
}

/// A duration in seconds, with its milliseconds in three digits.
pub fn display_duration(secs: u64, subsec_millis: u32) -> (r: String)
    ensures
        r@ == duration_text(secs as nat, subsec_millis as nat),
{
    let s = decimal_of(secs);
    let m = number_string(subsec_millis as u64, 10, 3);
    let head = concat3(s.as_str(), ".", m.as_str());
    concat2(head.as_str(), "s")
}

/// How a run is summed up.
pub open spec fn result_text(
    exit_code: i32,
    timed_out: bool,
    time: Seq<char>,
    log_path: Seq<char>,
) -> Seq<char> {
    let kind = if exit_code == 0 {
        "PASS"@
    } else if timed_out {
        "TIMEOUT"@
    } else {
        "FAIL"@
    };
    kind + ": exit="@ + signed_decimal(exit_code as int) + " time="@ + time + " log="@ + log_path
}

/// How a run is summed up.
pub fn result_line(exit_code: i32, timed_out: bool, time: &str, log_path: &str) -> (r: String)
    ensures
        r@ == result_text(exit_code, timed_out, time@, log_path@),
{
    let kind = if exit_code == 0 {
        "PASS"
    } else if timed_out {
        "TIMEOUT"
    } else {
        "FAIL"
    };
    let code = signed_decimal_of(exit_code);
    let mut line = concat3(kind, ": exit=", code.as_str());
    line.append(" time=");
    line.append(time);
    line.append(" log=");
    line.append(log_path);
    line
}

/// What is kept of a run.
#[derive(Debug)]
pub struct RunResult {
    pub argv: Vec<String>,
    pub workdir: String,
    pub exit_code: i32,
    pub signal: Option<i32>,
    pub timed_out: bool,
    pub timeout: String,
    pub kill_after: String,
    pub duration_ms: u64,
    pub log_path: String,
    pub timeout_log_path: String,
    pub tmt_log_dir: String,
}

/// What was asked of a run.
#[derive(Debug)]
pub struct RunRequest {
    pub command: Vec<String>,
    pub timeout: String,
    pub kill_after: String,
    /// The directory of the run.
    pub run_dir: String,
    pub workdir: String,
}

/// What came of a run.
#[derive(Debug, Clone, Copy)]
pub struct RunOutcome {
    pub code: Option<i32>,
    pub signal: Option<i32>,
    /// Whether `timeout` had something to say.
    pub timeout_reported: bool,
    pub duration_ms: u64,
}

impl RunOutcome {
    /// The exit code: that of the process, else that of its signal.
    pub open spec fn exit_code(self) -> i32 {
        match (self.code, self.signal) {
            (Some(c), _) => c,
            (None, Some(s)) => (128 + s) as i32,
            (None, None) => 1,
        }
    }
}

/// What is kept of a run: its command line without secrets, how it ended, and where its
/// logs are.
pub fn run_result(request: &RunRequest, outcome: RunOutcome) -> (r: RunResult)
    requires
        outcome.code is None && outcome.signal is Some ==> outcome.signal->0 <= i32::MAX - 128,
    ensures
        texts(r.argv@) == sanitized(texts(request.command@)),
        r.workdir@ == request.workdir@,
        r.exit_code == outcome.exit_code(),
        r.signal == (if outcome.code is Some {
            None
        } else {
            outcome.signal
        }),
        r.timed_out == is_timeout(outcome.timeout_reported, outcome.exit_code()),
        r.timeout@ == request.timeout@,
        r.kill_after@ == request.kill_after@,
        r.duration_ms == outcome.duration_ms,
        r.log_path@ == joined_path(request.run_dir@, "output.log"@),
        r.timeout_log_path@ == joined_path(request.run_dir@, "timeout.log"@),
        r.tmt_log_dir@ == joined_path(request.run_dir@, "tmt"@),
{
    let (exit_code, signal) = status_details(outcome.code, outcome.signal);
    RunResult {
        argv: sanitized_argv(request.command.as_slice()),
        workdir: request.workdir.clone(),
        exit_code,
        signal,
        timed_out: timed_out(outcome.timeout_reported, exit_code),
        timeout: request.timeout.clone(),
        kill_after: request.kill_after.clone(),
        duration_ms: outcome.duration_ms,
        log_path: join_path(request.run_dir.as_str(), "output.log"),
        timeout_log_path: join_path(request.run_dir.as_str(), "timeout.log"),
        tmt_log_dir: join_path(request.run_dir.as_str(), "tmt"),
    }
}

/// A run that passed did not time out.
pub proof fn law_passed_is_no_timeout(reported: bool, exit_code: i32)
    requires
        exit_code == 0,
    ensures
        !is_timeout(reported, exit_code),
{
}

// ---------------------------------------------------------------------------
// The directory of a run
// ---------------------------------------------------------------------------

/// The directory that a run tries.
pub open spec fn run_dir(root: Seq<char>, millis: nat, pid: nat, sequence: nat) -> Seq<char> {
    joined_path(
        root,
        "run-"@ + decimal(millis) + "-"@ + decimal(pid) + "-"@ + decimal(sequence),
    )
}

/// The directory that a run tries: named by the time, the process and a number.
pub fn run_dir_candidate(root: &str, millis: u64, pid: u32, sequence: u32) -> (r: String)
    ensures
        r@ == run_dir(root@, millis as nat, pid as nat, sequence as nat),
{
    let m = decimal_of(millis);
    let p = decimal_of(pid as u64);
    let q = decimal_of(sequence as u64);
    let head = concat3("run-", m.as_str(), "-");
    let name = concat3(p.as_str(), "-", q.as_str());
    let all = concat2(head.as_str(), name.as_str());
    assert(all@ =~= "run-"@ + decimal(millis as nat) + "-"@ + decimal(pid as nat) + "-"@ + decimal(
        sequence as nat,
    ));
    join_path(root, all.as_str())
}

/// Two numbers never try the same directory.
pub proof fn law_candidates_differ(root: Seq<char>, millis: nat, pid: nat, a: nat, b: nat)
    requires
        a != b,
    ensures
        run_dir(root, millis, pid, a) != run_dir(root, millis, pid, b),
{
    reveal_strlit("run-");
    reveal_strlit("/");
    let head = "run-"@ + decimal(millis) + "-"@ + decimal(pid) + "-"@;
    let base = if root.len() == 0 || "/"@.is_suffix_of(root) {
        root
    } else {
        root + "/"@
    };
    let x = run_dir(root, millis, pid, a);
    let y = run_dir(root, millis, pid, b);
    let n = base.len() as int + head.len();
    assert(head[0] == 'r');
    crate::paths::lemma_not_absolute(head + decimal(a));
    crate::paths::lemma_not_absolute(head + decimal(b));
    assert(x =~= base + head + decimal(a));
    assert(y =~= base + head + decimal(b));
    if x == y {
        assert(x.skip(n) =~= decimal(a));
        assert(y.skip(n) =~= decimal(b));
        crate::text::lemma_number_text_injective(a, b, 10);
    }
}

/// What came of the attempt to create a directory.
#[derive(Debug, Clone, Copy, PartialEq, Eq, Structural)]
pub enum Creation {
    Created,
    AlreadyExists,
    Failed,
}

/// What follows from it.
#[derive(Debug, Clone, Copy, PartialEq, Eq, Structural)]
pub enum RunDirStep {
    Use,
    Try(u32),
    Fail,
    /// There is no name left to try.
    Exhausted,
}

/// What follows from the attempt to create the directory with the given number: a
/// directory that is there already has the next number tried.
pub fn run_dir_step(sequence: u32, creation: Creation) -> (r: RunDirStep)
    ensures
        r == (match creation {
            Creation::Created => RunDirStep::Use,
            Creation::Failed => RunDirStep::Fail,
            Creation::AlreadyExists => if sequence + 1 < RUN_DIR_ATTEMPTS {
                RunDirStep::Try((sequence + 1) as u32)
            } else {
                RunDirStep::Exhausted
            },
        }),
{
    match creation {
        Creation::Created => RunDirStep::Use,
        Creation::Failed => RunDirStep::Fail,
        Creation::AlreadyExists => if sequence < RUN_DIR_ATTEMPTS - 1 {
            RunDirStep::Try(sequence + 1)
        } else {
            RunDirStep::Exhausted
        },
    }
}

// ---------------------------------------------------------------------------
// The excerpt
// ---------------------------------------------------------------------------

/// Where the part of a log begins that may be shown: at most `limit` bytes before its
/// end.
pub fn window_start(len: u64, limit: u64) -> (r: u64)
    ensures
        r == (if len > limit {
            len - limit
        } else {
            0
        }),
{
    if len > limit {
        len - limit
    } else {
        0
    }
}

/// The last `n` items.
pub open spec fn last_items(s: Seq<Seq<char>>, n: nat) -> Seq<Seq<char>> {
    if s.len() > n {
        s.skip(s.len() - n)
    } else {
        s
    }
}

/// What is shown of a log: its last lines, and of these no more than `limit` bytes.
pub open spec fn excerpt(text: Seq<char>, limit: nat, line_count: nat) -> Seq<char> {
    clamped(join(last_items(lines(text), line_count), "\n"@), limit)
}

/// What is shown of a log.
pub fn excerpt_of(text: &str, limit: usize, line_count: usize) -> (r: String)
    ensures
        r@ == excerpt(text@, limit as nat, line_count as nat),
{
    let ls = lines_of(text);
    let n = ls.len();
    let mut tail = no_texts();
    let start: usize = if n > line_count {
        n - line_count
    } else {
        0
    };
    let ghost all = lines(text@);
    let ghost wanted = last_items(all, line_count as nat);
    let mut i: usize = start;
    assert(wanted =~= all.skip(start as int));
    assert(wanted.take(0) =~= seq![]);
    while i < n
        invariant
            n == ls@.len(),
            texts(ls@) == all,
            start <= i <= n,
            wanted == all.skip(start as int),
            texts(tail@) == wanted.take(i - start),
        decreases n - i,
    {
        push_text(&mut tail, ls[i].as_str());
        assert(wanted.take(i + 1 - start) =~= wanted.take(i - start).push(all[i as int]));
        i = i + 1;
    }
    assert(wanted.take(i - start) =~= wanted);
    let rendered = joined(&tail, "\n");
    clamp(rendered.as_str(), limit)
}

/// What is shown of a log, from the bytes at its end.
pub fn tail_window(window: &Vec<u8>, limit: usize, line_count: usize) -> (r: String)
    ensures
        r@ == excerpt(lossy(window@), limit as nat, line_count as nat),
        vstd::utf8::valid_utf8(window@) ==> r@ == excerpt(
            vstd::utf8::decode_utf8(window@),
            limit as nat,
            line_count as nat,
        ),
{
    let text = text_of_bytes(window.as_slice());
    excerpt_of(text.as_str(), limit, line_count)
}

/// How many line feeds a text holds.
pub open spec fn line_feeds(s: Seq<char>) -> nat
    decreases s.len(),
{
    if s.len() == 0 {
        0
    } else {
        line_feeds(s.drop_last()) + (if s.last() == '\n' {
            1nat
        } else {
            0
        })
    }
}

/// The line feeds of two texts add up.
proof fn lemma_line_feeds_add(a: Seq<char>, b: Seq<char>)
    ensures
        line_feeds(a + b) == line_feeds(a) + line_feeds(b),
    decreases b.len(),
{
    if b.len() == 0 {
        assert(a + b =~= a);
    } else {
        lemma_line_feeds_add(a, b.drop_last());
        assert((a + b).drop_last() =~= a + b.drop_last());
    }
}

/// A text without line feeds has none.
proof fn lemma_no_line_feeds(s: Seq<char>)
    requires
        !s.contains('\n'),
    ensures
        line_feeds(s) == 0,
    decreases s.len(),
{
    if s.len() > 0 {
        assert forall|i: int| 0 <= i < s.drop_last().len() implies s.drop_last()[i] != '\n' by {
            assert(s.contains(s[i]));
        }
        assert(s.contains(s.last()));
        lemma_no_line_feeds(s.drop_last());
    }
}

/// A text has at most one line more than line feeds.
proof fn lemma_lines_bounded(s: Seq<char>)
    ensures
        lines(s).len() <= line_feeds(s) + 1,
    decreases s.len(),
{
    let end = crate::text::line_end(s);
    crate::text::lemma_line_end(s);
    if s.len() > 0 && end < s.len() {
        let rest = s.skip(end + 1);
        lemma_lines_bounded(rest);
        lemma_line_feeds_add(s.take(end + 1), rest);
        assert(s.take(end + 1) + rest =~= s);
        assert(s.take(end + 1).last() == '\n');
    } else if s.len() > 0 {
        lemma_lines_bounded(seq![]);
    }
}

/// No line holds a line feed.
proof fn lemma_lines_hold_no_feed(s: Seq<char>, i: int)
    requires
        0 <= i < lines(s).len(),
    ensures
        line_feeds(lines(s)[i]) == 0,
    decreases s.len(),
{
    let end = crate::text::line_end(s);
    crate::text::lemma_line_end(s);
    if s.len() > 0 {
        let first = if end < s.len() {
            crate::text::without_cr(s.take(end))
        } else {
            s
        };
        assert(!first.contains('\n')) by {
            if first.contains('\n') {
                let k = choose|k: int| 0 <= k < first.len() && first[k] == '\n';
                assert(s[k] == '\n');
            }
        }
        lemma_no_line_feeds(first);
        if i > 0 {
            lemma_lines_hold_no_feed(s.skip(end + 1), i - 1);
        }
    }
}

/// Lines that are joined have a line feed less than there are lines.
proof fn lemma_joined_line_feeds(parts: Seq<Seq<char>>)
    requires
        forall|i: int| 0 <= i < parts.len() ==> line_feeds(#[trigger] parts[i]) == 0,
    ensures
        parts.len() > 0 ==> line_feeds(join(parts, "\n"@)) == parts.len() - 1,
        parts.len() == 0 ==> line_feeds(join(parts, "\n"@)) == 0,
    decreases parts.len(),
{
    reveal_strlit("\n");
    if parts.len() > 1 {
        let init = parts.drop_last();
        assert(forall|i: int| 0 <= i < init.len() ==> init[i] == parts[i]);
        lemma_joined_line_feeds(init);
        let head = join(init, "\n"@);
        lemma_line_feeds_add(head, "\n"@);
        lemma_line_feeds_add(head + "\n"@, parts.last());
        assert("\n"@.drop_last() =~= seq![]);
        assert(line_feeds("\n"@) == 1) by {
            reveal_with_fuel(line_feeds, 2);
        }
        assert(line_feeds(parts[parts.len() - 1]) == 0);
    } else if parts.len() == 1 {
        assert(line_feeds(parts[0]) == 0);
        assert(join(parts, "\n"@) == parts[0]);
    }
}

/// An end of a text has no more line feeds than the text.
proof fn lemma_suffix_line_feeds(t: Seq<char>, s: Seq<char>)
    requires
        t.is_suffix_of(s),
    ensures
        line_feeds(t) <= line_feeds(s),
{
    let head = s.take(s.len() - t.len());
    assert(s =~= head + t);
    lemma_line_feeds_add(head, t);
}

/// Whatever a log holds, its excerpt keeps to the limits, in bytes and in lines, and is the
/// end of the last lines.
pub proof fn law_excerpt_is_bounded(text: Seq<char>, limit: nat, line_count: nat)
    ensures
        byte_len(excerpt(text, limit, line_count)) <= limit,
        lines(excerpt(text, limit, line_count)).len() <= line_count,
        excerpt(text, limit, line_count).is_suffix_of(
            join(last_items(lines(text), line_count), "\n"@),
        ),
{
    let tail = last_items(lines(text), line_count);
    let rendered = join(tail, "\n"@);
    lemma_clamped(rendered, limit);
    assert forall|i: int| 0 <= i < tail.len() implies line_feeds(#[trigger] tail[i]) == 0 by {
        let k = if lines(text).len() > line_count {
            i + lines(text).len() - line_count
        } else {
            i
        };
        assert(tail[i] == lines(text)[k]);
        lemma_lines_hold_no_feed(text, k);
    }
    lemma_joined_line_feeds(tail);
    lemma_suffix_line_feeds(excerpt(text, limit, line_count), rendered);
    lemma_lines_bounded(excerpt(text, limit, line_count));
    if tail.len() == 0 {
        assert(excerpt(text, limit, line_count) =~= seq![]);
    }
}

/// What is shown ahead of the excerpt, and the excerpt, if there is anything to show.
pub open spec fn excerpt_block(text: Seq<char>) -> Option<Seq<char>> {
    if text.len() == 0 {
        None
    } else {
        Some("--- final log excerpt ---\n"@ + text)
    }
}

/// What is shown ahead of the excerpt, and the excerpt, if there is anything to show.
pub fn excerpt_output(text: &str) -> (r: Option<String>)
    ensures
        crate::text::opt_text(r) == excerpt_block(text@),
{
    if text.is_empty() {
        None
    } else {
        Some(concat2("--- final log excerpt ---\n", text))
    }
}

// ---------------------------------------------------------------------------
// Laws of a run
// ---------------------------------------------------------------------------

/// Only the small letters of ASCII change, each to its capital.
pub proof fn law_capitals(s: Seq<char>, i: int)
    requires
        0 <= i < s.len(),
    ensures
        upper(s).len() == s.len(),
        'a' <= s[i] && s[i] <= 'z' ==> upper(s)[i] as int == s[i] as int - 32,
        !('a' <= s[i] && s[i] <= 'z') ==> upper(s)[i] == s[i],
{
}

/// Whether a text is an assignment to something that is a secret, in capitals.
pub open spec fn is_secret_name(s: Seq<char>) -> bool {
    s == "TOKEN="@ || s == "PASSWORD="@ || s == "SECRET="@ || s == "PRIVATE_KEY="@
}

/// Whether a text is a flag whose value is a secret, in capitals.
pub open spec fn is_secret_option(s: Seq<char>) -> bool {
    s == "--TOKEN"@ || s == "--PASSWORD"@ || s == "--SECRET"@ || s == "--PRIVATE-KEY"@
}

/// An argument in which a secret is assigned, wherever it stands in it and in letters of either case,
/// is not shown; one without such an assignment is, unless it is the value of a secret flag.
pub proof fn law_secrets_are_redacted(
    argv: Seq<Seq<char>>,
    k: int,
    a: Seq<char>,
    name: Seq<char>,
    b: Seq<char>,
)
    requires
        0 <= k < argv.len(),
    ensures
        is_secret_name(upper(name)) && argv[k] == a + name + b ==> sanitized(argv)[k]
            == "<redacted>"@,
        k > 0 && is_secret_option(upper(argv[k - 1])) && (forall|i: int|
            0 <= i < k - 1 ==> !is_secret_option(upper(#[trigger] argv[i]))) ==> sanitized(argv)[k]
            == "<redacted>"@,
        (forall|x: Seq<char>, n: Seq<char>, y: Seq<char>|
            argv[k] == #[trigger] (x + n + y) ==> !is_secret_name(upper(n))) && (k == 0
            || !is_secret_option(upper(argv[k - 1]))) ==> sanitized(argv)[k] == argv[k],
        sanitized(argv).len() == argv.len(),
{
    law_sanitized_keeps_positions(argv);
    let arg = argv[k];
    let u = upper(arg);
    if is_secret_name(upper(name)) && arg == a + name + b {
        assert(u.subrange(a.len() as int, a.len() as int + name.len()) =~= upper(name));
        assert(crate::text::occurs_at(u, upper(name), a.len() as int));
        assert(contains(u, upper(name)));
    }
    if k > 0 {
        assert(argv.take(k).last() == argv[k - 1]);
        assert(argv.take(k).drop_last() =~= argv.take(k - 1));
        if is_secret_option(upper(argv[k - 1])) && (forall|i: int|
            0 <= i < k - 1 ==> !is_secret_option(upper(#[trigger] argv[i]))) {
            if k - 1 > 0 {
                assert(argv.take(k - 1).last() == argv[k - 2]);
                assert(!is_secret_option(upper(argv[k - 2])));
            }
            assert(!expects_secret(argv.take(k - 1)));
            assert(is_secret_flag(argv.take(k).last()));
            assert(expects_secret(argv.take(k)));
        }
    }
    if holds_secret(arg) {
        let n = if contains(u, "TOKEN="@) {
            "TOKEN="@
        } else if contains(u, "PASSWORD="@) {
            "PASSWORD="@
        } else if contains(u, "SECRET="@) {
            "SECRET="@
        } else {
            "PRIVATE_KEY="@
        };
        let at = choose|at: int| crate::text::occurs_at(u, n, at);
        let x = arg.take(at);
        let mid = arg.subrange(at, at + n.len());
        let y = arg.skip(at + n.len());
        assert(arg =~= x + mid + y);
        assert(upper(mid) =~= u.subrange(at, at + n.len()));
        assert(is_secret_name(upper(mid)));
    }
}

/// A run timed out exactly if `timeout` says so and the code is one that it gives: 124, or 137 where
/// it had to kill.
pub proof fn law_timeouts(reported: bool, exit_code: i32)
    ensures
        is_timeout(reported, exit_code) <==> reported && (exit_code == 124 || exit_code == 137),
{
}

/// The exit code of a process counts; a signal counts as 128 more than its number; where there is
/// neither, the run failed.
pub proof fn law_exit_codes(o: RunOutcome)
    ensures
        o.code matches Some(c) ==> o.exit_code() == c,
        o.code is None && o.signal is Some && 0 <= o.signal->0 <= 64 ==> o.exit_code() == 128
            + o.signal->0,
        o.code is None && o.signal is None ==> o.exit_code() == 1,
{
}

/// A duration shows its milliseconds in three digits.
pub proof fn law_durations(secs: nat, millis: nat)
    requires
        millis < 1000,
    ensures
        duration_text(secs, millis) == decimal(secs) + (if millis < 10 {
            ".00"@
        } else if millis < 100 {
            ".0"@
        } else {
            "."@
        }) + decimal(millis) + "s"@,
{
    reveal_strlit(".");
    reveal_strlit(".0");
    reveal_strlit(".00");
    let d = decimal(millis);
    crate::text::law_decimal_is_digits(millis / 10);
    if millis >= 10 {
        assert(d == decimal(millis / 10).push(crate::text::digit_char(millis % 10)));
        if millis >= 100 {
            crate::text::law_decimal_is_digits(millis / 100);
            assert((millis / 10) / 10 == millis / 100);
            assert(decimal(millis / 10) == decimal(millis / 100).push(
                crate::text::digit_char((millis / 10) % 10),
            ));
            assert(millis / 100 < 10);
            assert(decimal(millis / 100).len() == 1);
        } else {
            assert(millis / 10 < 10);
            assert(decimal(millis / 10).len() == 1);
        }
    }
    assert(Seq::new(1, |i: int| '0') =~= seq!['0']);
    assert(Seq::new(2, |i: int| '0') =~= seq!['0', '0']);
    assert(d.len() == if millis < 10 {
        1nat
    } else if millis < 100 {
        2nat
    } else {
        3nat
    });
    let mid = if millis < 10 {
        ".00"@
    } else if millis < 100 {
        ".0"@
    } else {
        "."@
    };
    assert("."@ + zero_padded(d, 3) =~= mid + d);
    assert(duration_text(secs, millis) =~= decimal(secs) + ("."@ + zero_padded(d, 3)) + "s"@);
    assert(decimal(secs) + (mid + d) + "s"@ =~= decimal(secs) + mid + d + "s"@);
}

/// A run is summed up as passed exactly if its code is zero, else as timed out or failed, with its
/// code, its time and its log.
pub proof fn law_summaries(exit_code: i32, timed_out: bool, time: Seq<char>, log: Seq<char>)
    ensures
        exit_code == 0 ==> result_text(exit_code, timed_out, time, log) == "PASS: exit="@ + decimal(
            0,
        ) + " time="@ + time + " log="@ + log,
        exit_code > 0 && timed_out ==> result_text(exit_code, timed_out, time, log)
            == "TIMEOUT: exit="@ + decimal(exit_code as nat) + " time="@ + time + " log="@ + log,
        exit_code > 0 && !timed_out ==> result_text(exit_code, timed_out, time, log)
            == "FAIL: exit="@ + decimal(exit_code as nat) + " time="@ + time + " log="@ + log,
        exit_code < 0 && !timed_out ==> result_text(exit_code, timed_out, time, log)
            == "FAIL: exit=-"@ + decimal((-exit_code) as nat) + " time="@ + time + " log="@ + log,
{
    reveal_strlit("PASS");
    reveal_strlit("FAIL");
    reveal_strlit("TIMEOUT");
    reveal_strlit("-");
    reveal_strlit(": exit=");
    reveal_strlit("PASS: exit=");
    reveal_strlit("FAIL: exit=");
    reveal_strlit("FAIL: exit=-");
    reveal_strlit("TIMEOUT: exit=");
    assert("PASS"@ + ": exit="@ =~= "PASS: exit="@);
    assert("FAIL"@ + ": exit="@ =~= "FAIL: exit="@);
    assert("TIMEOUT"@ + ": exit="@ =~= "TIMEOUT: exit="@);
    assert("FAIL: exit="@ + "-"@ =~= "FAIL: exit=-"@);
    if exit_code < 0 {
        let d = decimal((-exit_code) as nat);
        assert("FAIL: exit="@ + ("-"@ + d) =~= "FAIL: exit=-"@ + d);
    }
}

/// The command is run whole and last, through a shell that sends its errors where its output goes;
/// the time comes before it, and the grace with its option.
pub proof fn law_timeout_arguments(kill: Seq<char>, timeout: Seq<char>, command: Seq<Seq<char>>)
    ensures
        ({
            let args = timeout_args(kill, timeout, command);
            &&& args.skip(7) == command
            &&& args[0] == "--verbose"@
            &&& args[1] == "--kill-after="@ + kill
            &&& args[2] == timeout
            &&& args[3] == "/bin/sh"@ && args[4] == "-c"@ && args[5] == "exec \"$@\" 2>&1"@
        }),
{
    assert(timeout_args(kill, timeout, command).skip(7) =~= command);
}

/// A run keeps its logs below the root, by the time, the process and a number.
pub proof fn law_run_directories(root: Seq<char>, millis: nat, pid: nat, sequence: nat)
    requires
        root.len() > 0,
        root.last() != '/',
    ensures
        run_dir(root, millis, pid, sequence) == root + "/run-"@ + decimal(millis) + "-"@ + decimal(
            pid,
        ) + "-"@ + decimal(sequence),
{
    reveal_strlit("run-");
    reveal_strlit("/run-");
    let name = "run-"@ + decimal(millis) + "-"@ + decimal(pid) + "-"@ + decimal(sequence);
    assert(name[0] == 'r');
    crate::paths::law_joined_path(root, name);
    assert(root.push('/') + name =~= root + "/run-"@ + decimal(millis) + "-"@ + decimal(pid) + "-"@
        + decimal(sequence));
}

/// The excerpt of a log is all of its last lines where these fit, and all of its lines where there
/// are no more than are wanted; what does not fit is cut in front.
pub proof fn law_excerpt_is_the_end(text: Seq<char>, limit: nat, line_count: nat)
    ensures
        ({
            let ls = lines(text);
            let tail = if ls.len() <= line_count {
                ls
            } else {
                ls.subrange(ls.len() - line_count, ls.len() as int)
            };
            let whole = join(tail, seq!['\n']);
            let shown = excerpt(text, limit, line_count);
            &&& byte_len(whole) <= limit ==> shown == whole
            &&& shown.is_suffix_of(whole)
            &&& shown.len() < whole.len() ==> byte_len(whole.skip(whole.len() - shown.len() - 1))
                > limit
        }),
{
    reveal_strlit("\n");
    assert("\n"@ =~= seq!['\n']);
    let ls = lines(text);
    let tail = if ls.len() <= line_count {
        ls
    } else {
        ls.subrange(ls.len() - line_count, ls.len() as int)
    };
    assert(last_items(ls, line_count) =~= tail);
    lemma_clamped(join(tail, "\n"@), limit);
}

/// The limits of a run and of what is shown of it.
pub proof fn law_limits(text: Seq<char>)
    ensures
        FAILURE_EXCERPT_BYTES == 8192,
        FAILURE_EXCERPT_LINES == 80,
        RUN_DIR_ATTEMPTS == 1000,
        DEFAULT_LOG_ROOT@ == "target/run"@,
        excerpt_block(text) is None <==> text.len() == 0,
        text.len() > 0 ==> excerpt_block(text) == Some("--- final log excerpt ---\n"@ + text),
{
}

/// What is kept of a run is what was asked of it and what came of it, each in its place, without the
/// secrets of its command line; its logs lie in its directory.
pub proof fn law_kept_results(request: &RunRequest, outcome: RunOutcome, r: RunResult)
    requires
        call_ensures(run_result, (request, outcome), r),
        request.run_dir@.len() > 0,
        request.run_dir@.last() != '/',
    ensures
        r.argv@.len() == request.command@.len(),
        texts(r.argv@) == sanitized(texts(request.command@)),
        r.workdir@ == request.workdir@ && r.timeout@ == request.timeout@ && r.kill_after@
            == request.kill_after@,
        r.duration_ms == outcome.duration_ms,
        outcome.code matches Some(c) ==> r.exit_code == c && r.signal is None,
        outcome.code is None ==> r.signal == outcome.signal,
        r.timed_out <==> outcome.timeout_reported && (r.exit_code == 124 || r.exit_code == 137),
        r.log_path@ == request.run_dir@ + "/output.log"@,
        r.timeout_log_path@ == request.run_dir@ + "/timeout.log"@,
        r.tmt_log_dir@ == request.run_dir@ + "/tmt"@,
{
    reveal_strlit("output.log");
    reveal_strlit("/output.log");
    reveal_strlit("timeout.log");
    reveal_strlit("/timeout.log");
    reveal_strlit("tmt");
    reveal_strlit("/tmt");
    let dir = request.run_dir@;
    crate::paths::law_joined_path(dir, "output.log"@);
    crate::paths::law_joined_path(dir, "timeout.log"@);
    crate::paths::law_joined_path(dir, "tmt"@);
    assert(dir.push('/') + "output.log"@ =~= dir + "/output.log"@);
    assert(dir.push('/') + "timeout.log"@ =~= dir + "/timeout.log"@);
    assert(dir.push('/') + "tmt"@ =~= dir + "/tmt"@);
    law_sanitized_keeps_positions(texts(request.command@));
    assert(texts(r.argv@).len() == r.argv@.len());
    assert(texts(request.command@).len() == request.command@.len());
}

/// A directory that is there already has the next one tried, up to the thousandth; one that cannot be
/// created ends the run.
pub proof fn law_directories_are_tried(sequence: u32, creation: Creation, r: RunDirStep)
    requires
        call_ensures(run_dir_step, (sequence, creation), r),
    ensures
        r == RunDirStep::Use <==> creation == Creation::Created,
        r == RunDirStep::Fail <==> creation == Creation::Failed,
        creation == Creation::AlreadyExists && sequence < 999 ==> (r matches RunDirStep::Try(n) && n
            == sequence + 1),
        creation == Creation::AlreadyExists && sequence >= 999 ==> r == RunDirStep::Exhausted,
{
}

/// Of a log no more than the limit is read, and that from its end.
pub proof fn law_windows(len: u64, limit: u64, r: u64)
    requires
        call_ensures(window_start, (len, limit), r),
    ensures
        len - r <= limit,
        r <= len,
        r > 0 ==> len - r == limit,
{
}

} // verus!
