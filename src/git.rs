//! Compact durations and the working-tree change summary.
use vstd::prelude::*;
use vstd::string::StrSliceExecFns;
use crate::hsl::{all_digits, digits_value, is_digit};
use crate::text::{chars_of, dec_digits, is_ws, is_whitespace, push_decimal, split_char, split_chars, string_of, trim_chars, trimmed};

verus! {

/// Compact form of a number of whole seconds: `Ns` under a minute, `Mm` under
/// an hour, `HhMm` under a day, `DdHh` from a day on.
pub open spec fn duration_text(secs: nat) -> Seq<char> {
    if secs < 60 {
        dec_digits(secs) + seq!['s']
    } else if secs < 3600 {
        dec_digits(secs / 60) + seq!['m']
    } else if secs < 86400 {
        dec_digits(secs / 3600) + seq!['h'] + dec_digits((secs % 3600) / 60) + seq!['m']
    } else {
        dec_digits(secs / 86400) + seq!['d'] + dec_digits((secs % 86400) / 3600) + seq!['h']
    }
}

fn duration_of_secs(secs: u64) -> (r: String)
    ensures
        r@ == duration_text(secs as nat),
{
    let mut out: Vec<char> = Vec::new();
    if secs < 60 {
        push_decimal(&mut out, secs);
        out.push('s');
    } else if secs < 3600 {
        push_decimal(&mut out, secs / 60);
        out.push('m');
    } else if secs < 86400 {
        push_decimal(&mut out, secs / 3600);
        out.push('h');
        push_decimal(&mut out, (secs % 3600) / 60);
        out.push('m');
    } else {
        push_decimal(&mut out, secs / 86400);
        out.push('d');
        push_decimal(&mut out, (secs % 86400) / 3600);
        out.push('h');
    }
    string_of(&out)
}

/// Formats a duration given in milliseconds; the sub-second part is dropped.
pub fn format_duration_ms(duration_ms: u64) -> (r: String)
    ensures
        r@ == duration_text((duration_ms / 1000) as nat),
{
    duration_of_secs(duration_ms / 1000)
}

/// Formats a signed number of seconds; a negative one counts as zero.
pub fn format_duration(secs: i64) -> (r: String)
    ensures
        r@ == duration_text(if secs < 0 { 0 } else { secs as nat }),
{
    if secs < 0 {
        duration_of_secs(0)
    } else {
        duration_of_secs(secs as u64)
    }
}

/// The runs of non-white-space characters of `s`, in order.
pub open spec fn ws_fields(s: Seq<char>) -> Seq<Seq<char>>
    decreases s.len(),
{
    if s.len() == 0 {
        Seq::<Seq<char>>::empty()
    } else {
        let f = ws_fields(s.drop_last());
        if is_ws(s.last()) {
            f
        } else if s.len() >= 2 && !is_ws(s[s.len() - 2]) {
            f.update(f.len() - 1, f.last().push(s.last()))
        } else {
            f.push(seq![s.last()])
        }
    }
}

proof fn lemma_fields_nonempty(s: Seq<char>)
    requires
        s.len() > 0,
        !is_ws(s.last()),
    ensures
        ws_fields(s).len() > 0,
    decreases s.len(),
{
    if s.len() >= 2 && !is_ws(s[s.len() - 2]) {
        assert(s.drop_last().last() == s[s.len() - 2]);
        lemma_fields_nonempty(s.drop_last());
    }
}

/// Splits `v` into its runs of non-white-space characters.
fn fields_of(v: &Vec<char>) -> (r: Vec<Vec<char>>)
    ensures
        r@.len() == ws_fields(v@).len(),
        forall|i: int| 0 <= i < r@.len() ==> #[trigger] r@[i]@ == ws_fields(v@)[i],
{
    let mut out: Vec<Vec<char>> = Vec::new();
    let mut cur: Vec<char> = Vec::new();
    let mut i: usize = 0;
    while i < v.len()
        invariant
            i <= v@.len(),
            ws_fields(v@.subrange(0, i as int)).len() == out@.len() + if cur@.len() > 0 { 1int } else { 0int },
            forall|j: int| 0 <= j < out@.len() ==> #[trigger] out@[j]@ == ws_fields(v@.subrange(0, i as int))[j],
            cur@.len() > 0 ==> ws_fields(v@.subrange(0, i as int)).last() == cur@,
            cur@.len() > 0 ==> i > 0 && !is_ws(v@[i - 1]),
            cur@.len() == 0 && i > 0 ==> is_ws(v@[i - 1]),
        decreases v@.len() - i,
    {
        let c = v[i];
        let ghost pre = v@.subrange(0, i as int);
        let ghost next = v@.subrange(0, i + 1);
        assert(next.drop_last() =~= pre);
        if is_whitespace(c) {
            if cur.len() > 0 {
                out.push(cur);
                cur = Vec::new();
            }
        } else {
            if cur.len() > 0 {
                assert(next[next.len() - 2] == v@[i - 1]);
            }
            cur.push(c);
            proof { lemma_fields_nonempty(next); }
        }
        i = i + 1;
    }
    assert(v@.subrange(0, v@.len() as int) =~= v@);
    if cur.len() > 0 {
        out.push(cur);
    }
    out
}

/// An unsigned integer as `u64`'s `FromStr` reads it: an optional `+` and at
/// least one digit, within range.
pub open spec fn unsigned_value(s: Seq<char>) -> Option<nat> {
    let body = if s.len() > 0 && s[0] == '+' { s.drop_first() } else { s };
    if body.len() > 0 && all_digits(body) && digits_value(body) <= u64::MAX {
        Some(digits_value(body))
    } else {
        None
    }
}

/// A signed integer as `i64`'s `FromStr` reads it: an optional sign and at
/// least one digit, within range.
pub open spec fn signed_value(s: Seq<char>) -> Option<int> {
    let neg = s.len() > 0 && s[0] == '-';
    let body = if s.len() > 0 && (s[0] == '+' || s[0] == '-') { s.drop_first() } else { s };
    if body.len() == 0 || !all_digits(body) {
        None
    } else if neg {
        if digits_value(body) <= 0x8000_0000_0000_0000 { Some(-digits_value(body)) } else { None }
    } else {
        if digits_value(body) <= 0x7fff_ffff_ffff_ffff { Some(digits_value(body) as int) } else { None }
    }
}

/// Reads the digits `v[from..]` while their value stays within `limit`.
fn read_bounded(v: &Vec<char>, from: usize, limit: u64) -> (r: Option<u64>)
    requires
        from <= v@.len(),
        limit >= 9,
    ensures
        r is Some <==> (v@.len() > from && all_digits(v@.subrange(from as int, v@.len() as int))
            && digits_value(v@.subrange(from as int, v@.len() as int)) <= limit),
        r matches Some(x) ==> x == digits_value(v@.subrange(from as int, v@.len() as int)),
{
    if from == v.len() {
        return None;
    }
    let mut val: u64 = 0;
    let mut i: usize = from;
    while i < v.len()
        invariant
            from <= i <= v@.len(),
            all_digits(v@.subrange(from as int, i as int)),
            val == digits_value(v@.subrange(from as int, i as int)),
            val <= limit,
            limit >= 9,
        decreases v@.len() - i,
    {
        let c = v[i];
        let ghost next = v@.subrange(from as int, i + 1);
        assert(next.drop_last() =~= v@.subrange(from as int, i as int));
        if !('0' <= c && c <= '9') {
            assert(!is_digit(v@.subrange(from as int, v@.len() as int)[i - from]));
            return None;
        }
        let d: u64 = (c as u32 - '0' as u32) as u64;
        if val > (limit - d) / 10 {
            proof {
                assert(val * 10 + d > limit) by (nonlinear_arith)
                    requires val > (limit - d) / 10, d <= 9, limit >= 9;
                assert(digits_value(next) > limit);
                let whole = v@.subrange(from as int, v@.len() as int);
                if all_digits(whole) {
                    lemma_digits_grow(whole, (i + 1 - from) as nat);
                    assert(whole.subrange(0, i + 1 - from) =~= next);
                }
            }
            return None;
        }
        assert(val * 10 + d <= limit) by (nonlinear_arith)
            requires val <= (limit - d) / 10, d <= 9, limit >= 9;
        val = val * 10 + d;
        i = i + 1;
        assert(all_digits(v@.subrange(from as int, i as int)));
    }
    Some(val)
}

proof fn lemma_digits_grow(s: Seq<char>, k: nat)
    requires
        k <= s.len(),
        all_digits(s),
    ensures
        digits_value(s.subrange(0, k as int)) <= digits_value(s),
    decreases s.len() - k,
{
    if k < s.len() {
        lemma_digits_grow(s, k + 1);
        let a = s.subrange(0, k as int);
        let b = s.subrange(0, k as int + 1);
        assert(b.drop_last() =~= a);
        assert(is_digit(s[k as int]));
    } else {
        assert(s.subrange(0, k as int) =~= s);
    }
}

/// Reads an unsigned integer; `None` when malformed or out of range.
pub fn parse_unsigned(v: &Vec<char>) -> (r: Option<u64>)
    ensures
        r is Some <==> unsigned_value(v@) is Some,
        r matches Some(x) ==> unsigned_value(v@) == Some(x as nat),
{
    let from: usize = if v.len() > 0 && v[0] == '+' { 1 } else { 0 };
    assert(v@.subrange(from as int, v@.len() as int) =~= if v@.len() > 0 && v@[0] == '+' { v@.drop_first() } else { v@ });
    read_bounded(v, from, u64::MAX)
}

/// Reads a signed integer; `None` when malformed or out of range.
pub fn parse_signed(v: &Vec<char>) -> (r: Option<i64>)
    ensures
        r is Some <==> signed_value(v@) is Some,
        r matches Some(x) ==> signed_value(v@) == Some(x as int),
{
    let neg = v.len() > 0 && v[0] == '-';
    let from: usize = if v.len() > 0 && (v[0] == '+' || v[0] == '-') { 1 } else { 0 };
    assert(v@.subrange(from as int, v@.len() as int) =~= if v@.len() > 0 && (v@[0] == '+' || v@[0] == '-') { v@.drop_first() } else { v@ });
    if neg {
        match read_bounded(v, from, 0x8000_0000_0000_0000) {
            Some(x) => if x == 0x8000_0000_0000_0000 { Some(i64::MIN) } else { Some(-(x as i64)) },
            None => None,
        }
    } else {
        match read_bounded(v, from, 0x7fff_ffff_ffff_ffff) {
            Some(x) => Some(x as i64),
            None => None,
        }
    }
}

/// The commit time printed by the log query: the trimmed output read as a
/// signed number of seconds.
pub fn parse_commit_timestamp(stdout: &str) -> (r: Option<i64>)
    ensures
        r is Some <==> signed_value(trimmed(stdout@)) is Some,
        r matches Some(x) ==> signed_value(trimmed(stdout@)) == Some(x as int),
{
    let v = chars_of(stdout);
    let t = trim_chars(&v);
    parse_signed(&t)
}

/// The added and removed counts of one line of a per-file diff summary: its
/// first two fields, when both are numbers; a line without two numeric
/// leading fields (a binary file's) counts nothing.
pub open spec fn line_counts(line: Seq<char>) -> (nat, nat) {
    let f = ws_fields(line);
    if f.len() >= 2 && unsigned_value(f[0]) is Some && unsigned_value(f[1]) is Some {
        (unsigned_value(f[0])->0, unsigned_value(f[1])->0)
    } else {
        (0, 0)
    }
}

pub open spec fn numstat_totals(lines: Seq<Seq<char>>) -> (nat, nat)
    decreases lines.len(),
{
    if lines.len() == 0 {
        (0, 0)
    } else {
        let t = numstat_totals(lines.drop_last());
        let c = line_counts(lines.last());
        (t.0 + c.0, t.1 + c.1)
    }
}

pub open spec fn capped(n: nat) -> u64 {
    if n > u64::MAX { u64::MAX } else { n as u64 }
}

/// Sums the added and removed line counts of a per-file diff summary, one
/// file per line; lines without two numeric fields (binary files) add
/// nothing. The sums stop at the largest `u64`.
pub fn sum_numstat(diff: &str) -> (r: (u64, u64))
    ensures
        r.0 == capped(numstat_totals(split_char(diff@, '\n')).0),
        r.1 == capped(numstat_totals(split_char(diff@, '\n')).1),
{
    let v = chars_of(diff);
    let lines = split_chars(&v, '\n');
    let ghost ls = split_char(v@, '\n');
    let mut added: u64 = 0;
    let mut removed: u64 = 0;
    let mut i: usize = 0;
    while i < lines.len()
        invariant
            i <= lines@.len(),
            lines@.len() == ls.len(),
            ls == split_char(diff@, '\n'),
            forall|j: int| 0 <= j < lines@.len() ==> #[trigger] lines@[j]@ == ls[j],
            added == capped(numstat_totals(ls.subrange(0, i as int)).0),
            removed == capped(numstat_totals(ls.subrange(0, i as int)).1),
        decreases lines@.len() - i,
    {
        let f = fields_of(&lines[i]);
        let mut a: u64 = 0;
        let mut r: u64 = 0;
        if f.len() >= 2 {
            match (parse_unsigned(&f[0]), parse_unsigned(&f[1])) {
                (Some(x), Some(y)) => {
                    a = x;
                    r = y;
                },
                _ => {},
            }
        }
        let ghost sub = ls.subrange(0, i + 1);
        assert(sub.drop_last() =~= ls.subrange(0, i as int));
        assert(a == line_counts(ls[i as int]).0 && r == line_counts(ls[i as int]).1);
        added = if added > u64::MAX - a { u64::MAX } else { added + a };
        removed = if removed > u64::MAX - r { u64::MAX } else { removed + r };
        i = i + 1;
    }
    assert(ls.subrange(0, lines@.len() as int) =~= ls);
    (added, removed)
}

/// How far the version-control query has come.
#[derive(Clone, Copy, Debug, PartialEq, Eq)]
pub enum GitState {
    /// Waiting to learn whether the directory is inside a work tree.
    AwaitRepo,
    /// Waiting for the time of the last commit.
    AwaitLog,
    /// Waiting for the age of the commit made at the given second.
    AwaitAge,
    /// Waiting for the working-tree status; the age of the last commit is known.
    AwaitStatus(i64),
    /// Waiting for the per-file diff summary; the age of the last commit is known.
    AwaitDiff(i64),
    /// The query is over.
    Finished,
}

/// What the caller has to do next.
#[derive(Clone, Copy, Debug, PartialEq, Eq)]
pub enum GitAction {
    /// Run `git -C <cwd> rev-parse --git-dir`.
    ProbeRepo,
    /// Run `git -C <cwd> log -1 --format=%ct`.
    ReadLastCommit,
    /// Work out how many seconds ago the given Unix second was.
    AgeOf(i64),
    /// Run `git -C <cwd> status --porcelain -uno`.
    ReadStatus,
    /// Run `git -C <cwd> diff --numstat`.
    ReadDiff,
    /// Stop: seconds since the last commit, lines added, lines removed; or
    /// nothing to report.
    Report(Option<(i64, u64, u64)>),
}

/// What came back from the last action.
pub enum GitEvent {
    /// The command ran: whether it succeeded, and what it printed.
    Ran { success: bool, stdout: String },
    /// The command could not be started.
    SpawnFailed,
    /// The age in seconds, or `None` for a time out of the calendar's range.
    Age(Option<i64>),
}

/// Starts the query: nothing to report when the integration is disabled or
/// the directory belongs to another version-control system.
pub fn git_start(enabled: bool, other_vcs_present: bool) -> (r: (GitState, GitAction))
    ensures
        !enabled || other_vcs_present ==> r == (GitState::Finished, GitAction::Report(None)),
        enabled && !other_vcs_present ==> r == (GitState::AwaitRepo, GitAction::ProbeRepo),
{
    if !enabled || other_vcs_present {
        (GitState::Finished, GitAction::Report(None))
    } else {
        (GitState::AwaitRepo, GitAction::ProbeRepo)
    }
}

/// The next state and action after `event`. Any failure before the commit's
/// age is known ends with nothing to report; after that, a failed status or
/// diff query reports the age with no changes, and a status query that could
/// not be started reports nothing.
pub fn git_step(state: GitState, event: &GitEvent) -> (r: (GitState, GitAction))
    ensures
        r.1 is Report <==> r.0 == GitState::Finished,
        state == GitState::AwaitRepo ==> (match event {
            GitEvent::Ran { success: true, .. } => r == (GitState::AwaitLog, GitAction::ReadLastCommit),
            _ => r.1 == GitAction::Report(None),
        }),
        state == GitState::AwaitLog ==> (match event {
            GitEvent::Ran { success: true, stdout } => match signed_value(trimmed(stdout@)) {
                Some(ts) => r == (GitState::AwaitAge, GitAction::AgeOf(ts as i64)),
                None => r.1 == GitAction::Report(None),
            },
            _ => r.1 == GitAction::Report(None),
        }),
        state == GitState::AwaitAge ==> (match event {
            GitEvent::Age(Some(since)) => r == (GitState::AwaitStatus(*since), GitAction::ReadStatus),
            _ => r.1 == GitAction::Report(None),
        }),
        state matches GitState::AwaitStatus(since) ==> (match event {
            GitEvent::Ran { success, stdout } => if *success && stdout@.len() > 0 {
                r == (GitState::AwaitDiff(since), GitAction::ReadDiff)
            } else {
                r.1 == GitAction::Report(Some((since, 0u64, 0u64)))
            },
            _ => r.1 == GitAction::Report(None),
        }),
        state matches GitState::AwaitDiff(since) ==> (match event {
            GitEvent::Ran { success: true, stdout } => r.1 == GitAction::Report(Some((
                since,
                capped(numstat_totals(split_char(stdout@, '\n')).0),
                capped(numstat_totals(split_char(stdout@, '\n')).1),
            ))),
            GitEvent::Ran { success: false, .. } => r.1 == GitAction::Report(Some((since, 0u64, 0u64))),
            _ => r.1 == GitAction::Report(None),
        }),
        state == GitState::Finished ==> r.1 == GitAction::Report(None),
{
    let nothing = (GitState::Finished, GitAction::Report(None));
    match state {
        GitState::AwaitRepo => match event {
            GitEvent::Ran { success: true, .. } => (GitState::AwaitLog, GitAction::ReadLastCommit),
            _ => nothing,
        },
        GitState::AwaitLog => match event {
            GitEvent::Ran { success: true, stdout } => match parse_commit_timestamp(stdout.as_str()) {
                Some(ts) => (GitState::AwaitAge, GitAction::AgeOf(ts)),
                None => nothing,
            },
            _ => nothing,
        },
        GitState::AwaitAge => match event {
            GitEvent::Age(Some(since)) => (GitState::AwaitStatus(*since), GitAction::ReadStatus),
            _ => nothing,
        },
        GitState::AwaitStatus(since) => match event {
            GitEvent::Ran { success, stdout } => {
                if *success && stdout.unicode_len() > 0 {
                    (GitState::AwaitDiff(since), GitAction::ReadDiff)
                } else {
                    (GitState::Finished, GitAction::Report(Some((since, 0, 0))))
                }
            },
            _ => nothing,
        },
        GitState::AwaitDiff(since) => match event {
            GitEvent::Ran { success: true, stdout } => {
                let (added, removed) = sum_numstat(stdout.as_str());
                (GitState::Finished, GitAction::Report(Some((since, added, removed))))
            },
            GitEvent::Ran { success: false, .. } => (GitState::Finished, GitAction::Report(Some((since, 0, 0)))),
            _ => nothing,
        },
        GitState::Finished => nothing,
    }
}

} // verus!
