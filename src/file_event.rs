//! Decoded file events: their extension filter and their rendering as one
//! line of output.

use vstd::prelude::*;
use vstd::string::*;

verus! {

/// The kind of file operation that occurred.
#[derive(Clone, Copy, Debug, PartialEq, Eq, Structural)]
pub enum FileAction {
    /// A file was opened.
    Opened,
    /// A file descriptor was closed.
    Closed,
}

/// The word that renders an action.
pub open spec fn action_word(a: FileAction) -> Seq<char> {
    match a {
        FileAction::Opened => "opened"@,
        FileAction::Closed => "closed"@,
    }
}

/// A file operation event as userspace sees it.
#[derive(Clone, Debug)]
pub struct FileEvent {
    /// Path of the file, or a placeholder naming the descriptor of a close
    /// whose open was not seen
    pub file_path: String,
    /// Name of the process that performed the operation
    pub program_name: String,
    /// Which operation it was
    pub action: FileAction,
    /// When it was observed, in whole seconds since the Unix epoch (UTC)
    pub timestamp: i64,
    /// Process ID of the process that performed the operation
    pub pid: u32,
}

/// Index just after the last `c` in `s`, or 0 when `s` holds none.
pub open spec fn after_last(s: Seq<char>, c: char) -> int
    decreases s.len(),
{
    if s.len() == 0 {
        0
    } else if s.last() == c {
        s.len() as int
    } else {
        after_last(s.drop_last(), c)
    }
}

/// The file name of a path: what follows its last `/`.
pub open spec fn file_name_of(path: Seq<char>) -> Seq<char> {
    path.skip(after_last(path, '/'))
}

/// The extension of a path: what follows the last `.` of its file name;
/// `None` when the file name holds no `.`.
pub open spec fn extension_of(path: Seq<char>) -> Option<Seq<char>> {
    let name = file_name_of(path);
    let k = after_last(name, '.');
    if k == 0 {
        None
    } else {
        Some(name.skip(k))
    }
}

/// A character with ASCII upper case folded to lower case.
pub open spec fn ascii_fold(c: char) -> int {
    if 'A' <= c && c <= 'Z' {
        (c as u32) + 32
    } else {
        c as u32 as int
    }
}

/// Equality up to ASCII case.
pub open spec fn eq_ignore_ascii_case(a: Seq<char>, b: Seq<char>) -> bool {
    a.len() == b.len() && forall|i: int| 0 <= i < a.len() ==> ascii_fold(a[i]) == ascii_fold(b[i])
}

/// Whether an event on `path` passes the extension filter `exts`: always
/// without a filter; with one, when the path has an extension equal, up to
/// ASCII case, to one of the filter's.
pub open spec fn passes(path: Seq<char>, exts: Option<Seq<Seq<char>>>) -> bool {
    match exts {
        None => true,
        Some(es) => match extension_of(path) {
            None => false,
            Some(x) => listed(es, x),
        },
    }
}

/// Whether `x` equals, up to ASCII case, one of `es`.
pub open spec fn listed(es: Seq<Seq<char>>, x: Seq<char>) -> bool {
    exists|i: int| 0 <= i < es.len() && eq_ignore_ascii_case(#[trigger] es[i], x)
}

/// A filter as plain values.
pub open spec fn filter_view(exts: Option<Vec<String>>) -> Option<Seq<Seq<char>>> {
    match exts {
        Some(v) => Some(v@.map_values(|s: String| s@)),
        None => None,
    }
}

/// Without a filter every event passes.
pub proof fn lemma_no_filter_passes(path: Seq<char>)
    ensures
        passes(path, None),
{
}

/// The filter looks at the extension alone: two paths with the same
/// extension pass or fail together.
pub proof fn lemma_filter_reads_extension(p1: Seq<char>, p2: Seq<char>, exts: Option<Seq<Seq<char>>>)
    requires
        extension_of(p1) == extension_of(p2),
    ensures
        passes(p1, exts) == passes(p2, exts),
{
}

/// The filter looks at which extensions it holds, not at their order or
/// repetition: two filters with the same members pass the same events.
pub proof fn lemma_filter_reads_members(path: Seq<char>, s1: Seq<Seq<char>>, s2: Seq<Seq<char>>)
    requires
        s1.to_set() == s2.to_set(),
    ensures
        passes(path, Some(s1)) == passes(path, Some(s2)),
{
    if let Some(x) = extension_of(path) {
        if passes(path, Some(s1)) {
            let i = choose|i: int| 0 <= i < s1.len() && eq_ignore_ascii_case(s1[i], x);
            assert(s1.to_set().contains(s1[i]));
            assert(s2.to_set().contains(s1[i]));
            let j = choose|j: int| 0 <= j < s2.len() && s2[j] == s1[i];
            assert(eq_ignore_ascii_case(s2[j], x));
        }
        if passes(path, Some(s2)) {
            let i = choose|i: int| 0 <= i < s2.len() && eq_ignore_ascii_case(s2[i], x);
            assert(s2.to_set().contains(s2[i]));
            assert(s1.to_set().contains(s2[i]));
            let j = choose|j: int| 0 <= j < s1.len() && s1[j] == s2[i];
            assert(eq_ignore_ascii_case(s1[j], x));
        }
    }
}

/// Filtering twice gives what filtering once gives: the events that pass a
/// filter are exactly the events that pass it again.
pub proof fn lemma_filter_idempotent(paths: Seq<Seq<char>>, exts: Option<Seq<Seq<char>>>)
    ensures
        paths.filter(|p: Seq<char>| passes(p, exts)).filter(|p: Seq<char>| passes(p, exts))
            == paths.filter(|p: Seq<char>| passes(p, exts)),
    decreases paths.len(),
{
    let f = |p: Seq<char>| passes(p, exts);
    let once = paths.filter(f);
    assert forall|i: int| 0 <= i < once.len() implies f(once[i]) by {
        paths.lemma_filter_pred(f, i);
    }
    lemma_filter_keeps_all(once, f);
}

proof fn lemma_filter_keeps_all(s: Seq<Seq<char>>, f: spec_fn(Seq<char>) -> bool)
    requires
        forall|i: int| 0 <= i < s.len() ==> f(s[i]),
    ensures
        s.filter(f) == s,
    decreases s.len(),
{
    reveal(Seq::filter);
    if s.len() > 0 {
        lemma_filter_keeps_all(s.drop_last(), f);
    }
    assert(s.filter(f) =~= s);
}

/// The decimal digits of `n`, most significant first.
pub open spec fn decimal(n: nat) -> Seq<char>
    decreases n,
{
    if n < 10 {
        seq![digit_char(n)]
    } else {
        decimal(n / 10).push(digit_char(n % 10))
    }
}

/// The character of the decimal digit `d`.
pub open spec fn digit_char(d: nat) -> char {
    ((48 + d) as u8) as char
}

/// The decimal text of `x`, with a leading `-` when it is negative.
pub open spec fn signed_decimal(x: int) -> Seq<char> {
    if x < 0 {
        seq!['-'] + decimal((-x) as nat)
    } else {
        decimal(x as nat)
    }
}

/// The rendered line of an event: `stamp | program (pid) | action | path`.
pub open spec fn event_line(
    stamp: Seq<char>,
    program: Seq<char>,
    pid: u32,
    action: FileAction,
    path: Seq<char>,
) -> Seq<char> {
    stamp + " | "@ + program + " ("@ + decimal(pid as nat) + ") | "@ + action_word(action) + " | "@
        + path
}

/// Whether `secs` seconds after the Unix epoch lies well within chrono's
/// range of dates (about 253,000 years either side of the epoch).
pub open spec fn stamp_in_range(secs: int) -> bool {
    -8_000_000_000_000 <= secs <= 8_000_000_000_000
}

/// `line` is the rendered line of `e`: its timestamp as a UTC calendar date
/// and time when the date is in range, else as a count of seconds.
pub open spec fn is_rendering(e: FileEvent, line: Seq<char>) -> bool {
    if stamp_in_range(e.timestamp as int) {
        line == event_line(utc_stamp(e.timestamp as int), e.program_name@, e.pid, e.action, e.file_path@)
    } else {
        line == event_line(signed_decimal(e.timestamp as int), e.program_name@, e.pid, e.action, e.file_path@)
    }
}

/// The calendar date and time, in UTC to the second, of a count of seconds
/// since the Unix epoch, written `YYYY-MM-DD HH:MM:SS UTC`.
pub uninterp spec fn utc_stamp(secs: int) -> Seq<char>;

/// Relies on chrono's `DateTime::<Utc>::from_timestamp` and `format`: the
/// text of the instant `secs` seconds after the Unix epoch with the pattern
/// `%Y-%m-%d %H:%M:%S UTC`; `None` when the instant lies outside chrono's
/// range of dates (years -262,143 to 262,142), which holds every instant of
/// `stamp_in_range`.
#[verifier::external_body]
fn utc_stamp_text(secs: i64) -> (r: Option<String>)
    ensures
        stamp_in_range(secs as int) ==> r is Some,
        r is Some ==> r->Some_0@ == utc_stamp(secs as int),
{
    match chrono::DateTime::from_timestamp(secs, 0) {
        Some(t) => Some(t.format("%Y-%m-%d %H:%M:%S UTC").to_string()),
        None => None,
    }
}

/// Relies on chrono's `Utc::now` and `DateTime::timestamp`: the current time
/// in whole seconds since the Unix epoch. Nothing is known of its value.
#[verifier::external_body]
fn utc_now_seconds() -> (r: i64) {
    chrono::Utc::now().timestamp()
}

/// Relies on `String::push`: appends `c` to `s`.
#[verifier::external_body]
pub(crate) fn append_char(s: &mut String, c: char)
    ensures
        final(s)@ == old(s)@.push(c),
{
    s.push(c)
}

/// Appends the decimal digits of `n`.
pub(crate) fn append_decimal(s: &mut String, n: u64)
    ensures
        final(s)@ == old(s)@ + decimal(n as nat),
    decreases n,
{
    if n < 10 {
        append_char(s, ((48 + n) as u8) as char);
        assert(final(s)@ =~= old(s)@ + decimal(n as nat));
    } else {
        append_decimal(s, n / 10);
        append_char(s, ((48 + n % 10) as u8) as char);
        assert(final(s)@ =~= old(s)@ + decimal(n as nat));
    }
}

/// Appends the decimal text of `x`, with a leading `-` when it is negative.
pub(crate) fn append_signed(s: &mut String, x: i64)
    ensures
        final(s)@ == old(s)@ + signed_decimal(x as int),
{
    if x < 0 {
        append_char(s, '-');
        let m: u64 = if x == i64::MIN {
            9223372036854775808u64
        } else {
            (-x) as u64
        };
        append_decimal(s, m);
        assert(final(s)@ =~= old(s)@ + signed_decimal(x as int));
    } else {
        append_decimal(s, x as u64);
    }
}

/// The ASCII case fold of `c`.
fn fold_char(c: char) -> (r: u32)
    ensures
        r as int == ascii_fold(c),
{
    if 'A' <= c && c <= 'Z' {
        (c as u32) + 32
    } else {
        c as u32
    }
}

/// Index just after the last `c` in `s` at or after `from`, or `from` when
/// there is none.
fn last_after(s: &str, from: usize, c: char) -> (r: usize)
    requires
        from <= s@.len(),
    ensures
        r as int == from + after_last(s@.skip(from as int), c),
        from <= r <= s@.len(),
{
    let n = s.unicode_len();
    let mut k: usize = 0;
    let mut i: usize = from;
    while i < n
        invariant
            from <= i <= n,
            n == s@.len(),
            k as int == after_last(s@.subrange(from as int, i as int), c),
            k <= i - from,
        decreases n - i,
    {
        if s.get_char(i) == c {
            k = i + 1 - from;
        }
        i = i + 1;
        assert(s@.subrange(from as int, i as int).drop_last() =~= s@.subrange(
            from as int,
            i - 1,
        ));
    }
    assert(s@.subrange(from as int, n as int) =~= s@.skip(from as int));
    from + k
}

/// Whether `e` equals, up to ASCII case, what `p` holds from `from` on.
fn same_ignoring_case(e: &str, p: &str, from: usize) -> (r: bool)
    requires
        from <= p@.len(),
    ensures
        r == eq_ignore_ascii_case(e@, p@.skip(from as int)),
{
    let n = p.unicode_len();
    let m = e.unicode_len();
    if m != n - from {
        return false;
    }
    let mut i: usize = 0;
    while i < m
        invariant
            0 <= i <= m,
            m == e@.len(),
            n == p@.len(),
            m == n - from,
            forall|j: int| 0 <= j < i ==> ascii_fold(e@[j]) == ascii_fold(p@.skip(from as int)[j]),
        decreases m - i,
    {
        if fold_char(e.get_char(i)) != fold_char(p.get_char(from + i)) {
            return false;
        }
        i = i + 1;
    }
    true
}

impl FileAction {
    /// The word that renders the action: `opened` or `closed`.
    pub fn to_string(&self) -> (r: String)
        ensures
            r@ == action_word(*self),
    {
        let mut s = String::new();
        match self {
            FileAction::Opened => s.append("opened"),
            FileAction::Closed => s.append("closed"),
        }
        assert(s@ =~= action_word(*self));
        s
    }
}

impl FileEvent {
    /// A new event observed now.
    pub fn new(file_path: String, program_name: String, action: FileAction, pid: u32) -> (r:
        FileEvent)
        ensures
            r.file_path@ == file_path@,
            r.program_name@ == program_name@,
            r.action == action,
            r.pid == pid,
    {
        let timestamp = utc_now_seconds();
        FileEvent::with_timestamp(file_path, program_name, action, pid, timestamp)
    }

    /// A new event observed at `timestamp`, in seconds since the Unix epoch.
    pub fn with_timestamp(
        file_path: String,
        program_name: String,
        action: FileAction,
        pid: u32,
        timestamp: i64,
    ) -> (r: FileEvent)
        ensures
            r.file_path@ == file_path@,
            r.program_name@ == program_name@,
            r.action == action,
            r.pid == pid,
            r.timestamp == timestamp,
    {
        FileEvent { file_path, program_name, action, timestamp, pid }
    }

    /// Whether the event passes the extension filter `extensions`: every
    /// event does without a filter; with one, the event's path must have an
    /// extension equal, up to ASCII case, to one of the filter's.
    pub fn matches_extensions(&self, extensions: &Option<Vec<String>>) -> (r: bool)
        ensures
            r == passes(self.file_path@, filter_view(*extensions)),
    {
        match extensions {
            None => true,
            Some(exts) => {
                let p = self.file_path.as_str();
                let slash = last_after(p, 0, '/');
                let dot = last_after(p, slash, '.');
                let ghost name = file_name_of(p@);
                assert(p@.skip(0) =~= p@);
                if dot == slash {
                    return false;
                }
                assert(name.skip((dot - slash) as int) =~= p@.skip(dot as int));
                let ghost x = p@.skip(dot as int);
                assert(extension_of(p@) == Some(x));
                let ghost es = exts@.map_values(|s: String| s@);
                assert(filter_view(*extensions) == Some(es));
                let mut i: usize = 0;
                while i < exts.len()
                    invariant
                        0 <= i <= exts@.len(),
                        slash <= dot <= p@.len(),
                        x == p@.skip(dot as int),
                        extension_of(p@) == Some(x),
                        es == exts@.map_values(|s: String| s@),
                        filter_view(*extensions) == Some(es),
                        p@ == self.file_path@,
                        forall|j: int| 0 <= j < i ==> !eq_ignore_ascii_case(es[j], x),
                    decreases exts@.len() - i,
                {
                    let e = exts[i].as_str();
                    assert(e@ == es[i as int]);
                    if same_ignoring_case(e, p, dot) {
                        assert(eq_ignore_ascii_case(es[i as int], x));
                        assert(extension_of(p@) == Some(x));
                        assert(listed(es, x));
                        return true;
                    }
                    i = i + 1;
                }
                false
            },
        }
    }

    /// The event's line, given the text of its timestamp:
    /// `stamp | program_name (pid) | action | file_path`.
    pub fn render_with_stamp(&self, stamp: &str) -> (r: String)
        ensures
            r@ == event_line(stamp@, self.program_name@, self.pid, self.action, self.file_path@),
    {
        let mut s = String::new();
        s.append(stamp);
        s.append(" | ");
        s.append(self.program_name.as_str());
        s.append(" (");
        append_decimal(&mut s, self.pid as u64);
        s.append(") | ");
        let word = self.action.to_string();
        s.append(word.as_str());
        s.append(" | ");
        s.append(self.file_path.as_str());
        assert(s@ =~= event_line(stamp@, self.program_name@, self.pid, self.action, self.file_path@));
        s
    }

    /// The event's line, its timestamp written as a UTC calendar date and
    /// time to the second (as a count of seconds should the date fall
    /// outside `stamp_in_range`).
    pub fn to_string(&self) -> (r: String)
        ensures
            is_rendering(*self, r@),
    {
        if -8_000_000_000_000i64 <= self.timestamp && self.timestamp <= 8_000_000_000_000i64 {
            if let Some(stamp) = utc_stamp_text(self.timestamp) {
                return self.render_with_stamp(stamp.as_str());
            }
        }
        let mut stamp = String::new();
        append_signed(&mut stamp, self.timestamp);
        self.render_with_stamp(stamp.as_str())
    }
}

} // verus!
