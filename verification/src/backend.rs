//! The runtime log kept for the web console (the last 400 lines), and the
//! form of paths handed to child processes on Windows.
use crate::text::{chars_of, owned, starts_with, starts_with_chars, string_of, slice_vec, push_str};
use vstd::prelude::*;

verus! {

/// How many log lines are kept.
pub const LOG_CAPACITY: usize = 400;

/// The runtime log: the newest lines, oldest first, at most
/// `LOG_CAPACITY` of them.
#[derive(Debug)]
pub struct LogBuffer {
    lines: Vec<String>,
}

impl LogBuffer {
    pub closed spec fn view(&self) -> Seq<Seq<char>> {
        crate::tools::texts_view(self.lines@)
    }

    /// The log never holds more than `LOG_CAPACITY` lines.
    #[verifier::type_invariant]
    spec fn bounded(self) -> bool {
        self.lines@.len() <= LOG_CAPACITY
    }

    pub fn new() -> (r: LogBuffer)
        ensures
            r@ == Seq::<Seq<char>>::empty(),
    {
        let r = LogBuffer { lines: Vec::new() };
        assert(r@ =~= Seq::<Seq<char>>::empty());
        r
    }

    /// Adds a line, dropping the oldest ones beyond the capacity.
    pub fn push(&mut self, line: String)
        ensures
            final(self)@ == keep_last(old(self)@.push(line@), LOG_CAPACITY as nat),
            final(self)@.len() <= LOG_CAPACITY,
    {
        proof {
            use_type_invariant(&*self);
        }
        let ghost all = self@.push(line@);
        let mut lines: Vec<String> = Vec::new();
        std::mem::swap(&mut lines, &mut self.lines);
        lines.push(line);
        assert(crate::tools::texts_view(lines@) =~= all);
        if lines.len() > LOG_CAPACITY {
            lines.remove(0);
            assert(crate::tools::texts_view(lines@) =~= all.drop_first());
        }
        assert(crate::tools::texts_view(lines@) =~= keep_last(all, LOG_CAPACITY as nat));
        self.lines = lines;
    }

    /// How many lines the log holds: never more than its capacity.
    pub fn len(&self) -> (r: usize)
        ensures
            r == self@.len(),
            r <= LOG_CAPACITY,
    {
        proof {
            use_type_invariant(self);
        }
        self.lines.len()
    }

    /// The last `max_lines` lines (at least one), oldest first; never more
    /// than the capacity.
    pub fn tail(&self, max_lines: usize) -> (r: Vec<String>)
        ensures
            crate::tools::texts_view(r@) == keep_last(self@, if max_lines < 1 { 1 } else { max_lines as nat }),
            r@.len() <= LOG_CAPACITY,
            self@.len() <= LOG_CAPACITY,
    {
        proof {
            use_type_invariant(self);
        }
        let want: usize = if max_lines < 1 { 1 } else { max_lines };
        let start: usize = if self.lines.len() > want { self.lines.len() - want } else { 0 };
        let mut out: Vec<String> = Vec::new();
        let mut i: usize = start;
        while i < self.lines.len()
            invariant
                start <= i <= self.lines.len(),
                crate::tools::texts_view(out@) == self@.subrange(start as int, i as int),
            decreases self.lines.len() - i,
        {
            let ghost before = out@;
            out.push(owned(self.lines[i].as_str()));
            assert(crate::tools::texts_view(out@) =~= crate::tools::texts_view(before).push(self@[i as int]));
            i += 1;
            assert(self@.subrange(start as int, i as int) =~= self@.subrange(start as int, i - 1).push(
                self@[i - 1],
            ));
        }
        assert(self@.subrange(start as int, self@.len() as int) =~= keep_last(self@, want as nat));
        out
    }
}

/// Where the settings file used to be: settings now live in the database,
/// so there is no such file, whatever the backend folder.
pub fn settings_path(backend_dir: &str) -> (r: String)
    ensures
        r@ == Seq::<char>::empty(),
{
    String::new()
}

/// The answer to a log request: the whole log, oldest first.
pub fn logs_response(log: &LogBuffer) -> (r: crate::model::LogsResponse)
    ensures
        crate::tools::texts_view(r.lines@) == log@,
{
    let lines = log.tail(LOG_CAPACITY);
    proof {
        assert(keep_last(log@, LOG_CAPACITY as nat) == log@);
    }
    crate::model::LogsResponse { lines }
}

/// The last `n` items of `s` (all of them when it has fewer).
pub open spec fn keep_last<T>(s: Seq<T>, n: nat) -> Seq<T> {
    if s.len() <= n {
        s
    } else {
        s.skip(s.len() - n)
    }
}

/// The log never holds more than its capacity, and always holds the line
/// just pushed as its newest.
pub proof fn law_log_keeps_newest(lines: Seq<Seq<char>>, line: Seq<char>)
    requires
        lines.len() <= LOG_CAPACITY,
    ensures
        keep_last(lines.push(line), LOG_CAPACITY as nat).len() <= LOG_CAPACITY,
        keep_last(lines.push(line), LOG_CAPACITY as nat).last() == line,
{
}

/// The log after pushing `lines`, in order, onto a log holding `start`.
pub open spec fn log_after(start: Seq<Seq<char>>, lines: Seq<Seq<char>>) -> Seq<Seq<char>>
    decreases lines.len(),
{
    if lines.len() == 0 {
        start
    } else {
        log_after(keep_last(start.push(lines[0]), LOG_CAPACITY as nat), lines.drop_first())
    }
}

proof fn lemma_keep_last_after<T>(x: Seq<T>, y: Seq<T>, c: nat)
    ensures
        keep_last(keep_last(x, c) + y, c) == keep_last(x + y, c),
{
    let k = keep_last(x, c);
    if x.len() > c {
        let lhs = keep_last(k + y, c);
        let rhs = keep_last(x + y, c);
        assert(lhs.len() == rhs.len());
        assert forall|i: int| 0 <= i < lhs.len() implies lhs[i] == rhs[i] by {
            let j = i + (x.len() + y.len() - c);
            if j < x.len() {
                assert(rhs[i] == x[j]);
                assert(lhs[i] == k[j - (x.len() - c)]);
            } else {
                assert(rhs[i] == y[j - x.len()]);
            }
        }
        assert(lhs =~= rhs);
    }
}

proof fn lemma_keep_last_twice<T>(z: Seq<T>, c: nat, m: nat)
    ensures
        keep_last(keep_last(z, c), m) == keep_last(z, if m <= c { m } else { c }),
{
    let lhs = keep_last(keep_last(z, c), m);
    let rhs = keep_last(z, if m <= c { m } else { c });
    assert(lhs.len() == rhs.len());
    assert forall|i: int| 0 <= i < lhs.len() implies lhs[i] == rhs[i] by {}
    assert(lhs =~= rhs);
}

/// Whatever lines are pushed, the log holds the newest `LOG_CAPACITY` of
/// everything pushed, in push order; so a tail of `n` lines (at least one)
/// is the newest `min(max(n, 1), LOG_CAPACITY)` lines pushed.
pub proof fn law_log_tail_after_pushes(start: Seq<Seq<char>>, lines: Seq<Seq<char>>, n: nat)
    requires
        start.len() <= LOG_CAPACITY,
    ensures
        log_after(start, lines) == keep_last(start + lines, LOG_CAPACITY as nat),
        keep_last(log_after(start, lines), if n < 1 { 1 } else { n }) == keep_last(
            start + lines,
            if n < 1 {
                1
            } else if n <= LOG_CAPACITY {
                n
            } else {
                LOG_CAPACITY as nat
            },
        ),
    decreases lines.len(),
{
    let cap = LOG_CAPACITY as nat;
    if lines.len() == 0 {
        assert(start + lines =~= start);
    } else {
        let s1 = keep_last(start.push(lines[0]), cap);
        law_log_tail_after_pushes(s1, lines.drop_first(), n);
        lemma_keep_last_after(start.push(lines[0]), lines.drop_first(), cap);
        assert(start.push(lines[0]) + lines.drop_first() =~= start + lines);
    }
    let want: nat = if n < 1 { 1 } else { n };
    lemma_keep_last_twice(start + lines, cap, want);
}

// ---------------------------------------------------------------------------
// Paths for child processes
// ---------------------------------------------------------------------------

/// A Windows path without its verbatim prefix: `\\?\UNC\server\share`
/// becomes `\\server\share`, `\\?\C:\x` becomes `C:\x`.
pub open spec fn strip_verbatim_spec(value: Seq<char>) -> Seq<char> {
    if starts_with(value, "\\\\?\\UNC\\"@) {
        "\\\\"@ + value.skip(8)
    } else if starts_with(value, "\\\\?\\"@) {
        value.skip(4)
    } else {
        value
    }
}

pub fn strip_windows_verbatim_prefix(value: &str) -> (r: String)
    ensures
        r@ == strip_verbatim_spec(value@),
{
    let v = chars_of(value);
    let unc = chars_of("\\\\?\\UNC\\");
    let plain = chars_of("\\\\?\\");
    proof {
        reveal_strlit("\\\\?\\UNC\\");
        reveal_strlit("\\\\?\\");
    }
    if starts_with_chars(v.as_slice(), unc.as_slice()) {
        let mut out: Vec<char> = Vec::new();
        push_str(&mut out, "\\\\");
        let rest = slice_vec(v.as_slice(), 8, v.len());
        crate::text::push_chars(&mut out, rest.as_slice());
        assert(rest@ =~= v@.skip(8));
        return string_of(out.as_slice());
    }
    if starts_with_chars(v.as_slice(), plain.as_slice()) {
        let rest = slice_vec(v.as_slice(), 4, v.len());
        assert(rest@ =~= v@.skip(4));
        return string_of(rest.as_slice());
    }
    owned(value)
}

} // verus!
