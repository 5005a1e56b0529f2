//! History search: normalizing the filter a user typed (dates, Korean
//! status aliases, limit) and selecting the LIVE recordings and VOD jobs
//! that match it.
use crate::model::{HistoryResponse, LiveHistoryItem, VodHistoryItem};
use crate::settings::views;
use crate::text::{
    chars_of, contains, contains_chars, eq_ignore_case, lower_seq, owned, prefix_of_bytes,
    byte_prefix, str_eq, str_eq_ignore_case, str_lt, strip_ws, text_lt, to_lower, to_upper, trim,
    trim_str, upper_chars, upper_seq, without_ws,
};
use vstd::prelude::*;

verus! {

pub const HISTORY_DEFAULT_LIMIT: usize = 100;

pub const HISTORY_MAX_LIMIT: usize = 500;

// ---------------------------------------------------------------------------
// Status aliases
// ---------------------------------------------------------------------------

/// A status term as it is compared: without white space, in upper case.
pub open spec fn status_term(s: Seq<char>) -> Seq<char> {
    upper_seq(without_ws(s))
}

/// The Korean words for each group of canonical states, and the states.
pub open spec fn status_aliases() -> Seq<(Seq<Seq<char>>, Seq<Seq<char>>)> {
    seq![
        (seq!["완료"@], seq!["COMPLETED"@]),
        (seq!["실패"@], seq!["FAILED"@]),
        (seq!["비정상 종료"@, "중단됨"@, "중단"@], seq!["INTERRUPTED"@]),
        (seq!["취소됨"@, "취소"@], seq!["CANCELLED"@]),
        (seq!["중지됨"@, "중지"@], seq!["STOPPED"@]),
        (seq!["대기"@], seq!["READY"@, "QUEUED"@, "IDLE"@]),
        (seq!["진행 중"@, "진행중"@, "진행"@], seq!["RUNNING"@, "STARTING"@, "ANALYZING"@, "DOWNLOADING"@, "REFRESHING"@, "MERGING"@, "CANCELLING"@]),
        (seq!["준비 중"@, "준비중"@], seq!["STARTING"@]),
        (seq!["준비됨"@], seq!["READY"@]),
        (seq!["분석 중"@, "분석중"@], seq!["ANALYZING"@]),
        (seq!["다운로드 중"@, "다운로드중"@], seq!["DOWNLOADING"@]),
        (seq!["인증 갱신 중"@], seq!["REFRESHING"@]),
        (seq!["병합 중"@, "병합중"@], seq!["MERGING"@]),
        (seq!["취소 중"@, "취소중"@], seq!["CANCELLING"@]),
        (seq!["녹화 중"@, "녹화중"@], seq!["RECORDING"@]),
        (seq!["오프라인"@], seq!["OFFLINE"@]),
        (seq!["오류"@], seq!["ERROR"@]),
        (seq!["비활성"@], seq!["DISABLED"@]),
        (seq!["디스크 부족"@, "디스크 공간 부족"@], seq!["LOW_DISK"@]),
        (seq!["녹화 정지"@, "정체됨"@, "정체"@], seq!["STALLED"@]),
        (seq!["인증 필요"@], seq!["AUTH"@]),
        (seq!["비밀번호 필요"@], seq!["PASSWORD_REQUIRED"@]),
        (seq!["현재방송 중지"@, "현재 방송 중지"@], seq!["PAUSED"@]),
        (seq!["확인중"@, "확인 중"@], seq!["UNKNOWN"@]),
        (seq!["방송중"@, "방송 중"@], seq!["LIVE"@]),
    ]
}

/// Whether the normalized form of one of the terms contains `needle`.
pub open spec fn any_term_contains(terms: Seq<Seq<char>>, needle: Seq<char>) -> bool {
    exists|i: int| 0 <= i < terms.len() && contains(status_term(#[trigger] terms[i]), needle)
}

/// A row applies when one of its words or one of its states contains the
/// needle.
pub open spec fn row_applies(row: (Seq<Seq<char>>, Seq<Seq<char>>), needle: Seq<char>) -> bool {
    any_term_contains(row.0, needle) || any_term_contains(row.1, needle)
}

/// `acc` followed by the items it does not hold yet, in order.
pub open spec fn add_new(acc: Seq<Seq<char>>, items: Seq<Seq<char>>) -> Seq<Seq<char>>
    decreases items.len(),
{
    if items.len() == 0 {
        acc
    } else {
        add_new(
            if acc.contains(items[0]) {
                acc
            } else {
                acc.push(items[0])
            },
            items.drop_first(),
        )
    }
}

/// The states of the rows that apply, in table order, each once.
pub open spec fn collect_states(
    rows: Seq<(Seq<Seq<char>>, Seq<Seq<char>>)>,
    needle: Seq<char>,
    acc: Seq<Seq<char>>,
) -> Seq<Seq<char>>
    decreases rows.len(),
{
    if rows.len() == 0 {
        acc
    } else {
        collect_states(
            rows.drop_first(),
            needle,
            if row_applies(rows[0], needle) {
                add_new(acc, rows[0].1)
            } else {
                acc
            },
        )
    }
}

/// The states a status input stands for: none for no input, an empty or
/// blank one or `전체` (all); else the states of every row whose words or
/// states contain the input (white space removed, upper case); else the
/// input itself in upper case.
pub open spec fn status_input(value: Option<Seq<char>>) -> Option<Seq<Seq<char>>> {
    match value {
        None => None,
        Some(v) => {
            let t = trim(v);
            if t.len() == 0 || t == "전체"@ {
                None
            } else {
                let m = collect_states(status_aliases(), status_term(t), Seq::empty());
                if m.len() == 0 {
                    Some(seq![upper_seq(t)])
                } else {
                    Some(m)
                }
            }
        },
    }
}

pub open spec fn strings_view(v: Seq<String>) -> Seq<Seq<char>> {
    v.map_values(|s: String| s@)
}

pub open spec fn row_view(r: (Vec<&str>, Vec<&str>)) -> (Seq<Seq<char>>, Seq<Seq<char>>) {
    (views(r.0@), views(r.1@))
}

fn alias_table() -> (t: Vec<(Vec<&'static str>, Vec<&'static str>)>)
    ensures
        t@.map_values(|r: (Vec<&str>, Vec<&str>)| row_view(r)) == status_aliases(),
{
    let t = vec![
        (vec!["완료"], vec!["COMPLETED"]),
        (vec!["실패"], vec!["FAILED"]),
        (vec!["비정상 종료", "중단됨", "중단"], vec!["INTERRUPTED"]),
        (vec!["취소됨", "취소"], vec!["CANCELLED"]),
        (vec!["중지됨", "중지"], vec!["STOPPED"]),
        (vec!["대기"], vec!["READY", "QUEUED", "IDLE"]),
        (vec!["진행 중", "진행중", "진행"], vec!["RUNNING", "STARTING", "ANALYZING", "DOWNLOADING", "REFRESHING", "MERGING", "CANCELLING"]),
        (vec!["준비 중", "준비중"], vec!["STARTING"]),
        (vec!["준비됨"], vec!["READY"]),
        (vec!["분석 중", "분석중"], vec!["ANALYZING"]),
        (vec!["다운로드 중", "다운로드중"], vec!["DOWNLOADING"]),
        (vec!["인증 갱신 중"], vec!["REFRESHING"]),
        (vec!["병합 중", "병합중"], vec!["MERGING"]),
        (vec!["취소 중", "취소중"], vec!["CANCELLING"]),
        (vec!["녹화 중", "녹화중"], vec!["RECORDING"]),
        (vec!["오프라인"], vec!["OFFLINE"]),
        (vec!["오류"], vec!["ERROR"]),
        (vec!["비활성"], vec!["DISABLED"]),
        (vec!["디스크 부족", "디스크 공간 부족"], vec!["LOW_DISK"]),
        (vec!["녹화 정지", "정체됨", "정체"], vec!["STALLED"]),
        (vec!["인증 필요"], vec!["AUTH"]),
        (vec!["비밀번호 필요"], vec!["PASSWORD_REQUIRED"]),
        (vec!["현재방송 중지", "현재 방송 중지"], vec!["PAUSED"]),
        (vec!["확인중", "확인 중"], vec!["UNKNOWN"]),
        (vec!["방송중", "방송 중"], vec!["LIVE"]),
    ];
    assert(t@.map_values(|r: (Vec<&str>, Vec<&str>)| row_view(r)) =~~= status_aliases());
    t
}

/// `status_term` of a text.
pub fn normalize_status_term(value: &str) -> (r: String)
    ensures
        r@ == status_term(value@),
{
    let v = chars_of(value);
    let s = strip_ws(v.as_slice());
    let u = upper_chars(s.as_slice());
    crate::text::string_of(u.as_slice())
}

fn any_contains(terms: &[&str], needle: &[char]) -> (r: bool)
    ensures
        r == any_term_contains(views(terms@), needle@),
{
    let mut i: usize = 0;
    while i < terms.len()
        invariant
            i <= terms.len(),
            forall|j: int| 0 <= j < i ==> !contains(status_term(#[trigger] views(terms@)[j]), needle@),
        decreases terms.len() - i,
    {
        let t = normalize_status_term(terms[i]);
        let tv = chars_of(t.as_str());
        assert(views(terms@)[i as int] == terms@[i as int]@);
        if contains_chars(tv.as_slice(), needle) {
            return true;
        }
        i += 1;
    }
    false
}

fn holds_text(v: &Vec<String>, s: &str) -> (r: bool)
    ensures
        r == strings_view(v@).contains(s@),
{
    let mut i: usize = 0;
    while i < v.len()
        invariant
            i <= v.len(),
            forall|j: int| 0 <= j < i ==> strings_view(v@)[j] != s@,
        decreases v.len() - i,
    {
        if str_eq(v[i].as_str(), s) {
            assert(strings_view(v@)[i as int] == s@);
            return true;
        }
        i += 1;
    }
    false
}

fn push_new(acc: &mut Vec<String>, items: &[&str])
    ensures
        strings_view(final(acc)@) == add_new(strings_view(old(acc)@), views(items@)),
{
    let ghost start = strings_view(acc@);
    let ghost all = views(items@);
    assert(all.skip(0) =~= all);
    let mut i: usize = 0;
    while i < items.len()
        invariant
            i <= items.len(),
            all == views(items@),
            add_new(start, all) == add_new(strings_view(acc@), all.skip(i as int)),
        decreases items.len() - i,
    {
        assert(all.skip(i as int).drop_first() =~= all.skip(i + 1));
        assert(all.skip(i as int)[0] == items@[i as int]@);
        if !holds_text(acc, items[i]) {
            let ghost prev = strings_view(acc@);
            acc.push(owned(items[i]));
            assert(strings_view(acc@) =~= prev.push(items@[i as int]@));
        }
        i += 1;
    }
    assert(all.skip(i as int) =~= Seq::<Seq<char>>::empty());
}

/// The states a status filter stands for (see `status_input`).
pub fn normalize_status_input(value: Option<&str>) -> (r: Option<Vec<String>>)
    ensures
        match status_input(
            match value {
                Some(v) => Some(v@),
                None => None,
            },
        ) {
            None => r.is_none(),
            Some(m) => r.is_some() && strings_view(r.unwrap()@) == m,
        },
{
    let raw = match value {
        None => {
            return None;
        },
        Some(v) => v,
    };
    let t = trim_str(raw);
    if t.as_str().is_empty() || str_eq(t.as_str(), "전체") {
        return None;
    }
    let needle_text = normalize_status_term(t.as_str());
    let needle = chars_of(needle_text.as_str());
    let table = alias_table();
    let ghost rows = table@.map_values(|r: (Vec<&str>, Vec<&str>)| row_view(r));
    let mut matches: Vec<String> = Vec::new();
    assert(rows.skip(0) =~= rows);
    assert(strings_view(matches@) =~= Seq::<Seq<char>>::empty());
    let mut i: usize = 0;
    while i < table.len()
        invariant
            i <= table.len(),
            rows == table@.map_values(|r: (Vec<&str>, Vec<&str>)| row_view(r)),
            rows == status_aliases(),
            needle@ == status_term(t@),
            collect_states(rows, needle@, Seq::empty()) == collect_states(
                rows.skip(i as int),
                needle@,
                strings_view(matches@),
            ),
        decreases table.len() - i,
    {
        assert(rows.skip(i as int).drop_first() =~= rows.skip(i + 1));
        assert(rows.skip(i as int)[0] == row_view(table@[i as int]));
        let (terms, states) = &table[i];
        if any_contains(terms.as_slice(), needle.as_slice()) || any_contains(
            states.as_slice(),
            needle.as_slice(),
        ) {
            push_new(&mut matches, states.as_slice());
        }
        i += 1;
    }
    assert(rows.skip(i as int) =~= Seq::<(Seq<Seq<char>>, Seq<Seq<char>>)>::empty());
    if matches.len() == 0 {
        let mut one: Vec<String> = Vec::new();
        one.push(to_upper(t.as_str()));
        assert(strings_view(one@) =~= seq![upper_seq(t@)]);
        Some(one)
    } else {
        Some(matches)
    }
}

// ---------------------------------------------------------------------------
// Dates
// ---------------------------------------------------------------------------

/// Whether `chrono::NaiveDate::parse_from_str(text, fmt)` succeeds.
pub uninterp spec fn naive_date_valid(text: Seq<char>, fmt: Seq<char>) -> bool;

/// The instant that `chrono::DateTime::parse_from_rfc3339(text)` reads, in
/// milliseconds since the Unix epoch (`timestamp_millis`), or `None` when
/// the text is no RFC 3339 timestamp.
pub uninterp spec fn rfc3339_millis(text: Seq<char>) -> Option<i64>;

/// Calls `chrono::NaiveDate::parse_from_str(text, fmt)` and reports
/// whether it succeeded; the contract claims only that the answer is the
/// named outcome for these two arguments.
#[verifier::external_body]
fn naive_date_parses(text: &str, fmt: &str) -> (r: bool)
    ensures
        r == naive_date_valid(text@, fmt@),
{
    chrono::NaiveDate::parse_from_str(text, fmt).is_ok()
}

/// Calls `chrono::DateTime::parse_from_rfc3339(text)` and converts the
/// instant with `timestamp_millis`; the contract claims only that the
/// result is the named value for this text.
#[verifier::external_body]
fn parse_rfc3339_millis(text: &str) -> (r: Option<i64>)
    ensures
        r == rfc3339_millis(text@),
{
    match chrono::DateTime::parse_from_rfc3339(text) {
        Ok(instant) => Some(instant.timestamp_millis()),
        Err(_) => None,
    }
}

/// Calls `chrono::DateTime::parse_from_rfc3339(text)` and formats the
/// instant in the machine's local time zone with `fmt`, one of the two
/// formats the history uses (a format with an invalid specifier would
/// make the formatting fail).  The text depends on the time zone, so the
/// contract claims only that a text comes back exactly when the timestamp
/// parses.
#[verifier::external_body]
fn rfc3339_local_text(text: &str, fmt: &str) -> (r: Option<String>)
    requires
        fmt@ == "%Y-%m-%d %H:%M:%S"@ || fmt@ == "%Y-%m-%d"@,
    ensures
        r.is_some() == rfc3339_millis(text@).is_some(),
{
    match chrono::DateTime::parse_from_rfc3339(text) {
        Ok(instant) => Some(instant.with_timezone(&chrono::Local).format(fmt).to_string()),
        Err(_) => None,
    }
}

/// The order key of a history timestamp: its instant in milliseconds, or
/// `i64::MIN` when it does not parse.
pub fn history_timestamp_sort_key(timestamp: &str) -> (r: i64)
    ensures
        r == match rfc3339_millis(timestamp@) {
            Some(ms) => ms,
            None => i64::MIN,
        },
{
    match parse_rfc3339_millis(timestamp) {
        Some(ms) => ms,
        None => i64::MIN,
    }
}

/// A history timestamp shown in local time (`%Y-%m-%d %H:%M:%S`); a text
/// that does not parse is shown as it is.
pub fn format_history_timestamp_local(timestamp: &str) -> (r: String)
    ensures
        rfc3339_millis(timestamp@) is None ==> r@ == timestamp@,
{
    match rfc3339_local_text(timestamp, "%Y-%m-%d %H:%M:%S") {
        Some(text) => text,
        None => owned(timestamp),
    }
}

/// The date a history timestamp falls on when it does not parse: its
/// first ten bytes, or the whole text when those do not end a character.
pub open spec fn fallback_date(timestamp: Seq<char>) -> Seq<char> {
    match prefix_of_bytes(timestamp, 10) {
        Some(p) => p,
        None => timestamp,
    }
}

/// `from <= date <= to`, comparing texts, each bound only when given.
pub open spec fn date_in_range(date: Seq<char>, from: Option<Seq<char>>, to: Option<Seq<char>>) -> bool {
    (match from {
        Some(min) => !text_lt(date, min),
        None => true,
    }) && (match to {
        Some(max) => !text_lt(max, date),
        None => true,
    })
}

pub open spec fn opt_view(o: Option<&str>) -> Option<Seq<char>> {
    match o {
        Some(s) => Some(s@),
        None => None,
    }
}

/// The date check, given the local date of the timestamp when it parsed.
pub fn date_matches_with(local_date: Option<String>, timestamp: &str, from: Option<&str>, to: Option<&str>) -> (r: bool)
    ensures
        r == date_in_range(
            match local_date {
                Some(d) => d@,
                None => fallback_date(timestamp@),
            },
            opt_view(from),
            opt_view(to),
        ),
{
    let date = match local_date {
        Some(d) => d,
        None => match byte_prefix(timestamp, 10) {
            Some(p) => p,
            None => owned(timestamp),
        },
    };
    let low = match from {
        Some(min) => !str_lt(date.as_str(), min),
        None => true,
    };
    let high = match to {
        Some(max) => !str_lt(max, date.as_str()),
        None => true,
    };
    low && high
}

/// Whether a timestamp falls within the date bounds, in the machine's
/// local time; a timestamp that does not parse is dated by its first ten
/// bytes.
pub fn date_matches(timestamp: &str, from: Option<&str>, to: Option<&str>) -> (r: bool)
    ensures
        rfc3339_millis(timestamp@) is None ==> r == date_in_range(
            fallback_date(timestamp@),
            opt_view(from),
            opt_view(to),
        ),
{
    let local = rfc3339_local_text(timestamp, "%Y-%m-%d");
    date_matches_with(local, timestamp, from, to)
}

// ---------------------------------------------------------------------------
// The filter
// ---------------------------------------------------------------------------

/// A history search as the user typed it.
#[derive(Debug, Clone, Default, PartialEq, Eq)]
pub struct HistoryFilter {
    pub q: Option<String>,
    pub status: Option<String>,
    pub from: Option<String>,
    pub to: Option<String>,
    pub limit: Option<usize>,
}

/// A history search ready to apply.
#[derive(Debug, Clone, PartialEq, Eq)]
pub struct NormalizedHistoryFilter {
    pub needle: Option<String>,
    pub statuses: Option<Vec<String>>,
    pub from: Option<String>,
    pub to: Option<String>,
    pub limit: usize,
}

/// A normalized filter with its texts taken as character sequences.
pub struct NormalizedView {
    pub needle: Option<Seq<char>>,
    pub statuses: Option<Seq<Seq<char>>>,
    pub from: Option<Seq<char>>,
    pub to: Option<Seq<char>>,
    pub limit: usize,
}

impl View for NormalizedHistoryFilter {
    type V = NormalizedView;

    open spec fn view(&self) -> NormalizedView {
        NormalizedView {
            needle: opt_string_view(self.needle),
            statuses: match self.statuses {
                Some(v) => Some(strings_view(v@)),
                None => None,
            },
            from: opt_string_view(self.from),
            to: opt_string_view(self.to),
            limit: self.limit,
        }
    }
}

pub open spec fn opt_string_view(o: Option<String>) -> Option<Seq<char>> {
    match o {
        Some(s) => Some(s@),
        None => None,
    }
}

/// Why a history filter was refused.
#[derive(Debug, Clone, Copy, PartialEq, Eq, Structural)]
pub enum HistoryError {
    /// A date bound is not a `YYYY-MM-DD` date.
    InvalidDate,
    /// The from date comes after the to date.
    FromAfterTo,
}

impl HistoryError {
    /// The message shown for the refusal.
    pub open spec fn message_spec(&self) -> Seq<char> {
        match self {
            HistoryError::InvalidDate => "history date must use a valid YYYY-MM-DD date"@,
            HistoryError::FromAfterTo => "history from date must not be after to date"@,
        }
    }

    pub fn message(&self) -> (r: &'static str)
        ensures
            r@ == self.message_spec(),
    {
        match self {
            HistoryError::InvalidDate => "history date must use a valid YYYY-MM-DD date",
            HistoryError::FromAfterTo => "history from date must not be after to date",
        }
    }
}

/// A date bound: the trimmed text, unless it is absent or blank.
pub open spec fn date_bound(o: Option<String>) -> Option<Seq<char>> {
    match o {
        Some(s) => if trim(s@).len() == 0 {
            None
        } else {
            Some(trim(s@))
        },
        None => None,
    }
}

/// The search text: trimmed and lower-cased, unless absent or blank.
pub open spec fn needle_of(q: Option<String>) -> Option<Seq<char>> {
    match q {
        Some(s) => if trim(s@).len() == 0 {
            None
        } else {
            Some(lower_seq(trim(s@)))
        },
        None => None,
    }
}

/// The number of items to show: 100 when not given, kept within 1..=500.
pub open spec fn limit_of(limit: Option<usize>) -> usize {
    let n = match limit {
        Some(n) => n,
        None => HISTORY_DEFAULT_LIMIT,
    };
    if n < 1 {
        1
    } else if n > HISTORY_MAX_LIMIT {
        HISTORY_MAX_LIMIT
    } else {
        n
    }
}

/// The normalized filter, given whether each date bound that is present
/// is a valid date.
pub open spec fn normalize_outcome(f: HistoryFilter, from_valid: bool, to_valid: bool) -> Result<
    NormalizedView,
    HistoryError,
> {
    let from = date_bound(f.from);
    let to = date_bound(f.to);
    if from.is_some() && !from_valid {
        Err(HistoryError::InvalidDate)
    } else if to.is_some() && !to_valid {
        Err(HistoryError::InvalidDate)
    } else if from.is_some() && to.is_some() && text_lt(to.unwrap(), from.unwrap()) {
        Err(HistoryError::FromAfterTo)
    } else {
        Ok(
            NormalizedView {
                needle: needle_of(f.q),
                statuses: status_input(opt_string_view(f.status)),
                from,
                to,
                limit: limit_of(f.limit),
            },
        )
    }
}

pub open spec fn normalized_view(r: Result<NormalizedHistoryFilter, HistoryError>) -> Result<
    NormalizedView,
    HistoryError,
> {
    match r {
        Ok(n) => Ok(n@),
        Err(e) => Err(e),
    }
}

/// The format of history date bounds.
pub open spec fn date_format() -> Seq<char> {
    "%Y-%m-%d"@
}

fn trimmed_bound(o: &Option<String>) -> (r: Option<String>)
    ensures
        opt_string_view(r) == date_bound(*o),
{
    match o {
        None => None,
        Some(s) => {
            let t = trim_str(s.as_str());
            if t.as_str().is_empty() {
                None
            } else {
                Some(t)
            }
        },
    }
}

impl HistoryFilter {
    /// The filter normalized, given whether the date bounds are valid dates
    /// (a flag for an absent bound is not looked at).
    pub fn normalize_with(&self, from_valid: bool, to_valid: bool) -> (r: Result<NormalizedHistoryFilter, HistoryError>)
        ensures
            normalized_view(r) == normalize_outcome(*self, from_valid, to_valid),
    {
        let from = trimmed_bound(&self.from);
        let to = trimmed_bound(&self.to);
        if from.is_some() && !from_valid {
            return Err(HistoryError::InvalidDate);
        }
        if to.is_some() && !to_valid {
            return Err(HistoryError::InvalidDate);
        }
        match (&from, &to) {
            (Some(a), Some(b)) => {
                if str_lt(b.as_str(), a.as_str()) {
                    return Err(HistoryError::FromAfterTo);
                }
            },
            _ => {},
        }
        let needle = match &self.q {
            None => None,
            Some(q) => {
                let t = trim_str(q.as_str());
                if t.as_str().is_empty() {
                    None
                } else {
                    Some(to_lower(t.as_str()))
                }
            },
        };
        let statuses = match &self.status {
            None => normalize_status_input(None),
            Some(v) => normalize_status_input(Some(v.as_str())),
        };
        let n = match self.limit {
            Some(n) => n,
            None => HISTORY_DEFAULT_LIMIT,
        };
        let limit = if n < 1 {
            1
        } else if n > HISTORY_MAX_LIMIT {
            HISTORY_MAX_LIMIT
        } else {
            n
        };
        Ok(NormalizedHistoryFilter { needle, statuses, from, to, limit })
    }

    /// The filter normalized: each date bound that is present must parse
    /// with `%Y-%m-%d`, and from must not come after to.
    pub fn normalized(&self) -> (r: Result<NormalizedHistoryFilter, HistoryError>)
        ensures
            normalized_view(r) == normalize_outcome(
                *self,
                date_bound(self.from) is Some && naive_date_valid(date_bound(self.from).unwrap(), date_format()),
                date_bound(self.to) is Some && naive_date_valid(date_bound(self.to).unwrap(), date_format()),
            ),
    {
        let from = trimmed_bound(&self.from);
        let to = trimmed_bound(&self.to);
        let from_valid = match &from {
            Some(d) => naive_date_parses(d.as_str(), "%Y-%m-%d"),
            None => false,
        };
        let to_valid = match &to {
            Some(d) => naive_date_parses(d.as_str(), "%Y-%m-%d"),
            None => false,
        };
        self.normalize_with(from_valid, to_valid)
    }
}

// ---------------------------------------------------------------------------
// Matching
// ---------------------------------------------------------------------------

/// Whether the lower-cased text contains the needle.
pub open spec fn text_has(text: Seq<char>, needle: Seq<char>) -> bool {
    contains(lower_seq(text), needle)
}

pub open spec fn opt_text_has(text: Option<String>, needle: Seq<char>) -> bool {
    match text {
        Some(t) => text_has(t@, needle),
        None => false,
    }
}

/// The search over a LIVE recording: its platform, account, channel name,
/// title, file, reason or status.
pub open spec fn live_text_matches(item: LiveHistoryItem, needle: Option<Seq<char>>) -> bool {
    match needle {
        None => true,
        Some(n) => text_has(item.platform.spec_name(), n) || text_has(item.account@, n) || text_has(
            item.channel_name@,
            n,
        ) || opt_text_has(item.title, n) || opt_text_has(item.file_path, n) || opt_text_has(
            item.reason,
            n,
        ) || text_has(item.status@, n),
    }
}

/// The search over a VOD job: its platform, kind, URL, title, streamer,
/// output file, message or state.
pub open spec fn vod_text_matches(item: VodHistoryItem, needle: Option<Seq<char>>) -> bool {
    match needle {
        None => true,
        Some(n) => text_has(item.platform.spec_name(), n) || text_has(item.kind@, n) || text_has(
            item.vod_url@,
            n,
        ) || text_has(item.title@, n) || text_has(item.streamer@, n) || opt_text_has(
            item.output_file,
            n,
        ) || text_has(item.message@, n) || text_has(item.state@, n),
    }
}

fn has_text(text: &str, needle: &str) -> (r: bool)
    ensures
        r == text_has(text@, needle@),
{
    let l = to_lower(text);
    let h = chars_of(l.as_str());
    let n = chars_of(needle);
    contains_chars(h.as_slice(), n.as_slice())
}

fn opt_has_text(text: &Option<String>, needle: &str) -> (r: bool)
    ensures
        r == opt_text_has(*text, needle@),
{
    match text {
        Some(t) => has_text(t.as_str(), needle),
        None => false,
    }
}

pub fn text_matches_live(item: &LiveHistoryItem, needle: Option<&str>) -> (r: bool)
    ensures
        r == live_text_matches(*item, opt_view(needle)),
{
    match needle {
        None => true,
        Some(n) => has_text(item.platform.as_str(), n) || has_text(item.account.as_str(), n)
            || has_text(item.channel_name.as_str(), n) || opt_has_text(&item.title, n)
            || opt_has_text(&item.file_path, n) || opt_has_text(&item.reason, n) || has_text(
            item.status.as_str(),
            n,
        ),
    }
}

pub fn text_matches_vod(item: &VodHistoryItem, needle: Option<&str>) -> (r: bool)
    ensures
        r == vod_text_matches(*item, opt_view(needle)),
{
    match needle {
        None => true,
        Some(n) => has_text(item.platform.as_str(), n) || has_text(item.kind.as_str(), n)
            || has_text(item.vod_url.as_str(), n) || has_text(item.title.as_str(), n) || has_text(
            item.streamer.as_str(),
            n,
        ) || opt_has_text(&item.output_file, n) || has_text(item.message.as_str(), n) || has_text(
            item.state.as_str(),
            n,
        ),
    }
}

/// Whether the state equals one of the wanted states, case ignored.
pub open spec fn status_wanted(actual: Seq<char>, wanted: Seq<Seq<char>>) -> bool {
    exists|i: int| 0 <= i < wanted.len() && eq_ignore_case(actual, #[trigger] wanted[i])
}

pub fn status_matches(actual: &str, wanted: &[String]) -> (r: bool)
    ensures
        r == status_wanted(actual@, strings_view(wanted@)),
{
    let mut i: usize = 0;
    while i < wanted.len()
        invariant
            i <= wanted.len(),
            forall|j: int| 0 <= j < i ==> !eq_ignore_case(actual@, #[trigger] strings_view(wanted@)[j]),
        decreases wanted.len() - i,
    {
        assert(strings_view(wanted@)[i as int] == wanted@[i as int]@);
        if str_eq_ignore_case(actual, wanted[i].as_str()) {
            return true;
        }
        i += 1;
    }
    false
}

// ---------------------------------------------------------------------------
// Selecting history items
// ---------------------------------------------------------------------------

/// The date an item is filed under: its local date when its timestamp
/// parsed, else the fallback date of the timestamp.
pub open spec fn shown_date(local: Option<Seq<char>>, timestamp: Seq<char>) -> Seq<char> {
    match local {
        Some(d) => d,
        None => fallback_date(timestamp),
    }
}

pub open spec fn state_wanted(actual: Seq<char>, statuses: Option<Seq<Seq<char>>>) -> bool {
    match statuses {
        Some(w) => status_wanted(actual, w),
        None => true,
    }
}

/// Whether a LIVE recording passes the filter.
pub open spec fn live_kept(item: LiveHistoryItem, f: NormalizedView, local: Option<Seq<char>>) -> bool {
    live_text_matches(item, f.needle) && state_wanted(item.status@, f.statuses) && date_in_range(
        shown_date(local, item.started_at@),
        f.from,
        f.to,
    )
}

/// Whether a VOD job passes the filter; a job that never started passes
/// every date bound.
pub open spec fn vod_kept(item: VodHistoryItem, f: NormalizedView, local: Option<Seq<char>>) -> bool {
    vod_text_matches(item, f.needle) && state_wanted(item.state@, f.statuses) && match item.started_at {
        Some(s) => date_in_range(shown_date(local, s@), f.from, f.to),
        None => true,
    }
}

/// The LIVE recordings that pass, in order.
pub open spec fn kept_live(items: Seq<LiveHistoryItem>, dates: Seq<Option<Seq<char>>>, f: NormalizedView) -> Seq<
    LiveHistoryItem,
>
    decreases items.len(),
{
    if items.len() == 0 {
        Seq::empty()
    } else {
        let rest = kept_live(items.drop_first(), dates.drop_first(), f);
        if live_kept(items[0], f, dates[0]) {
            seq![items[0]] + rest
        } else {
            rest
        }
    }
}

/// The VOD jobs that pass, in order.
pub open spec fn kept_vod(items: Seq<VodHistoryItem>, dates: Seq<Option<Seq<char>>>, f: NormalizedView) -> Seq<
    VodHistoryItem,
>
    decreases items.len(),
{
    if items.len() == 0 {
        Seq::empty()
    } else {
        let rest = kept_vod(items.drop_first(), dates.drop_first(), f);
        if vod_kept(items[0], f, dates[0]) {
            seq![items[0]] + rest
        } else {
            rest
        }
    }
}

/// At most the first `n` items.
pub open spec fn first_n<T>(s: Seq<T>, n: usize) -> Seq<T> {
    if n <= s.len() {
        s.take(n as int)
    } else {
        s
    }
}

pub open spec fn dates_view(d: Seq<Option<String>>) -> Seq<Option<Seq<char>>> {
    d.map_values(|o: Option<String>| opt_string_view(o))
}

fn statuses_ok(actual: &str, statuses: &Option<Vec<String>>) -> (r: bool)
    ensures
        r == state_wanted(
            actual@,
            match *statuses {
                Some(v) => Some(strings_view(v@)),
                None => None,
            },
        ),
{
    match statuses {
        Some(w) => status_matches(actual, w.as_slice()),
        None => true,
    }
}

fn opt_str(o: &Option<String>) -> (r: Option<&str>)
    ensures
        opt_view(r) == opt_string_view(*o),
{
    match o {
        Some(s) => Some(s.as_str()),
        None => None,
    }
}

/// Keeps the items that pass the normalized filter, in order, at most
/// `limit` of each kind; `live_dates` and `vod_dates` hold the local date
/// of each item's start, where its timestamp parsed.
#[verifier::spinoff_prover]
pub fn select_history(
    history: HistoryResponse,
    filter: &NormalizedHistoryFilter,
    live_dates: &[Option<String>],
    vod_dates: &[Option<String>],
) -> (r: HistoryResponse)
    requires
        live_dates.len() == history.live.len(),
        vod_dates.len() == history.vod.len(),
    ensures
        r.live@ == first_n(kept_live(history.live@, dates_view(live_dates@), filter@), filter.limit),
        r.vod@ == first_n(kept_vod(history.vod@, dates_view(vod_dates@), filter@), filter.limit),
{
    let HistoryResponse { live, vod } = history;
    let ghost f = filter@;
    let needle = opt_str(&filter.needle);
    let from = opt_str(&filter.from);
    let to = opt_str(&filter.to);
    let ghost all_live = live@;
    let ghost ld = dates_view(live_dates@);
    let mut rest = live;
    let mut out_live: Vec<LiveHistoryItem> = Vec::new();
    let mut i: usize = 0;
    assert(all_live.skip(0) =~= all_live);
    assert(ld.skip(0) =~= ld);
    while rest.len() > 0
        invariant
            i + rest.len() == all_live.len(),
            all_live.len() == live_dates.len(),
            ld == dates_view(live_dates@),
            f == filter@,
            opt_view(needle) == f.needle,
            opt_view(from) == f.from,
            opt_view(to) == f.to,
            rest@ == all_live.skip(i as int),
            kept_live(all_live, ld, f) == out_live@ + kept_live(rest@, ld.skip(i as int), f),
        decreases rest.len(),
    {
        let item = rest.remove(0);
        assert(all_live.skip(i as int).drop_first() =~= all_live.skip(i + 1));
        assert(ld.skip(i as int).drop_first() =~= ld.skip(i + 1));
        assert(ld.skip(i as int)[0] == opt_string_view(live_dates@[i as int]));
        let keep = text_matches_live(&item, needle) && statuses_ok(item.status.as_str(), &filter.statuses)
            && date_matches_with(
            match &live_dates[i] {
                Some(d) => Some(owned(d.as_str())),
                None => None,
            },
            item.started_at.as_str(),
            from,
            to,
        );
        if keep {
            out_live.push(item);
            assert(out_live@ + kept_live(rest@, ld.skip(i + 1), f) =~= (out_live@.drop_last() + (seq![item] + kept_live(rest@, ld.skip(i + 1), f))));
        }
        i += 1;
    }
    assert(kept_live(rest@, ld.skip(i as int), f) =~= Seq::<LiveHistoryItem>::empty());
    assert(out_live@ + Seq::<LiveHistoryItem>::empty() =~= out_live@);
    out_live.truncate(filter.limit);

    let ghost all_vod = vod@;
    let ghost vd = dates_view(vod_dates@);
    let mut rest = vod;
    let mut out_vod: Vec<VodHistoryItem> = Vec::new();
    let mut i: usize = 0;
    assert(all_vod.skip(0) =~= all_vod);
    assert(vd.skip(0) =~= vd);
    while rest.len() > 0
        invariant
            i + rest.len() == all_vod.len(),
            all_vod.len() == vod_dates.len(),
            vd == dates_view(vod_dates@),
            f == filter@,
            opt_view(needle) == f.needle,
            opt_view(from) == f.from,
            opt_view(to) == f.to,
            rest@ == all_vod.skip(i as int),
            kept_vod(all_vod, vd, f) == out_vod@ + kept_vod(rest@, vd.skip(i as int), f),
        decreases rest.len(),
    {
        let item = rest.remove(0);
        assert(all_vod.skip(i as int).drop_first() =~= all_vod.skip(i + 1));
        assert(vd.skip(i as int).drop_first() =~= vd.skip(i + 1));
        assert(vd.skip(i as int)[0] == opt_string_view(vod_dates@[i as int]));
        let dated = match &item.started_at {
            Some(started) => date_matches_with(
                match &vod_dates[i] {
                    Some(d) => Some(owned(d.as_str())),
                    None => None,
                },
                started.as_str(),
                from,
                to,
            ),
            None => true,
        };
        let keep = text_matches_vod(&item, needle) && statuses_ok(item.state.as_str(), &filter.statuses)
            && dated;
        if keep {
            out_vod.push(item);
            assert(out_vod@ + kept_vod(rest@, vd.skip(i + 1), f) =~= (out_vod@.drop_last() + (seq![item] + kept_vod(rest@, vd.skip(i + 1), f))));
        }
        i += 1;
    }
    assert(kept_vod(rest@, vd.skip(i as int), f) =~= Seq::<VodHistoryItem>::empty());
    assert(out_vod@ + Seq::<VodHistoryItem>::empty() =~= out_vod@);
    out_vod.truncate(filter.limit);
    HistoryResponse { live: out_live, vod: out_vod }
}

/// Local dates that fit the LIVE recordings: one per recording, present
/// exactly when its start timestamp parses.
pub open spec fn live_dates_fit(items: Seq<LiveHistoryItem>, dates: Seq<Option<Seq<char>>>) -> bool {
    dates.len() == items.len() && forall|i: int|
        0 <= i < items.len() ==> (#[trigger] dates[i]).is_some() == rfc3339_millis(
            items[i].started_at@,
        ).is_some()
}

/// Local dates that fit the VOD jobs: one per job, present exactly when
/// the job started and its start timestamp parses.
pub open spec fn vod_dates_fit(items: Seq<VodHistoryItem>, dates: Seq<Option<Seq<char>>>) -> bool {
    dates.len() == items.len() && forall|i: int|
        0 <= i < items.len() ==> (#[trigger] dates[i]).is_some() == match items[i].started_at {
            Some(s) => rfc3339_millis(s@).is_some(),
            None => false,
        }
}

/// `r` is what the filter keeps of `h`, given the local dates.
pub open spec fn history_selected(
    h: HistoryResponse,
    f: NormalizedView,
    ld: Seq<Option<Seq<char>>>,
    vd: Seq<Option<Seq<char>>>,
    r: HistoryResponse,
) -> bool {
    &&& live_dates_fit(h.live@, ld)
    &&& vod_dates_fit(h.vod@, vd)
    &&& r.live@ == first_n(kept_live(h.live@, ld, f), f.limit)
    &&& r.vod@ == first_n(kept_vod(h.vod@, vd, f), f.limit)
}

/// `r` is what the filter keeps of `h` for some local dates that fit.
pub open spec fn selected_for_local_dates(h: HistoryResponse, f: NormalizedView, r: HistoryResponse) -> bool {
    exists|ld: Seq<Option<Seq<char>>>, vd: Seq<Option<Seq<char>>>|
        #![trigger kept_live(h.live@, ld, f), kept_vod(h.vod@, vd, f)]
        history_selected(h, f, ld, vd, r)
}

/// Applies a history search to the stored history (newest first): the
/// filter is normalized (see `HistoryFilter::normalized`), then the items
/// that match it are kept, at most `limit` of each kind.  Items are dated
/// in the machine's local time.
#[verifier::spinoff_prover]
pub fn load_history(history: HistoryResponse, filter: &HistoryFilter) -> (r: Result<HistoryResponse, HistoryError>)
    ensures
        match normalize_outcome(
            *filter,
            date_bound(filter.from) is Some && naive_date_valid(date_bound(filter.from).unwrap(), date_format()),
            date_bound(filter.to) is Some && naive_date_valid(date_bound(filter.to).unwrap(), date_format()),
        ) {
            Err(e) => r == Err::<HistoryResponse, HistoryError>(e),
            Ok(f) => r is Ok && selected_for_local_dates(history, f, r->Ok_0),
        },
{
    let normalized = match filter.normalized() {
        Err(e) => {
            return Err(e);
        },
        Ok(n) => n,
    };
    let mut live_dates: Vec<Option<String>> = Vec::new();
    let mut i: usize = 0;
    while i < history.live.len()
        invariant
            i <= history.live.len(),
            live_dates.len() == i,
            forall|j: int|
                0 <= j < i ==> (#[trigger] live_dates@[j]).is_some() == rfc3339_millis(
                    history.live@[j].started_at@,
                ).is_some(),
        decreases history.live.len() - i,
    {
        live_dates.push(rfc3339_local_text(history.live[i].started_at.as_str(), "%Y-%m-%d"));
        i += 1;
    }
    let mut vod_dates: Vec<Option<String>> = Vec::new();
    let mut i: usize = 0;
    while i < history.vod.len()
        invariant
            i <= history.vod.len(),
            vod_dates.len() == i,
            forall|j: int|
                0 <= j < i ==> (#[trigger] vod_dates@[j]).is_some() == match history.vod@[j].started_at {
                    Some(s) => rfc3339_millis(s@).is_some(),
                    None => false,
                },
        decreases history.vod.len() - i,
    {
        let d = match &history.vod[i].started_at {
            Some(s) => rfc3339_local_text(s.as_str(), "%Y-%m-%d"),
            None => None,
        };
        vod_dates.push(d);
        i += 1;
    }
    let ghost h = history;
    let ghost ld = dates_view(live_dates@);
    let ghost vd = dates_view(vod_dates@);
    let r = select_history(history, &normalized, live_dates.as_slice(), vod_dates.as_slice());
    assert(live_dates_fit(h.live@, ld)) by {
        assert forall|j: int| 0 <= j < h.live@.len() implies (#[trigger] ld[j]).is_some()
            == rfc3339_millis(h.live@[j].started_at@).is_some() by {
            assert(ld[j] == opt_string_view(live_dates@[j]));
        }
    }
    assert(vod_dates_fit(h.vod@, vd)) by {
        assert forall|j: int| 0 <= j < h.vod@.len() implies (#[trigger] vd[j]).is_some() == match h.vod@[j].started_at {
            Some(s) => rfc3339_millis(s@).is_some(),
            None => false,
        } by {
            assert(vd[j] == opt_string_view(vod_dates@[j]));
        }
    }
    assert(history_selected(h, normalized@, ld, vd, r));
    assert(kept_live(h.live@, ld, normalized@) == kept_live(h.live@, ld, normalized@));
    assert(kept_vod(h.vod@, vd, normalized@) == kept_vod(h.vod@, vd, normalized@));
    assert(selected_for_local_dates(h, normalized@, r));
    Ok(r)
}


// ---------------------------------------------------------------------------
// Laws of the history search
// ---------------------------------------------------------------------------

/// A search without a limit shows up to 100 items of each kind; a limit
/// that is given is kept within 1..=500 (0 shows one item, more than 500
/// shows 500).  A filter without date bounds always normalizes.
pub proof fn law_history_limit(f: HistoryFilter, from_valid: bool, to_valid: bool)
    ensures
        f.from is None && f.to is None ==> normalize_outcome(f, from_valid, to_valid) is Ok,
        normalize_outcome(f, from_valid, to_valid) is Ok && f.limit is None ==> normalize_outcome(
            f,
            from_valid,
            to_valid,
        )->Ok_0.limit == 100,
        normalize_outcome(f, from_valid, to_valid) is Ok && f.limit == Some(0usize) ==> normalize_outcome(
            f,
            from_valid,
            to_valid,
        )->Ok_0.limit == 1,
        forall|k: usize|
            1 <= k <= 500 && normalize_outcome(f, from_valid, to_valid) is Ok && f.limit == Some(k)
                ==> #[trigger] normalize_outcome(f, from_valid, to_valid)->Ok_0.limit == k,
        normalize_outcome(f, from_valid, to_valid) is Ok && f.limit is Some && f.limit->Some_0 > 500
            ==> normalize_outcome(f, from_valid, to_valid)->Ok_0.limit == 500,
{
}

/// Keeping the first `limit` items: all of them when there are no more
/// than `limit`, else exactly the first `limit`, in order.
pub proof fn law_first_n_keeps_the_first<T>(s: Seq<T>, limit: usize)
    ensures
        s.len() <= limit ==> first_n(s, limit) == s,
        first_n(s, limit).len() == if s.len() <= limit { s.len() } else { limit as nat },
        forall|i: int| 0 <= i < first_n(s, limit).len() ==> #[trigger] first_n(s, limit)[i] == s[i],
{
}

/// The text search over a LIVE recording looks in every field it shows:
/// the platform name, account, channel name, title, file, reason and
/// status, each lower-cased; a match is a match in one of them, and no
/// needle matches everything.
pub proof fn law_live_search_fields(item: LiveHistoryItem, n: Seq<char>)
    ensures
        live_text_matches(item, None),
        contains(lower_seq(item.platform.spec_name()), n) ==> live_text_matches(item, Some(n)),
        contains(lower_seq(item.account@), n) ==> live_text_matches(item, Some(n)),
        contains(lower_seq(item.channel_name@), n) ==> live_text_matches(item, Some(n)),
        (item.title matches Some(t) && contains(lower_seq(t@), n)) ==> live_text_matches(item, Some(n)),
        (item.file_path matches Some(t) && contains(lower_seq(t@), n)) ==> live_text_matches(item, Some(n)),
        (item.reason matches Some(t) && contains(lower_seq(t@), n)) ==> live_text_matches(item, Some(n)),
        contains(lower_seq(item.status@), n) ==> live_text_matches(item, Some(n)),
        live_text_matches(item, Some(n)) ==> (contains(lower_seq(item.platform.spec_name()), n) || contains(
            lower_seq(item.account@),
            n,
        ) || contains(lower_seq(item.channel_name@), n) || (item.title matches Some(t) && contains(
            lower_seq(t@),
            n,
        )) || (item.file_path matches Some(t) && contains(lower_seq(t@), n)) || (item.reason matches Some(t)
            && contains(lower_seq(t@), n)) || contains(lower_seq(item.status@), n)),
{
}

/// A LIVE recording whose channel name (lower-cased) holds the needle is
/// kept by a search whose statuses and dates it passes.
pub proof fn law_live_found_by_channel_name(item: LiveHistoryItem, f: NormalizedView, local: Option<Seq<char>>)
    requires
        f.needle matches Some(n) && contains(lower_seq(item.channel_name@), n),
        state_wanted(item.status@, f.statuses),
        date_in_range(shown_date(local, item.started_at@), f.from, f.to),
    ensures
        live_kept(item, f, local),
{
}

/// The text search over a VOD job looks in its platform name, kind, URL,
/// title, streamer, output file, message and state, each lower-cased; a
/// match is a match in one of them, and no needle matches everything.
pub proof fn law_vod_search_fields(item: VodHistoryItem, n: Seq<char>)
    ensures
        vod_text_matches(item, None),
        contains(lower_seq(item.platform.spec_name()), n) ==> vod_text_matches(item, Some(n)),
        contains(lower_seq(item.kind@), n) ==> vod_text_matches(item, Some(n)),
        contains(lower_seq(item.vod_url@), n) ==> vod_text_matches(item, Some(n)),
        contains(lower_seq(item.title@), n) ==> vod_text_matches(item, Some(n)),
        contains(lower_seq(item.streamer@), n) ==> vod_text_matches(item, Some(n)),
        (item.output_file matches Some(t) && contains(lower_seq(t@), n)) ==> vod_text_matches(item, Some(n)),
        contains(lower_seq(item.message@), n) ==> vod_text_matches(item, Some(n)),
        contains(lower_seq(item.state@), n) ==> vod_text_matches(item, Some(n)),
        vod_text_matches(item, Some(n)) ==> (contains(lower_seq(item.platform.spec_name()), n) || contains(
            lower_seq(item.kind@),
            n,
        ) || contains(lower_seq(item.vod_url@), n) || contains(lower_seq(item.title@), n) || contains(
            lower_seq(item.streamer@),
            n,
        ) || (item.output_file matches Some(t) && contains(lower_seq(t@), n)) || contains(
            lower_seq(item.message@),
            n,
        ) || contains(lower_seq(item.state@), n)),
{
}


/// Date bounds are inclusive and apply only when given: a date equal to
/// both bounds is in range, a date before `from` or after `to` is not.
pub proof fn law_date_range(date: Seq<char>, from: Seq<char>, to: Seq<char>, other: Option<Seq<char>>)
    ensures
        date_in_range(date, None, None),
        date_in_range(date, Some(date), Some(date)),
        text_lt(date, from) ==> !date_in_range(date, Some(from), other),
        text_lt(to, date) ==> !date_in_range(date, other, Some(to)),
{
    crate::text::lemma_text_lt_asymmetric(date, date);
}

/// An absent or blank query keeps every item; any other query is searched
/// for trimmed and without upper-case ASCII letters, so the search ignores
/// case.
pub proof fn law_search_query(q: Option<String>, live: LiveHistoryItem, vod: VodHistoryItem)
    ensures
        (q is None || trim(q->Some_0@).len() == 0) ==> needle_of(q) is None,
        needle_of(q) is None ==> live_text_matches(live, needle_of(q)) && vod_text_matches(vod, needle_of(q)),
        needle_of(q) matches Some(n) ==> (n.len() == trim(q->Some_0@).len() && n.len() > 0),
        needle_of(q) matches Some(n) ==> forall|i: int| 0 <= i < n.len() ==> !('A' <= #[trigger] n[i] && n[i] <= 'Z'),
        needle_of(q) matches Some(n) ==> forall|i: int|
            0 <= i < n.len() ==> crate::text::lower(#[trigger] trim(q->Some_0@)[i]) == n[i],
{
    if let Some(n) = needle_of(q) {
        let t = trim(q->Some_0@);
        assert forall|i: int| 0 <= i < n.len() implies !('A' <= #[trigger] n[i] && n[i] <= 'Z') by {
            assert(n[i] == crate::text::lower(t[i]));
        }
    }
}

/// Statuses are compared ignoring case: a state that equals a wanted one
/// is wanted, two states that differ only in case are wanted alike, and
/// without a status filter every state is wanted.
pub proof fn law_status_filter(actual: Seq<char>, same: Seq<char>, wanted: Seq<Seq<char>>, i: int)
    requires
        0 <= i < wanted.len(),
    ensures
        state_wanted(actual, None),
        wanted[i] == actual ==> status_wanted(actual, wanted),
        eq_ignore_case(actual, same) ==> (status_wanted(actual, wanted) == status_wanted(same, wanted)),
{
    if wanted[i] == actual {
        assert(eq_ignore_case(actual, wanted[i]));
    }
}

} // verus!
