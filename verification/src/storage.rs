//! Byte counts as the storage view shows them (`640.0 GiB`, `2.00 TiB`).
//! The numbers are what Rust's float formatting prints for the count
//! converted to `f64`: the conversion rounds to 53 significant bits and
//! the printing rounds the exact binary value to the shown places, ties to
//! even.  Both are done here in integers.
use crate::text::{
    decimal, format_u64, push_str, string_of, lower_seq, text_lt, str_lt, str_eq, to_lower, owned,
    lemma_text_lt_asymmetric, lemma_text_lt_transitive, lemma_text_lt_total,
};
use crate::tools::texts_view;
use vstd::prelude::*;

verus! {

/// How many low bits `u64 as f64` drops from `n`.
pub open spec fn dropped_bits(n: nat) -> nat
    decreases n,
{
    if n < 0x20_0000_0000_0000 {
        0
    } else {
        1 + dropped_bits(n / 2)
    }
}

/// `q` or `q + 1`, whichever the remainder `r` of a division by `d`
/// rounds to, ties to the even one.
pub open spec fn round_half_even(q: nat, r: nat, d: nat) -> nat {
    if 2 * r > d || (2 * r == d && q % 2 == 1) {
        q + 1
    } else {
        q
    }
}

/// `2^e`.
pub open spec fn two_to(e: nat) -> nat
    decreases e,
{
    if e == 0 {
        1
    } else {
        2 * two_to((e - 1) as nat)
    }
}

/// `n as f64`, as an integer: `n` rounded to 53 significant bits.
pub open spec fn as_f64(n: nat) -> nat {
    let p = two_to(dropped_bits(n));
    round_half_even(n / p, n % p, p) * p
}

/// `n` written with at least `width` digits.
pub open spec fn padded(n: nat, width: nat) -> Seq<char> {
    let d = decimal(n);
    if d.len() >= width {
        d
    } else {
        Seq::new((width - d.len()) as nat, |i: int| '0') + d
    }
}

pub open spec fn ten_to(places: nat) -> nat {
    if places == 1 {
        10
    } else {
        100
    }
}

/// `v / unit` printed with `places` decimals (one or two), ties to even.
pub open spec fn fixed(v: nat, unit: nat, places: nat) -> Seq<char> {
    let scale = ten_to(places);
    let q = round_half_even((v * scale) / unit, (v * scale) % unit, unit);
    decimal(q / scale) + seq!['.'] + padded(q % scale, places)
}

pub open spec fn compact_spec(bytes: u64) -> Seq<char> {
    let v = as_f64(bytes as nat);
    if v >= 0x100_0000_0000 {
        fixed(v, 0x100_0000_0000, 2) + " TiB"@
    } else if v >= 0x4000_0000 {
        fixed(v, 0x4000_0000, 1) + " GiB"@
    } else if v >= 0x10_0000 {
        fixed(v, 0x10_0000, 1) + " MiB"@
    } else if v >= 0x400 {
        fixed(v, 0x400, 1) + " KiB"@
    } else {
        decimal(bytes as nat) + " B"@
    }
}

fn to_f64_value(n: u64) -> (v: u128)
    ensures
        v == as_f64(n as nat),
        v <= 0x2_0000_0000_0000_0000,
{
    let ghost mut e: nat = 0;
    let mut p: u64 = 1;
    let mut m: u64 = n;
    while m >= 0x20_0000_0000_0000
        invariant
            1 <= p <= 0x1000,
            p as nat == two_to(e),
            m as nat == (n as nat) / (p as nat),
            dropped_bits(n as nat) == e + dropped_bits(m as nat),
        decreases m,
    {
        proof {
            vstd::arithmetic::div_mod::lemma_div_denominator(n as int, p as int, 2);
            vstd::arithmetic::div_mod::lemma_fundamental_div_mod(n as int, p as int);
            assert(p * 0x20_0000_0000_0000 <= n as int) by (nonlinear_arith)
                requires
                    m >= 0x20_0000_0000_0000,
                    n as int == p * m + (n as int) % (p as int),
                    (n as int) % (p as int) >= 0,
                    p >= 1,
            ;
        }
        m = m / 2;
        p = p * 2;
        proof {
            e = e + 1;
        }
    }
    let r: u64 = n % p;
    let q: u64 = n / p;
    assert(r < p);
    assert(q == m);
    assert(q < 0x20_0000_0000_0000);
    let q2: u64 = if 2 * (r as u128) > p as u128 || (2 * (r as u128) == p as u128 && q % 2 == 1) {
        q + 1
    } else {
        q
    };
    proof {
        assert(q2 * p <= 0x2_0000_0000_0000_0000) by (nonlinear_arith)
            requires
                q2 <= 0x20_0000_0000_0000,
                p <= 0x1000,
        ;
    }
    let v: u128 = (q2 as u128) * (p as u128);
    v
}

fn push_fixed(out: &mut Vec<char>, v: u128, unit: u128, places: u64)
    requires
        v <= 0x2_0000_0000_0000_0000,
        0x400 <= unit <= 0x100_0000_0000,
        places == 1 || places == 2,
    ensures
        final(out)@ == old(out)@ + fixed(v as nat, unit as nat, places as nat),
{
    let scale: u128 = if places == 1 {
        10
    } else {
        100
    };
    let num: u128 = v * scale;
    let q: u128 = num / unit;
    let r: u128 = num % unit;
    assert(r < unit);
    proof {
        assert(q <= 0x1_0000_0000_0000_0000) by (nonlinear_arith)
            requires
                q == num / unit,
                num <= 0x2_0000_0000_0000_0000 * 100,
                unit >= 0x400,
        ;
    }
    let q2: u128 = if 2 * r > unit || (2 * r == unit && q % 2 == 1) {
        q + 1
    } else {
        q
    };
    let whole: u64 = (q2 / scale) as u64;
    let frac: u64 = (q2 % scale) as u64;
    let w = format_u64(whole);
    push_str(out, w.as_str());
    out.push('.');
    let f = format_u64(frac);
    if places == 2 && frac < 10 {
        out.push('0');
        proof {
            assert(decimal(frac as nat).len() == 1) by {
                reveal_with_fuel(decimal, 2);
            }
        }
    }
    push_str(out, f.as_str());
    proof {
        if places == 1 || frac >= 10 {
            assert(decimal(frac as nat).len() >= places) by {
                reveal_with_fuel(decimal, 3);
            }
        }
        assert(final(out)@ =~= old(out)@ + fixed(v as nat, unit as nat, places as nat));
    }
}

/// A byte count in the largest unit it reaches (`B`, `KiB`, `MiB`, `GiB`
/// with one decimal, `TiB` with two).
pub fn format_bytes_compact(bytes: u64) -> (r: String)
    ensures
        r@ == compact_spec(bytes),
{
    let v = to_f64_value(bytes);
    let mut out: Vec<char> = Vec::new();
    if v >= 0x100_0000_0000 {
        push_fixed(&mut out, v, 0x100_0000_0000, 2);
        push_str(&mut out, " TiB");
    } else if v >= 0x4000_0000 {
        push_fixed(&mut out, v, 0x4000_0000, 1);
        push_str(&mut out, " GiB");
    } else if v >= 0x10_0000 {
        push_fixed(&mut out, v, 0x10_0000, 1);
        push_str(&mut out, " MiB");
    } else if v >= 0x400 {
        push_fixed(&mut out, v, 0x400, 1);
        push_str(&mut out, " KiB");
    } else {
        let d = format_u64(bytes);
        push_str(&mut out, d.as_str());
        push_str(&mut out, " B");
    }
    string_of(out.as_slice())
}

/// How full a volume is: critical at or below the threshold, a warning at
/// or below twice the threshold (saturating), fine above it.
pub open spec fn status_spec(free_bytes: u64, threshold_bytes: u64) -> Seq<char> {
    let twice = if 2 * threshold_bytes > u64::MAX { u64::MAX as int } else { 2 * threshold_bytes };
    if free_bytes <= threshold_bytes {
        "CRITICAL"@
    } else if free_bytes <= twice {
        "WARN"@
    } else {
        "OK"@
    }
}

/// The status of a volume with `free_bytes` free, for a threshold given in
/// bytes (the caller converts the configured GiB).
pub fn classify_status(free_bytes: u64, threshold_bytes: u64) -> (r: &'static str)
    ensures
        r@ == status_spec(free_bytes, threshold_bytes),
{
    let twice: u64 = if threshold_bytes > u64::MAX / 2 { u64::MAX } else { threshold_bytes * 2 };
    if free_bytes <= threshold_bytes {
        "CRITICAL"
    } else if free_bytes <= twice {
        "WARN"
    } else {
        "OK"
    }
}

// ---------------------------------------------------------------------------
// Grouping storage targets by volume
// ---------------------------------------------------------------------------

/// The volume a storage target lies on: its key (the first component of
/// the nearest existing path, lower-cased, as the runtime computes it), the
/// path that was probed, and its space.
#[derive(Debug, Clone)]
pub struct VolumeFacts {
    pub key: String,
    pub probe_path: String,
    pub total_bytes: u64,
    pub free_bytes: u64,
}

/// A storage target (its role and path) and what probing it gave.
#[derive(Debug)]
pub struct VolumeProbe {
    pub role: String,
    pub path: String,
    pub outcome: Result<VolumeFacts, String>,
}

/// Targets shown together: the roles and paths on one volume, and the
/// index of the target whose probe the group shows.
#[derive(Debug, Clone)]
pub struct VolumeGroup {
    pub key: String,
    pub roles: Vec<String>,
    pub paths: Vec<String>,
    pub origin: usize,
}

/// The group key of a target: its volume key, or `error:` and its
/// lower-cased path when probing failed.
pub open spec fn probe_key(t: VolumeProbe) -> Seq<char> {
    match t.outcome {
        Ok(f) => f.key@,
        Err(_) => "error:"@ + lower_seq(t.path@),
    }
}

pub open spec fn add_unique(s: Seq<Seq<char>>, x: Seq<char>) -> Seq<Seq<char>> {
    if s.contains(x) {
        s
    } else {
        s.push(x)
    }
}

/// The groups after the first `n` targets, by key: a target on a volume
/// already listed adds its role and path (once each); any other target, and
/// every failed one, starts the group of its key afresh.
pub open spec fn grouped(ts: Seq<VolumeProbe>, n: int) -> Map<Seq<char>, (Seq<Seq<char>>, Seq<Seq<char>>, int)>
    decreases n,
{
    if n <= 0 {
        Map::empty()
    } else {
        let m = grouped(ts, n - 1);
        let t = ts[n - 1];
        let k = probe_key(t);
        if t.outcome is Ok && m.contains_key(k) {
            m.insert(k, (add_unique(m[k].0, t.role@), add_unique(m[k].1, t.path@), m[k].2))
        } else {
            m.insert(k, (seq![t.role@], seq![t.path@], n - 1))
        }
    }
}

pub open spec fn group_view(g: VolumeGroup) -> (Seq<Seq<char>>, Seq<Seq<char>>, int) {
    (texts_view(g.roles@), texts_view(g.paths@), g.origin as int)
}

pub open spec fn lists_key(out: Seq<VolumeGroup>, k: Seq<char>) -> bool {
    exists|i: int| 0 <= i < out.len() && (#[trigger] out[i]).key@ == k
}

/// `out` lists the groups of `m` in key order.
pub open spec fn groups_in_order(out: Seq<VolumeGroup>, m: Map<Seq<char>, (Seq<Seq<char>>, Seq<Seq<char>>, int)>) -> bool {
    &&& forall|i: int, j: int| 0 <= i < j < out.len() ==> text_lt(#[trigger] out[i].key@, #[trigger] out[j].key@)
    &&& forall|i: int| 0 <= i < out.len() ==> m.contains_key((#[trigger] out[i]).key@) && m[out[i].key@] == group_view(out[i])
    &&& forall|k: Seq<char>| #[trigger] m.contains_key(k) ==> lists_key(out, k)
}

fn add_unique_vec(v: &mut Vec<String>, x: &str)
    ensures
        texts_view(final(v)@) == add_unique(texts_view(old(v)@), x@),
{
    let ghost before = texts_view(v@);
    let mut i: usize = 0;
    while i < v.len()
        invariant
            i <= v.len(),
            before == texts_view(v@),
            forall|j: int| 0 <= j < i ==> before[j] != x@,
        decreases v.len() - i,
    {
        if str_eq(v[i].as_str(), x) {
            assert(before[i as int] == x@);
            return;
        }
        i += 1;
    }
    v.push(owned(x));
    assert(texts_view(v@) =~= before.push(x@));
}

fn key_of(t: &VolumeProbe) -> (r: String)
    ensures
        r@ == probe_key(*t),
{
    match &t.outcome {
        Ok(f) => owned(f.key.as_str()),
        Err(_) => {
            let mut v: Vec<char> = Vec::new();
            push_str(&mut v, "error:");
            push_str(&mut v, to_lower(t.path.as_str()).as_str());
            string_of(v.as_slice())
        },
    }
}

proof fn lemma_irreflexive(a: Seq<char>)
    ensures
        !text_lt(a, a),
{
    lemma_text_lt_asymmetric(a, a);
}

/// Replacing the group of a listed key keeps the listing in order.
proof fn lemma_replace_group(
    before: Seq<VolumeGroup>,
    p: int,
    g: VolumeGroup,
    m: Map<Seq<char>, (Seq<Seq<char>>, Seq<Seq<char>>, int)>,
)
    requires
        groups_in_order(before, m),
        0 <= p < before.len(),
        g.key@ == before[p].key@,
    ensures
        groups_in_order(before.update(p, g), m.insert(g.key@, group_view(g))),
{
    let k = g.key@;
    let s = before.update(p, g);
    let m2 = m.insert(k, group_view(g));
    assert forall|i: int, j: int| 0 <= i < j < s.len() implies text_lt(#[trigger] s[i].key@, #[trigger] s[j].key@) by {
        assert(text_lt(before[i].key@, before[j].key@));
    }
    assert forall|i: int| 0 <= i < s.len() implies m2.contains_key((#[trigger] s[i]).key@) && m2[s[i].key@]
        == group_view(s[i]) by {
        if i != p {
            if i < p {
                assert(text_lt(before[i].key@, before[p].key@));
            } else {
                assert(text_lt(before[p].key@, before[i].key@));
            }
            lemma_irreflexive(k);
            if before[i].key@ == k {
                lemma_irreflexive(before[i].key@);
            }
            assert(before[i].key@ != k);
        }
    }
    assert forall|x: Seq<char>| #[trigger] m2.contains_key(x) implies lists_key(s, x) by {
        if x == k {
            assert(s[p].key@ == x);
        } else {
            assert(m.contains_key(x));
            assert(lists_key(before, x));
            let i = choose|i: int| 0 <= i < before.len() && (#[trigger] before[i]).key@ == x;
            assert(s[i].key@ == x);
        }
    }
}

/// Inserting the group of a new key at its place keeps the listing in
/// order.
proof fn lemma_insert_group(
    before: Seq<VolumeGroup>,
    p: int,
    g: VolumeGroup,
    m: Map<Seq<char>, (Seq<Seq<char>>, Seq<Seq<char>>, int)>,
)
    requires
        groups_in_order(before, m),
        0 <= p <= before.len(),
        forall|j: int| 0 <= j < p ==> text_lt(#[trigger] before[j].key@, g.key@),
        p < before.len() ==> text_lt(g.key@, before[p].key@),
        !m.contains_key(g.key@),
    ensures
        groups_in_order(before.insert(p, g), m.insert(g.key@, group_view(g))),
{
    let k = g.key@;
    let s = before.insert(p, g);
    let m2 = m.insert(k, group_view(g));
    assert forall|i: int, j: int| 0 <= i < j < s.len() implies text_lt(#[trigger] s[i].key@, #[trigger] s[j].key@) by {
        if j < p {
            assert(text_lt(before[i].key@, before[j].key@));
        } else if j == p {
            assert(s[i] == before[i]);
        } else if i < p {
            assert(s[j] == before[j - 1]);
            assert(text_lt(before[i].key@, before[j - 1].key@));
        } else if i == p {
            assert(s[j] == before[j - 1]);
            if j - 1 > p {
                assert(text_lt(before[p].key@, before[j - 1].key@));
                lemma_text_lt_transitive(k, before[p].key@, before[j - 1].key@);
            }
        } else {
            assert(s[i] == before[i - 1]);
            assert(s[j] == before[j - 1]);
            assert(text_lt(before[i - 1].key@, before[j - 1].key@));
        }
    }
    assert forall|i: int| 0 <= i < s.len() implies m2.contains_key((#[trigger] s[i]).key@) && m2[s[i].key@]
        == group_view(s[i]) by {
        if i != p {
            let b = if i < p { before[i] } else { before[i - 1] };
            assert(s[i] == b);
            assert(m.contains_key(b.key@));
        }
    }
    assert forall|x: Seq<char>| #[trigger] m2.contains_key(x) implies lists_key(s, x) by {
        if x == k {
            assert(s[p].key@ == x);
        } else {
            assert(m.contains_key(x));
            assert(lists_key(before, x));
            let i = choose|i: int| 0 <= i < before.len() && (#[trigger] before[i]).key@ == x;
            if i < p {
                assert(s[i].key@ == x);
            } else {
                assert(s[i + 1].key@ == x);
            }
        }
    }
}

/// Groups storage targets by volume, in key order (see `grouped`).
#[verifier::spinoff_prover]
pub fn collapse_volumes(targets: &[VolumeProbe]) -> (r: Vec<VolumeGroup>)
    ensures
        groups_in_order(r@, grouped(targets@, targets@.len() as int)),
{
    let mut out: Vec<VolumeGroup> = Vec::new();
    let mut n: usize = 0;
    assert(groups_in_order(out@, grouped(targets@, 0)));
    while n < targets.len()
        invariant
            n <= targets.len(),
            groups_in_order(out@, grouped(targets@, n as int)),
        decreases targets.len() - n,
    {
        let t = &targets[n];
        let k = key_of(t);
        let ghost m = grouped(targets@, n as int);
        let ghost before = out@;
        let mut p: usize = 0;
        while p < out.len() && str_lt(out[p].key.as_str(), k.as_str())
            invariant
                p <= out.len(),
                out@ == before,
                forall|j: int| 0 <= j < p ==> text_lt(#[trigger] out@[j].key@, k@),
            decreases out.len() - p,
        {
            p += 1;
        }
        let found = p < out.len() && str_eq(out[p].key.as_str(), k.as_str());
        let is_ok = t.outcome.is_ok();
        assert(grouped(targets@, n + 1) == {
            let t = targets@[n as int];
            if t.outcome is Ok && m.contains_key(k@) {
                m.insert(k@, (add_unique(m[k@].0, t.role@), add_unique(m[k@].1, t.path@), m[k@].2))
            } else {
                m.insert(k@, (seq![t.role@], seq![t.path@], n as int))
            }
        });
        proof {
            if found {
                assert(m.contains_key(before[p as int].key@));
            } else {
                if m.contains_key(k@) {
                    assert(lists_key(before, k@));
                    let i = choose|i: int| 0 <= i < before.len() && (#[trigger] before[i]).key@ == k@;
                    if i < p {
                        lemma_irreflexive(k@);
                    } else {
                        assert(!text_lt(before[p as int].key@, k@));
                        if i > p {
                            assert(text_lt(before[p as int].key@, before[i].key@));
                        }
                    }
                }
            }
        }
        if found && is_ok {
            let mut g = out.remove(p);
            assert(g == before[p as int]);
            add_unique_vec(&mut g.roles, t.role.as_str());
            add_unique_vec(&mut g.paths, t.path.as_str());
            out.insert(p, g);
            proof {
                assert(out@ =~= before.update(p as int, g));
                lemma_replace_group(before, p as int, g, m);
            }
        } else {
            let g = VolumeGroup {
                key: k,
                roles: vec![owned(t.role.as_str())],
                paths: vec![owned(t.path.as_str())],
                origin: n,
            };
            assert(texts_view(g.roles@) =~= seq![t.role@]);
            assert(texts_view(g.paths@) =~= seq![t.path@]);
            if found {
                out.set(p, g);
                proof {
                    lemma_replace_group(before, p as int, g, m);
                }
            } else {
                proof {
                    if p < before.len() {
                        assert(!text_lt(before[p as int].key@, g.key@));
                        assert(before[p as int].key@ != g.key@);
                        lemma_text_lt_total(before[p as int].key@, g.key@);
                    }
                }
                out.insert(p, g);
                proof {
                    lemma_insert_group(before, p as int, g, m);
                }
            }
        }
        n += 1;
    }
    assert(targets@.len() == targets.len());
    out
}

pub open spec fn status_rank(status: Seq<char>) -> int {
    if status == "CRITICAL"@ {
        2
    } else if status == "WARN"@ {
        1
    } else {
        0
    }
}

/// More free space never gives a worse status.
pub proof fn law_more_free_space_never_worse(less: u64, more: u64, threshold: u64)
    requires
        less <= more,
    ensures
        status_rank(status_spec(more, threshold)) <= status_rank(status_spec(less, threshold)),
{
    reveal_strlit("CRITICAL");
    reveal_strlit("WARN");
    reveal_strlit("OK");
    assert("CRITICAL"@.len() == 8);
    assert("WARN"@.len() == 4);
    assert("OK"@.len() == 2);
}

/// Every target that was probed is listed under its volume, with its role
/// and its path (unless a later target that failed has a key equal to that
/// volume's, whose group then takes its place).
pub proof fn law_probed_targets_are_listed(ts: Seq<VolumeProbe>, n: int, i: int)
    requires
        0 <= i < n <= ts.len(),
        ts[i].outcome is Ok,
        forall|j: int| i < j < n && (#[trigger] ts[j]).outcome is Err ==> probe_key(ts[j]) != probe_key(ts[i]),
    ensures
        grouped(ts, n).contains_key(probe_key(ts[i])),
        grouped(ts, n)[probe_key(ts[i])].0.contains(ts[i].role@),
        grouped(ts, n)[probe_key(ts[i])].1.contains(ts[i].path@),
    decreases n,
{
    let k = probe_key(ts[i]);
    if n - 1 == i {
        let m = grouped(ts, n - 1);
        if m.contains_key(k) {
            let g = grouped(ts, n)[k];
            assert(add_unique(m[k].0, ts[i].role@).contains(ts[i].role@)) by {
                if !m[k].0.contains(ts[i].role@) {
                    assert(m[k].0.push(ts[i].role@)[m[k].0.len() as int] == ts[i].role@);
                }
            }
            assert(add_unique(m[k].1, ts[i].path@).contains(ts[i].path@)) by {
                if !m[k].1.contains(ts[i].path@) {
                    assert(m[k].1.push(ts[i].path@)[m[k].1.len() as int] == ts[i].path@);
                }
            }
        } else {
            assert(seq![ts[i].role@][0] == ts[i].role@);
            assert(seq![ts[i].path@][0] == ts[i].path@);
        }
    } else {
        law_probed_targets_are_listed(ts, n - 1, i);
        let m = grouped(ts, n - 1);
        let t = ts[n - 1];
        let kt = probe_key(t);
        if kt == k {
            if t.outcome is Ok {
                let r = m[k].0;
                let p = m[k].1;
                let x = choose|x: int| 0 <= x < r.len() && r[x] == ts[i].role@;
                let y = choose|y: int| 0 <= y < p.len() && p[y] == ts[i].path@;
                if !r.contains(t.role@) {
                    assert(r.push(t.role@)[x] == ts[i].role@);
                }
                if !p.contains(t.path@) {
                    assert(p.push(t.path@)[y] == ts[i].path@);
                }
            } else {
                assert(ts[n - 1].outcome is Err);
            }
        }
    }
}

} // verus!
