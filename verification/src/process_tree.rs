//! The processes that belong to a recording's process tree, computed from
//! a snapshot of the system's processes: each entry is a process id and
//! the id of its parent.
use vstd::prelude::*;
use vstd::set_lib::lemma_len_subset;

verus! {

broadcast use vstd::seq_lib::seq_to_set_is_finite;

/// `child` was started by `parent` according to the snapshot.
pub open spec fn started_by(entries: Seq<(u32, u32)>, parent: u32, child: u32) -> bool {
    exists|i: int| 0 <= i < entries.len() && #[trigger] entries[i] == (child, parent)
}

/// The process is in the snapshot.
pub open spec fn present(entries: Seq<(u32, u32)>, pid: u32) -> bool {
    exists|i: int| 0 <= i < entries.len() && #[trigger] entries[i].0 == pid
}

/// Each process of the chain was started by the one before it.
pub open spec fn is_chain(entries: Seq<(u32, u32)>, chain: Seq<u32>) -> bool {
    forall|i: int| 0 <= i < chain.len() - 1 ==> started_by(entries, #[trigger] chain[i], chain[i + 1])
}

/// A chain of parents leads from `root` to `pid`.
pub open spec fn descends(entries: Seq<(u32, u32)>, root: u32, pid: u32) -> bool {
    exists|chain: Seq<u32>| chain.len() >= 1 && chain[0] == root && chain.last() == pid && #[trigger] is_chain(entries, chain)
}

proof fn lemma_distinct_bound(s: Seq<u32>, t: Seq<u32>)
    requires
        s.no_duplicates(),
        forall|i: int| 0 <= i < s.len() ==> t.contains(#[trigger] s[i]),
    ensures
        s.len() <= t.len(),
{
    s.unique_seq_to_set();
    t.lemma_cardinality_of_set();
    assert(s.to_set().subset_of(t.to_set())) by {
        assert forall|x: u32| s.to_set().contains(x) implies t.to_set().contains(x) by {
            let i = choose|i: int| 0 <= i < s.len() && s[i] == x;
            assert(t.contains(s[i]));
        }
    }
    lemma_len_subset(s.to_set(), t.to_set());
}

/// Every process that descends from one in the list is in the list, when
/// the list holds the root and the children of each of its members.
proof fn lemma_closed_holds_descendants(entries: Seq<(u32, u32)>, queue: Seq<u32>, chain: Seq<u32>, m: int)
    requires
        0 <= m < chain.len(),
        queue.contains(chain[0]),
        is_chain(entries, chain),
        forall|k: int, i: int|
            0 <= k < queue.len() && 0 <= i < entries.len() && #[trigger] entries[i].1 == #[trigger] queue[k]
                ==> queue.contains(entries[i].0),
    ensures
        queue.contains(chain[m]),
    decreases m,
{
    if m > 0 {
        lemma_closed_holds_descendants(entries, queue, chain, m - 1);
        assert(started_by(entries, chain[m - 1], chain[m]));
        let i = choose|i: int| 0 <= i < entries.len() && #[trigger] entries[i] == (chain[m], chain[m - 1]);
        let k = choose|k: int| 0 <= k < queue.len() && queue[k] == chain[m - 1];
        assert(entries[i].1 == queue[k]);
    }
}

fn in_list(v: &Vec<u32>, x: u32) -> (r: bool)
    ensures
        r == v@.contains(x),
{
    let mut i: usize = 0;
    while i < v.len()
        invariant
            i <= v.len(),
            forall|j: int| 0 <= j < i ==> v@[j] != x,
        decreases v.len() - i,
    {
        if v[i] == x {
            return true;
        }
        i += 1;
    }
    false
}

fn is_present(entries: &[(u32, u32)], pid: u32) -> (r: bool)
    ensures
        r == present(entries@, pid),
{
    let mut i: usize = 0;
    while i < entries.len()
        invariant
            i <= entries.len(),
            forall|j: int| 0 <= j < i ==> entries@[j].0 != pid,
        decreases entries.len() - i,
    {
        if entries[i].0 == pid {
            return true;
        }
        i += 1;
    }
    false
}

/// The processes of the tree rooted at `root`: every process of the
/// snapshot that descends from it, the root itself when it is in the
/// snapshot, each once.
#[verifier::spinoff_prover]
pub fn process_tree_pids(entries: &[(u32, u32)], root: u32) -> (r: Vec<u32>)
    ensures
        r@.no_duplicates(),
        forall|pid: u32| r@.contains(pid) <==> (present(entries@, pid) && descends(entries@, root, pid)),
{
    let ghost es = entries@;
    let ghost t = seq![root] + es.map_values(|e: (u32, u32)| e.0);
    let mut queue: Vec<u32> = vec![root];
    proof {
        let chain = seq![root];
        assert(is_chain(es, chain));
        assert(t[0] == root);
    }
    let mut head: usize = 0;
    while head < queue.len()
        invariant
            es == entries@,
            t == seq![root] + es.map_values(|e: (u32, u32)| e.0),
            head <= queue.len(),
            queue.len() <= t.len(),
            queue@.len() >= 1,
            queue@[0] == root,
            queue@.no_duplicates(),
            forall|k: int| 0 <= k < queue@.len() ==> t.contains(#[trigger] queue@[k]),
            forall|k: int| 0 <= k < queue@.len() ==> descends(es, root, #[trigger] queue@[k]),
            forall|k: int, i: int|
                0 <= k < head && 0 <= i < es.len() && #[trigger] es[i].1 == #[trigger] queue@[k] ==> queue@.contains(
                    es[i].0,
                ),
        decreases t.len() - head,
    {
        let pid = queue[head];
        let mut j: usize = 0;
        while j < entries.len()
            invariant
                es == entries@,
                t == seq![root] + es.map_values(|e: (u32, u32)| e.0),
                head < queue.len(),
                pid == queue@[head as int],
                j <= entries.len(),
                queue.len() <= t.len(),
                queue@.len() >= 1,
                queue@[0] == root,
                queue@.no_duplicates(),
                forall|k: int| 0 <= k < queue@.len() ==> t.contains(#[trigger] queue@[k]),
                forall|k: int| 0 <= k < queue@.len() ==> descends(es, root, #[trigger] queue@[k]),
                forall|k: int, i: int|
                    0 <= k < head && 0 <= i < es.len() && #[trigger] es[i].1 == #[trigger] queue@[k] ==> queue@.contains(
                        es[i].0,
                    ),
                forall|i: int| 0 <= i < j && #[trigger] es[i].1 == pid ==> queue@.contains(es[i].0),
            decreases entries.len() - j,
        {
            let (child, parent) = entries[j];
            if parent == pid && !in_list(&queue, child) {
                let ghost before = queue@;
                proof {
                    let k = head as int;
                    assert(descends(es, root, before[k]));
                    let chain = choose|chain: Seq<u32>|
                        chain.len() >= 1 && chain[0] == root && chain.last() == pid && #[trigger] is_chain(es, chain);
                    let longer = chain.push(child);
                    assert(started_by(es, pid, child)) by {
                        assert(es[j as int] == (child, pid));
                    }
                    assert forall|i: int| 0 <= i < longer.len() - 1 implies started_by(es, #[trigger] longer[i], longer[i + 1]) by {
                        if i < chain.len() - 1 {
                            assert(longer[i] == chain[i] && longer[i + 1] == chain[i + 1]);
                        } else {
                            assert(longer[i] == pid && longer[i + 1] == child);
                        }
                    }
                    assert(is_chain(es, longer));
                    assert(descends(es, root, child));
                    assert(t[j + 1] == child);
                }
                queue.push(child);
                proof {
                    let q = queue@;
                    assert(q == before.push(child));
                    assert(q.no_duplicates()) by {
                        assert forall|a: int, b: int| 0 <= a < b < q.len() implies q[a] != q[b] by {
                            if b == q.len() - 1 {
                                assert(before.contains(before[a]));
                            }
                        }
                    }
                    assert forall|k: int| 0 <= k < q.len() implies t.contains(#[trigger] q[k]) by {
                        if k < before.len() {
                            assert(q[k] == before[k]);
                        } else {
                            assert(t[j + 1] == child);
                        }
                    }
                    lemma_distinct_bound(q, t);
                    assert forall|k: int, i: int|
                        0 <= k < head && 0 <= i < es.len() && #[trigger] es[i].1 == #[trigger] q[k] implies q.contains(
                            es[i].0,
                        ) by {
                        assert(q[k] == before[k]);
                        assert(before.contains(es[i].0));
                        let x = choose|x: int| 0 <= x < before.len() && before[x] == es[i].0;
                        assert(q[x] == es[i].0);
                    }
                    assert forall|i: int| 0 <= i < j + 1 && #[trigger] es[i].1 == pid implies q.contains(es[i].0) by {
                        if i < j {
                            let x = choose|x: int| 0 <= x < before.len() && before[x] == es[i].0;
                            assert(q[x] == es[i].0);
                        } else {
                            assert(q[q.len() - 1] == child);
                        }
                    }
                }
            }
            j += 1;
        }
        proof {
            assert forall|k: int, i: int|
                0 <= k < head + 1 && 0 <= i < es.len() && #[trigger] es[i].1 == #[trigger] queue@[k] implies queue@.contains(
                    es[i].0,
                ) by {
                if k == head {
                    assert(es[i].1 == pid);
                }
            }
        }
        head += 1;
    }
    let mut r: Vec<u32> = Vec::new();
    let mut k: usize = 0;
    while k < queue.len()
        invariant
            es == entries@,
            k <= queue.len(),
            queue@.no_duplicates(),
            r@.no_duplicates(),
            forall|x: u32| #[trigger] r@.contains(x) ==> present(es, x) && exists|y: int| 0 <= y < k && queue@[y] == x,
            forall|y: int| 0 <= y < k && present(es, #[trigger] queue@[y]) ==> r@.contains(queue@[y]),
            queue@.len() >= 1,
            queue@[0] == root,
            forall|y: int| 0 <= y < queue@.len() ==> descends(es, root, #[trigger] queue@[y]),
            forall|y: int, i: int|
                0 <= y < queue@.len() && 0 <= i < es.len() && #[trigger] es[i].1 == #[trigger] queue@[y] ==> queue@.contains(
                    es[i].0,
                ),
        decreases queue.len() - k,
    {
        let pid = queue[k];
        let ghost before = r@;
        if is_present(entries, pid) {
            proof {
                assert(!before.contains(pid)) by {
                    if before.contains(pid) {
                        let y = choose|y: int| 0 <= y < k && queue@[y] == pid;
                        assert(queue@[y] == queue@[k as int]);
                    }
                }
            }
            r.push(pid);
            proof {
                assert(r@ == before.push(pid));
                assert forall|a: int, b: int| 0 <= a < b < r@.len() implies r@[a] != r@[b] by {
                    if b == r@.len() - 1 {
                        assert(before.contains(before[a]));
                    }
                }
                assert forall|x: u32| #[trigger] r@.contains(x) implies present(es, x) && exists|y: int| 0 <= y < k + 1 && queue@[y] == x by {
                    if x == pid {
                        assert(queue@[k as int] == x);
                    } else {
                        let z = choose|z: int| 0 <= z < r@.len() && r@[z] == x;
                        assert(before[z] == x);
                        assert(before.contains(x));
                    }
                }
                assert forall|y: int| 0 <= y < k + 1 && present(es, #[trigger] queue@[y]) implies r@.contains(queue@[y]) by {
                    if y < k {
                        assert(before.contains(queue@[y]));
                        let z = choose|z: int| 0 <= z < before.len() && before[z] == queue@[y];
                        assert(r@[z] == queue@[y]);
                    } else {
                        assert(r@[r@.len() - 1] == pid);
                    }
                }
            }
        }
        k += 1;
    }
    proof {
        assert forall|pid: u32| r@.contains(pid) <==> (present(es, pid) && descends(es, root, pid)) by {
            if r@.contains(pid) {
                let y = choose|y: int| 0 <= y < queue@.len() && queue@[y] == pid;
                assert(descends(es, root, queue@[y]));
            }
            if present(es, pid) && descends(es, root, pid) {
                let chain = choose|chain: Seq<u32>|
                    chain.len() >= 1 && chain[0] == root && chain.last() == pid && #[trigger] is_chain(es, chain);
                assert(queue@.contains(chain[0])) by {
                    assert(queue@[0] == root);
                }
                lemma_closed_holds_descendants(es, queue@, chain, chain.len() - 1);
                let y = choose|y: int| 0 <= y < queue@.len() && queue@[y] == pid;
                assert(present(es, queue@[y]));
            }
        }
    }
    r
}


/// Seconds from 1601-01-01 (where Windows counts from) to 1970-01-01.
pub const WINDOWS_UNIX_EPOCH_DELTA_SECONDS: u64 = 11_644_473_600;

/// Windows counts time in ticks of 100 ns.
pub const FILETIME_TICKS_PER_SECOND: u64 = 10_000_000;

/// A moment since 1970 (whole seconds and the nanoseconds beyond) in
/// Windows ticks since 1601; `None` when the seconds overflow.
pub open spec fn filetime_ticks_spec(unix_secs: u64, subsec_nanos: u32) -> Option<u64> {
    let s = unix_secs + WINDOWS_UNIX_EPOCH_DELTA_SECONDS;
    if s > u64::MAX || s * FILETIME_TICKS_PER_SECOND > u64::MAX {
        None
    } else {
        Some((s * FILETIME_TICKS_PER_SECOND + subsec_nanos / 100) as u64)
    }
}

pub fn filetime_ticks(unix_secs: u64, subsec_nanos: u32) -> (r: Option<u64>)
    requires
        (unix_secs + WINDOWS_UNIX_EPOCH_DELTA_SECONDS) * FILETIME_TICKS_PER_SECOND <= u64::MAX ==> (unix_secs
            + WINDOWS_UNIX_EPOCH_DELTA_SECONDS) * FILETIME_TICKS_PER_SECOND + subsec_nanos / 100 <= u64::MAX,
    ensures
        r == filetime_ticks_spec(unix_secs, subsec_nanos),
{
    let seconds = match unix_secs.checked_add(WINDOWS_UNIX_EPOCH_DELTA_SECONDS) {
        Some(s) => s,
        None => return None,
    };
    let whole = match seconds.checked_mul(FILETIME_TICKS_PER_SECOND) {
        Some(w) => w,
        None => return None,
    };
    Some(whole + (subsec_nanos as u64) / 100)
}

/// A process belongs to a snapshot when it was created no later than the
/// moment taken just before it; a newer one reuses an id.
pub fn belongs_to_snapshot(creation_time: u64, cutoff: u64) -> (r: bool)
    ensures
        r == (creation_time <= cutoff),
{
    creation_time <= cutoff
}

} // verus!
