//! The timeline grouped by file: one group per touched file, ordered by the
//! most recent change (the events come newest-first), with the file's edits
//! newest-first inside it and their line counts rolled up. The list shows
//! every file header, and the active file's edits nested under its header.

use vstd::prelude::*;
use crate::model::{ChangeEvent, ChangeTool};

verus! {

/// One file's worth of changes, newest-first, with rolled-up line counts.
#[derive(Debug, Clone)]
pub struct FileGroup {
    pub file: String,
    /// Indices into the events, newest-first.
    pub event_idxs: Vec<usize>,
    pub add: u32,
    pub del: u32,
    /// A single `Write`: a new file.
    pub is_new: bool,
}

/// A row of the list: a file header (always shown) or an edit row (shown
/// only under the active file).
#[derive(Debug, Clone, Copy, PartialEq, Eq, Structural)]
pub enum VisibleRow {
    Header { group: usize },
    Edit { event: usize },
}

/// The `(added, removed)` count of event `i`; none when `counts` has no entry.
pub open spec fn count_at(counts: Seq<(u32, u32)>, i: int) -> (u32, u32) {
    if 0 <= i < counts.len() { counts[i] } else { (0, 0) }
}

/// The indices below `n` of the events on file `f`, in order.
pub open spec fn indices_of(evs: Seq<ChangeEvent>, f: Seq<char>, n: nat) -> Seq<usize>
    decreases n,
{
    if n == 0 {
        Seq::empty()
    } else {
        indices_of(evs, f, (n - 1) as nat) + if evs[n - 1].file_path@ == f {
            seq![(n - 1) as usize]
        } else {
            Seq::empty()
        }
    }
}

/// One side of a count: removed lines when `removed`, added lines otherwise.
pub open spec fn side(c: (u32, u32), removed: bool) -> nat {
    if removed { c.1 as nat } else { c.0 as nat }
}

/// One side of the counts summed over the events at `idxs`.
pub open spec fn sum_counts(counts: Seq<(u32, u32)>, idxs: Seq<usize>, removed: bool) -> nat
    decreases idxs.len(),
{
    if idxs.len() == 0 {
        0
    } else {
        sum_counts(counts, idxs.drop_last(), removed) + side(count_at(counts, idxs.last() as int), removed)
    }
}

/// Added lines summed over the events at `idxs`.
pub open spec fn sum_added(counts: Seq<(u32, u32)>, idxs: Seq<usize>) -> nat {
    sum_counts(counts, idxs, false)
}

/// Removed lines summed over the events at `idxs`.
pub open spec fn sum_removed(counts: Seq<(u32, u32)>, idxs: Seq<usize>) -> nat {
    sum_counts(counts, idxs, true)
}

/// Every index below `n`, in order.
pub open spec fn all_indices(n: nat) -> Seq<usize> {
    Seq::new(n, |i: int| i as usize)
}

/// The distinct files of the first `n` events, in order of first appearance.
pub open spec fn files_seen(evs: Seq<ChangeEvent>, n: nat) -> Seq<Seq<char>>
    decreases n,
{
    if n == 0 {
        Seq::empty()
    } else {
        let p = files_seen(evs, (n - 1) as nat);
        let f = evs[n - 1].file_path@;
        if p.contains(f) { p } else { p.push(f) }
    }
}

/// Group `g` is the group of file `f`: all of its events in order, their
/// summed counts, and the new-file tag exactly for a single `Write`.
pub open spec fn is_group_of(g: FileGroup, evs: Seq<ChangeEvent>, counts: Seq<(u32, u32)>, f: Seq<char>) -> bool {
    let idxs = indices_of(evs, f, evs.len());
    &&& g.file@ == f
    &&& g.event_idxs@ == idxs
    &&& g.add == sum_added(counts, idxs)
    &&& g.del == sum_removed(counts, idxs)
    &&& g.is_new == (idxs.len() == 1 && evs[idxs[0] as int].tool == ChangeTool::Write)
}

/// A group carries the ` new` tag exactly when it holds one change and that
/// change is a whole-file write.
pub proof fn law_new_tag(g: FileGroup, evs: Seq<ChangeEvent>, counts: Seq<(u32, u32)>, f: Seq<char>)
    requires
        is_group_of(g, evs, counts, f),
    ensures
        g.is_new <==> (g.event_idxs@.len() == 1 && evs[g.event_idxs@[0] as int].tool == ChangeTool::Write),
{
}

/// The indices of a file's events are strictly increasing.
pub(crate) proof fn lemma_indices_increasing(evs: Seq<ChangeEvent>, f: Seq<char>, n: nat)
    requires
        n <= evs.len(),
        evs.len() <= usize::MAX,
    ensures
        forall|i: int, j: int|
            0 <= i < j < indices_of(evs, f, n).len() ==> indices_of(evs, f, n)[i] < indices_of(evs, f, n)[j],
    decreases n,
{
    if n > 0 {
        let m = (n - 1) as nat;
        lemma_indices_increasing(evs, f, m);
        lemma_indices_bound(evs, f, m);
        let p = indices_of(evs, f, m);
        let q = indices_of(evs, f, n);
        if evs[m as int].file_path@ == f {
            assert(q =~= p.push(m as usize));
            assert forall|i: int, j: int| 0 <= i < j < q.len() implies q[i] < q[j] by {
                if j == q.len() - 1 {
                    assert(q[i] == p[i]);
                } else {
                    assert(q[i] == p[i] && q[j] == p[j]);
                }
            }
        } else {
            assert(q =~= p);
        }
    }
}

pub(crate) proof fn lemma_indices_bound(evs: Seq<ChangeEvent>, f: Seq<char>, n: nat)
    ensures
        forall|j: int| 0 <= j < indices_of(evs, f, n).len() ==> #[trigger] indices_of(evs, f, n)[j] < n,
        indices_of(evs, f, n).len() <= n,
    decreases n,
{
    if n > 0 {
        lemma_indices_bound(evs, f, (n - 1) as nat);
    }
}

proof fn lemma_sum_push(counts: Seq<(u32, u32)>, idxs: Seq<usize>, x: usize)
    ensures
        sum_added(counts, idxs.push(x)) == sum_added(counts, idxs) + count_at(counts, x as int).0,
        sum_removed(counts, idxs.push(x)) == sum_removed(counts, idxs) + count_at(counts, x as int).1,
        forall|removed: bool| #[trigger] sum_counts(counts, idxs.push(x), removed)
            == sum_counts(counts, idxs, removed) + side(count_at(counts, x as int), removed),
{
    assert(idxs.push(x).drop_last() =~= idxs);
}

/// The sums over one file's events never exceed the sums over all events.
proof fn lemma_sum_within_total(evs: Seq<ChangeEvent>, counts: Seq<(u32, u32)>, f: Seq<char>, n: nat)
    ensures
        sum_added(counts, indices_of(evs, f, n)) <= sum_added(counts, all_indices(n)),
        sum_removed(counts, indices_of(evs, f, n)) <= sum_removed(counts, all_indices(n)),
    decreases n,
{
    if n > 0 {
        let m = (n - 1) as nat;
        lemma_sum_within_total(evs, counts, f, m);
        assert(all_indices(n) =~= all_indices(m).push(m as usize));
        lemma_sum_push(counts, all_indices(m), m as usize);
        if evs[m as int].file_path@ == f {
            assert(indices_of(evs, f, n) =~= indices_of(evs, f, m).push(m as usize));
            lemma_sum_push(counts, indices_of(evs, f, m), m as usize);
        } else {
            assert(indices_of(evs, f, n) =~= indices_of(evs, f, m));
        }
    }
}

/// The summed `(added, removed)` counts of all events: the session totals.
pub fn counts_total(counts: &[(u32, u32)]) -> (res: (u64, u64))
    requires
        counts@.len() <= u32::MAX,
    ensures
        res.0 == sum_added(counts@, all_indices(counts@.len())),
        res.1 == sum_removed(counts@, all_indices(counts@.len())),
{
    let mut a: u64 = 0;
    let mut d: u64 = 0;
    let mut i: usize = 0;
    while i < counts.len()
        invariant
            i <= counts@.len(),
            counts@.len() <= u32::MAX,
            a == sum_added(counts@, all_indices(i as nat)),
            d == sum_removed(counts@, all_indices(i as nat)),
            a <= i * 0xffff_ffff,
            d <= i * 0xffff_ffff,
        decreases counts@.len() - i,
    {
        proof {
            assert(all_indices((i + 1) as nat) =~= all_indices(i as nat).push(i));
            lemma_sum_push(counts@, all_indices(i as nat), i);
            assert(i * 0xffff_ffff + 0xffff_ffff == (i + 1) * 0xffff_ffff) by (nonlinear_arith);
            assert((i + 1) * 0xffff_ffff <= 0x1_0000_0000 * 0xffff_ffff) by (nonlinear_arith)
                requires
                    i + 1 <= 0x1_0000_0000,
            ;
        }
        let (x, y) = counts[i];
        a = a + x as u64;
        d = d + y as u64;
        i = i + 1;
    }
    (a, d)
}

/// Whether the file of `evs[i]` equals one of `files`.
fn seen_before(files: &Vec<String>, f: &String) -> (res: bool)
    ensures
        res == files@.map_values(|s: String| s@).contains(f@),
{
    let mut k: usize = 0;
    while k < files.len()
        invariant
            k <= files@.len(),
            forall|j: int| 0 <= j < k ==> files@[j]@ != f@,
        decreases files@.len() - k,
    {
        if files[k] == *f {
            assert(files@.map_values(|s: String| s@)[k as int] == f@);
            return true;
        }
        k = k + 1;
    }
    proof {
        let fv = files@.map_values(|s: String| s@);
        if fv.contains(f@) {
            let j = choose|j: int| 0 <= j < fv.len() && fv[j] == f@;
            assert(files@[j]@ == f@);
        }
    }
    false
}

/// The group of the file `f` over all events.
fn group_for(events: &[ChangeEvent], counts: &[(u32, u32)], f: &String) -> (g: FileGroup)
    requires
        sum_added(counts@, all_indices(events@.len())) <= u32::MAX,
        sum_removed(counts@, all_indices(events@.len())) <= u32::MAX,
    ensures
        is_group_of(g, events@, counts@, f@),
{
    let n = events.len();
    let mut idxs: Vec<usize> = Vec::new();
    let mut add: u32 = 0;
    let mut del: u32 = 0;
    let mut i: usize = 0;
    while i < n
        invariant
            n == events@.len(),
            i <= n,
            sum_added(counts@, all_indices(n as nat)) <= u32::MAX,
            sum_removed(counts@, all_indices(n as nat)) <= u32::MAX,
            idxs@ == indices_of(events@, f@, i as nat),
            add == sum_added(counts@, idxs@),
            del == sum_removed(counts@, idxs@),
        decreases n - i,
    {
        if events[i].file_path == *f {
            proof {
                assert(indices_of(events@, f@, (i + 1) as nat) =~= idxs@.push(i));
                lemma_sum_push(counts@, idxs@, i);
                lemma_sum_within_total(events@, counts@, f@, (i + 1) as nat);
                lemma_sum_within_total_prefix(events@, counts@, f@, (i + 1) as nat, n as nat);
            }
            let (a, d) = if i < counts.len() { counts[i] } else { (0, 0) };
            add = add + a;
            del = del + d;
            idxs.push(i);
        } else {
            proof {
                assert(indices_of(events@, f@, (i + 1) as nat) =~= idxs@);
            }
        }
        i = i + 1;
    }
    proof {
        lemma_indices_bound(events@, f@, n as nat);
    }
    let is_new = idxs.len() == 1 && match events[idxs[0]].tool {
        ChangeTool::Write => true,
        _ => false,
    };
    FileGroup { file: f.clone(), event_idxs: idxs, add, del, is_new }
}

/// The sums over all events below `m` never exceed those below `n >= m`.
proof fn lemma_sum_within_total_prefix(
    evs: Seq<ChangeEvent>,
    counts: Seq<(u32, u32)>,
    f: Seq<char>,
    m: nat,
    n: nat,
)
    requires
        m <= n,
    ensures
        sum_added(counts, all_indices(m)) <= sum_added(counts, all_indices(n)),
        sum_removed(counts, all_indices(m)) <= sum_removed(counts, all_indices(n)),
    decreases n,
{
    if m < n {
        let k = (n - 1) as nat;
        lemma_sum_within_total_prefix(evs, counts, f, m, k);
        assert(all_indices(n) =~= all_indices(k).push(k as usize));
        lemma_sum_push(counts, all_indices(k), k as usize);
    }
}

/// Groups `events` by file, preserving first-seen order: with the events
/// newest-first, the most recently touched file comes first and each group
/// lists its edits newest-first. `counts[i]` is event `i`'s
/// `(added, removed)`; a missing entry counts as none.
pub fn build_groups(events: &[ChangeEvent], counts: &[(u32, u32)]) -> (res: Vec<FileGroup>)
    requires
        sum_added(counts@, all_indices(events@.len())) <= u32::MAX,
        sum_removed(counts@, all_indices(events@.len())) <= u32::MAX,
    ensures
        res@.len() == files_seen(events@, events@.len()).len(),
        forall|k: int|
            0 <= k < res@.len() ==> is_group_of(
                #[trigger] res@[k],
                events@,
                counts@,
                files_seen(events@, events@.len())[k],
            ),
{
    let n = events.len();
    let mut files: Vec<String> = Vec::new();
    let mut i: usize = 0;
    while i < n
        invariant
            n == events@.len(),
            i <= n,
            files@.map_values(|s: String| s@) == files_seen(events@, i as nat),
        decreases n - i,
    {
        let f = &events[i].file_path;
        if !seen_before(&files, f) {
            let ghost before = files@;
            files.push(f.clone());
            assert(files@.map_values(|s: String| s@) =~= before.map_values(|s: String| s@).push(f@));
        }
        i = i + 1;
    }
    let mut out: Vec<FileGroup> = Vec::new();
    let mut k: usize = 0;
    while k < files.len()
        invariant
            n == events@.len(),
            k <= files@.len(),
            files@.map_values(|s: String| s@) == files_seen(events@, n as nat),
            sum_added(counts@, all_indices(n as nat)) <= u32::MAX,
            sum_removed(counts@, all_indices(n as nat)) <= u32::MAX,
            out@.len() == k,
            forall|j: int|
                0 <= j < k ==> is_group_of(#[trigger] out@[j], events@, counts@, files_seen(events@, n as nat)[j]),
        decreases files@.len() - k,
    {
        let g = group_for(events, counts, &files[k]);
        assert(files@.map_values(|s: String| s@)[k as int] == files@[k as int]@);
        out.push(g);
        k = k + 1;
    }
    out
}

/// The list rows: every header in group order, the active group's edits
/// directly under its header.
pub open spec fn visible_of(groups: Seq<FileGroup>, active: usize, k: nat) -> Seq<VisibleRow>
    decreases k,
{
    if k == 0 {
        Seq::empty()
    } else {
        let j = (k - 1) as nat;
        visible_of(groups, active, j) + seq![VisibleRow::Header { group: j as usize }] + if j == active {
            groups[j as int].event_idxs@.map_values(|e: usize| VisibleRow::Edit { event: e })
        } else {
            Seq::empty()
        }
    }
}

/// Flattens groups into the list rows: every header in order, with the
/// active group's edit rows inserted directly under its header.
pub fn build_visible(groups: &[FileGroup], active: usize) -> (res: Vec<VisibleRow>)
    ensures
        res@ == visible_of(groups@, active, groups@.len()),
{
    let mut out: Vec<VisibleRow> = Vec::new();
    let mut gi: usize = 0;
    while gi < groups.len()
        invariant
            gi <= groups@.len(),
            out@ == visible_of(groups@, active, gi as nat),
        decreases groups@.len() - gi,
    {
        out.push(VisibleRow::Header { group: gi });
        if gi == active {
            let idxs = &groups[gi].event_idxs;
            let ghost base = out@;
            let mut j: usize = 0;
            while j < idxs.len()
                invariant
                    j <= idxs@.len(),
                    out@ == base + idxs@.subrange(0, j as int).map_values(|e: usize| VisibleRow::Edit { event: e }),
                decreases idxs@.len() - j,
            {
                out.push(VisibleRow::Edit { event: idxs[j] });
                j = j + 1;
                assert(out@ =~= base + idxs@.subrange(0, j as int).map_values(|e: usize| VisibleRow::Edit { event: e }));
            }
            assert(idxs@.subrange(0, idxs@.len() as int) =~= idxs@);
        }
        gi = gi + 1;
        assert(out@ =~= visible_of(groups@, active, gi as nat));
    }
    out
}

/// One side of the rolled-up counts summed over the groups.
pub open spec fn groups_sum(groups: Seq<FileGroup>, removed: bool) -> nat
    decreases groups.len(),
{
    if groups.len() == 0 {
        0
    } else {
        groups_sum(groups.drop_last(), removed) + side((groups.last().add, groups.last().del), removed)
    }
}

/// The list has one header per group and, only under the active group,
/// one row per edit of that group; it starts with the first file's header.
pub proof fn law_visible_rows(groups: Seq<FileGroup>, active: usize, k: nat)
    requires
        k <= groups.len(),
    ensures
        visible_of(groups, active, k).len() == k + if active < k { groups[active as int].event_idxs@.len() } else { 0 },
        k > 0 ==> visible_of(groups, active, k)[0] == (VisibleRow::Header { group: 0 }),
    decreases k,
{
    if k > 0 {
        law_visible_rows(groups, active, (k - 1) as nat);
        if k == 1 {
            assert(visible_of(groups, active, 0) =~= Seq::<VisibleRow>::empty());
        }
    }
}

/// Added lines summed over the groups.
pub open spec fn groups_added(groups: Seq<FileGroup>) -> nat {
    groups_sum(groups, false)
}

/// Removed lines summed over the groups.
pub open spec fn groups_removed(groups: Seq<FileGroup>) -> nat {
    groups_sum(groups, true)
}

proof fn lemma_groups_prefix(groups: Seq<FileGroup>, k: int)
    requires
        0 <= k <= groups.len(),
    ensures
        groups_added(groups.subrange(0, k)) <= groups_added(groups),
        groups_removed(groups.subrange(0, k)) <= groups_removed(groups),
    decreases groups.len(),
{
    if k < groups.len() {
        assert(groups.drop_last().subrange(0, k) =~= groups.subrange(0, k));
        lemma_groups_prefix(groups.drop_last(), k);
    } else {
        assert(groups.subrange(0, k) =~= groups);
    }
}

/// Session line-count totals across all groups.
pub fn session_totals(groups: &[FileGroup]) -> (res: (u32, u32))
    requires
        groups_added(groups@) <= u32::MAX,
        groups_removed(groups@) <= u32::MAX,
    ensures
        res.0 == groups_added(groups@),
        res.1 == groups_removed(groups@),
{
    let mut a: u32 = 0;
    let mut d: u32 = 0;
    let mut i: usize = 0;
    while i < groups.len()
        invariant
            i <= groups@.len(),
            groups_added(groups@) <= u32::MAX,
            groups_removed(groups@) <= u32::MAX,
            a == groups_added(groups@.subrange(0, i as int)),
            d == groups_removed(groups@.subrange(0, i as int)),
        decreases groups@.len() - i,
    {
        proof {
            assert(groups@.subrange(0, i + 1).drop_last() =~= groups@.subrange(0, i as int));
            lemma_groups_prefix(groups@, i + 1);
        }
        a = a + groups[i].add;
        d = d + groups[i].del;
        i = i + 1;
    }
    assert(groups@.subrange(0, groups@.len() as int) =~= groups@);
    (a, d)
}

proof fn lemma_indices_contains(evs: Seq<ChangeEvent>, f: Seq<char>, n: nat, i: usize)
    requires
        n <= evs.len(),
        evs.len() <= usize::MAX,
    ensures
        indices_of(evs, f, n).contains(i) <==> (i < n && evs[i as int].file_path@ == f),
    decreases n,
{
    lemma_indices_bound(evs, f, n);
    if n > 0 {
        let m = (n - 1) as nat;
        lemma_indices_contains(evs, f, m, i);
        lemma_indices_bound(evs, f, m);
        let prev = indices_of(evs, f, m);
        let cur = indices_of(evs, f, n);
        if evs[m as int].file_path@ == f {
            assert(cur == prev + seq![m as usize]);
            assert(cur[prev.len() as int] == m as usize);
            if cur.contains(i) {
                let j = choose|j: int| 0 <= j < cur.len() && cur[j] == i;
                if j < prev.len() {
                    assert(prev[j] == i);
                    assert(prev.contains(i));
                }
            }
            if i < m && evs[i as int].file_path@ == f {
                assert(prev.contains(i));
                let j = choose|j: int| 0 <= j < prev.len() && prev[j] == i;
                assert(cur[j] == i);
            }
            if i == m {
                assert(cur.contains(i));
            }
        } else {
            assert(cur =~= prev);
        }
    }
}

pub(crate) proof fn lemma_files_seen(evs: Seq<ChangeEvent>, n: nat)
    requires
        n <= evs.len(),
    ensures
        forall|f: Seq<char>|
            #[trigger] files_seen(evs, n).contains(f) <==> exists|i: int| 0 <= i < n && evs[i].file_path@ == f,
        forall|j: int, k: int|
            0 <= j < files_seen(evs, n).len() && 0 <= k < files_seen(evs, n).len() && j != k
                ==> files_seen(evs, n)[j] != files_seen(evs, n)[k],
    decreases n,
{
    if n > 0 {
        let m = (n - 1) as nat;
        lemma_files_seen(evs, m);
        let p = files_seen(evs, m);
        let q = files_seen(evs, n);
        let f0 = evs[m as int].file_path@;
        assert forall|f: Seq<char>|
            #[trigger] q.contains(f) <==> exists|i: int| 0 <= i < n && evs[i].file_path@ == f by {
            if q.contains(f) {
                if p.contains(f) {
                    assert(exists|i: int| 0 <= i < m && evs[i].file_path@ == f);
                    let i = choose|i: int| 0 <= i < m && evs[i].file_path@ == f;
                    assert(0 <= i < n && evs[i].file_path@ == f);
                } else {
                    if p.contains(f0) {
                        assert(q == p);
                    } else {
                        assert(q == p.push(f0));
                        let k = choose|k: int| 0 <= k < q.len() && q[k] == f;
                        if k < p.len() {
                            assert(p[k] == f);
                        }
                        assert(f == f0);
                    }
                    assert(0 <= m < n && evs[m as int].file_path@ == f);
                }
            }
            if exists|i: int| 0 <= i < n && evs[i].file_path@ == f {
                let i = choose|i: int| 0 <= i < n && evs[i].file_path@ == f;
                if i < m {
                    assert(exists|i: int| 0 <= i < m && evs[i].file_path@ == f);
                    assert(p.contains(f));
                    let k = choose|k: int| 0 <= k < p.len() && p[k] == f;
                    if !p.contains(f0) {
                        assert(q == p.push(f0));
                        assert(q[k] == f);
                    }
                    assert(q.contains(f));
                } else {
                    assert(f == f0);
                    if !p.contains(f0) {
                        assert(q == p.push(f0));
                        assert(q[p.len() as int] == f);
                    }
                    assert(q.contains(f));
                }
            }
        }
        if !p.contains(f0) {
            assert(q == p.push(f0));
            assert forall|j: int, k: int| 0 <= j < q.len() && 0 <= k < q.len() && j != k implies q[j] != q[k] by {
                if j < p.len() && k < p.len() {
                    assert(q[j] == p[j] && q[k] == p[k]);
                } else if j < p.len() {
                    assert(q[j] == p[j]);
                    assert(q[k] == f0);
                } else {
                    assert(q[k] == p[k]);
                    assert(q[j] == f0);
                }
            }
        }
    }
}

/// One side of the counts summed file by file over `files`, each over the
/// events below `m`.
pub open spec fn sum_files(
    evs: Seq<ChangeEvent>,
    counts: Seq<(u32, u32)>,
    files: Seq<Seq<char>>,
    m: nat,
    removed: bool,
) -> nat
    decreases files.len(),
{
    if files.len() == 0 {
        0
    } else {
        sum_files(evs, counts, files.drop_last(), m, removed) + sum_counts(
            counts,
            indices_of(evs, files.last(), m),
            removed,
        )
    }
}

proof fn lemma_sum_files_step(
    evs: Seq<ChangeEvent>,
    counts: Seq<(u32, u32)>,
    files: Seq<Seq<char>>,
    m: nat,
    removed: bool,
)
    requires
        m < evs.len(),
        evs.len() <= usize::MAX,
        forall|j: int, k: int| 0 <= j < files.len() && 0 <= k < files.len() && j != k ==> files[j] != files[k],
    ensures
        sum_files(evs, counts, files, m + 1, removed) == sum_files(evs, counts, files, m, removed) + if files.contains(
            evs[m as int].file_path@,
        ) {
            side(count_at(counts, m as int), removed)
        } else {
            0
        },
    decreases files.len(),
{
    if files.len() > 0 {
        let init = files.drop_last();
        let last = files.last();
        assert forall|j: int, k: int| 0 <= j < init.len() && 0 <= k < init.len() && j != k implies init[j]
            != init[k] by {
            assert(init[j] == files[j] && init[k] == files[k]);
        }
        lemma_sum_files_step(evs, counts, init, m, removed);
        let f0 = evs[m as int].file_path@;
        if last == f0 {
            assert(indices_of(evs, last, m + 1) == indices_of(evs, last, m).push(m as usize));
            lemma_sum_push(counts, indices_of(evs, last, m), m as usize);
            assert(!init.contains(f0)) by {
                if init.contains(f0) {
                    let j = choose|j: int| 0 <= j < init.len() && init[j] == f0;
                    assert(files[j] == files[files.len() - 1]);
                }
            }
            assert(files.contains(f0)) by {
                assert(files[files.len() - 1] == f0);
            }
        } else {
            assert(indices_of(evs, last, m + 1) =~= indices_of(evs, last, m));
            assert(files.contains(f0) <==> init.contains(f0)) by {
                if files.contains(f0) {
                    let j = choose|j: int| 0 <= j < files.len() && files[j] == f0;
                    assert(j < init.len());
                    assert(init[j] == f0);
                }
                if init.contains(f0) {
                    let j = choose|j: int| 0 <= j < init.len() && init[j] == f0;
                    assert(files[j] == f0);
                }
            }
        }
    }
}

proof fn lemma_sum_files_total(evs: Seq<ChangeEvent>, counts: Seq<(u32, u32)>, n: nat, removed: bool)
    requires
        n <= evs.len(),
        evs.len() <= usize::MAX,
    ensures
        sum_files(evs, counts, files_seen(evs, n), n, removed) == sum_counts(counts, all_indices(n), removed),
    decreases n,
{
    if n > 0 {
        let m = (n - 1) as nat;
        lemma_sum_files_total(evs, counts, m, removed);
        lemma_files_seen(evs, m);
        lemma_files_seen(evs, n);
        let p = files_seen(evs, m);
        let q = files_seen(evs, n);
        let f0 = evs[m as int].file_path@;
        // The files seen up to `n` contribute over the first `m` events what
        // those seen up to `m` do: a newly seen file has no earlier event.
        if !p.contains(f0) {
            assert(q == p.push(f0));
            assert(q.drop_last() =~= p);
            assert(indices_of(evs, f0, m) =~= Seq::<usize>::empty()) by {
                lemma_indices_bound(evs, f0, m);
                if indices_of(evs, f0, m).len() > 0 {
                    let x = indices_of(evs, f0, m)[0];
                    assert(indices_of(evs, f0, m).contains(x));
                    lemma_indices_contains(evs, f0, m, x);
                }
            }
        }
        lemma_sum_files_step(evs, counts, q, m, removed);
        assert(q.contains(f0));
        assert(all_indices(n) =~= all_indices(m).push(m as usize));
        lemma_sum_push(counts, all_indices(m), m as usize);
    }
}

proof fn lemma_groups_sum_files(
    evs: Seq<ChangeEvent>,
    counts: Seq<(u32, u32)>,
    groups: Seq<FileGroup>,
    files: Seq<Seq<char>>,
    removed: bool,
)
    requires
        groups.len() == files.len(),
        forall|k: int| 0 <= k < groups.len() ==> is_group_of(#[trigger] groups[k], evs, counts, files[k]),
    ensures
        groups_sum(groups, removed) == sum_files(evs, counts, files, evs.len(), removed),
    decreases groups.len(),
{
    if groups.len() > 0 {
        let k = groups.len() - 1;
        assert forall|j: int| 0 <= j < groups.drop_last().len() implies is_group_of(
            #[trigger] groups.drop_last()[j],
            evs,
            counts,
            files.drop_last()[j],
        ) by {
            assert(groups.drop_last()[j] == groups[j]);
        }
        lemma_groups_sum_files(evs, counts, groups.drop_last(), files.drop_last(), removed);
        assert(is_group_of(groups[k], evs, counts, files[k]));
    }
}

/// Event `i` belongs to one of the groups.
pub open spec fn in_some_group(groups: Seq<FileGroup>, i: usize) -> bool {
    exists|k: int| 0 <= k < groups.len() && (#[trigger] groups[k]).event_idxs@.contains(i)
}

/// The grouping is a partition: every event is in exactly one group, each
/// group holds only its own file's events, and the groups' rolled-up counts
/// add up to the session totals over all events.
pub proof fn law_groups_partition_events(
    evs: Seq<ChangeEvent>,
    counts: Seq<(u32, u32)>,
    groups: Seq<FileGroup>,
)
    requires
        evs.len() <= usize::MAX,
        groups.len() == files_seen(evs, evs.len()).len(),
        forall|k: int|
            0 <= k < groups.len() ==> is_group_of(#[trigger] groups[k], evs, counts, files_seen(evs, evs.len())[k]),
    ensures
        forall|i: usize| i < evs.len() ==> #[trigger] in_some_group(groups, i),
        forall|i: usize, k1: int, k2: int|
            #![trigger groups[k1].event_idxs@.contains(i), groups[k2].event_idxs@.contains(i)]
            0 <= k1 < groups.len() && 0 <= k2 < groups.len() && groups[k1].event_idxs@.contains(i)
                && groups[k2].event_idxs@.contains(i) ==> k1 == k2,
        forall|k: int, j: int|
            0 <= k < groups.len() && 0 <= j < groups[k].event_idxs@.len() ==> evs[(#[trigger] groups[k].event_idxs@[j]) as int].file_path@
                == groups[k].file@,
        groups_added(groups) == sum_added(counts, all_indices(evs.len())),
        groups_removed(groups) == sum_removed(counts, all_indices(evs.len())),
{
    let n = evs.len();
    let fs = files_seen(evs, n);
    lemma_files_seen(evs, n);
    assert forall|i: usize| i < n implies #[trigger] in_some_group(groups, i) by {
        let f = evs[i as int].file_path@;
        assert(0 <= (i as int) < n && evs[i as int].file_path@ == f);
        assert(fs.contains(f));
        let k = choose|k: int| 0 <= k < fs.len() && fs[k] == f;
        lemma_indices_contains(evs, f, n, i);
        assert(is_group_of(groups[k], evs, counts, fs[k]));
        assert(groups[k].event_idxs@ == indices_of(evs, f, n));
        assert(groups[k].event_idxs@.contains(i));
        assert(0 <= k < groups.len());
    }
    assert forall|i: usize, k1: int, k2: int|
        #![trigger groups[k1].event_idxs@.contains(i), groups[k2].event_idxs@.contains(i)]
        0 <= k1 < groups.len() && 0 <= k2 < groups.len() && groups[k1].event_idxs@.contains(i)
            && groups[k2].event_idxs@.contains(i) implies k1 == k2 by {
        assert(is_group_of(groups[k1], evs, counts, fs[k1]));
        assert(is_group_of(groups[k2], evs, counts, fs[k2]));
        lemma_indices_contains(evs, fs[k1], n, i);
        lemma_indices_contains(evs, fs[k2], n, i);
    }
    assert forall|k: int, j: int|
        0 <= k < groups.len() && 0 <= j < groups[k].event_idxs@.len() implies evs[(#[trigger] groups[k].event_idxs@[j]) as int].file_path@
        == groups[k].file@ by {
        assert(is_group_of(groups[k], evs, counts, fs[k]));
        let x = groups[k].event_idxs@[j];
        assert(groups[k].event_idxs@.contains(x));
        lemma_indices_contains(evs, fs[k], n, x);
    }
    lemma_groups_sum_files(evs, counts, groups, fs, false);
    lemma_groups_sum_files(evs, counts, groups, fs, true);
    lemma_sum_files_total(evs, counts, n, false);
    lemma_sum_files_total(evs, counts, n, true);
}

/// A file listed later in `files_seen` first appears after every file
/// listed before it: before any change to the later file there is a change
/// to the earlier one.
proof fn lemma_files_seen_order(evs: Seq<ChangeEvent>, n: nat, k1: int, k2: int, j: int)
    requires
        n <= evs.len(),
        0 <= k1 < k2 < files_seen(evs, n).len(),
        0 <= j < n,
        evs[j].file_path@ == files_seen(evs, n)[k2],
    ensures
        exists|i: int| 0 <= i < j && evs[i].file_path@ == files_seen(evs, n)[k1],
    decreases n,
{
    let m = (n - 1) as nat;
    lemma_files_seen(evs, m);
    let p = files_seen(evs, m);
    let f = evs[m as int].file_path@;
    if p.contains(f) {
        assert(files_seen(evs, n) == p);
        if j < m {
            lemma_files_seen_order(evs, m, k1, k2, j);
        } else {
            assert(p.contains(p[k2]));
            let j2 = choose|j2: int| 0 <= j2 < m && evs[j2].file_path@ == p[k2];
            lemma_files_seen_order(evs, m, k1, k2, j2);
        }
    } else {
        assert(files_seen(evs, n) == p.push(f));
        if k2 < p.len() {
            if j == m {
                assert(p.contains(p[k2]));
            }
            lemma_files_seen_order(evs, m, k1, k2, j);
        } else {
            assert(p.contains(p[k1]));
            let i = choose|i: int| 0 <= i < m && evs[i].file_path@ == p[k1];
            if j < m {
                assert(p.contains(f));
            }
            assert(0 <= i < j && evs[i].file_path@ == files_seen(evs, n)[k1]);
        }
    }
}

/// The grouping orders files and edits newest-first: every group holds at
/// least one change, a group's changes are in timeline order (newest
/// first, as the events come), and a group comes before another exactly
/// when its newest change does.
pub proof fn law_groups_order(evs: Seq<ChangeEvent>, counts: Seq<(u32, u32)>, groups: Seq<FileGroup>)
    requires
        evs.len() <= usize::MAX,
        groups.len() == files_seen(evs, evs.len()).len(),
        forall|k: int|
            0 <= k < groups.len() ==> is_group_of(#[trigger] groups[k], evs, counts, files_seen(evs, evs.len())[k]),
    ensures
        forall|k: int| 0 <= k < groups.len() ==> (#[trigger] groups[k]).event_idxs@.len() > 0,
        forall|k: int, i: int, j: int|
            0 <= k < groups.len() && 0 <= i < j < groups[k].event_idxs@.len() ==> #[trigger] groups[k].event_idxs@[i]
                < #[trigger] groups[k].event_idxs@[j],
        forall|k1: int, k2: int|
            0 <= k1 < k2 < groups.len() ==> (#[trigger] groups[k1]).event_idxs@[0] < (#[trigger] groups[k2]).event_idxs@[0],
{
    let n = evs.len();
    let fs = files_seen(evs, n);
    lemma_files_seen(evs, n);
    assert forall|k: int| 0 <= k < groups.len() implies (#[trigger] groups[k]).event_idxs@.len() > 0 by {
        assert(is_group_of(groups[k], evs, counts, fs[k]));
        assert(fs.contains(fs[k]));
        let i = choose|i: int| 0 <= i < n && evs[i].file_path@ == fs[k];
        lemma_indices_contains(evs, fs[k], n, i as usize);
    }
    assert forall|k: int, i: int, j: int|
        0 <= k < groups.len() && 0 <= i < j < groups[k].event_idxs@.len() implies #[trigger] groups[k].event_idxs@[i]
            < #[trigger] groups[k].event_idxs@[j] by {
        assert(is_group_of(groups[k], evs, counts, fs[k]));
        lemma_indices_increasing(evs, fs[k], n);
    }
    assert forall|k1: int, k2: int|
        0 <= k1 < k2 < groups.len() implies (#[trigger] groups[k1]).event_idxs@[0] < (#[trigger] groups[k2]).event_idxs@[0] by {
        assert(is_group_of(groups[k1], evs, counts, fs[k1]));
        assert(is_group_of(groups[k2], evs, counts, fs[k2]));
        let i1 = groups[k1].event_idxs@;
        let i2 = groups[k2].event_idxs@;
        assert(fs.contains(fs[k2]));
        let w = choose|w: int| 0 <= w < n && evs[w].file_path@ == fs[k2];
        lemma_indices_contains(evs, fs[k2], n, w as usize);
        lemma_indices_bound(evs, fs[k2], n);
        assert(i2.contains(i2[0]));
        lemma_indices_contains(evs, fs[k2], n, i2[0]);
        let j = i2[0] as int;
        assert(evs[j].file_path@ == fs[k2]);
        lemma_files_seen_order(evs, n, k1, k2, j);
        let i = choose|i: int| 0 <= i < j && evs[i].file_path@ == fs[k1];
        lemma_indices_contains(evs, fs[k1], n, i as usize);
        let q = choose|q: int| 0 <= q < i1.len() && i1[q] == i as usize;
        lemma_indices_increasing(evs, fs[k1], n);
        if q > 0 {
            assert(i1[0] < i1[q]);
        }
    }
}

/// The first group whose edits include `event`, if any.
pub fn group_of_event(groups: &[FileGroup], event: usize) -> (res: Option<usize>)
    ensures
        match res {
            Some(k) => k < groups@.len() && groups@[k as int].event_idxs@.contains(event)
                && forall|j: int| 0 <= j < k ==> !(#[trigger] groups@[j]).event_idxs@.contains(event),
            None => forall|j: int| 0 <= j < groups@.len() ==> !(#[trigger] groups@[j]).event_idxs@.contains(event),
        },
{
    let mut k: usize = 0;
    while k < groups.len()
        invariant
            k <= groups@.len(),
            forall|j: int| 0 <= j < k ==> !(#[trigger] groups@[j]).event_idxs@.contains(event),
        decreases groups@.len() - k,
    {
        let idxs = &groups[k].event_idxs;
        let mut j: usize = 0;
        while j < idxs.len()
            invariant
                j <= idxs@.len(),
                k < groups@.len(),
                idxs@ == groups@[k as int].event_idxs@,
                forall|t: int| 0 <= t < j ==> idxs@[t] != event,
                forall|t: int| 0 <= t < k ==> !(#[trigger] groups@[t]).event_idxs@.contains(event),
            decreases idxs@.len() - j,
        {
            if idxs[j] == event {
                assert(groups@[k as int].event_idxs@[j as int] == event);
                return Some(k);
            }
            j = j + 1;
        }
        assert(!groups@[k as int].event_idxs@.contains(event));
        k = k + 1;
    }
    None
}

/// The list row of the edit row for `event`, if the list shows it.
pub fn row_of_event(visible: &[VisibleRow], event: usize) -> (res: Option<usize>)
    ensures
        match res {
            Some(i) => i < visible@.len() && visible@[i as int] == (VisibleRow::Edit { event })
                && forall|j: int| 0 <= j < i ==> visible@[j] != (VisibleRow::Edit { event }),
            None => forall|j: int| 0 <= j < visible@.len() ==> visible@[j] != (VisibleRow::Edit { event }),
        },
{
    let mut i: usize = 0;
    while i < visible.len()
        invariant
            i <= visible@.len(),
            forall|j: int| 0 <= j < i ==> visible@[j] != (VisibleRow::Edit { event }),
        decreases visible@.len() - i,
    {
        if visible[i] == (VisibleRow::Edit { event }) {
            return Some(i);
        }
        i = i + 1;
    }
    None
}

} // verus!
