//! Where the list cursor lands. The cursor is a row of the list (see
//! `timeline::visible_of`), and exactly the file that owns the cursor's row is
//! expanded: landing on a file header makes that file the active one. Across
//! a refresh the cursor follows what it was on, a change by its source or a
//! file by its path, rather than an index.

use vstd::prelude::*;
use crate::app::{repin, source_at};
use crate::model::{ChangeEvent, ChangeSource};
use crate::timeline::{
    build_visible, files_seen, group_of_event, in_some_group, indices_of, is_group_of, law_groups_partition_events,
    law_visible_rows, lemma_files_seen, lemma_indices_bound, lemma_indices_increasing, row_of_event, visible_of,
    FileGroup, VisibleRow,
};

verus! {

/// `groups` is the grouping by file of `evs` with line counts `counts`, as
/// `timeline::build_groups` makes it.
pub open spec fn grouping_of(groups: Seq<FileGroup>, evs: Seq<ChangeEvent>, counts: Seq<(u32, u32)>) -> bool {
    &&& groups.len() == files_seen(evs, evs.len()).len()
    &&& forall|k: int|
        0 <= k < groups.len() ==> is_group_of(#[trigger] groups[k], evs, counts, files_seen(evs, evs.len())[k])
}

/// The list of `groups` with group `active` expanded.
pub open spec fn rows_of(groups: Seq<FileGroup>, active: usize) -> Seq<VisibleRow> {
    visible_of(groups, active, groups.len())
}

/// The cursor after moving to row `sel` of the list with `old_active`
/// expanded (`sel` clamped to the last row): on an edit row, or on the active
/// file's header, it stays there; on another file's header, that file
/// becomes the active one and the cursor stays on its header, which now sits
/// at row `h`. With no files the cursor is at row 0.
pub open spec fn settled(groups: Seq<FileGroup>, old_active: usize, sel: usize, active: usize, row: usize) -> bool {
    let n = groups.len();
    if n == 0 {
        active == 0 && row == 0
    } else {
        let a: usize = if old_active < n { old_active } else { (n - 1) as usize };
        let vis = rows_of(groups, a);
        let r: usize = if sel < vis.len() { sel } else { (vis.len() - 1) as usize };
        match vis[r as int] {
            VisibleRow::Header { group } => if group != a {
                active == group && row == group
            } else {
                active == a && row == r
            },
            VisibleRow::Edit { .. } => active == a && row == r,
        }
    }
}

/// `i` is the first event recorded at `src`.
pub open spec fn first_source(evs: Seq<ChangeEvent>, src: (Seq<char>, usize, usize), i: int) -> bool {
    &&& 0 <= i < evs.len()
    &&& source_at(evs, i, src)
    &&& forall|j: int| 0 <= j < i ==> !source_at(evs, j, src)
}

/// `k` is the first group of file `file`.
pub open spec fn first_file(groups: Seq<FileGroup>, file: Seq<char>, k: int) -> bool {
    &&& 0 <= k < groups.len()
    &&& groups[k].file@ == file
    &&& forall|j: int| 0 <= j < k ==> groups[j].file@ != file
}

/// Where the cursor goes after the events were replaced, given what it was
/// on: the change recorded at `src` while one is still there (its file
/// expanded, the cursor on its edit row); else the header of `file` while
/// that file still has changes (that file expanded); else the old position,
/// settled.
pub open spec fn placed(
    evs: Seq<ChangeEvent>,
    groups: Seq<FileGroup>,
    src: Option<(Seq<char>, usize, usize)>,
    file: Option<Seq<char>>,
    old_active: usize,
    old_sel: usize,
    active: usize,
    row: usize,
) -> bool {
    if src is Some && exists|i: int| first_source(evs, src->0, i) {
        &&& active < groups.len()
        &&& row < rows_of(groups, active).len()
        &&& exists|i: int|
            first_source(evs, src->0, i) && groups[active as int].event_idxs@.contains(i as usize)
                && rows_of(groups, active)[row as int] == (VisibleRow::Edit { event: i as usize })
                && forall|j: int| 0 <= j < row ==> rows_of(groups, active)[j] != (VisibleRow::Edit { event: i as usize })
    } else if file is Some && exists|k: int| first_file(groups, file->0, k) {
        &&& first_file(groups, file->0, active as int)
        &&& row == active
    } else {
        settled(groups, old_active, old_sel, active, row)
    }
}

/// A shorter list is a prefix of a longer one, and its headers name groups
/// before its length.
proof fn lemma_rows_prefix(groups: Seq<FileGroup>, active: usize, k1: nat, k2: nat)
    requires
        k1 <= k2 <= groups.len(),
    ensures
        visible_of(groups, active, k2).subrange(0, visible_of(groups, active, k1).len() as int)
            == visible_of(groups, active, k1),
        visible_of(groups, active, k1).len() <= visible_of(groups, active, k2).len(),
    decreases k2,
{
    if k1 < k2 {
        let m = (k2 - 1) as nat;
        lemma_rows_prefix(groups, active, k1, m);
        let v1 = visible_of(groups, active, k1);
        let vm = visible_of(groups, active, m);
        let v2 = visible_of(groups, active, k2);
        assert(v2.subrange(0, vm.len() as int) =~= vm);
        assert(v2.subrange(0, v1.len() as int) =~= vm.subrange(0, v1.len() as int));
    }
}

/// Every header of the list names a group before its length.
proof fn lemma_rows_headers(groups: Seq<FileGroup>, active: usize, k: nat)
    requires
        k <= groups.len(),
    ensures
        forall|r: int|
            0 <= r < visible_of(groups, active, k).len() ==> match #[trigger] visible_of(groups, active, k)[r] {
                VisibleRow::Header { group } => group < k,
                VisibleRow::Edit { .. } => true,
            },
    decreases k,
{
    if k > 0 {
        let m = (k - 1) as nat;
        lemma_rows_headers(groups, active, m);
        let vm = visible_of(groups, active, m);
        let v = visible_of(groups, active, k);
        assert forall|r: int| 0 <= r < v.len() implies match #[trigger] v[r] {
            VisibleRow::Header { group } => group < k,
            VisibleRow::Edit { .. } => true,
        } by {
            if r < vm.len() {
                assert(v[r] == vm[r]);
            }
        }
    }
}

/// With group `a` expanded, row `a` is the header of `a`: the headers before
/// it are folded.
pub proof fn lemma_active_header_row(groups: Seq<FileGroup>, a: usize)
    requires
        a < groups.len(),
    ensures
        rows_of(groups, a).len() > a,
        rows_of(groups, a)[a as int] == (VisibleRow::Header { group: a }),
{
    law_visible_rows(groups, a, a as nat);
    lemma_rows_prefix(groups, a, (a + 1) as nat, groups.len());
    let v = visible_of(groups, a, (a + 1) as nat);
    assert(v[a as int] == (VisibleRow::Header { group: a }));
    assert(rows_of(groups, a).subrange(0, v.len() as int)[a as int] == v[a as int]);
}

/// An edit of the expanded group has a row in the list.
proof fn lemma_edit_has_row(groups: Seq<FileGroup>, a: usize, i: usize)
    requires
        a < groups.len(),
        groups[a as int].event_idxs@.contains(i),
    ensures
        exists|r: int| 0 <= r < rows_of(groups, a).len() && rows_of(groups, a)[r] == (VisibleRow::Edit { event: i }),
{
    let idxs = groups[a as int].event_idxs@;
    let p = choose|p: int| 0 <= p < idxs.len() && idxs[p] == i;
    let va = visible_of(groups, a, a as nat);
    let v = visible_of(groups, a, (a + 1) as nat);
    lemma_rows_prefix(groups, a, (a + 1) as nat, groups.len());
    let r = va.len() + 1 + p;
    assert(v[r] == (VisibleRow::Edit { event: i }));
    assert(rows_of(groups, a).subrange(0, v.len() as int)[r] == v[r]);
}

/// The list with group `a` expanded, row by row: the headers of groups
/// `0..=a`, then group `a`'s edits in order, then the remaining headers.
pub proof fn lemma_rows_shape(groups: Seq<FileGroup>, a: usize, k: nat)
    requires
        a < groups.len(),
        k <= groups.len(),
    ensures
        k <= a ==> visible_of(groups, a, k).len() == k && forall|r: int|
            0 <= r < k ==> #[trigger] visible_of(groups, a, k)[r] == (VisibleRow::Header { group: r as usize }),
        k > a ==> visible_of(groups, a, k).len() == k + groups[a as int].event_idxs@.len(),
        k > a ==> forall|r: int|
            0 <= r <= a ==> #[trigger] visible_of(groups, a, k)[r] == (VisibleRow::Header { group: r as usize }),
        k > a ==> forall|p: int|
            0 <= p < groups[a as int].event_idxs@.len() ==> visible_of(groups, a, k)[a + 1 + p] == (VisibleRow::Edit {
                event: #[trigger] groups[a as int].event_idxs@[p],
            }),
        k > a ==> forall|r: int|
            a + groups[a as int].event_idxs@.len() < r < k + groups[a as int].event_idxs@.len()
                ==> #[trigger] visible_of(groups, a, k)[r] == (VisibleRow::Header {
                group: (r - groups[a as int].event_idxs@.len()) as usize,
            }),
    decreases k,
{
    if k > 0 {
        let m = (k - 1) as nat;
        lemma_rows_shape(groups, a, m);
        let v = visible_of(groups, a, k);
        let vm = visible_of(groups, a, m);
        let idx = groups[a as int].event_idxs@;
        let e = idx.len();
        if m == a {
            let ed = idx.map_values(|x: usize| VisibleRow::Edit { event: x });
            assert(v == vm + seq![VisibleRow::Header { group: m as usize }] + ed);
            assert forall|p: int| 0 <= p < e implies v[a + 1 + p] == (VisibleRow::Edit { event: #[trigger] idx[p] }) by {
                assert(v[a + 1 + p] == ed[p]);
            }
            assert forall|r: int| 0 <= r <= a implies #[trigger] v[r] == (VisibleRow::Header { group: r as usize }) by {
                if r < a {
                    assert(v[r] == vm[r]);
                }
            }
        } else if m > a {
            assert(v == vm + seq![VisibleRow::Header { group: m as usize }]);
            assert forall|r: int| 0 <= r <= a implies #[trigger] v[r] == (VisibleRow::Header { group: r as usize }) by {
                assert(v[r] == vm[r]);
            }
            assert forall|p: int| 0 <= p < e implies v[a + 1 + p] == (VisibleRow::Edit { event: #[trigger] idx[p] }) by {
                assert(v[a + 1 + p] == vm[a + 1 + p]);
            }
            assert forall|r: int| a + e < r < k + e implies #[trigger] v[r] == (VisibleRow::Header {
                group: (r - e) as usize,
            }) by {
                if r < m + e {
                    assert(v[r] == vm[r]);
                }
            }
        } else {
            assert(v == vm + seq![VisibleRow::Header { group: m as usize }]);
            assert forall|r: int| 0 <= r < k implies #[trigger] v[r] == (VisibleRow::Header { group: r as usize }) by {
                if r < m {
                    assert(v[r] == vm[r]);
                }
            }
        }
    }
}

/// The list depends on the groups only through their edits.
proof fn lemma_rows_same_edits(g1: Seq<FileGroup>, g2: Seq<FileGroup>, a: usize, k: nat)
    requires
        k <= g1.len(),
        g1.len() == g2.len(),
        forall|j: int| 0 <= j < g1.len() ==> (#[trigger] g1[j]).event_idxs@ == g2[j].event_idxs@,
    ensures
        visible_of(g1, a, k) == visible_of(g2, a, k),
    decreases k,
{
    if k > 0 {
        lemma_rows_same_edits(g1, g2, a, (k - 1) as nat);
        assert(g1[k - 1].event_idxs@ == g2[k - 1].event_idxs@);
    }
}

/// Two groupings of the same events have the same files with the same
/// edits, whatever the line counts.
proof fn lemma_groupings_agree(
    g1: Seq<FileGroup>,
    c1: Seq<(u32, u32)>,
    g2: Seq<FileGroup>,
    c2: Seq<(u32, u32)>,
    evs: Seq<ChangeEvent>,
)
    requires
        grouping_of(g1, evs, c1),
        grouping_of(g2, evs, c2),
    ensures
        g1.len() == g2.len(),
        forall|j: int| 0 <= j < g1.len() ==> (#[trigger] g1[j]).event_idxs@ == g2[j].event_idxs@ && g1[j].file@
            == g2[j].file@,
{
    assert forall|j: int| 0 <= j < g1.len() implies (#[trigger] g1[j]).event_idxs@ == g2[j].event_idxs@
        && g1[j].file@ == g2[j].file@ by {
        assert(is_group_of(g1[j], evs, c1, files_seen(evs, evs.len())[j]));
        assert(is_group_of(g2[j], evs, c2, files_seen(evs, evs.len())[j]));
    }
}

/// Settles the cursor at row `sel` of the list with `old_active` expanded.
pub fn settle(groups: &[FileGroup], old_active: usize, sel: usize) -> (res: (usize, usize))
    ensures
        settled(groups@, old_active, sel, res.0, res.1),
        groups@.len() > 0 ==> res.0 < groups@.len() && res.1 < rows_of(groups@, res.0).len(),
{
    let n = groups.len();
    if n == 0 {
        return (0, 0);
    }
    let a: usize = if old_active < n { old_active } else { n - 1 };
    let vis = build_visible(groups, a);
    proof {
        law_visible_rows(groups@, a, n as nat);
        lemma_rows_headers(groups@, a, n as nat);
    }
    let r: usize = if sel < vis.len() { sel } else { vis.len() - 1 };
    match vis[r] {
        VisibleRow::Header { group } => {
            if group != a {
                proof {
                    assert(vis@[r as int] == (VisibleRow::Header { group }));
                    lemma_active_header_row(groups@, group);
                }
                (group, group)
            } else {
                (a, r)
            }
        },
        VisibleRow::Edit { .. } => (a, r),
    }
}

/// Places the cursor over the freshly grouped events, following the change
/// recorded at `src` or else the file `file`, else settling the old position.
pub fn place(
    events: &[ChangeEvent],
    groups: &[FileGroup],
    counts: &[(u32, u32)],
    src: Option<&ChangeSource>,
    file: Option<&String>,
    old_active: usize,
    old_sel: usize,
) -> (res: (usize, usize))
    requires
        grouping_of(groups@, events@, counts@),
    ensures
        placed(
            events@,
            groups@,
            match src {
                Some(s) => Some(s@),
                None => None,
            },
            match file {
                Some(f) => Some(f@),
                None => None,
            },
            old_active,
            old_sel,
            res.0,
            res.1,
        ),
        groups@.len() > 0 ==> res.0 < groups@.len() && res.1 < rows_of(groups@, res.0).len(),
{
    let ghost sv: Option<(Seq<char>, usize, usize)> = match src {
        Some(s) => Some(s@),
        None => None,
    };
    let ghost fv: Option<Seq<char>> = match file {
        Some(f) => Some(f@),
        None => None,
    };
    if let Some(s) = src {
        if events.len() > 0 {
            let i = repin(events, Some(s), 0);
            if events[i].source.same_as(s) {
                proof {
                    assert(source_at(events@, i as int, s@));
                    assert(first_source(events@, s@, i as int));
                    law_groups_partition_events(events@, counts@, groups@);
                    assert(in_some_group(groups@, i));
                }
                match group_of_event(groups, i) {
                    Some(g) => {
                        let vis = build_visible(groups, g);
                        proof {
                            lemma_edit_has_row(groups@, g, i);
                        }
                        match row_of_event(vis.as_slice(), i) {
                            Some(r) => {
                                proof {
                                    assert(first_source(events@, sv->0, i as int));
                                }
                                return (g, r);
                            },
                            None => {
                                proof {
                                    assert(false);
                                }
                                return settle(groups, old_active, old_sel);
                            },
                        }
                    },
                    None => {
                        proof {
                            let k = choose|k: int| 0 <= k < groups@.len() && (#[trigger] groups@[k]).event_idxs@.contains(i);
                            assert(!groups@[k].event_idxs@.contains(i));
                        }
                        return settle(groups, old_active, old_sel);
                    },
                }
            } else {
                proof {
                    assert(crate::app::repinned(events@, Some(s@), 0, i));
                    assert forall|i2: int| !first_source(events@, s@, i2) by {
                        if first_source(events@, s@, i2) {
                            assert(source_at(events@, i2, s@));
                            assert(source_at(events@, i as int, s@));
                        }
                    }
                }
            }
        }
    }
    let ghost src_gone = sv is Some ==> forall|i2: int| !first_source(events@, sv->0, i2);
    proof {
        if sv is Some && events@.len() == 0 {
            assert forall|i2: int| !first_source(events@, sv->0, i2) by {}
        }
        assert(src_gone);
    }
    if let Some(f) = file {
        assert(fv == Some(f@));
        let mut k: usize = 0;
        while k < groups.len()
            invariant
                k <= groups@.len(),
                forall|j: int| 0 <= j < k ==> groups@[j].file@ != f@,
                fv == Some(f@),
                fv == (match file {
                    Some(f) => Some(f@),
                    None => None,
                }),
                sv == (match src {
                    Some(s) => Some(s@),
                    None => None,
                }),
                grouping_of(groups@, events@, counts@),
                sv is Some ==> forall|i2: int| !first_source(events@, sv->0, i2),
            decreases groups@.len() - k,
        {
            if groups[k].file == *f {
                proof {
                    assert(first_file(groups@, f@, k as int));
                    lemma_active_header_row(groups@, k);
                    assert(fv == Some(f@));
                    let ff = fv->0;
                    assert(ff == f@);
                    assert(first_file(groups@, ff, k as int));
                    assert(exists|k2: int| first_file(groups@, fv->0, k2));
                    if sv is Some {
                        assert(!exists|i2: int| first_source(events@, sv->0, i2));
                    }
                    assert(placed(events@, groups@, sv, fv, old_active, old_sel, k, k));
                }
                return (k, k);
            }
            k = k + 1;
        }
        proof {
            assert forall|k2: int| !first_file(groups@, f@, k2) by {}
        }
    }
    settle(groups, old_active, old_sel)
}

/// Across a refresh the cursor stays on what it was on: a change still
/// recorded is selected on its own edit row, with its file expanded; a file
/// that still has changes keeps the cursor on its header, expanded.
pub proof fn law_refresh_keeps_target(
    evs: Seq<ChangeEvent>,
    groups: Seq<FileGroup>,
    src: Option<(Seq<char>, usize, usize)>,
    file: Option<Seq<char>>,
    old_active: usize,
    old_sel: usize,
    active: usize,
    row: usize,
)
    requires
        placed(evs, groups, src, file, old_active, old_sel, active, row),
    ensures
        src is Some && (exists|i: int| first_source(evs, src->0, i)) ==> exists|i: int|
            first_source(evs, src->0, i) && rows_of(groups, active)[row as int] == (VisibleRow::Edit { event: i as usize })
                && groups[active as int].event_idxs@.contains(i as usize),
        !(src is Some && (exists|i: int| first_source(evs, src->0, i))) && file is Some && (exists|k: int|
            0 <= k < groups.len() && groups[k].file@ == file->0) ==> rows_of(groups, active)[row as int]
            == (VisibleRow::Header { group: active }) && groups[active as int].file@ == file->0,
{
    if !(src is Some && (exists|i: int| first_source(evs, src->0, i))) && file is Some && (exists|k: int|
        0 <= k < groups.len() && groups[k].file@ == file->0) {
        let f = file->0;
        let k0 = choose|k: int| 0 <= k < groups.len() && groups[k].file@ == f;
        lemma_first_file_exists(groups, f, k0);
        lemma_active_header_row(groups, active);
    }
}

proof fn lemma_first_file_exists(groups: Seq<FileGroup>, f: Seq<char>, k: int)
    requires
        0 <= k < groups.len(),
        groups[k].file@ == f,
    ensures
        exists|k2: int| first_file(groups, f, k2),
    decreases k,
{
    if exists|j: int| 0 <= j < k && groups[j].file@ == f {
        let j = choose|j: int| 0 <= j < k && groups[j].file@ == f;
        lemma_first_file_exists(groups, f, j);
    } else {
        assert(first_file(groups, f, k));
    }
}

/// Replacing the events by the same events keeps the cursor: when the
/// cursor rests on an edit row (pinning that change's source) or on the
/// expanded file's header (pinning its file), and every source names one
/// change, the cursor is placed back on the same row with the same file
/// expanded, whatever the new line counts.
pub proof fn law_same_events_keep_cursor(
    evs: Seq<ChangeEvent>,
    c1: Seq<(u32, u32)>,
    g1: Seq<FileGroup>,
    a: usize,
    sel: usize,
    c2: Seq<(u32, u32)>,
    g2: Seq<FileGroup>,
    src: Option<(Seq<char>, usize, usize)>,
    file: Option<Seq<char>>,
    active: usize,
    row: usize,
)
    requires
        evs.len() <= usize::MAX,
        grouping_of(g1, evs, c1),
        a < g1.len(),
        sel < rows_of(g1, a).len(),
        rows_of(g1, a)[sel as int] is Header ==> rows_of(g1, a)[sel as int] == (VisibleRow::Header { group: a }),
        forall|i: int, j: int| #![trigger evs[i], evs[j]] 0 <= i < j < evs.len() ==> evs[i].source@ != evs[j].source@,
        match rows_of(g1, a)[sel as int] {
            VisibleRow::Edit { event } => event < evs.len() ==> src == Some(evs[event as int].source@),
            VisibleRow::Header { group } => src is None && file == Some(g1[group as int].file@),
        },
        grouping_of(g2, evs, c2),
        placed(evs, g2, src, file, a, sel, active, row),
    ensures
        active == a,
        row == sel,
        rows_of(g2, active) == rows_of(g1, a),
{
    let n = g1.len();
    let rows1 = rows_of(g1, a);
    let idx = g1[a as int].event_idxs@;
    let e_len = idx.len();
    let fs = files_seen(evs, evs.len());
    lemma_rows_shape(g1, a, n);
    lemma_groupings_agree(g1, c1, g2, c2, evs);
    lemma_rows_same_edits(g1, g2, a, n);
    law_groups_partition_events(evs, c2, g2);
    lemma_files_seen(evs, evs.len());
    assert(is_group_of(g1[a as int], evs, c1, fs[a as int]));
    lemma_indices_increasing(evs, fs[a as int], evs.len());
    lemma_indices_bound(evs, fs[a as int], evs.len());
    if sel <= a {
        assert(rows1[sel as int] == (VisibleRow::Header { group: sel }));
        assert(sel == a);
        let f = g1[a as int].file@;
        assert forall|j: int| 0 <= j < a implies g2[j].file@ != f by {
            assert(is_group_of(g2[j], evs, c2, fs[j]));
            assert(is_group_of(g2[a as int], evs, c2, fs[a as int]));
        }
        assert(first_file(g2, f, a as int));
        assert(first_file(g2, f, active as int));
        if active < a {
            assert(g2[active as int].file@ != f);
        }
        if active > a {
            assert(g2[a as int].file@ != f);
        }
    } else if sel <= a + e_len {
        let p = sel - a - 1;
        let e = idx[p];
        assert(rows1[sel as int] == (VisibleRow::Edit { event: e }));
        assert(idx == indices_of(evs, fs[a as int], evs.len()));
        assert(e < evs.len());
        let sv = evs[e as int].source@;
        assert(first_source(evs, sv, e as int));
        assert(src == Some(sv));
        assert(src->0 == sv);
        assert(first_source(evs, src->0, e as int));
        assert(exists|i: int| first_source(evs, src->0, i));
        assert(exists|i: int|
            first_source(evs, sv, i) && g2[active as int].event_idxs@.contains(i as usize)
                && rows_of(g2, active)[row as int] == (VisibleRow::Edit { event: i as usize })
                && forall|j: int| 0 <= j < row ==> rows_of(g2, active)[j] != (VisibleRow::Edit { event: i as usize }));
        let i = choose|i: int|
            first_source(evs, sv, i) && g2[active as int].event_idxs@.contains(i as usize)
                && rows_of(g2, active)[row as int] == (VisibleRow::Edit { event: i as usize })
                && forall|j: int| 0 <= j < row ==> rows_of(g2, active)[j] != (VisibleRow::Edit { event: i as usize });
        if i != e {
            if i < e {
                assert(evs[i].source@ != evs[e as int].source@);
            } else {
                assert(!source_at(evs, e as int, sv));
            }
        }
        assert(i == e);
        assert(g2[a as int].event_idxs@ == idx);
        assert(idx.contains(e));
        assert(g2[a as int].event_idxs@.contains(e));
        assert(active == a);
        assert(rows_of(g2, active) == rows1);
        if row <= a {
            assert(rows1[row as int] == (VisibleRow::Header { group: row }));
        } else if row > a + e_len {
            assert(rows1[row as int] == (VisibleRow::Header { group: (row - e_len) as usize }));
        } else {
            let q = row - a - 1;
            assert(rows1[row as int] == (VisibleRow::Edit { event: idx[q] }));
            if q < p {
                assert(idx[q] < idx[p]);
            } else if q > p {
                assert(idx[p] < idx[q]);
            }
        }
    } else {
        assert(rows1[sel as int] == (VisibleRow::Header { group: (sel - e_len) as usize }));
    }
}

/// Wherever the cursor settles, it is on a row of the list, and a header
/// under it is the expanded file's: the cursor never rests on a folded file.
pub proof fn law_settled_on_active(groups: Seq<FileGroup>, old_active: usize, sel: usize, active: usize, row: usize)
    requires
        groups.len() > 0,
        settled(groups, old_active, sel, active, row),
    ensures
        active < groups.len(),
        row < rows_of(groups, active).len(),
        rows_of(groups, active)[row as int] is Header ==> rows_of(groups, active)[row as int] == (VisibleRow::Header {
            group: active,
        }),
{
    let n = groups.len();
    let a: usize = if old_active < n { old_active } else { (n - 1) as usize };
    law_visible_rows(groups, a, n);
    lemma_rows_headers(groups, a, n);
    let vis = rows_of(groups, a);
    let r: usize = if sel < vis.len() { sel } else { (vis.len() - 1) as usize };
    match vis[r as int] {
        VisibleRow::Header { group } => {
            if group != a {
                lemma_active_header_row(groups, group);
            }
        },
        VisibleRow::Edit { .. } => {},
    }
}

} // verus!
