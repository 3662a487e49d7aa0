//! Workspace labels: which workspaces each monitor shows, and which one is
//! active, as the left part of the bar prints them.

use vstd::prelude::*;
use vstd::string::*;

use crate::scan::{json_i64_field, parse_json_i64_field, parse_workspace_ids, ids_from};
use crate::text::{decimal, push_decimal};

verus! {

// ---------------------------------------------------------------------------
// Sorted, duplicate-free id lists
// ---------------------------------------------------------------------------

pub open spec fn strictly_increasing(r: Seq<i64>) -> bool {
    forall|i: int, j: int| 0 <= i < j < r.len() ==> r[i] < r[j]
}

/// `r` with `x` put in its place, unless `r` already holds it.
pub open spec fn insert_sorted(r: Seq<i64>, x: i64) -> Seq<i64>
    decreases r.len(),
{
    if r.len() == 0 {
        seq![x]
    } else if r.last() == x {
        r
    } else if r.last() < x {
        r.push(x)
    } else {
        insert_sorted(r.drop_last(), x).push(r.last())
    }
}

/// The distinct values of `s` in increasing order, as `sort_unstable`
/// followed by `dedup` leaves them.
pub open spec fn sort_dedup(s: Seq<i64>) -> Seq<i64>
    decreases s.len(),
{
    if s.len() == 0 {
        seq![]
    } else {
        insert_sorted(sort_dedup(s.drop_last()), s.last())
    }
}

proof fn lemma_insert_sorted(r: Seq<i64>, x: i64, k: int)
    requires
        strictly_increasing(r),
        0 <= k <= r.len(),
        forall|i: int| 0 <= i < k ==> r[i] < x,
        k < r.len() ==> r[k] >= x,
    ensures
        insert_sorted(r, x) == (if k < r.len() && r[k] == x {
            r
        } else {
            r.insert(k, x)
        }),
        strictly_increasing(insert_sorted(r, x)),
        insert_sorted(r, x).to_set() == r.to_set().insert(x),
    decreases r.len(),
{
    if r.len() == 0 {
        assert(r.insert(k, x) =~= seq![x]);
        assert(seq![x].to_set() =~= r.to_set().insert(x)) by {
            assert(seq![x][0] == x);
        }
    } else if r.last() == x {
        if k < r.len() - 1 {
            assert(r[k] < r[r.len() - 1]);
        }
        assert(r.to_set() =~= r.to_set().insert(x)) by {
            assert(r.contains(x)) by {
                assert(r[r.len() - 1] == x);
            }
        }
    } else if r.last() < x {
        if k < r.len() {
            if k < r.len() - 1 {
                assert(r[k] < r[r.len() - 1]);
            }
        }
        assert(r.insert(k, x) =~= r.push(x));
        assert(r.push(x).to_set() =~= r.to_set().insert(x)) by {
            assert forall|y: i64| r.push(x).contains(y) implies r.to_set().insert(x).contains(y) by {
                let i = choose|i: int| 0 <= i < r.push(x).len() && r.push(x)[i] == y;
                if i < r.len() {
                    assert(r.contains(y));
                }
            }
            assert forall|y: i64| r.to_set().insert(x).contains(y) implies r.push(
                x,
            ).contains(y) by {
                if y == x {
                    assert(r.push(x)[r.len() as int] == x);
                } else {
                    let i = choose|i: int| 0 <= i < r.len() && r[i] == y;
                    assert(r.push(x)[i] == y);
                }
            }
        }
    } else {
        let d = r.drop_last();
        assert(k <= d.len()) by {
            if k == r.len() {
                assert(r[r.len() - 1] < x);
            }
        }
        lemma_insert_sorted(d, x, k);
        let rest = insert_sorted(d, x);
        if k < d.len() && d[k] == x {
            assert(rest.push(r.last()) =~= r);
        } else {
            assert(rest.push(r.last()) =~= r.insert(k, x));
        }
        let res = insert_sorted(r, x);
        assert(res == rest.push(r.last()));
        assert forall|i: int, j: int| 0 <= i < j < res.len() implies res[i] < res[j] by {
            if j == res.len() - 1 {
                assert(res[j] == r.last());
                if i < rest.len() {
                    assert(rest.to_set().contains(rest[i]));
                    assert(d.to_set().insert(x).contains(rest[i]));
                    if rest[i] != x {
                        let m = choose|m: int| 0 <= m < d.len() && d[m] == rest[i];
                        assert(r[m] < r[r.len() - 1]);
                    }
                }
            }
        }
        assert(res.to_set() =~= r.to_set().insert(x)) by {
            assert forall|y: i64| res.contains(y) implies r.to_set().insert(x).contains(y) by {
                let i = choose|i: int| 0 <= i < res.len() && res[i] == y;
                if i < rest.len() {
                    assert(rest.to_set().contains(y));
                    if y != x {
                        let m = choose|m: int| 0 <= m < d.len() && d[m] == y;
                        assert(r[m] == y);
                    }
                } else {
                    assert(r[r.len() - 1] == y);
                }
            }
            assert forall|y: i64| r.to_set().insert(x).contains(y) implies res.contains(y) by {
                if y == x {
                    assert(rest.to_set().contains(x));
                    let m = choose|m: int| 0 <= m < rest.len() && rest[m] == x;
                    assert(res[m] == x);
                } else {
                    let m = choose|m: int| 0 <= m < r.len() && r[m] == y;
                    if m == r.len() - 1 {
                        assert(res[res.len() - 1] == y);
                    } else {
                        assert(d[m] == y);
                        assert(d.to_set().insert(x).contains(y));
                        assert(rest.to_set().contains(y));
                        let q = choose|q: int| 0 <= q < rest.len() && rest[q] == y;
                        assert(res[q] == y);
                    }
                }
            }
        }
    }
}

/// `sort_dedup` yields a strictly increasing list of exactly the values it
/// was given.
pub proof fn law_sort_dedup_is_sorted_and_keeps_values(s: Seq<i64>)
    ensures
        strictly_increasing(sort_dedup(s)),
        sort_dedup(s).to_set() == s.to_set(),
    decreases s.len(),
{
    if s.len() == 0 {
        assert(s.to_set() =~= Set::<i64>::empty());
        assert(sort_dedup(s).to_set() =~= Set::<i64>::empty());
    } else {
        let d = s.drop_last();
        law_sort_dedup_is_sorted_and_keeps_values(d);
        let r = sort_dedup(d);
        let x = s.last();
        let k = first_not_below(r, x);
        lemma_first_not_below(r, x);
        lemma_insert_sorted(r, x, k);
        assert(s.to_set() =~= d.to_set().insert(x)) by {
            assert(s =~= d.push(x));
            assert forall|y: i64| s.contains(y) implies d.to_set().insert(x).contains(y) by {
                let i = choose|i: int| 0 <= i < s.len() && s[i] == y;
                if i < d.len() {
                    assert(d[i] == y);
                }
            }
            assert forall|y: i64| d.to_set().insert(x).contains(y) implies s.contains(y) by {
                if y == x {
                    assert(s[s.len() - 1] == y);
                } else {
                    let i = choose|i: int| 0 <= i < d.len() && d[i] == y;
                    assert(s[i] == y);
                }
            }
        }
    }
}

/// The number of leading entries of `r` below `x`.
spec fn first_not_below(r: Seq<i64>, x: i64) -> int
    decreases r.len(),
{
    if r.len() == 0 {
        0
    } else if r[0] < x {
        1 + first_not_below(r.drop_first(), x)
    } else {
        0
    }
}

proof fn lemma_first_not_below(r: Seq<i64>, x: i64)
    requires
        strictly_increasing(r),
    ensures
        0 <= first_not_below(r, x) <= r.len(),
        forall|i: int| 0 <= i < first_not_below(r, x) ==> r[i] < x,
        first_not_below(r, x) < r.len() ==> r[first_not_below(r, x)] >= x,
    decreases r.len(),
{
    if r.len() > 0 && r[0] < x {
        let t = r.drop_first();
        lemma_first_not_below(t, x);
        assert forall|i: int| 0 <= i < first_not_below(r, x) implies r[i] < x by {
            if i > 0 {
                assert(r[i] == t[i - 1]);
            }
        }
    }
}

fn insert_unique(r: &mut Vec<i64>, x: i64)
    requires
        strictly_increasing(old(r)@),
    ensures
        final(r)@ == insert_sorted(old(r)@, x),
        strictly_increasing(final(r)@),
{
    let mut k: usize = 0;
    while k < r.len() && r[k] < x
        invariant
            k <= r@.len(),
            forall|i: int| 0 <= i < k ==> r@[i] < x,
        decreases r@.len() - k,
    {
        k += 1;
    }
    proof {
        lemma_insert_sorted(r@, x, k as int);
    }
    if k < r.len() && r[k] == x {
        return;
    }
    r.insert(k, x);
}

/// The distinct values of `ids` in increasing order.
pub fn sorted_unique(ids: &[i64]) -> (out: Vec<i64>)
    ensures
        out@ == sort_dedup(ids@),
{
    let mut out: Vec<i64> = Vec::new();
    let mut i: usize = 0;
    while i < ids.len()
        invariant
            i <= ids@.len(),
            out@ == sort_dedup(ids@.take(i as int)),
        decreases ids@.len() - i,
    {
        proof {
            law_sort_dedup_is_sorted_and_keeps_values(ids@.take(i as int));
        }
        insert_unique(&mut out, ids[i]);
        assert(ids@.take(i + 1).drop_last() =~= ids@.take(i as int));
        i += 1;
    }
    assert(ids@.take(ids@.len() as int) =~= ids@);
    out
}

// ---------------------------------------------------------------------------
// Labels
// ---------------------------------------------------------------------------

/// How one id is printed: in brackets when it is the active one.
pub open spec fn id_token(id: i64, active: Option<i64>) -> Seq<char> {
    if active == Some(id) {
        seq!['['] + decimal(id as int) + seq![']']
    } else {
        decimal(id as int)
    }
}

/// The ids printed one after another, separated by single spaces.
pub open spec fn workspace_label(ids: Seq<i64>, active: Option<i64>) -> Seq<char>
    decreases ids.len(),
{
    if ids.len() == 0 {
        seq![]
    } else if ids.len() == 1 {
        id_token(ids[0], active)
    } else {
        workspace_label(ids.drop_last(), active) + seq![' '] + id_token(ids.last(), active)
    }
}

pub fn format_workspace_label(ids: &[i64], active_id: Option<i64>) -> (s: String)
    ensures
        s@ == workspace_label(ids@, active_id),
{
    let mut s = String::new();
    let mut i: usize = 0;
    while i < ids.len()
        invariant
            i <= ids@.len(),
            s@ == workspace_label(ids@.take(i as int), active_id),
        decreases ids@.len() - i,
    {
        let ghost before = s@;
        if i > 0 {
            s.push(' ');
        }
        let id = ids[i];
        let is_active = match active_id {
            Some(a) => a == id,
            None => false,
        };
        if is_active {
            s.push('[');
            push_decimal(&mut s, id);
            s.push(']');
        } else {
            push_decimal(&mut s, id);
        }
        assert(ids@.take(i + 1).drop_last() =~= ids@.take(i as int));
        if i > 0 {
            assert(s@ =~= before + seq![' '] + id_token(id, active_id));
        } else {
            assert(s@ =~= id_token(id, active_id));
        }
        i += 1;
    }
    assert(ids@.take(ids@.len() as int) =~= ids@);
    s
}

// ---------------------------------------------------------------------------
// Monitors
// ---------------------------------------------------------------------------

/// A monitor as `hyprctl -j monitors` lists it.
pub struct HyprMonitorInfo {
    pub name: String,
    pub active_workspace_id: Option<i64>,
}

/// A workspace as `hyprctl -j workspaces` lists it, when it names its
/// monitor.
pub struct HyprWorkspaceInfo {
    pub id: i64,
    pub monitor: String,
}

/// The active workspace of the first monitor that reports one.
pub open spec fn first_active(monitors: Seq<HyprMonitorInfo>) -> Option<i64>
    decreases monitors.len(),
{
    if monitors.len() == 0 {
        None
    } else if monitors[0].active_workspace_id is Some {
        monitors[0].active_workspace_id
    } else {
        first_active(monitors.drop_first())
    }
}

/// The positive ids of the workspaces on the monitor called `name`, in
/// list order.
pub open spec fn ids_on_monitor(workspaces: Seq<HyprWorkspaceInfo>, name: Seq<char>) -> Seq<i64>
    decreases workspaces.len(),
{
    if workspaces.len() == 0 {
        seq![]
    } else {
        let rest = ids_on_monitor(workspaces.drop_last(), name);
        let w = workspaces.last();
        if w.monitor@ == name && w.id > 0 {
            rest.push(w.id)
        } else {
            rest
        }
    }
}

fn find_first_active(monitors: &[HyprMonitorInfo]) -> (r: Option<i64>)
    ensures
        r == first_active(monitors@),
{
    let mut i: usize = 0;
    assert(monitors@.skip(0) =~= monitors@);
    while i < monitors.len()
        invariant
            i <= monitors@.len(),
            first_active(monitors@) == first_active(monitors@.skip(i as int)),
        decreases monitors@.len() - i,
    {
        assert(monitors@.skip(i as int).drop_first() =~= monitors@.skip(i + 1));
        if let Some(id) = monitors[i].active_workspace_id {
            return Some(id);
        }
        i += 1;
    }
    None
}

fn collect_ids_on_monitor(workspaces: &[HyprWorkspaceInfo], name: &String) -> (out: Vec<i64>)
    ensures
        out@ == ids_on_monitor(workspaces@, name@),
{
    let mut out: Vec<i64> = Vec::new();
    let mut i: usize = 0;
    while i < workspaces.len()
        invariant
            i <= workspaces@.len(),
            out@ == ids_on_monitor(workspaces@.take(i as int), name@),
        decreases workspaces@.len() - i,
    {
        assert(workspaces@.take(i + 1).drop_last() =~= workspaces@.take(i as int));
        let w = &workspaces[i];
        if w.monitor == *name && w.id > 0 {
            out.push(w.id);
        }
        i += 1;
    }
    assert(workspaces@.take(workspaces@.len() as int) =~= workspaces@);
    out
}

/// The ids a monitor shows: that of every listed workspace naming it,
/// wherever the workspace stands in the list, when positive.
pub open spec fn workspace_ids_on(workspaces: Seq<HyprWorkspaceInfo>, name: Seq<char>) -> Set<i64> {
    Set::new(
        |id: i64|
            exists|k: int|
                0 <= k < workspaces.len() && (#[trigger] workspaces[k]).monitor@ == name
                    && workspaces[k].id == id && id > 0,
    )
}

proof fn lemma_ids_on_monitor_set(workspaces: Seq<HyprWorkspaceInfo>, name: Seq<char>)
    ensures
        ids_on_monitor(workspaces, name).to_set() == workspace_ids_on(workspaces, name),
    decreases workspaces.len(),
{
    let ids = ids_on_monitor(workspaces, name);
    if workspaces.len() == 0 {
        assert(ids.to_set() =~= workspace_ids_on(workspaces, name));
    } else {
        let d = workspaces.drop_last();
        lemma_ids_on_monitor_set(d, name);
        let rest = ids_on_monitor(d, name);
        let w = workspaces.last();
        assert forall|id: i64| ids.to_set().contains(id) implies workspace_ids_on(
            workspaces,
            name,
        ).contains(id) by {
            if rest.to_set().contains(id) {
                assert(workspace_ids_on(d, name).contains(id));
                let k = choose|k: int|
                    0 <= k < d.len() && (#[trigger] d[k]).monitor@ == name && d[k].id == id && id
                        > 0;
                assert(workspaces[k] == d[k]);
            } else {
                let i = choose|i: int| 0 <= i < ids.len() && ids[i] == id;
                if i < rest.len() {
                    assert(rest.to_set().contains(rest[i]));
                }
                assert(workspaces[workspaces.len() - 1] == w);
            }
        }
        assert forall|id: i64| workspace_ids_on(workspaces, name).contains(id) implies ids.to_set().contains(
            id,
        ) by {
            let k = choose|k: int|
                0 <= k < workspaces.len() && (#[trigger] workspaces[k]).monitor@ == name
                    && workspaces[k].id == id && id > 0;
            if k < d.len() {
                assert(d[k] == workspaces[k]);
                assert(workspace_ids_on(d, name).contains(id));
                let i = choose|i: int| 0 <= i < rest.len() && rest[i] == id;
                assert(ids[i] == id);
            } else {
                assert(ids[ids.len() - 1] == id);
            }
        }
        assert(ids.to_set() =~= workspace_ids_on(workspaces, name));
    }
}

/// Two strictly increasing lists of the same values are the same list.
proof fn lemma_increasing_determined_by_values(a: Seq<i64>, b: Seq<i64>)
    requires
        strictly_increasing(a),
        strictly_increasing(b),
        a.to_set() == b.to_set(),
    ensures
        a == b,
    decreases a.len(),
{
    if a.len() == 0 {
        if b.len() > 0 {
            assert(b.to_set().contains(b[0]));
        }
        assert(a =~= b);
    } else {
        assert(a.to_set().contains(a.last()));
        assert(b.len() > 0);
        assert(b.to_set().contains(b.last()));
        let x = a.last();
        let y = b.last();
        let j = choose|j: int| 0 <= j < b.len() && b[j] == x;
        let i = choose|i: int| 0 <= i < a.len() && a[i] == y;
        assert(x <= y);
        assert(y <= x);
        let a2 = a.drop_last();
        let b2 = b.drop_last();
        assert forall|v: i64| a2.to_set().contains(v) implies b2.to_set().contains(v) by {
            let p = choose|p: int| 0 <= p < a2.len() && a2[p] == v;
            assert(a[p] == v);
            assert(a.to_set().contains(v));
            let q = choose|q: int| 0 <= q < b.len() && b[q] == v;
            assert(q < b.len() - 1);
            assert(b2[q] == v);
        }
        assert forall|v: i64| b2.to_set().contains(v) implies a2.to_set().contains(v) by {
            let p = choose|p: int| 0 <= p < b2.len() && b2[p] == v;
            assert(b[p] == v);
            assert(b.to_set().contains(v));
            let q = choose|q: int| 0 <= q < a.len() && a[q] == v;
            assert(q < a.len() - 1);
            assert(a2[q] == v);
        }
        assert(a2.to_set() =~= b2.to_set());
        lemma_increasing_determined_by_values(a2, b2);
        assert(a =~= a2.push(x));
        assert(b =~= b2.push(y));
    }
}

/// A monitor's label is made from exactly the distinct positive ids of the
/// workspaces that name it, in increasing order, wherever they stand in
/// the workspace list.
pub proof fn law_monitor_label_lists_its_workspaces(
    active_raw: Seq<u8>,
    list_raw: Seq<u8>,
    monitors: Seq<HyprMonitorInfo>,
    workspaces: Seq<HyprWorkspaceInfo>,
    i: int,
    ids: Seq<i64>,
)
    requires
        0 <= i < monitors.len(),
        strictly_increasing(ids),
        ids.to_set() == workspace_ids_on(workspaces, monitors[i].name@),
    ensures
        ({
            let status = workspace_labels(active_raw, list_raw, monitors, workspaces);
            status.labels[i] == (
                monitors[i].name@,
                monitor_label(ids, monitors[i].active_workspace_id, status.fallback),
            )
        }),
{
    let on = ids_on_monitor(workspaces, monitors[i].name@);
    lemma_ids_on_monitor_set(workspaces, monitors[i].name@);
    law_sort_dedup_is_sorted_and_keeps_values(on);
    lemma_increasing_determined_by_values(sort_dedup(on), ids);
}

/// One monitor's workspace label.
#[derive(Clone, Debug, PartialEq, Eq)]
pub struct MonitorWorkspaceLabel {
    pub monitor: String,
    pub label: String,
}

/// The workspace label of every monitor, and the one to show on a monitor
/// that has none.
#[derive(Clone, Debug, PartialEq, Eq)]
pub struct WorkspaceStatus {
    labels: Vec<MonitorWorkspaceLabel>,
    fallback: String,
}

/// What a `WorkspaceStatus` holds: `(monitor, label)` pairs and the
/// fallback label.
pub struct WorkspaceLabels {
    pub labels: Seq<(Seq<char>, Seq<char>)>,
    pub fallback: Seq<char>,
}

pub open spec fn label_pairs(labels: Seq<MonitorWorkspaceLabel>) -> Seq<(Seq<char>, Seq<char>)> {
    labels.map_values(|l: MonitorWorkspaceLabel| (l.monitor@, l.label@))
}

impl View for WorkspaceStatus {
    type V = WorkspaceLabels;

    closed spec fn view(&self) -> WorkspaceLabels {
        WorkspaceLabels { labels: label_pairs(self.labels@), fallback: self.fallback@ }
    }
}

impl Default for WorkspaceStatus {
    /// No monitor labelled, and an empty fallback.
    fn default() -> (status: Self)
        ensures
            status@.labels == Seq::<(Seq<char>, Seq<char>)>::empty(),
            status@.fallback == Seq::<char>::empty(),
    {
        let status = WorkspaceStatus { labels: Vec::new(), fallback: String::new() };
        assert(label_pairs(status.labels@) =~= Seq::<(Seq<char>, Seq<char>)>::empty());
        status
    }
}

/// The label of the first entry for `name`.
pub open spec fn lookup_label(labels: Seq<(Seq<char>, Seq<char>)>, name: Seq<char>) -> Option<
    Seq<char>,
>
    decreases labels.len(),
{
    if labels.len() == 0 {
        None
    } else if labels[0].0 == name {
        Some(labels[0].1)
    } else {
        lookup_label(labels.drop_first(), name)
    }
}

/// The label shown on the monitor called `name`: its own, or else the
/// fallback.
pub open spec fn label_for(status: WorkspaceLabels, name: Option<Seq<char>>) -> Seq<char> {
    match name {
        Some(n) => match lookup_label(status.labels, n) {
            Some(l) => l,
            None => status.fallback,
        },
        None => status.fallback,
    }
}

/// The placeholder shown when no workspace could be listed.
pub open spec fn default_workspaces_label() -> Seq<char> {
    "[1] 2 3 4 5"@
}

/// The workspace that counts as active: the one `activeworkspace` names,
/// else the first monitor's active one, else workspace 1.
pub open spec fn active_workspace(active_raw: Seq<u8>, monitors: Seq<HyprMonitorInfo>) -> i64 {
    match json_i64_field(active_raw, "id".spec_bytes()) {
        Some(id) => id,
        None => match first_active(monitors) {
            Some(id) => id,
            None => 1,
        },
    }
}

/// The fallback label: every workspace, or the placeholder when none is
/// listed.
pub open spec fn fallback_label(all_ids: Seq<i64>, active: i64) -> Seq<char> {
    if all_ids.len() == 0 {
        default_workspaces_label()
    } else {
        workspace_label(all_ids, Some(active))
    }
}

/// One monitor's label: its workspaces; only its active one when it lists
/// none; the fallback when it has neither.
pub open spec fn monitor_label(ids: Seq<i64>, active: Option<i64>, fallback: Seq<char>) -> Seq<
    char,
> {
    if ids.len() == 0 {
        match active {
            Some(a) => workspace_label(seq![a], active),
            None => fallback,
        }
    } else {
        workspace_label(ids, active)
    }
}

/// What `hyprctl`'s three listings say about the workspaces of each
/// monitor.
pub open spec fn workspace_labels(
    active_raw: Seq<u8>,
    list_raw: Seq<u8>,
    monitors: Seq<HyprMonitorInfo>,
    workspaces: Seq<HyprWorkspaceInfo>,
) -> WorkspaceLabels {
    let fallback = fallback_label(
        sort_dedup(ids_from(list_raw, 0)),
        active_workspace(active_raw, monitors),
    );
    WorkspaceLabels {
        labels: Seq::new(
            monitors.len(),
            |i: int|
                (
                    monitors[i].name@,
                    monitor_label(
                        sort_dedup(ids_on_monitor(workspaces, monitors[i].name@)),
                        monitors[i].active_workspace_id,
                        fallback,
                    ),
                ),
        ),
        fallback,
    }
}

/// Builds the labels from the output of `hyprctl -j activeworkspace`
/// (`active_raw`), of `hyprctl -j workspaces` (`list_raw`), and the parsed
/// monitor and workspace lists.
pub fn format_workspaces(
    active_raw: &str,
    list_raw: &str,
    monitors: &[HyprMonitorInfo],
    workspaces: &[HyprWorkspaceInfo],
) -> (status: WorkspaceStatus)
    ensures
        status@ == workspace_labels(
            active_raw.spec_bytes(),
            list_raw.spec_bytes(),
            monitors@,
            workspaces@,
        ),
{
    let active_id = match parse_json_i64_field(active_raw, "id") {
        Some(id) => id,
        None => match find_first_active(monitors) {
            Some(id) => id,
            None => 1,
        },
    };
    let listed = parse_workspace_ids(list_raw);
    let all_ids = sorted_unique(listed.as_slice());
    let fallback = if all_ids.len() == 0 {
        "[1] 2 3 4 5".to_owned()
    } else {
        format_workspace_label(all_ids.as_slice(), Some(active_id))
    };
    let ghost expected = workspace_labels(
        active_raw.spec_bytes(),
        list_raw.spec_bytes(),
        monitors@,
        workspaces@,
    );
    assert(fallback@ == expected.fallback);
    let mut labels: Vec<MonitorWorkspaceLabel> = Vec::new();
    let mut i: usize = 0;
    while i < monitors.len()
        invariant
            i <= monitors@.len(),
            fallback@ == expected.fallback,
            expected == workspace_labels(
                active_raw.spec_bytes(),
                list_raw.spec_bytes(),
                monitors@,
                workspaces@,
            ),
            label_pairs(labels@) == expected.labels.take(i as int),
        decreases monitors@.len() - i,
    {
        let monitor = &monitors[i];
        let on_monitor = collect_ids_on_monitor(workspaces, &monitor.name);
        let ids = sorted_unique(on_monitor.as_slice());
        let label = if ids.len() == 0 {
            match monitor.active_workspace_id {
                Some(a) => {
                    let single: Vec<i64> = vec![a];
                    assert(single@ =~= seq![a]);
                    format_workspace_label(single.as_slice(), monitor.active_workspace_id)
                },
                None => fallback.clone(),
            }
        } else {
            format_workspace_label(ids.as_slice(), monitor.active_workspace_id)
        };
        assert(label@ == expected.labels[i as int].1);
        let ghost before = labels@;
        let entry = MonitorWorkspaceLabel { monitor: monitor.name.clone(), label };
        assert((entry.monitor@, entry.label@) == expected.labels[i as int]);
        labels.push(entry);
        assert(label_pairs(labels@) =~= label_pairs(before).push((entry.monitor@, entry.label@)));
        assert(label_pairs(labels@) =~= expected.labels.take(i + 1));
        i += 1;
    }
    assert(expected.labels.take(monitors@.len() as int) =~= expected.labels);
    let status = WorkspaceStatus { labels, fallback };
    assert(status@ == expected);
    status
}

impl WorkspaceStatus {
    /// The label to show on the monitor called `monitor_name`.
    pub fn label_for_monitor(&self, monitor_name: Option<&str>) -> (r: &str)
        ensures
            r@ == label_for(
                self@,
                match monitor_name {
                    Some(n) => Some(n@),
                    None => None,
                },
            ),
    {
        if let Some(name) = monitor_name {
            let name_chars = crate::text::chars_of(name);
            let mut i: usize = 0;
            assert(label_pairs(self.labels@).skip(0) =~= label_pairs(self.labels@));
            while i < self.labels.len()
                invariant
                    i <= self.labels@.len(),
                    monitor_name == Some(name),
                    name_chars@ == name@,
                    lookup_label(label_pairs(self.labels@), name@) == lookup_label(
                        label_pairs(self.labels@).skip(i as int),
                        name@,
                    ),
                decreases self.labels@.len() - i,
            {
                assert(label_pairs(self.labels@).skip(i as int).drop_first() =~= label_pairs(
                    self.labels@,
                ).skip(i + 1));
                let entry = &self.labels[i];
                let entry_chars = crate::text::chars_of(entry.monitor.as_str());
                assert(label_pairs(self.labels@).skip(i as int)[0] == (entry.monitor@, entry.label@));
                if crate::text::chars_eq(entry_chars.as_slice(), name_chars.as_slice()) {
                    proof {
                        let rest = label_pairs(self.labels@).skip(i as int);
                        assert(rest.len() > 0);
                        assert(rest[0].0 == name@);
                        assert(lookup_label(rest, name@) == Some(entry.label@));
                        assert(self@.labels == label_pairs(self.labels@));
                    }
                    return entry.label.as_str();
                }
                i += 1;
            }
        }
        self.fallback.as_str()
    }

    /// Whether the two hold the same labels.
    pub fn same_as(&self, other: &WorkspaceStatus) -> (r: bool)
        ensures
            r == (self@ == other@),
    {
        if self.labels.len() != other.labels.len() {
            proof {
                assert(self@.labels.len() != other@.labels.len());
            }
            return false;
        }
        if self.fallback != other.fallback {
            return false;
        }
        let mut i: usize = 0;
        while i < self.labels.len()
            invariant
                i <= self.labels@.len(),
                self.labels@.len() == other.labels@.len(),
                forall|k: int|
                    0 <= k < i ==> #[trigger] label_pairs(self.labels@)[k] == label_pairs(
                        other.labels@,
                    )[k],
            decreases self.labels@.len() - i,
        {
            if self.labels[i].monitor != other.labels[i].monitor || self.labels[i].label
                != other.labels[i].label {
                proof {
                    assert(label_pairs(self.labels@)[i as int] != label_pairs(other.labels@)[i as int]);
                    assert(self@.labels[i as int] != other@.labels[i as int]);
                }
                return false;
            }
            i += 1;
        }
        assert(label_pairs(self.labels@) =~= label_pairs(other.labels@));
        true
    }
}

} // verus!
