//! A model of the registry of installations, and what the planned steps do to it.
//!
//! The registry is a list of rows; the steps that touch it are `AddVersion`,
//! `SetPathAndCurrent` and `RemoveVersionsNamed`. The laws below say that no command
//! leaves two installations active, and that `use` leaves exactly the chosen one active.

use vstd::prelude::*;

use crate::commands::{
    active_dir, add_steps, in_base, version_dir_name, import_steps, install_steps, move_out_steps, uninstall_steps, use_steps,
    PathView, PhpVersionView, StepView,
};

verus! {

/// One row of the registry.
pub struct Row {
    pub id: i32,
    pub version: Seq<char>,
    pub location: PathView,
    pub is_current: bool,
}

/// The rows without those of version `v`, in order.
pub open spec fn without_version(rows: Seq<Row>, v: Seq<char>) -> Seq<Row>
    decreases rows.len(),
{
    if rows.len() == 0 {
        rows
    } else {
        let front = without_version(rows.drop_last(), v);
        if rows.last().version == v {
            front
        } else {
            front.push(rows.last())
        }
    }
}

/// The rows after one step; `new_id` is the identifier a newly added row receives.
pub open spec fn apply_step(rows: Seq<Row>, s: StepView, new_id: i32) -> Seq<Row> {
    match s {
        StepView::SetPathAndCurrent(id, p, c) => Seq::new(
            rows.len(),
            |i: int|
                if rows[i].id == id {
                    Row { id: rows[i].id, version: rows[i].version, location: p, is_current: c }
                } else {
                    rows[i]
                },
        ),
        StepView::AddVersion(v, p, c) => rows.push(Row { id: new_id, version: v, location: p, is_current: c }),
        StepView::RemoveVersionsNamed(v) => without_version(rows, v),
        _ => rows,
    }
}

/// The rows after the steps, in order.
pub open spec fn apply_steps(rows: Seq<Row>, steps: Seq<StepView>, new_id: i32) -> Seq<Row>
    decreases steps.len(),
{
    if steps.len() == 0 {
        rows
    } else {
        apply_steps(apply_step(rows, steps[0], new_id), steps.drop_first(), new_id)
    }
}

/// At most one row is active.
pub open spec fn at_most_one_current(rows: Seq<Row>) -> bool {
    forall|i: int, j: int|
        0 <= i < rows.len() && 0 <= j < rows.len() && #[trigger] rows[i].is_current
            && #[trigger] rows[j].is_current ==> i == j
}

/// No two rows share an identifier.
pub open spec fn unique_ids(rows: Seq<Row>) -> bool {
    forall|i: int, j: int|
        0 <= i < rows.len() && 0 <= j < rows.len() && #[trigger] rows[i].id == #[trigger] rows[j].id
            ==> i == j
}

/// `v` is what the registry holds in some row (the row that a lookup returned).
pub open spec fn row_of(rows: Seq<Row>, v: PhpVersionView) -> bool {
    exists|k: int| 0 <= k < rows.len() && rows[k].id == v.id && rows[k].version == v.version
        && rows[k].is_current == v.is_current
}

/// `current` is what a lookup of the active row returns: that row, or nothing when no row is active.
pub open spec fn is_current_lookup(rows: Seq<Row>, current: Option<PhpVersionView>) -> bool {
    match current {
        Some(c) => c.is_current && row_of(rows, c),
        None => forall|k: int| 0 <= k < rows.len() ==> !(#[trigger] rows[k]).is_current,
    }
}

/// A step that marks an installation active.
pub open spec fn activates(s: StepView) -> bool {
    match s {
        StepView::SetPathAndCurrent(_, _, c) => c,
        StepView::AddVersion(_, _, c) => c,
        _ => false,
    }
}

/// Applying steps one list after another is applying the joined list.
pub proof fn lemma_apply_concat(rows: Seq<Row>, a: Seq<StepView>, b: Seq<StepView>, new_id: i32)
    ensures
        apply_steps(rows, a + b, new_id) == apply_steps(apply_steps(rows, a, new_id), b, new_id),
    decreases a.len(),
{
    if a.len() > 0 {
        assert((a + b).drop_first() =~= a.drop_first() + b);
        assert((a + b)[0] == a[0]);
        lemma_apply_concat(apply_step(rows, a[0], new_id), a.drop_first(), b, new_id);
    } else {
        assert(a + b =~= b);
    }
}

proof fn lemma_without_version_subset(rows: Seq<Row>, v: Seq<char>)
    ensures
        forall|i: int| 0 <= i < without_version(rows, v).len() ==> rows.contains(#[trigger] without_version(rows, v)[i]),
        without_version(rows, v).len() <= rows.len(),
    decreases rows.len(),
{
    if rows.len() > 0 {
        lemma_without_version_subset(rows.drop_last(), v);
        let front = without_version(rows.drop_last(), v);
        assert forall|i: int| 0 <= i < without_version(rows, v).len() implies rows.contains(
            #[trigger] without_version(rows, v)[i],
        ) by {
            if i < front.len() {
                let x = front[i];
                assert(rows.drop_last().contains(x));
                let k = choose|k: int| 0 <= k < rows.drop_last().len() && rows.drop_last()[k] == x;
                assert(rows[k] == x);
            } else {
                assert(rows[rows.len() - 1] == without_version(rows, v)[i]);
            }
        }
    }
}

/// Removing rows never makes two rows active, nor two rows share an identifier.
proof fn lemma_without_version_keeps(rows: Seq<Row>, v: Seq<char>)
    requires
        at_most_one_current(rows),
    ensures
        at_most_one_current(without_version(rows, v)),
    decreases rows.len(),
{
    if rows.len() > 0 {
        let front_rows = rows.drop_last();
        assert(at_most_one_current(front_rows)) by {
            assert forall|i: int, j: int|
                0 <= i < front_rows.len() && 0 <= j < front_rows.len() && #[trigger] front_rows[i].is_current
                    && #[trigger] front_rows[j].is_current implies i == j by {
                assert(rows[i] == front_rows[i] && rows[j] == front_rows[j]);
            }
        }
        lemma_without_version_keeps(front_rows, v);
        lemma_without_version_subset(front_rows, v);
        let front = without_version(front_rows, v);
        let all = without_version(rows, v);
        if rows.last().version != v {
            assert forall|i: int, j: int|
                0 <= i < all.len() && 0 <= j < all.len() && #[trigger] all[i].is_current
                    && #[trigger] all[j].is_current implies i == j by {
                if i < front.len() && j == front.len() {
                    let k = choose|k: int| 0 <= k < front_rows.len() && front_rows[k] == front[i];
                    assert(rows[k] == front[i]);
                    assert(rows[rows.len() - 1] == all[j]);
                } else if j < front.len() && i == front.len() {
                    let k = choose|k: int| 0 <= k < front_rows.len() && front_rows[k] == front[j];
                    assert(rows[k] == front[j]);
                    assert(rows[rows.len() - 1] == all[i]);
                } else if i < front.len() && j < front.len() {
                    assert(all[i] == front[i] && all[j] == front[j]);
                }
            }
        }
    }
}

/// Steps that activate nothing leave at most one row active.
pub proof fn lemma_no_activation_keeps_single(rows: Seq<Row>, steps: Seq<StepView>, new_id: i32)
    requires
        at_most_one_current(rows),
        forall|i: int| 0 <= i < steps.len() ==> !activates(#[trigger] steps[i]),
    ensures
        at_most_one_current(apply_steps(rows, steps, new_id)),
    decreases steps.len(),
{
    if steps.len() > 0 {
        let next = apply_step(rows, steps[0], new_id);
        assert(!activates(steps[0]));
        match steps[0] {
            StepView::SetPathAndCurrent(id, p, c) => {
                assert forall|i: int, j: int|
                    0 <= i < next.len() && 0 <= j < next.len() && #[trigger] next[i].is_current
                        && #[trigger] next[j].is_current implies i == j by {
                    assert(next[i] == rows[i] || !next[i].is_current);
                    assert(next[j] == rows[j] || !next[j].is_current);
                }
            },
            StepView::AddVersion(v, p, c) => {
                assert forall|i: int, j: int|
                    0 <= i < next.len() && 0 <= j < next.len() && #[trigger] next[i].is_current
                        && #[trigger] next[j].is_current implies i == j by {
                    if i < rows.len() && j < rows.len() {
                        assert(next[i] == rows[i] && next[j] == rows[j]);
                    }
                }
            },
            StepView::RemoveVersionsNamed(v) => {
                lemma_without_version_keeps(rows, v);
            },
            _ => {},
        }
        let rest = steps.drop_first();
        assert forall|i: int| 0 <= i < rest.len() implies !activates(#[trigger] rest[i]) by {
            assert(rest[i] == steps[i + 1]);
        }
        lemma_no_activation_keeps_single(next, rest, new_id);
    }
}

/// `add` leaves at most one installation active.
pub proof fn lemma_add_keeps_single_active(
    rows: Seq<Row>,
    version: Seq<char>,
    path: Seq<char>,
    registered: bool,
    source_exists: bool,
    new_id: i32,
)
    requires
        at_most_one_current(rows),
    ensures
        at_most_one_current(apply_steps(rows, add_steps(version, path, registered, source_exists), new_id)),
{
    let steps = add_steps(version, path, registered, source_exists);
    assert forall|i: int| 0 <= i < steps.len() implies !activates(#[trigger] steps[i]) by {}
    lemma_no_activation_keeps_single(rows, steps, new_id);
}

/// `uninstall` leaves at most one installation active.
pub proof fn lemma_uninstall_keeps_single_active(
    rows: Seq<Row>,
    requested: Seq<char>,
    target: Option<PhpVersionView>,
    path_exists: bool,
    new_id: i32,
)
    requires
        at_most_one_current(rows),
    ensures
        at_most_one_current(apply_steps(rows, uninstall_steps(requested, target, path_exists), new_id)),
{
    let steps = uninstall_steps(requested, target, path_exists);
    assert forall|i: int| 0 <= i < steps.len() implies !activates(#[trigger] steps[i]) by {}
    lemma_no_activation_keeps_single(rows, steps, new_id);
}

/// `uninstall` refuses the active installation: the registry is left as it was.
pub proof fn lemma_uninstall_spares_active(
    rows: Seq<Row>,
    requested: Seq<char>,
    target: PhpVersionView,
    path_exists: bool,
    new_id: i32,
)
    requires
        target.is_current,
    ensures
        apply_steps(rows, uninstall_steps(requested, Some(target), path_exists), new_id) == rows,
{
    let steps = uninstall_steps(requested, Some(target), path_exists);
    assert(steps.len() == 1);
    assert(apply_steps(rows, steps.drop_first(), new_id) == rows);
}


/// `install` leaves at most one installation active.
pub proof fn lemma_install_keeps_single_active(
    rows: Seq<Row>,
    requested: Seq<char>,
    chosen: Option<(Seq<char>, Seq<char>)>,
    new_id: i32,
)
    requires
        at_most_one_current(rows),
    ensures
        at_most_one_current(apply_steps(rows, install_steps(requested, chosen), new_id)),
{
    let steps = install_steps(requested, chosen);
    assert forall|i: int| 0 <= i < steps.len() implies !activates(#[trigger] steps[i]) by {}
    lemma_no_activation_keeps_single(rows, steps, new_id);
}

/// Importing an installation during `setup` leaves at most one installation active.
pub proof fn lemma_import_keeps_single_active(
    rows: Seq<Row>,
    version: Seq<char>,
    dir: Seq<char>,
    registered: bool,
    dest_exists: bool,
    new_id: i32,
)
    requires
        at_most_one_current(rows),
    ensures
        at_most_one_current(apply_steps(rows, import_steps(version, dir, registered, dest_exists), new_id)),
{
    let steps = import_steps(version, dir, registered, dest_exists);
    assert forall|i: int| 0 <= i < steps.len() implies !activates(#[trigger] steps[i]) by {}
    lemma_no_activation_keeps_single(rows, steps, new_id);
}

/// A step that changes the registry.
pub open spec fn touches_registry(s: StepView) -> bool {
    s is SetPathAndCurrent || s is AddVersion || s is RemoveVersionsNamed
}

/// Steps that do not touch the registry leave it as it was.
pub proof fn lemma_apply_untouched(rows: Seq<Row>, steps: Seq<StepView>, new_id: i32)
    requires
        forall|i: int| 0 <= i < steps.len() ==> !touches_registry(#[trigger] steps[i]),
    ensures
        apply_steps(rows, steps, new_id) == rows,
    decreases steps.len(),
{
    if steps.len() > 0 {
        let rest = steps.drop_first();
        assert(!touches_registry(steps[0]));
        assert forall|i: int| 0 <= i < rest.len() implies !touches_registry(#[trigger] rest[i]) by {
            assert(rest[i] == steps[i + 1]);
        }
        lemma_apply_untouched(rows, rest, new_id);
    }
}

/// The rows after marking those with identifier `id` as located at `p` and active or not.
pub open spec fn set_row(rows: Seq<Row>, id: i32, p: PathView, c: bool) -> Seq<Row> {
    apply_step(rows, StepView::SetPathAndCurrent(id, p, c), 0)
}

proof fn lemma_apply_then_set(rows: Seq<Row>, quiet: Seq<StepView>, id: i32, p: PathView, c: bool, new_id: i32)
    requires
        forall|i: int| 0 <= i < quiet.len() ==> !touches_registry(#[trigger] quiet[i]),
    ensures
        apply_steps(rows, quiet + seq![StepView::SetPathAndCurrent(id, p, c)], new_id) == set_row(rows, id, p, c),
{
    lemma_apply_concat(rows, quiet, seq![StepView::SetPathAndCurrent(id, p, c)], new_id);
    lemma_apply_untouched(rows, quiet, new_id);
    let one = seq![StepView::SetPathAndCurrent(id, p, c)];
    assert(one.drop_first() =~= Seq::<StepView>::empty());
    let next = apply_step(rows, one[0], new_id);
    assert(apply_steps(next, one.drop_first(), new_id) == next);
    assert(apply_steps(rows, one, new_id) == apply_steps(next, one.drop_first(), new_id));
    assert(next =~= set_row(rows, id, p, c));
}

/// What retiring the active installation does to the registry.
proof fn lemma_move_out_effect(rows: Seq<Row>, current: Option<PhpVersionView>, current_exists: bool, new_id: i32)
    ensures
        apply_steps(rows, move_out_steps(current, current_exists), new_id) == match current {
            Some(c) => set_row(rows, c.id, crate::commands::in_base(crate::commands::version_dir_name(c.version)), false),
            None => rows,
        },
{
    match current {
        None => {
            assert(move_out_steps(current, current_exists) =~= Seq::<StepView>::empty());
        },
        Some(c) => {
            let dest = crate::commands::in_base(crate::commands::version_dir_name(c.version));
            let quiet = seq![StepView::ReportMove(false, c.path, dest)] + (if current_exists {
                seq![StepView::Rename(crate::commands::stored_path(c.path), dest)]
            } else {
                Seq::<StepView>::empty()
            }) + seq![StepView::ReportMove(true, c.path, dest)];
            assert(move_out_steps(current, current_exists) =~= quiet + seq![
                StepView::SetPathAndCurrent(c.id, dest, false),
            ]);
            assert forall|i: int| 0 <= i < quiet.len() implies !touches_registry(#[trigger] quiet[i]) by {}
            lemma_apply_then_set(rows, quiet, c.id, dest, false, new_id);
        },
    }
}

/// After `use` switches to `target`: exactly the rows with the target's identifier are
/// active and they are located in the active directory `php`; the rows of the previously
/// active installation are located in `php<its version>`; every other row keeps its
/// location and its flag; and every row keeps its identifier and version.
pub proof fn lemma_use_activates_target(
    rows: Seq<Row>,
    requested: Seq<char>,
    target: PhpVersionView,
    current: Option<PhpVersionView>,
    current_exists: bool,
    new_id: i32,
)
    requires
        at_most_one_current(rows),
        is_current_lookup(rows, current),
        !target.is_current,
    ensures
        ({
            let after = apply_steps(rows, use_steps(requested, Some(target), true, current, current_exists), new_id);
            &&& after.len() == rows.len()
            &&& forall|i: int| 0 <= i < after.len() ==> (#[trigger] after[i]).id == rows[i].id && after[i].version == rows[i].version
            &&& forall|i: int| 0 <= i < after.len() ==> ((#[trigger] after[i]).is_current <==> after[i].id == target.id)
            &&& forall|i: int| 0 <= i < after.len() && (#[trigger] after[i]).id == target.id ==> after[i].location == active_dir()
            &&& forall|i: int|
                0 <= i < after.len() && (#[trigger] after[i]).id != target.id ==> match current {
                    Some(c) => if after[i].id == c.id {
                        after[i].location == in_base(version_dir_name(c.version))
                    } else {
                        after[i].location == rows[i].location && after[i].is_current == rows[i].is_current
                    },
                    None => after[i].location == rows[i].location && after[i].is_current == rows[i].is_current,
                }
        }),
{
    let head = seq![StepView::Say("Using version "@ + target.path)];
    let mid = move_out_steps(current, current_exists);
    let tail = seq![
        StepView::Rename(crate::commands::stored_path(target.path), active_dir()),
        StepView::SetPathAndCurrent(target.id, active_dir(), true),
        StepView::Say("Using version "@ + target.version),
        StepView::RunSetup,
    ];
    let steps = use_steps(requested, Some(target), true, current, current_exists);
    assert(steps == head + mid + tail);
    lemma_apply_concat(rows, head + mid, tail, new_id);
    lemma_apply_concat(rows, head, mid, new_id);
    lemma_apply_untouched(rows, head, new_id);
    lemma_move_out_effect(rows, current, current_exists, new_id);
    let m = apply_steps(rows, mid, new_id);
    // Nothing is active once the previous installation is retired.
    assert forall|k: int| 0 <= k < m.len() implies !(#[trigger] m[k]).is_current by {
        match current {
            Some(c) => {
                let j = choose|j: int| 0 <= j < rows.len() && rows[j].id == c.id && rows[j].version == c.version
                    && rows[j].is_current == c.is_current;
                if rows[k].is_current {
                    assert(rows[j].is_current);
                    assert(k == j);
                }
            },
            None => {
                assert(!rows[k].is_current);
            },
        }
    }
    let front = seq![StepView::Rename(crate::commands::stored_path(target.path), active_dir())];
    let back = seq![StepView::Say("Using version "@ + target.version), StepView::RunSetup];
    assert(tail =~= (front + seq![StepView::SetPathAndCurrent(target.id, active_dir(), true)]) + back);
    lemma_apply_concat(m, front + seq![StepView::SetPathAndCurrent(target.id, active_dir(), true)], back, new_id);
    assert forall|i: int| 0 <= i < front.len() implies !touches_registry(#[trigger] front[i]) by {}
    lemma_apply_then_set(m, front, target.id, active_dir(), true, new_id);
    let s = set_row(m, target.id, active_dir(), true);
    assert forall|i: int| 0 <= i < back.len() implies !touches_registry(#[trigger] back[i]) by {}
    lemma_apply_untouched(s, back, new_id);
    // Rows other than the target keep what the retirement step left them.
    assert forall|i: int| 0 <= i < s.len() && s[i].id != target.id implies s[i] == m[i] by {}
}

/// `use` leaves at most one installation active.
pub proof fn lemma_use_keeps_single_active(
    rows: Seq<Row>,
    requested: Seq<char>,
    target: Option<PhpVersionView>,
    target_exists: bool,
    current: Option<PhpVersionView>,
    current_exists: bool,
    new_id: i32,
)
    requires
        at_most_one_current(rows),
        unique_ids(rows),
        is_current_lookup(rows, current),
    ensures
        at_most_one_current(apply_steps(rows, use_steps(requested, target, target_exists, current, current_exists), new_id)),
{
    let steps = use_steps(requested, target, target_exists, current, current_exists);
    match target {
        Some(t) => {
            if !t.is_current && target_exists {
                lemma_use_activates_target(rows, requested, t, current, current_exists, new_id);
                let after = apply_steps(rows, steps, new_id);
                assert forall|i: int, j: int|
                    0 <= i < after.len() && 0 <= j < after.len() && #[trigger] after[i].is_current
                        && #[trigger] after[j].is_current implies i == j by {
                    assert(rows[i].id == after[i].id && rows[j].id == after[j].id);
                }
            } else {
                assert forall|i: int| 0 <= i < steps.len() implies !touches_registry(#[trigger] steps[i]) by {}
                lemma_apply_untouched(rows, steps, new_id);
            }
        },
        None => {
            assert forall|i: int| 0 <= i < steps.len() implies !touches_registry(#[trigger] steps[i]) by {}
            lemma_apply_untouched(rows, steps, new_id);
        },
    }
}

/// Using a version a second time changes nothing: once `use` has switched to the target,
/// the registry's rows for it are active, so a later `use` that finds one of them only
/// reports that it is in use and leaves the registry as it is.
pub proof fn lemma_use_twice_changes_nothing(
    rows: Seq<Row>,
    requested: Seq<char>,
    target: PhpVersionView,
    current: Option<PhpVersionView>,
    current_exists: bool,
    again: PhpVersionView,
    again_exists: bool,
    later_current: Option<PhpVersionView>,
    later_current_exists: bool,
    new_id: i32,
)
    requires
        at_most_one_current(rows),
        is_current_lookup(rows, current),
        !target.is_current,
        row_of(apply_steps(rows, use_steps(requested, Some(target), true, current, current_exists), new_id), again),
        again.id == target.id,
    ensures
        ({
            let after = apply_steps(rows, use_steps(requested, Some(target), true, current, current_exists), new_id);
            apply_steps(after, use_steps(requested, Some(again), again_exists, later_current, later_current_exists), new_id) == after
        }),
{
    lemma_use_activates_target(rows, requested, target, current, current_exists, new_id);
    let after = apply_steps(rows, use_steps(requested, Some(target), true, current, current_exists), new_id);
    let k = choose|k: int| 0 <= k < after.len() && after[k].id == again.id && after[k].version == again.version
        && after[k].is_current == again.is_current;
    assert(after[k].is_current);
    let steps = use_steps(requested, Some(again), again_exists, later_current, later_current_exists);
    assert forall|i: int| 0 <= i < steps.len() implies !touches_registry(#[trigger] steps[i]) by {}
    lemma_apply_untouched(after, steps, new_id);
}

} // verus!
