//! The decision-editor surface: resolving a display label and applying the
//! edit to the store.

use crate::db::{
    reflects, spec_label, spec_state_of_label, EntryView, PermissionDB, PermissionEntry,
    PermissionState, StoreError,
};
use vstd::prelude::*;

verus! {

/// The record a decision edit writes: the editor does not re-read the prior
/// permissions before overwriting, so the stored permission list comes out
/// empty.
pub open spec fn edited_entry(app: Seq<char>, state: PermissionState) -> EntryView {
    EntryView { app_name: app, requested_permissions: Seq::empty(), permission_state: state }
}

/// Changes the recorded decision for `app_name` to the state named by
/// `new_label` (exactly one of the three display labels; any other label is
/// a no-op, not an error). The edit replaces the whole record, with an
/// empty permission list. A failed write is reported, never swallowed.
pub fn change_decision(db: &mut PermissionDB, app_name: String, new_label: &str) -> (r: Result<
    (),
    StoreError,
>)
    requires
        old(db).wf(),
    ensures
        final(db).wf(),
        spec_state_of_label(new_label@) is None ==> r is Ok && final(db).entries()
            == old(db).entries(),
        spec_state_of_label(new_label@) matches Some(s) ==> {
            &&& r is Ok ==> final(db).entries() == old(db).entries().insert(
                app_name@,
                edited_entry(app_name@, s),
            )
            &&& r is Err ==> r == Err::<(), StoreError>(StoreError::StorageUnavailable)
                && final(db).entries() == old(db).entries()
        },
{
    let state = match PermissionState::from_label(new_label) {
        Some(s) => s,
        None => {
            return Ok(());
        },
    };
    let entry = PermissionEntry {
        app_name,
        requested_permissions: Vec::new(),
        permission_state: state,
    };
    let r = db.upsert(&entry);
    proof {
        if r is Ok {
            assert(entry@ =~= edited_entry(entry.app_name@, state));
        }
    }
    r
}

/// The joined, human-readable permission list: the permission identifiers
/// in order, separated by a comma and a space.
pub open spec fn spec_joined(ps: Seq<Seq<char>>) -> Seq<char>
    decreases ps.len(),
{
    if ps.len() == 0 {
        Seq::empty()
    } else if ps.len() == 1 {
        ps.last()
    } else {
        spec_joined(ps.drop_last()) + ", "@ + ps.last()
    }
}

/// Joins the permission identifiers for display.
pub fn join_permissions(perms: &Vec<String>) -> (r: String)
    ensures
        r@ == spec_joined(perms.deep_view()),
{
    let ghost pv = perms.deep_view();
    let mut out = String::new();
    let mut i: usize = 0;
    while i < perms.len()
        invariant
            pv == perms.deep_view(),
            i <= perms.len(),
            out@ == spec_joined(pv.take(i as int)),
        decreases perms.len() - i,
    {
        if i > 0 {
            out.append(", ");
        }
        out.append(perms[i].as_str());
        proof {
            assert(pv.take(i as int + 1).drop_last() =~= pv.take(i as int));
            assert(pv.take(i as int + 1).last() == pv[i as int]);
        }
        i += 1;
    }
    proof {
        assert(pv.take(perms.len() as int) =~= pv);
    }
    out
}

/// How display rows correspond to the decoded table: one row per stored
/// identity — the identity, its joined permission list, and its decision
/// label. No order is promised.
pub open spec fn rows_display(
    rows: Seq<(String, String, String)>,
    m: Map<Seq<char>, EntryView>,
) -> bool {
    &&& forall|i: int|
        0 <= i < rows.len() ==> {
            &&& m.dom().contains((#[trigger] rows[i]).0@)
            &&& rows[i].1@ == spec_joined(m[rows[i].0@].requested_permissions)
            &&& rows[i].2@ == spec_label(m[rows[i].0@].permission_state)
        }
    &&& forall|k: Seq<char>|
        #[trigger] m.dom().contains(k) ==> exists|i: int|
            0 <= i < rows.len() && (#[trigger] rows[i]).0@ == k
    &&& forall|i: int, j: int|
        0 <= i < rows.len() && 0 <= j < rows.len() && i != j ==> (#[trigger] rows[i]).0@ != (
        #[trigger] rows[j]).0@
}

/// Reads every stored record and formats it for the editor's view: one row
/// per stored identity, with the joined permission list and the decision
/// label. Fails with `StorageCorrupt` only when the table itself cannot be
/// scanned.
pub fn list_rows(db: &PermissionDB) -> (r: Result<Vec<(String, String, String)>, StoreError>)
    requires
        db.wf(),
    ensures
        r is Ok ==> rows_display(r->Ok_0@, db.entries()),
        r is Err ==> r == Err::<Vec<(String, String, String)>, StoreError>(
            StoreError::StorageCorrupt,
        ),
{
    let entries = match db.get_all() {
        Ok(v) => v,
        Err(e) => {
            return Err(e);
        },
    };
    let mut rows: Vec<(String, String, String)> = Vec::new();
    let mut i: usize = 0;
    while i < entries.len()
        invariant
            reflects(entries@, db.entries()),
            i <= entries.len(),
            rows.len() == i,
            forall|j: int|
                0 <= j < i ==> {
                    &&& (#[trigger] rows@[j]).0@ == entries@[j]@.app_name
                    &&& rows@[j].1@ == spec_joined(entries@[j]@.requested_permissions)
                    &&& rows@[j].2@ == spec_label(entries@[j]@.permission_state)
                },
        decreases entries.len() - i,
    {
        let e = &entries[i];
        let joined = join_permissions(&e.requested_permissions);
        let label = e.permission_state.to_string();
        rows.push((e.app_name.clone(), joined, label));
        i += 1;
    }
    proof {
        lemma_display_rows(entries@, rows@, db.entries());
    }
    Ok(rows)
}

/// Display rows built entry by entry from a read reflect the decoded table.
proof fn lemma_display_rows(
    es: Seq<PermissionEntry>,
    rows: Seq<(String, String, String)>,
    m: Map<Seq<char>, EntryView>,
)
    requires
        reflects(es, m),
        rows.len() == es.len(),
        forall|j: int|
            0 <= j < rows.len() ==> {
                &&& (#[trigger] rows[j]).0@ == es[j]@.app_name
                &&& rows[j].1@ == spec_joined(es[j]@.requested_permissions)
                &&& rows[j].2@ == spec_label(es[j]@.permission_state)
            },
    ensures
        rows_display(rows, m),
{
    assert forall|i: int| 0 <= i < rows.len() implies {
        &&& m.dom().contains((#[trigger] rows[i]).0@)
        &&& rows[i].1@ == spec_joined(m[rows[i].0@].requested_permissions)
        &&& rows[i].2@ == spec_label(m[rows[i].0@].permission_state)
    } by {
        assert(m.contains_pair(es[i]@.app_name, es[i]@));
    }
    assert forall|k: Seq<char>| #[trigger] m.dom().contains(k) implies exists|i: int|
        0 <= i < rows.len() && (#[trigger] rows[i]).0@ == k by {
        let i = choose|i: int| 0 <= i < es.len() && (#[trigger] es[i])@.app_name == k;
        assert(rows[i].0@ == k);
    }
    assert forall|i: int, j: int|
        0 <= i < rows.len() && 0 <= j < rows.len() && i != j implies (#[trigger] rows[i]).0@ != (
    #[trigger] rows[j]).0@ by {
        assert(es[i]@.app_name != es[j]@.app_name);
    }
}

} // verus!
