//! To-do items: ownership checks and partial updates.

use vstd::prelude::*;

verus! {

/// An instant in UTC: whole seconds since the Unix epoch and the nanoseconds
/// after them (what `chrono::DateTime<Utc>` holds).
#[derive(Clone, Copy, PartialEq, Eq, Structural)]
pub struct Timestamp {
    pub secs: i64,
    pub nanos: u32,
}

/// A stored to-do item.
pub struct Model {
    pub id: u32,
    pub title: String,
    pub descr: String,
    pub created_at: Option<Timestamp>,
    pub dtime: Timestamp,
    pub uid: u32,
    pub status: String,
}

/// The fields that a request wants changed; the others stay as they are.
pub struct TodoUpdate {
    pub title: Option<String>,
    pub description: Option<String>,
    pub dtime: Option<Timestamp>,
    pub status: Option<String>,
}

pub open spec fn or_keep<T>(new: Option<T>, old: T) -> T {
    match new {
        Some(v) => v,
        None => old,
    }
}

/// The item after the update: every field that the update gives replaces the stored one.
pub open spec fn spec_apply_update(m: Model, u: TodoUpdate) -> Model {
    Model {
        id: m.id,
        title: or_keep(u.title, m.title),
        descr: or_keep(u.description, m.descr),
        created_at: m.created_at,
        dtime: or_keep(u.dtime, m.dtime),
        uid: m.uid,
        status: or_keep(u.status, m.status),
    }
}

/// Applies an update to a stored item.
pub fn apply_update(model: Model, update: TodoUpdate) -> (res: Model)
    ensures
        res == spec_apply_update(model, update),
{
    let Model { id, title, descr, created_at, dtime, uid, status } = model;
    let TodoUpdate { title: new_title, description: new_descr, dtime: new_dtime, status: new_status } =
        update;
    Model {
        id,
        title: match new_title {
            Some(t) => t,
            None => title,
        },
        descr: match new_descr {
            Some(d) => d,
            None => descr,
        },
        created_at,
        dtime: match new_dtime {
            Some(d) => d,
            None => dtime,
        },
        uid,
        status: match new_status {
            Some(s) => s,
            None => status,
        },
    }
}

/// Whether the item `id` is among a user's items (given by their ids).
pub fn owns_todo(owned_ids: &[u32], id: u32) -> (res: bool)
    ensures
        res == owned_ids@.contains(id),
{
    let mut i: usize = 0;
    while i < owned_ids.len()
        invariant
            i <= owned_ids@.len(),
            forall|j: int| 0 <= j < i ==> owned_ids@[j] != id,
        decreases owned_ids.len() - i,
    {
        if owned_ids[i] == id {
            assert(owned_ids@[i as int] == id);
            return true;
        }
        i = i + 1;
    }
    false
}

/// Each field that an update gives replaces the stored one, and each field it
/// leaves out keeps its stored value.
pub proof fn law_given_fields_replace_stored(m: Model, u: TodoUpdate)
    ensures
        u.title matches Some(t) ==> spec_apply_update(m, u).title == t,
        u.title is None ==> spec_apply_update(m, u).title == m.title,
        u.description matches Some(d) ==> spec_apply_update(m, u).descr == d,
        u.description is None ==> spec_apply_update(m, u).descr == m.descr,
        u.dtime matches Some(d) ==> spec_apply_update(m, u).dtime == d,
        u.dtime is None ==> spec_apply_update(m, u).dtime == m.dtime,
        u.status matches Some(st) ==> spec_apply_update(m, u).status == st,
        u.status is None ==> spec_apply_update(m, u).status == m.status,
{
}

/// An update that gives no field leaves the item as it is.
pub proof fn law_empty_update_keeps_item(m: Model)
    ensures
        spec_apply_update(m, TodoUpdate { title: None, description: None, dtime: None, status: None })
            == m,
{
}

/// Applying the same update twice changes nothing more than applying it once.
pub proof fn law_update_is_idempotent(m: Model, u: TodoUpdate)
    ensures
        spec_apply_update(spec_apply_update(m, u), u) == spec_apply_update(m, u),
{
}

/// An update never changes which item it is, whose it is, or when it was created.
pub proof fn law_update_keeps_identity(m: Model, u: TodoUpdate)
    ensures
        spec_apply_update(m, u).id == m.id,
        spec_apply_update(m, u).uid == m.uid,
        spec_apply_update(m, u).created_at == m.created_at,
{
}

} // verus!
