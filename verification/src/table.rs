//! A small map from roles, kept as a list of entries with one entry per role.

use vstd::prelude::*;
use crate::types::Role;

verus! {

/// What the table holds for one role.
pub struct Entry<V> {
    pub role: Role,
    pub value: V,
}

/// The entry at position `i` is the one for `role`.
pub open spec fn at<V>(entries: Seq<Entry<V>>, role: Role, i: int) -> bool {
    0 <= i < entries.len() && entries[i].role == role
}

pub open spec fn present<V>(entries: Seq<Entry<V>>, role: Role) -> bool {
    exists|i: int| at(entries, role, i)
}

/// Where the entry for `role` stands, if there is one.
pub open spec fn position<V>(entries: Seq<Entry<V>>, role: Role) -> int {
    choose|i: int| at(entries, role, i)
}

/// No role has two entries.
pub open spec fn distinct<V>(entries: Seq<Entry<V>>) -> bool {
    forall|i: int, j: int| 0 <= i < j < entries.len() ==> entries[i].role != entries[j].role
}

/// With one entry per role, an entry is found where it stands.
pub proof fn lemma_position<V>(entries: Seq<Entry<V>>, i: int)
    requires
        distinct(entries),
        0 <= i < entries.len(),
    ensures
        present(entries, entries[i].role),
        position(entries, entries[i].role) == i,
{
    let role = entries[i].role;
    assert(at(entries, role, i));
    let k = position(entries, role);
    if k < i {
        assert(entries[k].role != entries[i].role);
    } else if i < k {
        assert(entries[i].role != entries[k].role);
    }
}

/// An entry for a new role, put at the end, is the only change.
pub proof fn lemma_pushed<V>(before: Seq<Entry<V>>, entry: Entry<V>)
    requires
        distinct(before),
        !present(before, entry.role),
    ensures
        distinct(before.push(entry)),
        present(before.push(entry), entry.role),
        position(before.push(entry), entry.role) == before.len(),
        forall|role: Role|
            role != entry.role ==> #[trigger] present(before.push(entry), role) == present(
                before,
                role,
            ),
        forall|role: Role|
            present(before, role) ==> #[trigger] position(before.push(entry), role) == position(
                before,
                role,
            ),
{
    let after = before.push(entry);
    assert forall|i: int, j: int| 0 <= i < j < after.len() implies after[i].role
        != after[j].role by {
        if j == before.len() {
            assert(!at(before, entry.role, i));
        } else {
            assert(before[i].role != before[j].role);
        }
    }
    lemma_position(after, before.len() as int);
    assert forall|role: Role| role != entry.role implies #[trigger] present(after, role) == present(
        before,
        role,
    ) by {
        if present(after, role) {
            assert(at(before, role, position(after, role)));
        }
        if present(before, role) {
            assert(at(after, role, position(before, role)));
        }
    }
    assert forall|role: Role| present(before, role) implies #[trigger] position(after, role)
        == position(before, role) by {
        let k = position(before, role);
        assert(at(after, role, k));
        lemma_position(after, k);
    }
}

/// Changing values, and no role, leaves every entry where it stood.
pub proof fn lemma_same_roles<V>(before: Seq<Entry<V>>, after: Seq<Entry<V>>)
    requires
        distinct(before),
        after.len() == before.len(),
        forall|i: int| 0 <= i < before.len() ==> after[i].role == before[i].role,
    ensures
        distinct(after),
        forall|role: Role| #[trigger] present(after, role) == present(before, role),
        forall|role: Role|
            present(before, role) ==> #[trigger] position(after, role) == position(before, role),
{
    assert forall|i: int, j: int| 0 <= i < j < after.len() implies after[i].role
        != after[j].role by {
        assert(before[i].role != before[j].role);
    }
    assert forall|role: Role| #[trigger] present(after, role) == present(before, role) by {
        if present(after, role) {
            assert(at(before, role, position(after, role)));
        }
        if present(before, role) {
            assert(at(after, role, position(before, role)));
        }
    }
    assert forall|role: Role| present(before, role) implies #[trigger] position(after, role)
        == position(before, role) by {
        let k = position(before, role);
        assert(at(after, role, k));
        lemma_position(after, k);
    }
}

/// Looks for the entry of `role`, from the front.
pub fn find<V>(entries: &Vec<Entry<V>>, role: Role) -> (found: Option<usize>)
    ensures
        match found {
            Some(i) => at(entries@, role, i as int),
            None => !present(entries@, role),
        },
{
    let mut i: usize = 0;
    while i < entries.len()
        invariant
            i <= entries.len(),
            forall|j: int| 0 <= j < i ==> entries[j].role != role,
        decreases entries.len() - i,
    {
        if entries[i].role == role {
            return Some(i);
        }
        i += 1;
    }
    None
}

} // verus!
