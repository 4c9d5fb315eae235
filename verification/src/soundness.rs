//! Checks of the tables as they are read from storage: whether the rows hold
//! what their keys and constraints guarantee. Every operation that changes a
//! table asks for this; a caller that loads rows makes sure of it here first.

use vstd::prelude::*;

use crate::file_rows::{is_history, same_path, side_tables_are_keyed, FileIndexRepository, Version};
use crate::file_upsert::has_room;
use crate::handoff_lease::{lease_ids_are_unique, HandoffLeaseRepository};
use crate::index_vocabulary::VersionState;
use crate::link::{paths_are_unique, LinkRepository};
use crate::path_key::{path_key, subtree_end_key};
use crate::text::{bytes_eq, str_eq};
use crate::transaction_rows::{holds_its_range, TransactionStore};

verus! {

/// Whether no two transactions share an id.
fn transactions_are_keyed(store: &TransactionStore) -> (keyed: bool)
    ensures
        keyed == (forall|i: int, j: int|
            #![trigger store@.transactions[i], store@.transactions[j]]
            0 <= i < j < store@.transactions.len() ==> !(
                store@.transactions[i].transaction_id == store@.transactions[j].transaction_id)),
{
    let ghost rows = store@.transactions;
    let mut j: usize = 0;
    while j < store.transactions.len()
        invariant
            j <= store.transactions@.len(),
            rows == store@.transactions,
            forall|a: int, b: int|
                #![trigger rows[a], rows[b]]
                0 <= a < b < j ==> !(rows[a].transaction_id == rows[b].transaction_id),
        decreases store.transactions@.len() - j,
    {
        let mut i: usize = 0;
        while i < j
            invariant
                i <= j < store.transactions@.len(),
                rows == store@.transactions,
                forall|a: int|
                    #![trigger rows[a]]
                    0 <= a < i ==> !(rows[a].transaction_id == rows[j as int].transaction_id),
            decreases j - i,
        {
            assert(rows[i as int] == store.transactions@[i as int]@);
            assert(rows[j as int] == store.transactions@[j as int]@);
            if str_eq(
                store.transactions[i].transaction_id.as_str(),
                store.transactions[j].transaction_id.as_str(),
            ) {
                return false;
            }
            i += 1;
        }
        j += 1;
    }
    true
}

/// Whether no two epochs of a transaction share a number.
fn epochs_are_keyed(store: &TransactionStore) -> (keyed: bool)
    ensures
        keyed == (forall|i: int, j: int|
            #![trigger store@.epochs[i], store@.epochs[j]]
            0 <= i < j < store@.epochs.len() ==> !(
                store@.epochs[i].transaction_id == store@.epochs[j].transaction_id
                    && store@.epochs[i].epoch == store@.epochs[j].epoch)),
{
    let ghost rows = store@.epochs;
    let mut j: usize = 0;
    while j < store.epochs.len()
        invariant
            j <= store.epochs@.len(),
            rows == store@.epochs,
            forall|a: int, b: int|
                #![trigger rows[a], rows[b]]
                0 <= a < b < j ==> !(
                    rows[a].transaction_id == rows[b].transaction_id
                        && rows[a].epoch == rows[b].epoch),
        decreases store.epochs@.len() - j,
    {
        let mut i: usize = 0;
        while i < j
            invariant
                i <= j < store.epochs@.len(),
                rows == store@.epochs,
                forall|a: int|
                    #![trigger rows[a]]
                    0 <= a < i ==> !(
                        rows[a].transaction_id == rows[j as int].transaction_id
                            && rows[a].epoch == rows[j as int].epoch),
            decreases j - i,
        {
            assert(rows[i as int] == store.epochs@[i as int]@);
            assert(rows[j as int] == store.epochs@[j as int]@);
            if store.epochs[i].epoch == store.epochs[j].epoch
                && str_eq(
                    store.epochs[i].transaction_id.as_str(),
                    store.epochs[j].transaction_id.as_str(),
                ) {
                return false;
            }
            i += 1;
        }
        j += 1;
    }
    true
}

/// Whether no two reservations share an id.
fn reservations_are_keyed(store: &TransactionStore) -> (keyed: bool)
    ensures
        keyed == (forall|i: int, j: int|
            #![trigger store@.reservations[i], store@.reservations[j]]
            0 <= i < j < store@.reservations.len() ==> !(
                store@.reservations[i].reservation.reservation_id
                    == store@.reservations[j].reservation.reservation_id)),
{
    let ghost rows = store@.reservations;
    let mut j: usize = 0;
    while j < store.reservations.len()
        invariant
            j <= store.reservations@.len(),
            rows == store@.reservations,
            forall|a: int, b: int|
                #![trigger rows[a], rows[b]]
                0 <= a < b < j ==> !(
                    rows[a].reservation.reservation_id == rows[b].reservation.reservation_id),
        decreases store.reservations@.len() - j,
    {
        let mut i: usize = 0;
        while i < j
            invariant
                i <= j < store.reservations@.len(),
                rows == store@.reservations,
                forall|a: int|
                    #![trigger rows[a]]
                    0 <= a < i ==> !(
                        rows[a].reservation.reservation_id
                            == rows[j as int].reservation.reservation_id),
            decreases j - i,
        {
            assert(rows[i as int] == store.reservations@[i as int]@);
            assert(rows[j as int] == store.reservations@[j as int]@);
            if str_eq(
                store.reservations[i].record.reservation_id.as_str(),
                store.reservations[j].record.reservation_id.as_str(),
            ) {
                return false;
            }
            i += 1;
        }
        j += 1;
    }
    true
}

/// Whether every reservation is stored with the key range of its path.
fn reservations_hold_their_ranges(store: &TransactionStore) -> (hold: bool)
    ensures
        hold == (forall|i: int|
            #![trigger store@.reservations[i]]
            0 <= i < store@.reservations.len() ==> holds_its_range(store@.reservations[i])),
{
    let ghost rows = store@.reservations;
    let mut i: usize = 0;
    while i < store.reservations.len()
        invariant
            i <= store.reservations@.len(),
            rows == store@.reservations,
            forall|a: int| #![trigger rows[a]] 0 <= a < i ==> holds_its_range(rows[a]),
        decreases store.reservations@.len() - i,
    {
        assert(rows[i as int] == store.reservations@[i as int]@);
        let stored = &store.reservations[i];
        match path_key(stored.record.path.as_str()) {
            Ok(key) => {
                let end = subtree_end_key(key.as_slice());
                if !bytes_eq(key.as_slice(), stored.path_key.as_slice()) || !bytes_eq(
                    end.as_slice(),
                    stored.subtree_end_key.as_slice(),
                ) {
                    assert(!holds_its_range(rows[i as int]));
                    return false;
                }
            },
            Err(_) => {
                assert(!holds_its_range(rows[i as int]));
                return false;
            },
        }
        i += 1;
    }
    true
}

impl TransactionStore {
    /// Whether the journal's tables hold what their keys guarantee.
    pub fn is_sound(&self) -> (sound: bool)
        ensures
            sound == self@.well_formed(),
    {
        transactions_are_keyed(self) && epochs_are_keyed(self)
            && reservations_hold_their_ranges(self)
            && reservations_are_keyed(self)
    }
}

/// Whether every version is numbered, and only a scaffold is numbered zero.
fn versions_are_numbered(index: &FileIndexRepository) -> (numbered: bool)
    ensures
        numbered == (forall|i: int|
            #![trigger index@.files[i]]
            0 <= i < index@.files.len() ==> index@.files[i].seq >= 0 && (index@.files[i].seq == 0
                ==> index@.files[i].state is Current)),
{
    let ghost rows = index@.files;
    let mut i: usize = 0;
    while i < index.files.len()
        invariant
            i <= index.files@.len(),
            rows == index@.files,
            forall|a: int|
                #![trigger rows[a]]
                0 <= a < i ==> rows[a].seq >= 0 && (rows[a].seq == 0 ==> rows[a].state is Current),
        decreases index.files@.len() - i,
    {
        assert(rows[i as int] == index.files@[i as int]@);
        if index.files[i].version_seq < 0 || (index.files[i].version_seq == 0
            && index.files[i].state != VersionState::Current) {
            return false;
        }
        i += 1;
    }
    true
}

/// Two versions may stand in one table in that order.
pub open spec fn may_stand_together(a: Version, b: Version) -> bool {
    same_path(a, b) ==> {
        &&& a.seq != b.seq
        &&& a.state is Current ==> !(b.state is Current)
        &&& a.state is Current && a.seq > 0 ==> b.seq < a.seq
    }
}

/// Whether the two versions may stand in one table in that order.
fn stand_together(index: &FileIndexRepository, i: usize, j: usize) -> (together: bool)
    requires
        i < index.files@.len(),
        j < index.files@.len(),
    ensures
        together == may_stand_together(index@.files[i as int], index@.files[j as int]),
{
    assert(index@.files[i as int] == index.files@[i as int]@);
    assert(index@.files[j as int] == index.files@[j as int]@);
    let a = &index.files[i];
    let b = &index.files[j];
    if !str_eq(a.group_id.as_str(), b.group_id.as_str()) || !str_eq(
        a.path.as_str(),
        b.path.as_str(),
    ) {
        return true;
    }
    let a_current: bool = a.state == VersionState::Current;
    let b_current: bool = b.state == VersionState::Current;
    a.version_seq != b.version_seq && !(a_current && b_current) && (!a_current || a.version_seq <= 0
        || b.version_seq < a.version_seq)
}

/// Whether each path has one history: its versions numbered apart, at most one
/// of them current, and none after the current one.
fn versions_stand_together(index: &FileIndexRepository) -> (together: bool)
    ensures
        together == (forall|i: int, j: int|
            #![trigger index@.files[i], index@.files[j]]
            0 <= i < index@.files.len() && 0 <= j < index@.files.len() && i != j
                ==> may_stand_together(index@.files[i], index@.files[j])),
{
    let ghost rows = index@.files;
    let mut j: usize = 0;
    while j < index.files.len()
        invariant
            j <= index.files@.len(),
            rows == index@.files,
            index.files@.len() == rows.len(),
            forall|a: int, b: int|
                #![trigger rows[a], rows[b]]
                0 <= a < j && 0 <= b < j && a != b ==> may_stand_together(rows[a], rows[b]),
        decreases index.files@.len() - j,
    {
        let mut i: usize = 0;
        while i < j
            invariant
                i <= j < index.files@.len(),
                rows == index@.files,
                index.files@.len() == rows.len(),
                forall|a: int|
                    #![trigger rows[a]]
                    0 <= a < i ==> may_stand_together(rows[a], rows[j as int])
                        && may_stand_together(rows[j as int], rows[a]),
            decreases j - i,
        {
            if !stand_together(index, i, j) || !stand_together(index, j, i) {
                return false;
            }
            i += 1;
        }
        j += 1;
    }
    true
}

/// Whether no path has two proofs.
fn proofs_are_keyed(index: &FileIndexRepository) -> (keyed: bool)
    ensures
        keyed == (forall|i: int, j: int|
            #![trigger index@.proofs[i], index@.proofs[j]]
            0 <= i < j < index@.proofs.len() ==> !(
                index@.proofs[i].group == index@.proofs[j].group
                    && index@.proofs[i].path == index@.proofs[j].path)),
{
    let ghost rows = index@.proofs;
    let mut j: usize = 0;
    while j < index.proofs.len()
        invariant
            j <= index.proofs@.len(),
            rows == index@.proofs,
            forall|a: int, b: int|
                #![trigger rows[a], rows[b]]
                0 <= a < b < j ==> !(
                    rows[a].group == rows[b].group && rows[a].path == rows[b].path),
        decreases index.proofs@.len() - j,
    {
        let mut i: usize = 0;
        while i < j
            invariant
                i <= j < index.proofs@.len(),
                rows == index@.proofs,
                forall|a: int|
                    #![trigger rows[a]]
                    0 <= a < i ==> !(
                        rows[a].group == rows[j as int].group
                            && rows[a].path == rows[j as int].path),
            decreases j - i,
        {
            assert(rows[i as int] == index.proofs@[i as int]@);
            assert(rows[j as int] == index.proofs@[j as int]@);
            if str_eq(index.proofs[i].group_id.as_str(), index.proofs[j].group_id.as_str())
                && str_eq(index.proofs[i].path.as_str(), index.proofs[j].path.as_str()) {
                return false;
            }
            i += 1;
        }
        j += 1;
    }
    true
}

/// Whether no path has two captures.
fn captures_are_keyed(index: &FileIndexRepository) -> (keyed: bool)
    ensures
        keyed == (forall|i: int, j: int|
            #![trigger index@.captures[i], index@.captures[j]]
            0 <= i < j < index@.captures.len() ==> !(
                index@.captures[i].group == index@.captures[j].group
                    && index@.captures[i].path == index@.captures[j].path)),
{
    let ghost rows = index@.captures;
    let mut j: usize = 0;
    while j < index.captures.len()
        invariant
            j <= index.captures@.len(),
            rows == index@.captures,
            forall|a: int, b: int|
                #![trigger rows[a], rows[b]]
                0 <= a < b < j ==> !(
                    rows[a].group == rows[b].group && rows[a].path == rows[b].path),
        decreases index.captures@.len() - j,
    {
        let mut i: usize = 0;
        while i < j
            invariant
                i <= j < index.captures@.len(),
                rows == index@.captures,
                forall|a: int|
                    #![trigger rows[a]]
                    0 <= a < i ==> !(
                        rows[a].group == rows[j as int].group
                            && rows[a].path == rows[j as int].path),
            decreases j - i,
        {
            assert(rows[i as int] == index.captures@[i as int]@);
            assert(rows[j as int] == index.captures@[j as int]@);
            if str_eq(index.captures[i].group_id.as_str(), index.captures[j].group_id.as_str())
                && str_eq(index.captures[i].path.as_str(), index.captures[j].path.as_str()) {
                return false;
            }
            i += 1;
        }
        j += 1;
    }
    true
}

/// Whether no directory is pinned twice.
fn pins_are_keyed(index: &FileIndexRepository) -> (keyed: bool)
    ensures
        keyed == (forall|i: int, j: int|
            #![trigger index@.pins[i], index@.pins[j]]
            0 <= i < j < index@.pins.len() ==> !(index@.pins[i] == index@.pins[j])),
{
    let ghost rows = index@.pins;
    let mut j: usize = 0;
    while j < index.pinned_directories.len()
        invariant
            j <= index.pinned_directories@.len(),
            rows == index@.pins,
            forall|a: int, b: int|
                #![trigger rows[a], rows[b]]
                0 <= a < b < j ==> !(rows[a] == rows[b]),
        decreases index.pinned_directories@.len() - j,
    {
        let mut i: usize = 0;
        while i < j
            invariant
                i <= j < index.pinned_directories@.len(),
                rows == index@.pins,
                forall|a: int|
                    #![trigger rows[a]]
                    0 <= a < i ==> !(rows[a] == rows[j as int]),
            decreases j - i,
        {
            assert(rows[i as int] == index.pinned_directories@[i as int]@);
            assert(rows[j as int] == index.pinned_directories@[j as int]@);
            if str_eq(
                index.pinned_directories[i].group_id.as_str(),
                index.pinned_directories[j].group_id.as_str(),
            )
                && str_eq(
                    index.pinned_directories[i].prefix.as_str(),
                    index.pinned_directories[j].prefix.as_str(),
                ) {
                return false;
            }
            i += 1;
        }
        j += 1;
    }
    true
}

impl FileIndexRepository {
    /// Whether the index's tables hold what their keys guarantee.
    pub fn is_sound(&self) -> (sound: bool)
        ensures
            sound == self@.well_formed(),
    {
        let numbered: bool = versions_are_numbered(self);
        let together: bool = versions_stand_together(self);
        assert((numbered && together) == is_history(self@.files));
        let proofs: bool = proofs_are_keyed(self);
        let captures: bool = captures_are_keyed(self);
        let pins: bool = pins_are_keyed(self);
        assert((proofs && captures && pins) == side_tables_are_keyed(self@));
        numbered && together && proofs && captures && pins
    }

    /// Whether that many more versions can be numbered.
    pub fn has_room_for(&self, versions: usize) -> (room: bool)
        ensures
            room == has_room(self@.files, versions as int),
    {
        if versions as u128 > i64::MAX as u128 {
            return false;
        }
        let ghost rows = self@.files;
        let mut i: usize = 0;
        while i < self.files.len()
            invariant
                i <= self.files@.len(),
                rows == self@.files,
                versions <= i64::MAX,
                forall|a: int|
                    #![trigger rows[a]]
                    0 <= a < i ==> rows[a].seq + versions <= i64::MAX,
            decreases self.files@.len() - i,
        {
            assert(rows[i as int] == self.files@[i as int]@);
            if self.files[i].version_seq > i64::MAX - versions as i64 {
                return false;
            }
            i += 1;
        }
        true
    }
}

/// Whether no path is linked twice.
fn links_are_keyed(repository: &LinkRepository) -> (keyed: bool)
    ensures
        keyed == (forall|i: int, j: int|
            #![trigger repository@.links[i], repository@.links[j]]
            0 <= i < j < repository@.links.len() ==> !(
                repository@.links[i].path == repository@.links[j].path)),
{
    let ghost rows = repository@.links;
    let mut j: usize = 0;
    while j < repository.links.len()
        invariant
            j <= repository.links@.len(),
            rows == repository@.links,
            forall|a: int, b: int|
                #![trigger rows[a], rows[b]]
                0 <= a < b < j ==> !(rows[a].path == rows[b].path),
        decreases repository.links@.len() - j,
    {
        let mut i: usize = 0;
        while i < j
            invariant
                i <= j < repository.links@.len(),
                rows == repository@.links,
                forall|a: int|
                    #![trigger rows[a]]
                    0 <= a < i ==> !(rows[a].path == rows[j as int].path),
            decreases j - i,
        {
            assert(rows[i as int] == repository.links@[i as int]@);
            assert(rows[j as int] == repository.links@[j as int]@);
            if str_eq(
                repository.links[i].local_path.as_str(),
                repository.links[j].local_path.as_str(),
            ) {
                return false;
            }
            i += 1;
        }
        j += 1;
    }
    true
}

/// Whether no two leases share an id.
fn leases_are_keyed(repository: &HandoffLeaseRepository) -> (keyed: bool)
    ensures
        keyed == (forall|i: int, j: int|
            #![trigger repository@[i], repository@[j]]
            0 <= i < j < repository@.len() ==> !(repository@[i].id == repository@[j].id)),
{
    let ghost rows = repository@;
    let mut j: usize = 0;
    while j < repository.leases.len()
        invariant
            j <= repository.leases@.len(),
            rows == repository@,
            forall|a: int, b: int|
                #![trigger rows[a], rows[b]]
                0 <= a < b < j ==> !(rows[a].id == rows[b].id),
        decreases repository.leases@.len() - j,
    {
        let mut i: usize = 0;
        while i < j
            invariant
                i <= j < repository.leases@.len(),
                rows == repository@,
                forall|a: int|
                    #![trigger rows[a]]
                    0 <= a < i ==> !(rows[a].id == rows[j as int].id),
            decreases j - i,
        {
            assert(rows[i as int] == repository.leases@[i as int]@);
            assert(rows[j as int] == repository.leases@[j as int]@);
            if str_eq(
                repository.leases[i].lease_id.as_str(),
                repository.leases[j].lease_id.as_str(),
            ) {
                return false;
            }
            i += 1;
        }
        j += 1;
    }
    true
}

impl LinkRepository {
    /// Whether the table of links holds what its key guarantees.
    pub fn is_sound(&self) -> (sound: bool)
        ensures
            sound == paths_are_unique(self@.links),
    {
        links_are_keyed(self)
    }
}

impl HandoffLeaseRepository {
    /// Whether the table of leases holds what its key guarantees.
    pub fn is_sound(&self) -> (sound: bool)
        ensures
            sound == lease_ids_are_unique(self@),
    {
        leases_are_keyed(self)
    }
}

} // verus!
