//! Handoff leases: versions another device was promised, pinned until the
//! lease is settled or runs out.

use vstd::prelude::*;

use crate::durability::{is_root_listing, law_durable_roots_have_one_listing, root_keys};
use crate::error::{Failure, SyncSqliteError};
use crate::file_rows::{is_history, FileIndexRepository, Version};
use crate::file_versions::{is_retained, law_retention_keeps_what_either_bound_covers, pin_keys};
use crate::index_vocabulary::{law_handoff_lease_state_name_round_trips, HandoffLeaseState};
use crate::root_recheck::{answered, roots_stand, Digested, RootDigest};
use crate::rows::{
    any, at_most_one, first_where, in_order, lemma_filter_members, lemma_filter_multiset_next,
    lemma_filter_take_next, lemma_first_where_at, lemma_insert_in_order, lemma_set_where_at,
    lemma_set_where_none, listed_in_order, set_where, views,
};
use crate::stored_rows::copy32;
use crate::text::{join3, str_eq};

verus! {

/// The versions a lease pins, as JSON.
pub uninterp spec fn pins_text(pins: Seq<(Seq<char>, int)>) -> Seq<char>;

/// What a text reads as when taken for a list of pinned versions in JSON, or
/// why it is none.
pub uninterp spec fn pins_of(text: Seq<char>) -> Result<Seq<(Seq<char>, int)>, Seq<char>>;

/// Writes a list of pinned versions by `serde_json::to_string`. A list of
/// strings and integers has no map in it and its parts never refuse, so the
/// call does not fail. The text, a function of the list alone, is named
/// [`pins_text`]; reading it back gives the list.
#[verifier::external_body]
fn encode_pins(pins: &[(String, i64)]) -> (text: String)
    ensures
        text@ == pins_text(pin_keys(pins@)),
        pins_of(text@) is Ok,
        pins_of(text@)->Ok_0 == pin_keys(pins@),
{
    serde_json::to_string(pins).expect("pinned versions are always representable as JSON")
}

/// Reads a list of pinned versions by `serde_json::from_str`. The list, or the
/// text of the error, is a function of the text alone, named [`pins_of`].
#[verifier::external_body]
fn read_pins(text: &str) -> (read: Result<Vec<(String, i64)>, String>)
    ensures
        match read {
            Ok(pins) => pins_of(text@) is Ok && pins_of(text@)->Ok_0 == pin_keys(pins@),
            Err(error) => pins_of(text@) is Err && pins_of(text@)->Err_0 == error@,
        },
{
    serde_json::from_str(text).map_err(|error| error.to_string())
}

/// A version a lease pins: its path and its number.
pub type PinnedVersion = (String, i64);

/// A handoff lease.
#[derive(Debug, PartialEq)]
pub struct HandoffLease {
    pub lease_id: String,
    pub group_id: String,
    pub root_digest: [u8; 32],
    pub state: HandoffLeaseState,
    pub pinned_versions: Vec<PinnedVersion>,
    pub created_at_unix: i64,
    pub expires_at_unix: i64,
}

/// The model of a [`HandoffLease`].
pub struct Lease {
    pub id: Seq<char>,
    pub group: Seq<char>,
    pub digest: Seq<u8>,
    pub state: HandoffLeaseState,
    pub pins: Seq<(Seq<char>, int)>,
    pub created_at: int,
    pub expires_at: int,
}

impl View for HandoffLease {
    type V = Lease;

    open spec fn view(&self) -> Lease {
        Lease {
            id: self.lease_id@,
            group: self.group_id@,
            digest: self.root_digest@,
            state: self.state,
            pins: pin_keys(self.pinned_versions@),
            created_at: self.created_at_unix as int,
            expires_at: self.expires_at_unix as int,
        }
    }
}

/// A lease as its table stores it.
#[derive(Debug, PartialEq)]
pub struct StoredLease {
    pub lease_id: String,
    pub group_id: String,
    pub root_digest: Vec<u8>,
    pub state: String,
    pub pinned_versions_json: String,
    pub created_at_unix: i64,
    pub expires_at_unix: i64,
}

/// The model of a [`StoredLease`].
pub struct LeaseRow {
    pub id: Seq<char>,
    pub group: Seq<char>,
    pub digest: Seq<u8>,
    pub state: Seq<char>,
    pub pins: Seq<char>,
    pub created_at: int,
    pub expires_at: int,
}

impl View for StoredLease {
    type V = LeaseRow;

    open spec fn view(&self) -> LeaseRow {
        LeaseRow {
            id: self.lease_id@,
            group: self.group_id@,
            digest: self.root_digest@,
            state: self.state@,
            pins: self.pinned_versions_json@,
            created_at: self.created_at_unix as int,
            expires_at: self.expires_at_unix as int,
        }
    }
}

/// The lease a row reads as. A digest that is none reads as zeros, a pin list
/// that is none as empty, and an unknown state as provisional.
pub open spec fn lease_of(row: LeaseRow) -> Lease {
    Lease {
        id: row.id,
        group: row.group,
        digest: if row.digest.len() == 32 {
            row.digest
        } else {
            Seq::new(32, |i: int| 0u8)
        },
        state: HandoffLeaseState::of_stored_name(row.state),
        pins: match pins_of(row.pins) {
            Ok(pins) => pins,
            Err(_) => Seq::empty(),
        },
        created_at: row.created_at,
        expires_at: row.expires_at,
    }
}

/// The lease a row reads as, given what its pin list reads as.
pub fn lease_with_pins(row: &StoredLease, read: Result<Vec<(String, i64)>, String>) -> (lease:
    HandoffLease)
    ensures
        lease@ == (Lease {
            id: row@.id,
            group: row@.group,
            digest: if row@.digest.len() == 32 {
                row@.digest
            } else {
                Seq::new(32, |i: int| 0u8)
            },
            state: HandoffLeaseState::of_stored_name(row@.state),
            pins: match read {
                Ok(pins) => pin_keys(pins@),
                Err(_) => Seq::empty(),
            },
            created_at: row@.created_at,
            expires_at: row@.expires_at,
        }),
{
    let root_digest: [u8; 32] = if row.root_digest.len() == 32 {
        copy32(row.root_digest.as_slice())
    } else {
        [0; 32]
    };
    assert(row.root_digest@.len() != 32 ==> root_digest@ =~= Seq::new(32, |i: int| 0u8));
    let pinned_versions: Vec<PinnedVersion> = match read {
        Ok(pins) => pins,
        Err(_) => {
            let none: Vec<PinnedVersion> = Vec::new();
            assert(pin_keys(none@) =~= Seq::empty());
            none
        },
    };
    HandoffLease {
        lease_id: row.lease_id.clone(),
        group_id: row.group_id.clone(),
        root_digest,
        state: HandoffLeaseState::from_db_str(row.state.as_str()),
        pinned_versions,
        created_at_unix: row.created_at_unix,
        expires_at_unix: row.expires_at_unix,
    }
}

/// Reads a lease out of its columns.
pub fn row_to_handoff_lease(row: &StoredLease) -> (lease: HandoffLease)
    ensures
        lease@ == lease_of(row@),
{
    lease_with_pins(row, read_pins(row.pinned_versions_json.as_str()))
}

/// The leases of this device.
pub struct HandoffLeaseRepository {
    pub leases: Vec<StoredLease>,
}

impl View for HandoffLeaseRepository {
    type V = Seq<LeaseRow>;

    open spec fn view(&self) -> Seq<LeaseRow> {
        views(self.leases@)
    }
}

/// Each lease has an id of its own.
pub open spec fn lease_ids_are_unique(leases: Seq<LeaseRow>) -> bool {
    forall|i: int, j: int|
        #![trigger leases[i], leases[j]]
        0 <= i < j < leases.len() ==> leases[i].id != leases[j].id
}

/// The lease has that id.
pub open spec fn is_lease(id: Seq<char>) -> spec_fn(LeaseRow) -> bool {
    |row: LeaseRow| row.id == id
}

/// The lease is of that group.
pub open spec fn is_lease_of(group: Seq<char>) -> spec_fn(LeaseRow) -> bool {
    |row: LeaseRow| row.group == group
}

/// The lease still pins its versions: it is provisional or confirmed, and has
/// not run out.
pub open spec fn is_pinning(group: Seq<char>, now: int) -> spec_fn(LeaseRow) -> bool {
    |row: LeaseRow|
        row.group == group && (row.state == "provisional"@ || row.state == "confirmed"@)
            && row.expires_at > now
}

/// A lease as it is recorded.
pub open spec fn recorded(
    id: Seq<char>,
    group: Seq<char>,
    digest: Seq<u8>,
    pins: Seq<(Seq<char>, int)>,
    created_at: int,
    expires_at: int,
) -> LeaseRow {
    LeaseRow {
        id,
        group,
        digest,
        state: "provisional"@,
        pins: pins_text(pins),
        created_at,
        expires_at,
    }
}

/// The leases with one recorded, in place of an earlier one of the same id.
pub open spec fn with_lease(leases: Seq<LeaseRow>, lease: LeaseRow) -> Seq<LeaseRow> {
    if any(leases, is_lease(lease.id)) {
        set_where(leases, is_lease(lease.id), |row: LeaseRow| lease)
    } else {
        leases.push(lease)
    }
}

/// Older leases come first.
pub open spec fn created_earlier() -> spec_fn(LeaseRow, LeaseRow) -> bool {
    |a: LeaseRow, b: LeaseRow| a.created_at < b.created_at
}

/// The pins of a lease, or why they do not read.
pub open spec fn read_lease_pins(text: Seq<char>) -> Result<Seq<(Seq<char>, int)>, Failure> {
    match pins_of(text) {
        Ok(pins) => Ok(pins),
        Err(error) => Err(Failure::Json(error)),
    }
}

/// All the versions the leases pin, or the first list that does not read.
pub open spec fn all_pins(leases: Seq<LeaseRow>) -> Result<Seq<(Seq<char>, int)>, Failure>
    decreases leases.len(),
{
    if leases.len() == 0 {
        Ok(Seq::empty())
    } else {
        match all_pins(leases.drop_last()) {
            Err(failure) => Err(failure),
            Ok(pins) => match read_lease_pins(leases.last().pins) {
                Err(failure) => Err(failure),
                Ok(more) => Ok(pins + more),
            },
        }
    }
}

/// The list holds exactly the given pins, each once.
pub open spec fn lists_once(list: Seq<(Seq<char>, int)>, pins: Seq<(Seq<char>, int)>) -> bool {
    &&& list.no_duplicates()
    &&& forall|key: (Seq<char>, int)| #[trigger] list.contains(key) <==> pins.contains(key)
}

/// A failure among the first leases fails the whole list.
proof fn lemma_all_pins_fails_early(
    leases: Seq<LeaseRow>,
    pred: spec_fn(LeaseRow) -> bool,
    i: int,
)
    requires
        0 <= i <= leases.len(),
        all_pins(leases.take(i).filter(pred)) is Err,
    ensures
        all_pins(leases.filter(pred)) == all_pins(leases.take(i).filter(pred)),
    decreases leases.len() - i,
{
    if i == leases.len() {
        assert(leases.take(i) =~= leases);
    } else {
        lemma_filter_take_next(leases, pred, i);
        let so_far = leases.take(i).filter(pred);
        if pred(leases[i]) {
            assert(so_far.push(leases[i]).drop_last() =~= so_far);
        }
        lemma_all_pins_fails_early(leases, pred, i + 1);
    }
}

/// Only one lease has the id.
proof fn lemma_one_lease(leases: Seq<LeaseRow>, id: Seq<char>)
    requires
        lease_ids_are_unique(leases),
    ensures
        at_most_one(leases, is_lease(id)),
{
    assert forall|i: int, j: int|
        #![trigger leases[i], leases[j]]
        0 <= i < leases.len() && 0 <= j < leases.len() && is_lease(id)(leases[i]) && is_lease(id)(
            leases[j],
        ) implies i == j by {
        if i < j {
            assert(leases[i].id != leases[j].id);
        } else if j < i {
            assert(leases[j].id != leases[i].id);
        }
    }
}

/// Recording a lease keeps the ids unique and makes the lease the one of its
/// id.
pub proof fn lemma_with_lease(leases: Seq<LeaseRow>, lease: LeaseRow)
    requires
        lease_ids_are_unique(leases),
    ensures
        lease_ids_are_unique(with_lease(leases, lease)),
        first_where(with_lease(leases, lease), is_lease(lease.id)) == Some(lease),
        with_lease(leases, lease).contains(lease),
{
    let pred = is_lease(lease.id);
    let after = with_lease(leases, lease);
    lemma_one_lease(leases, lease.id);
    if any(leases, pred) {
        let k = choose|k: int| #![trigger leases[k]] 0 <= k < leases.len() && pred(leases[k]);
        lemma_set_where_at(leases, pred, |row: LeaseRow| lease, k);
        assert(after == leases.update(k, lease));
        assert forall|i: int, j: int|
            #![trigger after[i], after[j]]
            0 <= i < j < after.len() implies after[i].id != after[j].id by {
            assert(leases[i].id != leases[j].id);
        }
        assert forall|j: int| 0 <= j < k implies !pred(#[trigger] after[j]) by {
            assert(after[j] == leases[j]);
            assert(pred(leases[k]));
        }
        assert(after[k] == lease);
        lemma_first_where_at(after, pred, k);
    } else {
        assert forall|i: int, j: int|
            #![trigger after[i], after[j]]
            0 <= i < j < after.len() implies after[i].id != after[j].id by {
            assert(after[i] == leases[i]);
            if j < leases.len() {
                assert(after[j] == leases[j]);
            } else {
                assert(!pred(leases[i]));
            }
        }
        assert forall|j: int| 0 <= j < leases.len() implies !pred(#[trigger] after[j]) by {
            assert(after[j] == leases[j]);
        }
        assert(after[leases.len() as int] == lease);
        lemma_first_where_at(after, pred, leases.len() as int);
    }
}

/// The refusal of a digest that is not of the roots the group has.
pub open spec fn stale_roots(group: Seq<char>) -> Failure {
    Failure::CorruptState(
        "the durable roots of group "@ + group + " are not those their digest was taken of"@,
    )
}

/// A lease on the listed roots is on record under their digest, or nothing is:
/// where the roots do not read, or are not those the digest was taken of.
pub open spec fn lease_made(
    listed: Seq<Version>,
    mask: u32,
    taken: Digested,
    id: Seq<char>,
    group: Seq<char>,
    created_at: int,
    expires_at: int,
    before: Seq<LeaseRow>,
    after: Seq<LeaseRow>,
    result: Result<([u8; 32], Vec<PinnedVersion>), SyncSqliteError>,
) -> bool {
    match roots_stand(listed, mask, taken) {
        Err(failure) => result is Err && result->Err_0@ == failure && after == before,
        Ok(stand) => if !stand {
            result is Err && result->Err_0@ == stale_roots(group) && after == before
        } else {
            &&& result is Ok
            &&& result->Ok_0.0@ == taken.digest
            &&& pin_keys(result->Ok_0.1@) == root_keys(listed)
            &&& after == with_lease(
                before,
                recorded(id, group, taken.digest, root_keys(listed), created_at, expires_at),
            )
            &&& pins_of(pins_text(root_keys(listed))) is Ok
            &&& pins_of(pins_text(root_keys(listed)))->Ok_0 == root_keys(listed)
        },
    }
}

impl HandoffLeaseRepository {
    /// A device without leases.
    pub fn new() -> (repository: Self)
        ensures
            repository@ == Seq::<LeaseRow>::empty(),
    {
        let repository = HandoffLeaseRepository { leases: Vec::new() };
        assert(repository@ =~= Seq::<LeaseRow>::empty());
        repository
    }

    /// Where the lease of that id stands.
    fn lease_position(&self, lease_id: &str) -> (found: Option<usize>)
        ensures
            match found {
                Some(i) => {
                    &&& i < self.leases@.len()
                    &&& is_lease(lease_id@)(self@[i as int])
                    &&& any(self@, is_lease(lease_id@))
                },
                None => {
                    &&& !any(self@, is_lease(lease_id@))
                    &&& forall|j: int|
                        0 <= j < self@.len() ==> !is_lease(lease_id@)(#[trigger] self@[j])
                },
            },
    {
        let ghost leases = self@;
        let ghost pred = is_lease(lease_id@);
        let mut i: usize = 0;
        while i < self.leases.len()
            invariant
                i <= self.leases@.len(),
                leases == self@,
                pred == is_lease(lease_id@),
                forall|j: int| 0 <= j < i ==> !pred(#[trigger] leases[j]),
            decreases self.leases@.len() - i,
        {
            assert(leases[i as int] == self.leases@[i as int]@);
            if str_eq(self.leases[i].lease_id.as_str(), lease_id) {
                assert(pred(leases[i as int]));
                return Some(i);
            }
            i += 1;
        }
        None
    }

    /// Records a provisional lease, in place of an earlier one of the same id.
    /// Its pins read back as they were given.
    pub fn record_handoff_lease(
        &mut self,
        group_id: &str,
        lease_id: &str,
        root_digest: [u8; 32],
        pinned_versions: &[PinnedVersion],
        created_at_unix: i64,
        expires_at_unix: i64,
    )
        requires
            lease_ids_are_unique(old(self)@),
        ensures
            lease_ids_are_unique(final(self)@),
            final(self)@ == with_lease(
                old(self)@,
                recorded(
                    lease_id@,
                    group_id@,
                    root_digest@,
                    pin_keys(pinned_versions@),
                    created_at_unix as int,
                    expires_at_unix as int,
                ),
            ),
            pins_of(pins_text(pin_keys(pinned_versions@))) is Ok,
            pins_of(pins_text(pin_keys(pinned_versions@)))->Ok_0 == pin_keys(pinned_versions@),
    {
        let ghost leases = self@;
        let pins = encode_pins(pinned_versions);
        let row = StoredLease {
            lease_id: lease_id.to_owned(),
            group_id: group_id.to_owned(),
            root_digest: vstd::slice::slice_to_vec(vstd::array::array_as_slice(&root_digest)),
            state: "provisional".to_owned(),
            pinned_versions_json: pins,
            created_at_unix,
            expires_at_unix,
        };
        let ghost lease = row@;
        proof {
            lemma_with_lease(leases, lease);
            lemma_one_lease(leases, lease_id@);
        }
        match self.lease_position(lease_id) {
            Some(i) => {
                proof {
                    lemma_set_where_at(
                        leases,
                        is_lease(lease_id@),
                        |row: LeaseRow| lease,
                        i as int,
                    );
                }
                self.leases.set(i, row);
                assert(self@ =~= leases.update(i as int, lease));
            },
            None => {
                self.leases.push(row);
                assert(self@ =~= leases.push(lease));
            },
        }
    }

    /// Records a lease on exactly the group's durable roots, under the digest of
    /// them. Roots that do not read, or that are not those the digest was taken
    /// of, leave no lease. The deadline is the caller's.
    pub fn record_handoff_lease_atomic(
        &mut self,
        group_id: &str,
        lease_id: &str,
        created_at_unix: i64,
        expires_at_unix: i64,
        taken: &RootDigest,
        index: &FileIndexRepository,
        mask: u32,
    ) -> (result: Result<([u8; 32], Vec<PinnedVersion>), SyncSqliteError>)
        requires
            lease_ids_are_unique(old(self)@),
            is_history(index@.files),
        ensures
            lease_ids_are_unique(final(self)@),
            exists|listed: Seq<Version>|
                is_root_listing(listed, index@.files, group_id@) && #[trigger] lease_made(
                    listed,
                    mask,
                    taken@,
                    lease_id@,
                    group_id@,
                    created_at_unix as int,
                    expires_at_unix as int,
                    old(self)@,
                    final(self)@,
                    result,
                ),
    {
        let ghost before = self@;
        let stand = index.durability_roots_stand(group_id, mask, taken);
        let ghost listed = choose|listed: Seq<Version>|
            is_root_listing(listed, index@.files, group_id@) && answered(
                #[trigger] roots_stand(listed, mask, taken@),
                stand,
            );
        match stand {
            Err(error) => {
                let result: Result<([u8; 32], Vec<PinnedVersion>), SyncSqliteError> = Err(error);
                assert(lease_made(
                    listed,
                    mask,
                    taken@,
                    lease_id@,
                    group_id@,
                    created_at_unix as int,
                    expires_at_unix as int,
                    before,
                    self@,
                    result,
                ));
                return result;
            },
            Ok(stand) => {
                if !stand {
                    let result: Result<([u8; 32], Vec<PinnedVersion>), SyncSqliteError> = Err(
                        SyncSqliteError::CorruptState(
                            join3(
                                "the durable roots of group ",
                                group_id,
                                " are not those their digest was taken of",
                            ),
                        ),
                    );
                    assert(lease_made(
                        listed,
                        mask,
                        taken@,
                        lease_id@,
                        group_id@,
                        created_at_unix as int,
                        expires_at_unix as int,
                        before,
                        self@,
                        result,
                    ));
                    return result;
                }
            },
        }
        let pinned = index.enumerate_group_durability_root_versions(group_id);
        proof {
            let keyed = choose|keyed: Seq<Version>|
                is_root_listing(keyed, index@.files, group_id@) && pin_keys(pinned@)
                    == #[trigger] root_keys(keyed);
            law_durable_roots_have_one_listing(index@.files, group_id@, listed, keyed);
        }
        self.record_handoff_lease(
            group_id,
            lease_id,
            taken.digest,
            pinned.as_slice(),
            created_at_unix,
            expires_at_unix,
        );
        let result: Result<([u8; 32], Vec<PinnedVersion>), SyncSqliteError> = Ok(
            (taken.digest, pinned),
        );
        assert(lease_made(
            listed,
            mask,
            taken@,
            lease_id@,
            group_id@,
            created_at_unix as int,
            expires_at_unix as int,
            before,
            self@,
            result,
        ));
        result
    }

    /// Moves a lease to another state, and says whether there was one.
    pub fn set_handoff_lease_state(&mut self, lease_id: &str, new_state: HandoffLeaseState) -> (
    changed: bool)
        requires
            lease_ids_are_unique(old(self)@),
        ensures
            lease_ids_are_unique(final(self)@),
            changed == any(old(self)@, is_lease(lease_id@)),
            final(self)@ == set_where(
                old(self)@,
                is_lease(lease_id@),
                with_state(new_state.stored_name()),
            ),
    {
        let ghost leases = self@;
        let ghost pred = is_lease(lease_id@);
        let ghost f = with_state(new_state.stored_name());
        let ghost after = set_where(leases, pred, f);
        proof {
            lemma_one_lease(leases, lease_id@);
            assert forall|i: int, j: int|
                #![trigger after[i], after[j]]
                0 <= i < j < after.len() implies after[i].id != after[j].id by {
                assert(leases[i].id != leases[j].id);
            }
        }
        match self.lease_position(lease_id) {
            None => {
                proof {
                    lemma_set_where_none(leases, pred, f);
                }
                false
            },
            Some(i) => {
                assert(leases[i as int] == self.leases@[i as int]@);
                proof {
                    lemma_set_where_at(leases, pred, f, i as int);
                }
                self.leases[i].state = new_state.as_db_str().to_owned();
                assert(self@ =~= leases.update(i as int, f(leases[i as int])));
                true
            },
        }
    }

    /// The leases of a group, the oldest first.
    pub fn list_handoff_leases_for_group(&self, group_id: &str) -> (listed: Vec<HandoffLease>)
        ensures
            exists|rows: Seq<LeaseRow>|
                listed_in_order(rows, self@, is_lease_of(group_id@), created_earlier())
                    && views(listed@) == #[trigger] leases_of(rows),
    {
        let ghost leases = self@;
        let ghost pred = is_lease_of(group_id@);
        let ghost mut rows: Seq<LeaseRow> = Seq::empty();
        let mut listed: Vec<HandoffLease> = Vec::new();
        let mut i: usize = 0;
        assert(leases.take(0).filter(pred) =~= rows);
        assert(views(listed@) =~= leases_of(rows));
        while i < self.leases.len()
            invariant
                i <= self.leases@.len(),
                leases == self@,
                pred == is_lease_of(group_id@),
                rows.to_multiset() == leases.take(i as int).filter(pred).to_multiset(),
                in_order(rows, created_earlier()),
                views(listed@) == leases_of(rows),
            decreases self.leases@.len() - i,
        {
            assert(leases[i as int] == self.leases@[i as int]@);
            proof {
                lemma_filter_multiset_next(leases, pred, i as int);
            }
            if str_eq(self.leases[i].group_id.as_str(), group_id) {
                let lease = row_to_handoff_lease(&self.leases[i]);
                let ghost made = lease@;
                let ghost row = leases[i as int];
                let ghost before = views(listed@);
                let mut at: usize = 0;
                assert(before.len() == rows.len());
                while at < listed.len() && listed[at].created_at_unix <= lease.created_at_unix
                    invariant
                        at <= listed@.len(),
                        before == views(listed@),
                        before == leases_of(rows),
                        before.len() == rows.len(),
                        made == lease@,
                        made == lease_of(row),
                        forall|k: int|
                            0 <= k < at ==> !created_earlier()(row, #[trigger] rows[k]),
                    decreases listed@.len() - at,
                {
                    assert(before[at as int] == listed@[at as int]@);
                    assert(before[at as int] == lease_of(rows[at as int]));
                    at += 1;
                }
                proof {
                    assert(before.len() == rows.len());
                    assert forall|k: int| at <= k < rows.len() implies !created_earlier()(
                        #[trigger] rows[k],
                        row,
                    ) by {
                        assert(before[at as int] == listed@[at as int]@);
                        assert(before[at as int] == lease_of(rows[at as int]));
                        if k > at {
                            assert(!created_earlier()(rows[k], rows[at as int]));
                        }
                    }
                    lemma_insert_in_order(rows, created_earlier(), at as int, row);
                }
                listed.insert(at, lease);
                proof {
                    assert(views(listed@) =~= before.insert(at as int, made));
                    assert(leases_of(rows.insert(at as int, row)) =~= before.insert(
                        at as int,
                        made,
                    ));
                    rows = rows.insert(at as int, row);
                }
            }
            i += 1;
        }
        assert(leases.take(leases.len() as int) =~= leases);
        listed
    }

    /// The versions of a group that leases still pin, each once. A pin list
    /// that does not read is an error, so that nothing is given up by mistake.
    pub fn leased_version_keys_for_group(&self, group_id: &str, now_unix_seconds: i64) -> (result:
        Result<Vec<PinnedVersion>, SyncSqliteError>)
        ensures
            match all_pins(self@.filter(is_pinning(group_id@, now_unix_seconds as int))) {
                Ok(pins) => result is Ok && lists_once(pin_keys(result->Ok_0@), pins),
                Err(failure) => result is Err && result->Err_0@ == failure,
            },
    {
        let ghost leases = self@;
        let ghost pred = is_pinning(group_id@, now_unix_seconds as int);
        let mut pinned: Vec<PinnedVersion> = Vec::new();
        let mut i: usize = 0;
        assert(leases.take(0).filter(pred) =~= Seq::empty());
        assert(pin_keys(pinned@) =~= Seq::empty());
        while i < self.leases.len()
            invariant
                i <= self.leases@.len(),
                leases == self@,
                pred == is_pinning(group_id@, now_unix_seconds as int),
                all_pins(leases.take(i as int).filter(pred)) is Ok,
                lists_once(
                    pin_keys(pinned@),
                    all_pins(leases.take(i as int).filter(pred))->Ok_0,
                ),
            decreases self.leases@.len() - i,
        {
            assert(leases[i as int] == self.leases@[i as int]@);
            let ghost so_far = leases.take(i as int).filter(pred);
            proof {
                lemma_filter_take_next(leases, pred, i as int);
                assert(so_far.push(leases[i as int]).drop_last() =~= so_far);
            }
            if self.leases[i].expires_at_unix > now_unix_seconds && str_eq(
                self.leases[i].group_id.as_str(),
                group_id,
            ) && (str_eq(self.leases[i].state.as_str(), "provisional") || str_eq(
                self.leases[i].state.as_str(),
                "confirmed",
            )) {
                match read_pins(self.leases[i].pinned_versions_json.as_str()) {
                    Ok(more) => {
                        let ghost earlier = all_pins(so_far)->Ok_0;
                        let ghost added = pin_keys(more@);
                        extend_pins(&mut pinned, more);
                        proof {
                            lemma_members_of_both(earlier, added);
                        }
                    },
                    Err(error) => {
                        proof {
                            lemma_all_pins_fails_early(leases, pred, i + 1);
                        }
                        return Err(SyncSqliteError::Json(error));
                    },
                }
            }
            i += 1;
        }
        assert(leases.take(leases.len() as int) =~= leases);
        Ok(pinned)
    }
}

/// Whether the list holds the version.
fn holds_pin(pinned: &Vec<PinnedVersion>, pin: &PinnedVersion) -> (holds: bool)
    ensures
        holds == pin_keys(pinned@).contains((pin.0@, pin.1 as int)),
{
    let ghost keys = pin_keys(pinned@);
    let ghost wanted = (pin.0@, pin.1 as int);
    let mut i: usize = 0;
    while i < pinned.len()
        invariant
            i <= pinned@.len(),
            keys == pin_keys(pinned@),
            wanted == (pin.0@, pin.1 as int),
            forall|j: int| 0 <= j < i ==> #[trigger] keys[j] != wanted,
        decreases pinned@.len() - i,
    {
        assert(keys[i as int] == (pinned@[i as int].0@, pinned@[i as int].1 as int));
        if pinned[i].1 == pin.1 && str_eq(pinned[i].0.as_str(), pin.0.as_str()) {
            assert(keys[i as int] == wanted);
            return true;
        }
        i += 1;
    }
    false
}

/// Adds the pins that are not in the list yet.
fn extend_pins(pinned: &mut Vec<PinnedVersion>, more: Vec<PinnedVersion>)
    requires
        pin_keys(old(pinned)@).no_duplicates(),
    ensures
        pin_keys(final(pinned)@).no_duplicates(),
        forall|key: (Seq<char>, int)| #[trigger]
            pin_keys(final(pinned)@).contains(key) <==> pin_keys(old(pinned)@).contains(key)
                || pin_keys(more@).contains(key),
{
    let ghost before = pin_keys(pinned@);
    let ghost added = pin_keys(more@);
    let mut i: usize = 0;
    while i < more.len()
        invariant
            i <= more@.len(),
            added == pin_keys(more@),
            pin_keys(pinned@).no_duplicates(),
            forall|key: (Seq<char>, int)| #[trigger]
                pin_keys(pinned@).contains(key) <==> before.contains(key) || added.take(
                    i as int,
                ).contains(key),
        decreases more@.len() - i,
    {
        let ghost so_far = pin_keys(pinned@);
        let ghost next = added[i as int];
        if !holds_pin(pinned, &more[i]) {
            pinned.push((more[i].0.clone(), more[i].1));
            assert(pin_keys(pinned@) =~= so_far.push(next));
        }
        proof {
            assert(added.take(i + 1) =~= added.take(i as int).push(next));
            assert forall|key: (Seq<char>, int)| #[trigger]
                pin_keys(pinned@).contains(key) <==> before.contains(key) || added.take(
                    i + 1,
                ).contains(key) by {
                lemma_contains_pushed(so_far, next, key);
                lemma_contains_pushed(added.take(i as int), next, key);
            }
        }
        i += 1;
    }
    assert(added.take(added.len() as int) =~= added);
}

proof fn lemma_contains_pushed<T>(list: Seq<T>, last: T, item: T)
    ensures
        list.push(last).contains(item) <==> list.contains(item) || item == last,
{
    if list.contains(item) {
        let k = choose|k: int| 0 <= k < list.len() && list[k] == item;
        assert(list.push(last)[k] == item);
    }
    assert(list.push(last)[list.len() as int] == last);
}

proof fn lemma_members_of_both<T>(a: Seq<T>, b: Seq<T>)
    ensures
        forall|item: T| #[trigger] (a + b).contains(item) <==> a.contains(item) || b.contains(item),
{
    assert forall|item: T| #[trigger] (a + b).contains(item) <==> a.contains(item) || b.contains(
        item,
    ) by {
        if a.contains(item) {
            let k = choose|k: int| 0 <= k < a.len() && a[k] == item;
            assert((a + b)[k] == item);
        }
        if b.contains(item) {
            let k = choose|k: int| 0 <= k < b.len() && b[k] == item;
            assert((a + b)[a.len() + k] == item);
        }
    }
}

/// The lease in another state.
pub open spec fn with_state(state: Seq<char>) -> spec_fn(LeaseRow) -> LeaseRow {
    |row: LeaseRow| LeaseRow { state, ..row }
}

/// The leases rows read as.
pub open spec fn leases_of(rows: Seq<LeaseRow>) -> Seq<Lease> {
    rows.map_values(|row: LeaseRow| lease_of(row))
}

/// While a lease is provisional or confirmed and has not run out, every version
/// it pins is among those its group must keep.
pub proof fn law_a_live_lease_pins_its_versions(
    leases: Seq<LeaseRow>,
    lease: LeaseRow,
    now: int,
    key: (Seq<char>, int),
)
    requires
        leases.contains(lease),
        is_pinning(lease.group, now)(lease),
        all_pins(leases.filter(is_pinning(lease.group, now))) is Ok,
        read_lease_pins(lease.pins) is Ok,
        read_lease_pins(lease.pins)->Ok_0.contains(key),
    ensures
        all_pins(leases.filter(is_pinning(lease.group, now)))->Ok_0.contains(key),
{
    let pinning = leases.filter(is_pinning(lease.group, now));
    lemma_filter_members(leases, is_pinning(lease.group, now), lease);
    lemma_pins_are_kept(pinning, lease, key);
}

proof fn lemma_pins_are_kept(leases: Seq<LeaseRow>, lease: LeaseRow, key: (Seq<char>, int))
    requires
        leases.contains(lease),
        all_pins(leases) is Ok,
        read_lease_pins(lease.pins) is Ok,
        read_lease_pins(lease.pins)->Ok_0.contains(key),
    ensures
        all_pins(leases)->Ok_0.contains(key),
    decreases leases.len(),
{
    let shorter = leases.drop_last();
    let before = all_pins(shorter)->Ok_0;
    let more = read_lease_pins(leases.last().pins)->Ok_0;
    let all = all_pins(leases)->Ok_0;
    assert(all == before + more);
    if leases.last() == lease {
        let k = choose|k: int| 0 <= k < more.len() && more[k] == key;
        assert(all[before.len() + k] == key);
    } else {
        let i = choose|i: int| 0 <= i < leases.len() && leases[i] == lease;
        assert(shorter[i] == lease);
        lemma_pins_are_kept(shorter, lease, key);
        let k = choose|k: int| 0 <= k < before.len() && before[k] == key;
        assert(all[k] == key);
    }
}

/// A version a live lease pins survives every retention sweep that is given
/// the group's leased versions.
pub proof fn law_a_leased_version_survives_every_sweep(
    leases: Seq<LeaseRow>,
    lease: LeaseRow,
    now_seconds: int,
    rows: Seq<Version>,
    row: Version,
    now_nanos: int,
    pinned: Seq<(Seq<char>, int)>,
)
    requires
        leases.contains(lease),
        is_pinning(lease.group, now_seconds)(lease),
        all_pins(leases.filter(is_pinning(lease.group, now_seconds))) is Ok,
        lists_once(pinned, all_pins(leases.filter(is_pinning(lease.group, now_seconds)))->Ok_0),
        read_lease_pins(lease.pins) is Ok,
        read_lease_pins(lease.pins)->Ok_0.contains((row.path, row.seq)),
        rows.contains(row),
    ensures
        rows.filter(
            is_retained(rows, lease.group, now_nanos, pinned),
        ).contains(row),
{
    law_a_live_lease_pins_its_versions(leases, lease, now_seconds, (row.path, row.seq));
    law_retention_keeps_what_either_bound_covers(
        rows,
        lease.group,
        now_nanos,
        pinned,
        row,
    );
}

/// A lease that was released or expired, or whose time has run out, pins
/// nothing.
pub proof fn law_a_settled_lease_pins_nothing(lease: LeaseRow, state: HandoffLeaseState, now: int)
    requires
        lease.state == state.stored_name(),
        state is Released || state is Expired || lease.expires_at <= now,
    ensures
        !is_pinning(lease.group, now)(lease),
{
    law_handoff_lease_state_name_round_trips(state);
    law_handoff_lease_state_name_round_trips(HandoffLeaseState::Provisional);
    law_handoff_lease_state_name_round_trips(HandoffLeaseState::Confirmed);
}

} // verus!
