//! The closed vocabularies of the file index, the links and the leases.

use vstd::prelude::*;

use crate::text::str_eq;

verus! {

/// What kind of entry a row records.
#[derive(Debug, Clone, Copy, PartialEq, Eq, Structural)]
pub enum RecordKind {
    File,
    Directory,
    Symlink,
}

impl RecordKind {
    /// The stored name.
    pub open spec fn stored_name(self) -> Seq<char> {
        match self {
            RecordKind::File => "file"@,
            RecordKind::Directory => "directory"@,
            RecordKind::Symlink => "symlink"@,
        }
    }

    /// The value a stored name stands for; a name none of the others has reads as
    /// `File`.
    pub open spec fn of_stored_name(name: Seq<char>) -> RecordKind {
        if name == "directory"@ {
            RecordKind::Directory
        } else if name == "symlink"@ {
            RecordKind::Symlink
        } else {
            RecordKind::File
        }
    }

    /// The name the kind is stored by.
    pub fn as_db_str(self) -> (name: &'static str)
        ensures
            name@ == self.stored_name(),
    {
        match self {
            RecordKind::File => "file",
            RecordKind::Directory => "directory",
            RecordKind::Symlink => "symlink",
        }
    }

    /// Reads a stored kind.
    pub fn from_db_str(value: &str) -> (found: Self)
        ensures
            found == RecordKind::of_stored_name(value@),
    {
        if str_eq(value, "directory") {
            RecordKind::Directory
        } else if str_eq(value, "symlink") {
            RecordKind::Symlink
        } else {
            RecordKind::File
        }
    }
}

/// A stored name reads back as the value it was written for.
pub proof fn law_record_kind_name_round_trips(value: RecordKind)
    ensures
        RecordKind::of_stored_name(value.stored_name()) == value,
{
    reveal_strlit("file");
    reveal_strlit("directory");
    reveal_strlit("symlink");
    assert("file"@.len() == 4);
    assert("directory"@.len() == 9);
    assert("symlink"@.len() == 7);
}

/// How much of an entry is on this disk.
#[derive(Debug, Clone, Copy, PartialEq, Eq, Structural)]
pub enum MaterializationState {
    Placeholder,
    Hydrating,
    Hydrated,
}

impl MaterializationState {
    /// The stored name.
    pub open spec fn stored_name(self) -> Seq<char> {
        match self {
            MaterializationState::Placeholder => "placeholder"@,
            MaterializationState::Hydrating => "hydrating"@,
            MaterializationState::Hydrated => "hydrated"@,
        }
    }

    /// The value a stored name stands for; a name none of the others has reads as
    /// `Placeholder`.
    pub open spec fn of_stored_name(name: Seq<char>) -> MaterializationState {
        if name == "hydrating"@ {
            MaterializationState::Hydrating
        } else if name == "hydrated"@ {
            MaterializationState::Hydrated
        } else {
            MaterializationState::Placeholder
        }
    }

    /// The name the state is stored by.
    pub fn as_db_str(self) -> (name: &'static str)
        ensures
            name@ == self.stored_name(),
    {
        match self {
            MaterializationState::Placeholder => "placeholder",
            MaterializationState::Hydrating => "hydrating",
            MaterializationState::Hydrated => "hydrated",
        }
    }

    /// Reads a stored state.
    pub fn from_db_str(value: &str) -> (found: Self)
        ensures
            found == MaterializationState::of_stored_name(value@),
    {
        if str_eq(value, "hydrating") {
            MaterializationState::Hydrating
        } else if str_eq(value, "hydrated") {
            MaterializationState::Hydrated
        } else {
            MaterializationState::Placeholder
        }
    }
}

/// A stored name reads back as the value it was written for.
pub proof fn law_materialization_state_name_round_trips(value: MaterializationState)
    ensures
        MaterializationState::of_stored_name(value.stored_name()) == value,
{
    reveal_strlit("placeholder");
    reveal_strlit("hydrating");
    reveal_strlit("hydrated");
    assert("placeholder"@.len() == 11);
    assert("hydrating"@.len() == 9);
    assert("hydrated"@.len() == 8);
}

/// Whether a folder keeps all of its content on this disk.
#[derive(Debug, Clone, Copy, PartialEq, Eq, Structural)]
pub enum MaterializationPolicy {
    Eager,
    OnDemand,
}

impl MaterializationPolicy {
    /// The stored name.
    pub open spec fn stored_name(self) -> Seq<char> {
        match self {
            MaterializationPolicy::Eager => "eager"@,
            MaterializationPolicy::OnDemand => "on_demand"@,
        }
    }

    /// The value a stored name stands for; a name none of the others has reads as
    /// `Eager`.
    pub open spec fn of_stored_name(name: Seq<char>) -> MaterializationPolicy {
        if name == "on_demand"@ {
            MaterializationPolicy::OnDemand
        } else {
            MaterializationPolicy::Eager
        }
    }

    /// The name the policy is stored by.
    pub fn as_db_str(self) -> (name: &'static str)
        ensures
            name@ == self.stored_name(),
    {
        match self {
            MaterializationPolicy::Eager => "eager",
            MaterializationPolicy::OnDemand => "on_demand",
        }
    }

    /// Reads a stored policy.
    pub fn from_db_str(value: &str) -> (found: Self)
        ensures
            found == MaterializationPolicy::of_stored_name(value@),
    {
        if str_eq(value, "on_demand") {
            MaterializationPolicy::OnDemand
        } else {
            MaterializationPolicy::Eager
        }
    }
}

/// A stored name reads back as the value it was written for.
pub proof fn law_materialization_policy_name_round_trips(value: MaterializationPolicy)
    ensures
        MaterializationPolicy::of_stored_name(value.stored_name()) == value,
{
    reveal_strlit("eager");
    reveal_strlit("on_demand");
    assert("eager"@.len() == 5);
    assert("on_demand"@.len() == 9);
}

/// Where a row stands in its path's history.
#[derive(Debug, Clone, Copy, PartialEq, Eq, Structural)]
pub enum VersionState {
    Current,
    Superseded,
    Trashed,
}

impl VersionState {
    /// The stored name.
    pub open spec fn stored_name(self) -> Seq<char> {
        match self {
            VersionState::Current => "current"@,
            VersionState::Superseded => "superseded"@,
            VersionState::Trashed => "trashed"@,
        }
    }

    /// The value a stored name stands for.
    pub open spec fn of_stored_name(name: Seq<char>) -> Option<VersionState> {
        if name == "current"@ {
            Some(VersionState::Current)
        } else if name == "superseded"@ {
            Some(VersionState::Superseded)
        } else if name == "trashed"@ {
            Some(VersionState::Trashed)
        } else {
            None
        }
    }

    /// The name the state is stored by.
    pub fn as_db_str(self) -> (name: &'static str)
        ensures
            name@ == self.stored_name(),
    {
        match self {
            VersionState::Current => "current",
            VersionState::Superseded => "superseded",
            VersionState::Trashed => "trashed",
        }
    }

    /// Reads a stored state.
    pub fn try_from_db_str(value: &str) -> (found: Option<VersionState>)
        ensures
            found == VersionState::of_stored_name(value@),
    {
        if str_eq(value, "current") {
            Some(VersionState::Current)
        } else if str_eq(value, "superseded") {
            Some(VersionState::Superseded)
        } else if str_eq(value, "trashed") {
            Some(VersionState::Trashed)
        } else {
            None
        }
    }
}

/// A stored name reads back as the value it was written for.
pub proof fn law_version_state_name_round_trips(value: VersionState)
    ensures
        VersionState::of_stored_name(value.stored_name()) == Some(value),
{
    reveal_strlit("current");
    reveal_strlit("superseded");
    reveal_strlit("trashed");
    assert("current"@.len() == 7);
    assert("superseded"@.len() == 10);
    assert("trashed"@.len() == 7);
    assert("trashed"@[0] != "current"@[0]);
}

/// Where a handoff lease stands.
#[derive(Debug, Clone, Copy, PartialEq, Eq, Structural)]
pub enum HandoffLeaseState {
    Provisional,
    Confirmed,
    Released,
    Expired,
}

impl HandoffLeaseState {
    /// The stored name.
    pub open spec fn stored_name(self) -> Seq<char> {
        match self {
            HandoffLeaseState::Provisional => "provisional"@,
            HandoffLeaseState::Confirmed => "confirmed"@,
            HandoffLeaseState::Released => "released"@,
            HandoffLeaseState::Expired => "expired"@,
        }
    }

    /// The value a stored name stands for; a name none of the others has reads as
    /// `Provisional`.
    pub open spec fn of_stored_name(name: Seq<char>) -> HandoffLeaseState {
        if name == "confirmed"@ {
            HandoffLeaseState::Confirmed
        } else if name == "released"@ {
            HandoffLeaseState::Released
        } else if name == "expired"@ {
            HandoffLeaseState::Expired
        } else {
            HandoffLeaseState::Provisional
        }
    }

    /// The name the state is stored by.
    pub fn as_db_str(self) -> (name: &'static str)
        ensures
            name@ == self.stored_name(),
    {
        match self {
            HandoffLeaseState::Provisional => "provisional",
            HandoffLeaseState::Confirmed => "confirmed",
            HandoffLeaseState::Released => "released",
            HandoffLeaseState::Expired => "expired",
        }
    }

    /// Reads a stored state.
    pub fn from_db_str(value: &str) -> (found: Self)
        ensures
            found == HandoffLeaseState::of_stored_name(value@),
    {
        if str_eq(value, "confirmed") {
            HandoffLeaseState::Confirmed
        } else if str_eq(value, "released") {
            HandoffLeaseState::Released
        } else if str_eq(value, "expired") {
            HandoffLeaseState::Expired
        } else {
            HandoffLeaseState::Provisional
        }
    }
}

/// A stored name reads back as the value it was written for.
pub proof fn law_handoff_lease_state_name_round_trips(value: HandoffLeaseState)
    ensures
        HandoffLeaseState::of_stored_name(value.stored_name()) == value,
{
    reveal_strlit("provisional");
    reveal_strlit("confirmed");
    reveal_strlit("released");
    reveal_strlit("expired");
    assert("provisional"@.len() == 11);
    assert("confirmed"@.len() == 9);
    assert("released"@.len() == 8);
    assert("expired"@.len() == 7);
}

} // verus!
