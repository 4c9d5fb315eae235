//! What a local edit builds on, and when it settles what was still owed to a
//! path.

use vstd::prelude::*;

use crate::local_emission::named_by;
use crate::error::texts;
use crate::file_rows::VersionHash;
use crate::rows::views;
use crate::text::{bytes_eq, str_eq};
use crate::transaction_rows::ChangeHash;

verus! {

/// What a local edit is emitted onto.
#[derive(Debug, Clone, Copy, PartialEq, Eq, Structural)]
pub enum EditBasis {
    /// The source the edited copy is written through to.
    WriteThrough,
    /// The changes the path's own materialized generation was built from.
    Materialized,
    /// The frontier, without the path's versions this device has not shown.
    Frontier,
}

/// What an edit is emitted onto.
pub open spec fn basis_of(written_through: bool, parents: Option<Vec<ChangeHash>>) -> EditBasis {
    if written_through {
        EditBasis::WriteThrough
    } else {
        match parents {
            Some(parents) => if parents@.len() > 0 {
                EditBasis::Materialized
            } else {
                EditBasis::Frontier
            },
            None => EditBasis::Frontier,
        }
    }
}

/// What an edit is emitted onto, given whether it is written through to a
/// source and what its path's materialized generation was built from.
pub fn edit_basis(written_through: bool, parents: &Option<Vec<ChangeHash>>) -> (basis: EditBasis)
    ensures
        basis == basis_of(written_through, *parents),
{
    if written_through {
        return EditBasis::WriteThrough;
    }
    match parents {
        Some(parents) => {
            if parents.len() > 0 {
                EditBasis::Materialized
            } else {
                EditBasis::Frontier
            }
        },
        None => EditBasis::Frontier,
    }
}

/// How a change is emitted onto the frontier.
#[derive(Debug, Clone, Copy, PartialEq, Eq, Structural)]
pub enum FrontierEmission {
    /// Onto the frontier as it stands.
    Plain,
    /// Onto the frontier cut back to what was shown.
    Onto,
    /// Onto the frontier as it stands, naming the content that was shown.
    Seeing,
    /// Onto the frontier cut back, naming the content that was shown.
    OntoSeeing,
}

/// How a change is emitted onto the frontier.
pub open spec fn emission_of(
    row_path: Seq<char>,
    op_path: Seq<char>,
    is_cut: bool,
) -> FrontierEmission {
    if row_path == op_path {
        if is_cut {
            FrontierEmission::Onto
        } else {
            FrontierEmission::Plain
        }
    } else if is_cut {
        FrontierEmission::OntoSeeing
    } else {
        FrontierEmission::Seeing
    }
}

/// How a change is emitted onto the frontier: cut back where there are unseen
/// versions to leave out, and naming what was shown where the effect is on
/// another path than the row's.
pub fn frontier_emission(row_path: &str, op_path: &str, is_cut: bool) -> (emission: FrontierEmission)
    ensures
        emission == emission_of(row_path@, op_path@, is_cut),
{
    if str_eq(row_path, op_path) {
        if is_cut {
            FrontierEmission::Onto
        } else {
            FrontierEmission::Plain
        }
    } else if is_cut {
        FrontierEmission::OntoSeeing
    } else {
        FrontierEmission::Seeing
    }
}

/// What a path should come to hold.
#[derive(Debug, Clone, Copy, PartialEq, Eq, Structural)]
pub enum DesiredState {
    /// Nothing is known of it.
    Unknown,
    /// A directory that exists only because something is below it.
    StructuralDirectory,
    /// A resolved state of its own.
    Resolved,
}

/// Whether observed absence settles what is owed to a path.
pub open spec fn settles_by_absence(obligation: Option<Seq<char>>) -> bool {
    obligation matches Some(state) && state == "pending"@
}

/// Whether observed content settles what is owed to a path.
pub open spec fn settles_by_presence(
    obligation: Option<Seq<char>>,
    has_conflict_copies: bool,
    desired: DesiredState,
) -> bool {
    (obligation matches Some(state) && state == "pending"@) && !has_conflict_copies && desired
        is Resolved
}

/// Whether a proven absence is held against the path's projection obligation:
/// only while the obligation is pending.
pub fn absence_settles(obligation_state: Option<&str>) -> (settles: bool)
    ensures
        settles == settles_by_absence(named_by(obligation_state)),
{
    match obligation_state {
        Some(state) => str_eq(state, "pending"),
        None => false,
    }
}

/// Whether a proven presence is held against the path's projection obligation:
/// only while the obligation is pending, the path has no conflict copies, and
/// what it should hold is resolved.
pub fn presence_settles(
    obligation_state: Option<&str>,
    has_conflict_copies: bool,
    desired: DesiredState,
) -> (settles: bool)
    ensures
        settles == settles_by_presence(named_by(obligation_state), has_conflict_copies, desired),
{
    let pending: bool = match obligation_state {
        Some(state) => str_eq(state, "pending"),
        None => false,
    };
    let resolved: bool = match desired {
        DesiredState::Resolved => true,
        _ => false,
    };
    pending && !has_conflict_copies && resolved
}

/// A version this device showed at a path.
#[derive(Debug, PartialEq, Eq)]
pub struct SeenVersion {
    pub path: String,
    pub version: VersionHash,
}

/// The model of a [`SeenVersion`].
pub struct Seen {
    pub path: Seq<char>,
    pub version: Seq<u8>,
}

impl View for SeenVersion {
    type V = Seen;

    open spec fn view(&self) -> Seen {
        Seen { path: self.path@, version: self.version.0@ }
    }
}

/// One of the first `n` mutations was shown the version and touches the path.
pub open spec fn is_shown(
    shown: Seq<Option<VersionHash>>,
    touched: Seq<Vec<String>>,
    n: int,
    seen: Seen,
) -> bool {
    exists|i: int|
        #![trigger shown[i]]
        0 <= i < n && (shown[i] matches Some(version) && version.0@ == seen.version) && texts(
            touched[i]@,
        ).contains(seen.path)
}

/// The list holds nothing twice.
pub open spec fn holds_once(list: Seq<Seen>) -> bool {
    forall|i: int, j: int|
        #![trigger list[i], list[j]]
        0 <= i < j < list.len() ==> list[i] != list[j]
}

fn holds_seen(list: &Vec<SeenVersion>, path: &str, version: &VersionHash) -> (holds: bool)
    ensures
        holds == views(list@).contains(Seen { path: path@, version: version.0@ }),
{
    let ghost all = views(list@);
    let ghost wanted = Seen { path: path@, version: version.0@ };
    let mut i: usize = 0;
    while i < list.len()
        invariant
            i <= list@.len(),
            all == views(list@),
            wanted == (Seen { path: path@, version: version.0@ }),
            forall|j: int| 0 <= j < i ==> #[trigger] all[j] != wanted,
        decreases list@.len() - i,
    {
        assert(all[i as int] == list@[i as int]@);
        if str_eq(list[i].path.as_str(), path) && bytes_eq(
            vstd::array::array_as_slice(&list[i].version.0),
            vstd::array::array_as_slice(&version.0),
        ) {
            assert(all[i as int] == wanted);
            return true;
        }
        i += 1;
    }
    false
}

/// The versions mutations were shown, for every path they touch: each pair
/// once.
pub fn versions_shown_to_mutations(
    shown: &[Option<VersionHash>],
    touched: &[Vec<String>],
) -> (seen: Vec<SeenVersion>)
    requires
        shown@.len() == touched@.len(),
    ensures
        holds_once(views(seen@)),
        forall|pair: Seen| #[trigger]
            views(seen@).contains(pair) <==> is_shown(
                shown@,
                touched@,
                shown@.len() as int,
                pair,
            ),
{
    let mut seen: Vec<SeenVersion> = Vec::new();
    let mut i: usize = 0;
    while i < shown.len()
        invariant
            i <= shown@.len(),
            shown@.len() == touched@.len(),
            holds_once(views(seen@)),
            forall|pair: Seen| #[trigger]
                views(seen@).contains(pair) <==> is_shown(shown@, touched@, i as int, pair),
        decreases shown@.len() - i,
    {
        let ghost before = views(seen@);
        match &shown[i] {
            Some(version) => {
                add_seen(&mut seen, &touched[i], version);
            },
            None => {},
        }
        proof {
            assert forall|pair: Seen| #[trigger]
                views(seen@).contains(pair) <==> is_shown(shown@, touched@, i + 1, pair) by {
                assert(before.contains(pair) <==> is_shown(shown@, touched@, i as int, pair));
                if is_shown(shown@, touched@, i as int, pair) {
                    let k = choose|k: int|
                        #![trigger shown@[k]]
                        0 <= k < i && (shown@[k] matches Some(version) && version.0@
                            == pair.version) && texts(touched@[k]@).contains(pair.path);
                    assert(0 <= k < i + 1 && shown@[k] is Some);
                }
                if is_shown(shown@, touched@, i + 1, pair) && !is_shown(
                    shown@,
                    touched@,
                    i as int,
                    pair,
                ) {
                    let k = choose|k: int|
                        #![trigger shown@[k]]
                        0 <= k < i + 1 && (shown@[k] matches Some(version) && version.0@
                            == pair.version) && texts(touched@[k]@).contains(pair.path);
                    assert(k == i);
                }
            }
        }
        i += 1;
    }
    seen
}

/// Adds the version for each of the paths, unless it is there.
fn add_seen(seen: &mut Vec<SeenVersion>, paths: &Vec<String>, version: &VersionHash)
    requires
        holds_once(views(old(seen)@)),
    ensures
        holds_once(views(final(seen)@)),
        forall|pair: Seen| #[trigger]
            views(final(seen)@).contains(pair) <==> views(old(seen)@).contains(pair) || (
            pair.version == version.0@ && texts(paths@).contains(pair.path)),
{
    let ghost first = views(seen@);
    let ghost named = texts(paths@);
    let mut i: usize = 0;
    while i < paths.len()
        invariant
            i <= paths@.len(),
            named == texts(paths@),
            holds_once(views(seen@)),
            forall|pair: Seen| #[trigger]
                views(seen@).contains(pair) <==> first.contains(pair) || (pair.version
                    == version.0@ && named.take(i as int).contains(pair.path)),
        decreases paths@.len() - i,
    {
        let ghost before = views(seen@);
        let ghost made = Seen { path: paths@[i as int]@, version: version.0@ };
        assert(named[i as int] == paths@[i as int]@);
        if !holds_seen(seen, paths[i].as_str(), version) {
            seen.push(SeenVersion { path: paths[i].clone(), version: *version });
            let ghost after = views(seen@);
            proof {
                assert(after =~= before.push(made));
                assert forall|a: int, b: int| #![trigger after[a], after[b]] 0 <= a < b
                    < after.len() implies after[a] != after[b] by {
                    assert(after[a] == before[a]);
                    if b < before.len() {
                        assert(after[b] == before[b]);
                    }
                }
                assert forall|pair: Seen| #[trigger] after.contains(pair) <==> before.contains(
                    pair,
                ) || pair == made by {
                    if before.contains(pair) {
                        let k = choose|k: int| 0 <= k < before.len() && before[k] == pair;
                        assert(after[k] == pair);
                    }
                    assert(after[before.len() as int] == made);
                    if after.contains(pair) {
                        let k = choose|k: int| 0 <= k < after.len() && after[k] == pair;
                        if k < before.len() {
                            assert(before[k] == pair);
                        }
                    }
                }
            }
        }
        proof {
            let shorter = named.take(i as int);
            let longer = named.take(i + 1);
            assert(longer =~= shorter.push(named[i as int]));
            assert forall|pair: Seen| #[trigger]
                views(seen@).contains(pair) <==> first.contains(pair) || (pair.version
                    == version.0@ && longer.contains(pair.path)) by {
                assert(views(seen@).contains(pair) <==> before.contains(pair) || pair == made);
                if shorter.contains(pair.path) {
                    let k = choose|k: int| 0 <= k < shorter.len() && shorter[k] == pair.path;
                    assert(longer[k] == pair.path);
                }
                assert(longer[i as int] == named[i as int]);
                if longer.contains(pair.path) && !shorter.contains(pair.path) {
                    let k = choose|k: int| 0 <= k < longer.len() && longer[k] == pair.path;
                    if k < i {
                        assert(shorter[k] == pair.path);
                    }
                }
            }
        }
        i += 1;
    }
    assert(named.take(named.len() as int) =~= named);
}

} // verus!
