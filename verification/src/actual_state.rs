//! What this device proved to stand at a path, and which change it last read
//! off its own disk there.

use vstd::prelude::*;

use crate::file_metadata::{
    claim_stripped, column_changed, strip_carried_forward_hydrated_in_tx, with_materialization,
};
use crate::file_rows::{
    copy_hashes, side_tables_are_keyed, Capture, CaptureRow, FileIndex, FileIndexRepository,
    MaterializedObjectKind, Proof, ProofRow, VersionHash,
};
use crate::file_upsert::same_hash;
use crate::identity::FileIdentity;
use crate::index_vocabulary::{MaterializationState, RecordKind};
use crate::rows::{
    any, at_most_one, first_where, lemma_first_where_at, lemma_first_where_none, lemma_set_where_at,
    lemma_set_where_none, set_where,
};
use crate::text::str_eq;
use crate::transaction_rows::ChangeHash;

verus! {

/// The proof is about that path.
pub open spec fn is_proof_at(group: Seq<char>, path: Seq<char>) -> spec_fn(Proof) -> bool {
    |row: Proof| row.group == group && row.path == path
}

/// The capture is of that path.
pub open spec fn is_capture_at(group: Seq<char>, path: Seq<char>) -> spec_fn(Capture) -> bool {
    |row: Capture| row.group == group && row.path == path
}

/// The proofs with a new one for its path.
pub open spec fn with_proof(proofs: Seq<Proof>, proof: Proof) -> Seq<Proof> {
    if any(proofs, is_proof_at(proof.group, proof.path)) {
        set_where(proofs, is_proof_at(proof.group, proof.path), |row: Proof| proof)
    } else {
        proofs.push(proof)
    }
}

/// The proofs with the path's own no longer usable, though still on record.
pub open spec fn with_retired_proof(
    proofs: Seq<Proof>,
    group: Seq<char>,
    path: Seq<char>,
) -> Seq<Proof> {
    set_where(proofs, is_proof_at(group, path), |row: Proof| Proof { usable: false, ..row })
}

/// The captures with a new one for its path.
pub open spec fn with_capture(captures: Seq<Capture>, capture: Capture) -> Seq<Capture> {
    if any(captures, is_capture_at(capture.group, capture.path)) {
        set_where(
            captures,
            is_capture_at(capture.group, capture.path),
            |row: Capture| capture,
        )
    } else {
        captures.push(capture)
    }
}

/// Whether the change is the last that was captured at the path.
pub open spec fn is_captured_as(
    captures: Seq<Capture>,
    group: Seq<char>,
    path: Seq<char>,
    hash: Seq<u8>,
) -> bool {
    first_where(captures, is_capture_at(group, path)) matches Some(row) && row.change.0@ == hash
}

/// The kind of object a record of that kind puts on disk.
pub open spec fn object_of(kind: RecordKind) -> MaterializedObjectKind {
    match kind {
        RecordKind::File => MaterializedObjectKind::RegularFile,
        RecordKind::Directory => MaterializedObjectKind::Directory,
        RecordKind::Symlink => MaterializedObjectKind::Symlink,
    }
}

/// The proof that a version stands at a path, made on the group's heads.
pub open spec fn present_proof(
    group: Seq<char>,
    path: Seq<char>,
    kind: RecordKind,
    version: VersionHash,
    identity: FileIdentity,
    heads: Seq<ChangeHash>,
) -> Proof {
    Proof {
        group,
        path,
        object_kind: object_of(kind),
        version: Some(version),
        identity: Some(identity),
        basis: heads,
        usable: true,
    }
}

/// The proof that nothing stands at a path, made on the group's heads. Absence
/// has no version.
pub open spec fn absent_proof(
    group: Seq<char>,
    path: Seq<char>,
    heads: Seq<ChangeHash>,
) -> Proof {
    Proof {
        group,
        path,
        object_kind: MaterializedObjectKind::Absent,
        version: None,
        identity: None,
        basis: heads,
        usable: true,
    }
}

/// The proof of a path that a reader may rely on.
pub open spec fn usable_proof(proofs: Seq<Proof>, group: Seq<char>, path: Seq<char>) -> Option<
    Proof,
> {
    match first_where(proofs, is_proof_at(group, path)) {
        Some(proof) => if proof.usable {
            Some(proof)
        } else {
            None
        },
        None => None,
    }
}

/// The index after absence is proven: the proof is published and the current
/// version claims no content.
pub open spec fn proven_absent(
    index: FileIndex,
    group: Seq<char>,
    path: Seq<char>,
    heads: Seq<ChangeHash>,
) -> FileIndex {
    claim_stripped(
        FileIndex { proofs: with_proof(index.proofs, absent_proof(group, path, heads)), ..index },
        group,
        path,
    )
}

/// The index after a version moved the path on without a proof: the last proof
/// is retired and the current version claims no content.
pub open spec fn unproven(index: FileIndex, group: Seq<char>, path: Seq<char>) -> FileIndex {
    claim_stripped(
        FileIndex { proofs: with_retired_proof(index.proofs, group, path), ..index },
        group,
        path,
    )
}

/// The index after presence is proven: the proof is published and the current
/// version is materialized.
pub open spec fn proven_present(
    index: FileIndex,
    group: Seq<char>,
    path: Seq<char>,
    kind: RecordKind,
    version: VersionHash,
    identity: FileIdentity,
    heads: Seq<ChangeHash>,
) -> FileIndex {
    column_changed(
        FileIndex {
            proofs: with_proof(
                index.proofs,
                present_proof(group, path, kind, version, identity, heads),
            ),
            ..index
        },
        group,
        path,
        with_materialization(MaterializationState::Hydrated),
    )
}

/// A path has at most one proof.
proof fn lemma_one_proof(index: FileIndex, group: Seq<char>, path: Seq<char>)
    requires
        side_tables_are_keyed(index),
    ensures
        at_most_one(index.proofs, is_proof_at(group, path)),
{
    let rows = index.proofs;
    let pred = is_proof_at(group, path);
    assert forall|i: int, j: int|
        #![trigger rows[i], rows[j]]
        0 <= i < rows.len() && 0 <= j < rows.len() && pred(rows[i]) && pred(rows[j]) implies i
        == j by {
        if i < j {
            assert(!(rows[i].group == rows[j].group && rows[i].path == rows[j].path));
        } else if j < i {
            assert(!(rows[j].group == rows[i].group && rows[j].path == rows[i].path));
        }
    }
}

/// A path has at most one capture.
proof fn lemma_one_capture(index: FileIndex, group: Seq<char>, path: Seq<char>)
    requires
        side_tables_are_keyed(index),
    ensures
        at_most_one(index.captures, is_capture_at(group, path)),
{
    let rows = index.captures;
    let pred = is_capture_at(group, path);
    assert forall|i: int, j: int|
        #![trigger rows[i], rows[j]]
        0 <= i < rows.len() && 0 <= j < rows.len() && pred(rows[i]) && pred(rows[j]) implies i
        == j by {
        if i < j {
            assert(!(rows[i].group == rows[j].group && rows[i].path == rows[j].path));
        } else if j < i {
            assert(!(rows[j].group == rows[i].group && rows[j].path == rows[i].path));
        }
    }
}

/// Publishing a proof keeps one per path.
pub proof fn lemma_with_proof_is_keyed(index: FileIndex, proof: Proof)
    requires
        side_tables_are_keyed(index),
    ensures
        side_tables_are_keyed(FileIndex { proofs: with_proof(index.proofs, proof), ..index }),
        usable_proof(with_proof(index.proofs, proof), proof.group, proof.path) == if proof.usable {
            Some(proof)
        } else {
            None
        },
{
    let rows = index.proofs;
    let pred = is_proof_at(proof.group, proof.path);
    let after = with_proof(rows, proof);
    lemma_one_proof(index, proof.group, proof.path);
    if any(rows, pred) {
        let k = choose|k: int| #![trigger rows[k]] 0 <= k < rows.len() && pred(rows[k]);
        lemma_set_where_at(rows, pred, |row: Proof| proof, k);
        assert(after == rows.update(k, proof));
        assert forall|i: int, j: int|
            #![trigger after[i], after[j]]
            0 <= i < j < after.len() implies !(after[i].group == after[j].group && after[i].path
            == after[j].path) by {
            assert(!(rows[i].group == rows[j].group && rows[i].path == rows[j].path));
        }
        assert forall|j: int| 0 <= j < k implies !pred(#[trigger] after[j]) by {
            assert(after[j] == rows[j]);
            assert(pred(rows[k]));
        }
        lemma_first_where_at(after, pred, k);
    } else {
        assert forall|i: int, j: int|
            #![trigger after[i], after[j]]
            0 <= i < j < after.len() implies !(after[i].group == after[j].group && after[i].path
            == after[j].path) by {
            assert(after[i] == rows[i]);
            if j < rows.len() {
                assert(after[j] == rows[j]);
            } else {
                assert(!pred(rows[i]));
            }
        }
        assert forall|j: int| 0 <= j < rows.len() implies !pred(#[trigger] after[j]) by {
            assert(after[j] == rows[j]);
        }
        assert(after[rows.len() as int] == proof);
        lemma_first_where_at(after, pred, rows.len() as int);
    }
}

/// Retiring a proof keeps one per path, and leaves none usable there.
pub proof fn lemma_retired_proof_is_keyed(index: FileIndex, group: Seq<char>, path: Seq<char>)
    requires
        side_tables_are_keyed(index),
    ensures
        side_tables_are_keyed(
            FileIndex { proofs: with_retired_proof(index.proofs, group, path), ..index },
        ),
        usable_proof(with_retired_proof(index.proofs, group, path), group, path) is None,
{
    let rows = index.proofs;
    let pred = is_proof_at(group, path);
    let after = with_retired_proof(rows, group, path);
    assert forall|i: int, j: int|
        #![trigger after[i], after[j]]
        0 <= i < j < after.len() implies !(after[i].group == after[j].group && after[i].path
        == after[j].path) by {
        assert(!(rows[i].group == rows[j].group && rows[i].path == rows[j].path));
    }
    crate::rows::lemma_first_where(after, pred);
    if first_where(after, pred) is Some {
        let found = first_where(after, pred)->0;
        let k = choose|k: int| 0 <= k < after.len() && after[k] == found;
        assert(pred(rows[k]));
    }
}

/// Recording a capture keeps one per path.
pub proof fn lemma_with_capture_is_keyed(index: FileIndex, capture: Capture)
    requires
        side_tables_are_keyed(index),
    ensures
        side_tables_are_keyed(
            FileIndex { captures: with_capture(index.captures, capture), ..index },
        ),
        first_where(
            with_capture(index.captures, capture),
            is_capture_at(capture.group, capture.path),
        ) == Some(capture),
{
    let rows = index.captures;
    let pred = is_capture_at(capture.group, capture.path);
    let after = with_capture(rows, capture);
    lemma_one_capture(index, capture.group, capture.path);
    if any(rows, pred) {
        let k = choose|k: int| #![trigger rows[k]] 0 <= k < rows.len() && pred(rows[k]);
        lemma_set_where_at(rows, pred, |row: Capture| capture, k);
        assert(after == rows.update(k, capture));
        assert forall|i: int, j: int|
            #![trigger after[i], after[j]]
            0 <= i < j < after.len() implies !(after[i].group == after[j].group && after[i].path
            == after[j].path) by {
            assert(!(rows[i].group == rows[j].group && rows[i].path == rows[j].path));
        }
        assert forall|j: int| 0 <= j < k implies !pred(#[trigger] after[j]) by {
            assert(after[j] == rows[j]);
            assert(pred(rows[k]));
        }
        lemma_first_where_at(after, pred, k);
    } else {
        assert forall|i: int, j: int|
            #![trigger after[i], after[j]]
            0 <= i < j < after.len() implies !(after[i].group == after[j].group && after[i].path
            == after[j].path) by {
            assert(after[i] == rows[i]);
            if j < rows.len() {
                assert(after[j] == rows[j]);
            } else {
                assert(!pred(rows[i]));
            }
        }
        assert forall|j: int| 0 <= j < rows.len() implies !pred(#[trigger] after[j]) by {
            assert(after[j] == rows[j]);
        }
        assert(after[rows.len() as int] == capture);
        lemma_first_where_at(after, pred, rows.len() as int);
    }
}

impl FileIndexRepository {
    /// Where the proof of a path stands.
    fn proof_position(&self, group_id: &str, path: &str) -> (found: Option<usize>)
        ensures
            match found {
                Some(i) => {
                    &&& i < self.proofs@.len()
                    &&& is_proof_at(group_id@, path@)(self@.proofs[i as int])
                    &&& first_where(self@.proofs, is_proof_at(group_id@, path@)) == Some(
                        self@.proofs[i as int],
                    )
                },
                None => {
                    &&& first_where(self@.proofs, is_proof_at(group_id@, path@)) is None
                    &&& forall|j: int|
                        0 <= j < self@.proofs.len() ==> !is_proof_at(group_id@, path@)(
                            #[trigger] self@.proofs[j],
                        )
                },
            },
    {
        let ghost rows = self@.proofs;
        let ghost pred = is_proof_at(group_id@, path@);
        let mut i: usize = 0;
        while i < self.proofs.len()
            invariant
                i <= self.proofs@.len(),
                rows == self@.proofs,
                pred == is_proof_at(group_id@, path@),
                forall|j: int| 0 <= j < i ==> !pred(#[trigger] rows[j]),
            decreases self.proofs@.len() - i,
        {
            assert(rows[i as int] == self.proofs@[i as int]@);
            if str_eq(self.proofs[i].group_id.as_str(), group_id) && str_eq(
                self.proofs[i].path.as_str(),
                path,
            ) {
                proof {
                    lemma_first_where_at(rows, pred, i as int);
                }
                return Some(i);
            }
            i += 1;
        }
        proof {
            lemma_first_where_none(rows, pred);
        }
        None
    }

    /// The proof of a path a reader may rely on.
    pub fn lookup_materialized_generation(&self, group_id: &str, path: &str) -> (found: Option<
        &ProofRow,
    >)
        ensures
            match found {
                Some(row) => usable_proof(self@.proofs, group_id@, path@) == Some(row@),
                None => usable_proof(self@.proofs, group_id@, path@) is None,
            },
    {
        match self.proof_position(group_id, path) {
            None => None,
            Some(i) => {
                assert(self@.proofs[i as int] == self.proofs@[i as int]@);
                if self.proofs[i].usable {
                    Some(&self.proofs[i])
                } else {
                    None
                }
            },
        }
    }

    /// The last proof of a path, usable or not: what this device last believed.
    pub fn lookup_materialized_generation_diagnostic(
        &self,
        group_id: &str,
        path: &str,
    ) -> (found: Option<&ProofRow>)
        ensures
            match found {
                Some(row) => first_where(self@.proofs, is_proof_at(group_id@, path@)) == Some(row@),
                None => first_where(self@.proofs, is_proof_at(group_id@, path@)) is None,
            },
    {
        match self.proof_position(group_id, path) {
            None => None,
            Some(i) => {
                assert(self@.proofs[i as int] == self.proofs@[i as int]@);
                Some(&self.proofs[i])
            },
        }
    }

    /// Publishes a proof for a path.
    fn publish_proof(
        &mut self,
        group_id: &str,
        path: &str,
        object_kind: MaterializedObjectKind,
        version: Option<VersionHash>,
        filesystem_identity: Option<FileIdentity>,
        heads: &[ChangeHash],
    )
        requires
            side_tables_are_keyed(old(self)@),
        ensures
            side_tables_are_keyed(final(self)@),
            final(self)@ == (FileIndex {
                proofs: with_proof(
                    old(self)@.proofs,
                    Proof {
                        group: group_id@,
                        path: path@,
                        object_kind,
                        version,
                        identity: filesystem_identity,
                        basis: heads@,
                        usable: true,
                    },
                ),
                ..old(self)@
            }),
    {
        let ghost rows = self@.proofs;
        let ghost made = Proof {
            group: group_id@,
            path: path@,
            object_kind,
            version,
            identity: filesystem_identity,
            basis: heads@,
            usable: true,
        };
        let ghost pred = is_proof_at(group_id@, path@);
        proof {
            lemma_with_proof_is_keyed(self@, made);
            lemma_one_proof(self@, group_id@, path@);
        }
        let row = ProofRow {
            group_id: group_id.to_owned(),
            path: path.to_owned(),
            object_kind,
            version,
            filesystem_identity,
            causal_basis: copy_hashes(heads),
            usable: true,
        };
        match self.proof_position(group_id, path) {
            None => {
                self.proofs.push(row);
                assert(self@.proofs =~= rows.push(made));
            },
            Some(i) => {
                assert(any(rows, pred)) by {
                    assert(pred(rows[i as int]));
                }
                proof {
                    lemma_set_where_at(rows, pred, |old: Proof| made, i as int);
                }
                self.proofs.set(i, row);
                assert(self@.proofs =~= rows.update(i as int, made));
            },
        }
    }

    /// Whether the change is the last one this device read off its own disk at
    /// the path.
    pub fn is_local_capture(&self, group_id: &str, path: &str, hash: &ChangeHash) -> (is: bool)
        ensures
            is == is_captured_as(self@.captures, group_id@, path@, hash.0@),
    {
        let ghost rows = self@.captures;
        let ghost pred = is_capture_at(group_id@, path@);
        let mut i: usize = 0;
        while i < self.captures.len()
            invariant
                i <= self.captures@.len(),
                rows == self@.captures,
                pred == is_capture_at(group_id@, path@),
                forall|j: int| 0 <= j < i ==> !pred(#[trigger] rows[j]),
            decreases self.captures@.len() - i,
        {
            assert(rows[i as int] == self.captures@[i as int]@);
            if str_eq(self.captures[i].group_id.as_str(), group_id) && str_eq(
                self.captures[i].path.as_str(),
                path,
            ) {
                proof {
                    lemma_first_where_at(rows, pred, i as int);
                }
                return same_hash(&self.captures[i].change_hash, hash);
            }
            i += 1;
        }
        proof {
            lemma_first_where_none(rows, pred);
        }
        false
    }

    /// Records that the change was read off this device's own disk, in place
    /// of an earlier record of the path.
    pub fn record_local_capture(&mut self, group_id: &str, path: &str, hash: &ChangeHash)
        requires
            side_tables_are_keyed(old(self)@),
        ensures
            side_tables_are_keyed(final(self)@),
            final(self)@ == (FileIndex {
                captures: with_capture(
                    old(self)@.captures,
                    Capture { group: group_id@, path: path@, change: *hash },
                ),
                ..old(self)@
            }),
    {
        let ghost rows = self@.captures;
        let ghost made = Capture { group: group_id@, path: path@, change: *hash };
        let ghost pred = is_capture_at(group_id@, path@);
        proof {
            lemma_with_capture_is_keyed(self@, made);
            lemma_one_capture(self@, group_id@, path@);
        }
        let mut i: usize = 0;
        while i < self.captures.len()
            invariant
                i <= self.captures@.len(),
                self@ == old(self)@,
                rows == self@.captures,
                made == (Capture { group: group_id@, path: path@, change: *hash }),
                at_most_one(rows, pred),
                pred == is_capture_at(group_id@, path@),
                side_tables_are_keyed(
                    FileIndex { captures: with_capture(rows, made), ..old(self)@ },
                ),
                forall|j: int| 0 <= j < i ==> !pred(#[trigger] rows[j]),
            decreases self.captures@.len() - i,
        {
            assert(rows[i as int] == self.captures@[i as int]@);
            if str_eq(self.captures[i].group_id.as_str(), group_id) && str_eq(
                self.captures[i].path.as_str(),
                path,
            ) {
                assert(any(rows, pred)) by {
                    assert(pred(rows[i as int]));
                }
                proof {
                    lemma_set_where_at(rows, pred, |old: Capture| made, i as int);
                }
                self.captures[i].change_hash = *hash;
                assert(self@.captures =~= rows.update(i as int, made));
                return;
            }
            i += 1;
        }
        self.captures.push(
            CaptureRow {
                group_id: group_id.to_owned(),
                path: path.to_owned(),
                change_hash: *hash,
            },
        );
        assert(self@.captures =~= rows.push(made));
    }
}

/// Publishes that the version a local capture wrote stands at the path, on the
/// group's heads.
pub fn adopt_local_capture_actual_state(
    index: &mut FileIndexRepository,
    group_id: &str,
    path: &str,
    record_kind: RecordKind,
    version_hash: &VersionHash,
    filesystem_identity: &FileIdentity,
    heads: &[ChangeHash],
)
    requires
        side_tables_are_keyed(old(index)@),
    ensures
        side_tables_are_keyed(final(index)@),
        final(index)@ == (FileIndex {
            proofs: with_proof(
                old(index)@.proofs,
                present_proof(
                    group_id@,
                    path@,
                    record_kind,
                    *version_hash,
                    *filesystem_identity,
                    heads@,
                ),
            ),
            ..old(index)@
        }),
{
    let object_kind = match record_kind {
        RecordKind::File => MaterializedObjectKind::RegularFile,
        RecordKind::Directory => MaterializedObjectKind::Directory,
        RecordKind::Symlink => MaterializedObjectKind::Symlink,
    };
    index.publish_proof(
        group_id,
        path,
        object_kind,
        Some(*version_hash),
        Some(*filesystem_identity),
        heads,
    );
}

/// Publishes that nothing stands at the path, on the group's heads, and takes
/// back the current version's claim to be materialized.
pub fn adopt_local_capture_absent_state(
    index: &mut FileIndexRepository,
    group_id: &str,
    path: &str,
    heads: &[ChangeHash],
)
    requires
        old(index)@.well_formed(),
    ensures
        final(index)@.well_formed(),
        final(index)@ == proven_absent(old(index)@, group_id@, path@, heads@),
{
    index.publish_proof(group_id, path, MaterializedObjectKind::Absent, None, None, heads);
    strip_carried_forward_hydrated_in_tx(index, group_id, path);
}

/// Retires whatever was last proven of the path, and takes back the current
/// version's claim to be materialized.
pub fn retire_unproven_actual_state_in_tx(
    index: &mut FileIndexRepository,
    group_id: &str,
    path: &str,
)
    requires
        old(index)@.well_formed(),
    ensures
        final(index)@.well_formed(),
        final(index)@ == unproven(old(index)@, group_id@, path@),
{
    let ghost rows = index@.proofs;
    let ghost pred = is_proof_at(group_id@, path@);
    let ghost f = |row: Proof| Proof { usable: false, ..row };
    proof {
        lemma_retired_proof_is_keyed(index@, group_id@, path@);
        lemma_one_proof(index@, group_id@, path@);
    }
    match index.proof_position(group_id, path) {
        None => {
            proof {
                lemma_set_where_none(rows, pred, f);
            }
        },
        Some(i) => {
            assert(rows[i as int] == index.proofs@[i as int]@);
            proof {
                lemma_set_where_at(rows, pred, f, i as int);
            }
            index.proofs[i].usable = false;
            assert(index@.proofs =~= rows.update(i as int, f(rows[i as int])));
        },
    }
    strip_carried_forward_hydrated_in_tx(index, group_id, path);
}

} // verus!
