//! What a local capture leaves in the index, table by table, and what it takes
//! for a capture to claim something of the disk.

use vstd::prelude::*;

use crate::actual_state::{
    is_capture_at, is_captured_as, is_proof_at, lemma_retired_proof_is_keyed,
    lemma_with_proof_is_keyed, usable_proof, with_capture, with_proof, with_retired_proof,
};
use crate::error::texts;
use crate::file_effect_laws::law_the_current_version_is_the_row_that_stands_there;
use crate::file_laws::lemma_captured_current;
use crate::file_queries::file_at;
use crate::file_rows::{
    side_tables_are_keyed, Capture, Changes, FileEntry, FileIndex, FileRecord, LocalFileMetaColumns,
    MaterializedObjectKind, Proof, RecursiveOperationRef, VersionHash,
};
use crate::file_upsert::current;
use crate::identity::FileIdentity;
use crate::index_vocabulary::RecordKind;
use crate::local_capture::{
    capture, captured, hashes_of, CaptureItem, CarriedVersion, ChangeContent, Emitted,
    ImportedActualState, LocalCaptureActualStateEvidence, Op, PreparedLocalMutation, Verdict,
};
use crate::local_commits::{
    author_known, emitted, emitted_all, lemma_authored_capture_is_written, lemma_with_change_knows,
    part_of, with_change, with_changes,
};
use crate::local_decisions::{
    basis_of, emission_of, holds_once, is_shown, settles_by_absence, settles_by_presence,
    DesiredState, Seen,
};
use crate::local_emission::{
    batch, batch_items, batch_verdict, carried, edit_item, edit_verdict, evidence_for, first_put,
    has_hash, is_evidence_at, is_put_at, put_path, scan, scan_items, sole_path,
};
use crate::local_mutations::{
    deletion, emitted_deletion, mutation_item, mutation_items, mutation_verdict, mutations_commit,
    part_items, tombstone, write_through_deletion,
};
use crate::rows::{any, first_where, lemma_first_where, lemma_first_where_at};
use crate::transaction_rows::ChangeHash;

verus! {

/// The kind of object a record of a kind is proven as.
pub open spec fn is_object_for(kind: RecordKind, object: MaterializedObjectKind) -> bool {
    &&& kind is File ==> object is RegularFile
    &&& kind is Directory ==> object is Directory
    &&& kind is Symlink ==> object is Symlink
}

/// Publishing a proof replaces the path's last one and leaves every other.
pub proof fn law_a_proof_takes_the_place_of_its_paths_last(
    index: FileIndex,
    published: Proof,
    other: Proof,
)
    requires
        side_tables_are_keyed(index),
    ensures
        with_proof(index.proofs, published).contains(published),
        other != published ==> (with_proof(index.proofs, published).contains(other)
            <==> index.proofs.contains(other) && !(other.group == published.group && other.path
            == published.path)),
{
    let rows = index.proofs;
    let pred = is_proof_at(published.group, published.path);
    let after = with_proof(rows, published);
    if any(rows, pred) {
        let k = choose|k: int| #![trigger rows[k]] 0 <= k < rows.len() && pred(rows[k]);
        assert(after[k] == published);
        assert forall|i: int| #![trigger rows[i]] 0 <= i < rows.len() implies after[i] == if pred(
            rows[i],
        ) {
            published
        } else {
            rows[i]
        } by {}
    } else {
        assert(after[rows.len() as int] == published);
        assert forall|i: int| #![trigger rows[i]] 0 <= i < rows.len() implies after[i] == rows[i]
            && !pred(rows[i]) by {}
    }
    if after.contains(other) && other != published {
        let i = choose|i: int| 0 <= i < after.len() && after[i] == other;
        assert(rows[i] == other);
    }
    if rows.contains(other) && !(other.group == published.group && other.path == published.path) {
        let i = choose|i: int| 0 <= i < rows.len() && rows[i] == other;
        assert(after[i] == other);
    }
}

/// Retiring a path's proof makes it unusable, keeps what it says on record, and
/// leaves every other proof as it is.
pub proof fn law_a_retired_proof_stays_on_record(
    proofs: Seq<Proof>,
    group: Seq<char>,
    path: Seq<char>,
    i: int,
)
    requires
        0 <= i < proofs.len(),
    ensures
        with_retired_proof(proofs, group, path).len() == proofs.len(),
        ({
            let after = with_retired_proof(proofs, group, path)[i];
            if proofs[i].group == group && proofs[i].path == path {
                &&& !after.usable
                &&& (Proof { usable: proofs[i].usable, ..after }) == proofs[i]
            } else {
                after == proofs[i]
            }
        }),
{
}

/// Recording a capture replaces the path's last one and leaves every other.
pub proof fn law_a_capture_takes_the_place_of_its_paths_last(
    index: FileIndex,
    made: Capture,
    other: Capture,
)
    requires
        side_tables_are_keyed(index),
    ensures
        with_capture(index.captures, made).contains(made),
        other != made ==> (with_capture(index.captures, made).contains(other)
            <==> index.captures.contains(other) && !(other.group == made.group && other.path
            == made.path)),
{
    let rows = index.captures;
    let pred = is_capture_at(made.group, made.path);
    let after = with_capture(rows, made);
    if any(rows, pred) {
        let k = choose|k: int| #![trigger rows[k]] 0 <= k < rows.len() && pred(rows[k]);
        assert(after[k] == made);
        assert forall|i: int| #![trigger rows[i]] 0 <= i < rows.len() implies after[i] == if pred(
            rows[i],
        ) {
            made
        } else {
            rows[i]
        } by {}
    } else {
        assert(after[rows.len() as int] == made);
        assert forall|i: int| #![trigger rows[i]] 0 <= i < rows.len() implies after[i] == rows[i]
            && !pred(rows[i]) by {}
    }
    if after.contains(other) && other != made {
        let i = choose|i: int| 0 <= i < after.len() && after[i] == other;
        assert(rows[i] == other);
    }
    if rows.contains(other) && !(other.group == made.group && other.path == made.path) {
        let i = choose|i: int| 0 <= i < rows.len() && rows[i] == other;
        assert(after[i] == other);
    }
}

/// A reader may rely on a proof exactly where the path has one that is usable.
/// Which change was last captured at a path is found by the path.
pub proof fn law_a_proof_is_relied_on_while_it_is_usable(
    index: FileIndex,
    group: Seq<char>,
    path: Seq<char>,
)
    requires
        side_tables_are_keyed(index),
    ensures
        forall|i: int|
            #![trigger index.proofs[i]]
            0 <= i < index.proofs.len() ==> (index.proofs[i].group == group
                && index.proofs[i].path == path && index.proofs[i].usable <==> usable_proof(
                index.proofs,
                group,
                path,
            ) == Some(index.proofs[i])),
        usable_proof(index.proofs, group, path) matches Some(found) ==> index.proofs.contains(
            found,
        ),
        forall|i: int|
            #![trigger index.captures[i]]
            0 <= i < index.captures.len() ==> (index.captures[i].group == group
                && index.captures[i].path == path <==> first_where(
                index.captures,
                is_capture_at(group, path),
            ) == Some(index.captures[i])),
{
    let proofs = index.proofs;
    let at = is_proof_at(group, path);
    lemma_first_where(proofs, at);
    assert forall|i: int| #![trigger proofs[i]] 0 <= i < proofs.len() implies (proofs[i].group
        == group && proofs[i].path == path && proofs[i].usable <==> usable_proof(
        proofs,
        group,
        path,
    ) == Some(proofs[i])) by {
        if at(proofs[i]) {
            assert forall|j: int| 0 <= j < i implies !at(#[trigger] proofs[j]) by {
                assert(!(proofs[j].group == proofs[i].group && proofs[j].path == proofs[i].path));
            }
            lemma_first_where_at(proofs, at, i);
        }
    }
    let captures = index.captures;
    let of = is_capture_at(group, path);
    lemma_first_where(captures, of);
    assert forall|i: int| #![trigger captures[i]] 0 <= i < captures.len() implies (
    captures[i].group == group && captures[i].path == path <==> first_where(captures, of)
        == Some(captures[i])) by {
        if of(captures[i]) {
            assert forall|j: int| 0 <= j < i implies !of(#[trigger] captures[j]) by {
                assert(!(captures[j].group == captures[i].group && captures[j].path
                    == captures[i].path));
            }
            lemma_first_where_at(captures, of, i);
        }
    }
}

/// What a capture leaves behind. The path's current version holds the record and
/// the metadata that was read with it. Where the version was observed it is
/// proven present, on the group's heads, and claims its content; where absence
/// was, the path is proven absent; otherwise nothing is proven any more. A
/// version that is not proven present never claims its content. The change it
/// was captured for is on record. The pins and the log stay as they are.
pub proof fn law_a_capture_leaves_what_it_observed(
    index: FileIndex,
    group: Seq<char>,
    item: CaptureItem,
    origin: Seq<char>,
    mask: u32,
    now: Option<i64>,
)
    requires
        index.well_formed(),
    ensures
        capture(index, group, item, origin, mask, now) matches Ok(after) ==> {
            let path = item.entry.path;
            let proven = usable_proof(after.proofs, group, path);
            &&& after.pins == index.pins
            &&& after.changes == index.changes
            &&& current(after.files, group, path) matches Some(row) && {
                &&& row.size == item.entry.size
                &&& row.mtime == item.entry.mtime
                &&& row.blocks is Ok && row.blocks->Ok_0 == item.entry.blocks
                &&& row.deleted == item.entry.deleted
                &&& item.author matches Some(hash) ==> row.authoring == Some(hash.0@)
                &&& item.meta matches Some(meta) ==> {
                    &&& row.kind == meta.record_kind
                    &&& row.symlink_out_of_root == meta.symlink_out_of_root
                    &&& meta.symlink_target matches Some(target) ==> row.symlink_target == Some(
                        target@,
                    )
                    &&& meta.symlink_target is None ==> row.symlink_target is None
                }
                &&& row.materialization is Hydrated <==> item.verdict is Present
            }
            &&& item.verdict matches Verdict::Present { kind, version, identity } ==> {
                &&& proven matches Some(found) && {
                    &&& is_object_for(kind, found.object_kind)
                    &&& found.version == Some(version)
                    &&& found.identity == Some(identity)
                    &&& found.basis == item.heads
                }
            }
            &&& item.verdict is Absent ==> {
                &&& proven matches Some(found) && {
                    &&& found.object_kind is Absent
                    &&& found.version is None
                    &&& found.identity is None
                    &&& found.basis == item.heads
                }
            }
            &&& item.verdict is Unproven ==> proven is None
            &&& item.author is None ==> after.captures == index.captures
            &&& item.author matches Some(hash) ==> after.captures.contains(
                Capture { group, path, change: hash },
            )
        },
{
    let path = item.entry.path;
    if capture(index, group, item, origin, mask, now) is Ok {
        lemma_captured_current(index, group, item, origin, mask, now);
        match item.verdict {
            Verdict::Present { kind, version, identity } => {
                lemma_with_proof_is_keyed(
                    index,
                    crate::actual_state::present_proof(
                        group,
                        path,
                        kind,
                        version,
                        identity,
                        item.heads,
                    ),
                );
            },
            Verdict::Absent => {
                lemma_with_proof_is_keyed(
                    index,
                    crate::actual_state::absent_proof(group, path, item.heads),
                );
            },
            Verdict::Unproven => {
                lemma_retired_proof_is_keyed(index, group, path);
            },
        }
        match item.author {
            Some(hash) => {
                law_a_capture_takes_the_place_of_its_paths_last(
                    index,
                    Capture { group, path, change: hash },
                    Capture { group, path, change: hash },
                );
            },
            None => {},
        }
    }
}

/// A capture proves nothing of other paths and forgets nothing about them: their
/// proofs and their captures stay as they were.
pub proof fn law_a_capture_leaves_other_paths_proofs_alone(
    index: FileIndex,
    group: Seq<char>,
    item: CaptureItem,
    origin: Seq<char>,
    mask: u32,
    now: Option<i64>,
    other: Proof,
    earlier: Capture,
)
    requires
        index.well_formed(),
        !(other.group == group && other.path == item.entry.path),
        !(earlier.group == group && earlier.path == item.entry.path),
    ensures
        capture(index, group, item, origin, mask, now) matches Ok(after) ==> (
        after.proofs.contains(other) <==> index.proofs.contains(other)) && (
        after.captures.contains(earlier) <==> index.captures.contains(earlier)),
{
    let path = item.entry.path;
    match item.author {
        Some(hash) => {
            law_a_capture_takes_the_place_of_its_paths_last(
                index,
                Capture { group, path, change: hash },
                earlier,
            );
        },
        None => {},
    }
    match item.verdict {
        Verdict::Present { kind, version, identity } => {
            law_a_proof_takes_the_place_of_its_paths_last(
                index,
                crate::actual_state::present_proof(
                    group,
                    path,
                    kind,
                    version,
                    identity,
                    item.heads,
                ),
                other,
            );
        },
        Verdict::Absent => {
            law_a_proof_takes_the_place_of_its_paths_last(
                index,
                crate::actual_state::absent_proof(group, path, item.heads),
                other,
            );
        },
        Verdict::Unproven => {
            let after = with_retired_proof(index.proofs, group, path);
            if index.proofs.contains(other) {
                let i = choose|i: int| 0 <= i < index.proofs.len() && index.proofs[i] == other;
                law_a_retired_proof_stays_on_record(index.proofs, group, path, i);
                assert(after[i] == other);
            }
            if after.contains(other) {
                let i = choose|i: int| 0 <= i < after.len() && after[i] == other;
                law_a_retired_proof_stays_on_record(index.proofs, group, path, i);
                assert(index.proofs[i] == other);
            }
        },
    }
}

/// Captures are written one after the other: those of two lists together come
/// to those of the second upon those of the first, and one alone to itself.
pub proof fn law_captures_are_written_in_order(
    index: FileIndex,
    group: Seq<char>,
    first: Seq<CaptureItem>,
    second: Seq<CaptureItem>,
    origin: Seq<char>,
    mask: u32,
    now: Option<i64>,
)
    ensures
        captured(index, group, Seq::empty(), origin, mask, now) == Ok::<
            FileIndex,
            crate::error::Failure,
        >(index),
        second.len() == 1 ==> captured(index, group, second, origin, mask, now) == capture(
            index,
            group,
            second[0],
            origin,
            mask,
            now,
        ),
        captured(index, group, first, origin, mask, now) is Err ==> captured(
            index,
            group,
            first + second,
            origin,
            mask,
            now,
        ) == captured(index, group, first, origin, mask, now),
        captured(index, group, first, origin, mask, now) matches Ok(between) ==> captured(
            index,
            group,
            first + second,
            origin,
            mask,
            now,
        ) == captured(between, group, second, origin, mask, now),
    decreases second.len(),
{
    if second.len() == 0 {
        assert(first + second =~= first);
    } else {
        let shorter = second.drop_last();
        law_captures_are_written_in_order(index, group, first, shorter, origin, mask, now);
        assert((first + second).drop_last() =~= first + shorter);
        assert((first + second).last() == second.last());
        if second.len() == 1 {
            assert(shorter =~= Seq::empty());
            assert(second.last() == second[0]);
        }
    }
}

/// The effect at `m` is the first that puts something at the path, and puts that
/// version there.
pub open spec fn is_first_put(ops: Seq<Op>, path: Seq<char>, m: int, version: VersionHash) -> bool {
    &&& 0 <= m < ops.len()
    &&& ops[m] matches Op::Put { path: at, version: put } && at@ == path && put == version
    &&& forall|n: int|
        #![trigger ops[n]]
        0 <= n < m ==> !(ops[n] matches Op::Put { path: at, .. } && at@ == path)
}

/// The first effect that puts something at the path puts that version there.
pub open spec fn puts_first(ops: Seq<Op>, path: Seq<char>, version: VersionHash) -> bool {
    exists|m: int| #[trigger] is_first_put(ops, path, m, version)
}

proof fn lemma_first_put(ops: Seq<Op>, path: Seq<char>)
    ensures
        first_put(ops, path) is Some ==> puts_first(ops, path, first_put(ops, path)->0),
        first_put(ops, path) is None ==> forall|m: int|
            #![trigger ops[m]]
            0 <= m < ops.len() ==> !(ops[m] matches Op::Put { path: at, .. } && at@ == path),
        forall|m: int, version: VersionHash| #[trigger]
            is_first_put(ops, path, m, version) ==> first_put(ops, path) == Some(version),
    decreases ops.len(),
{
    let pred = is_put_at(path);
    lemma_first_where(ops, pred);
    if any(ops, pred) {
        let k = lemma_first_position(ops, pred);
        lemma_first_where_at(ops, pred, k);
        let version = ops[k]->Put_version;
        assert(first_put(ops, path) == Some(version));
        assert(is_first_put(ops, path, k, version));
    } else {
        assert forall|m: int| #![trigger ops[m]] 0 <= m < ops.len() implies !(
        ops[m] matches Op::Put { path: at, .. } && at@ == path) by {
            if pred(ops[m]) {
                assert(any(ops, pred));
            }
        }
    }
    assert forall|m: int, version: VersionHash| #[trigger]
        is_first_put(ops, path, m, version) implies first_put(ops, path) == Some(version) by {
        assert forall|j: int| 0 <= j < m implies !pred(#[trigger] ops[j]) by {}
        assert(pred(ops[m]));
        lemma_first_where_at(ops, pred, m);
    }
}

proof fn lemma_first_position<R>(rows: Seq<R>, pred: spec_fn(R) -> bool) -> (k: int)
    requires
        any(rows, pred),
    ensures
        0 <= k < rows.len(),
        pred(rows[k]),
        forall|j: int| 0 <= j < k ==> !pred(#[trigger] rows[j]),
    decreases rows.len(),
{
    if pred(rows[0]) {
        0
    } else {
        let tail = rows.skip(1);
        let i = choose|i: int| #![trigger rows[i]] 0 <= i < rows.len() && pred(rows[i]);
        assert(tail[i - 1] == rows[i]);
        let k = lemma_first_position(tail, pred);
        assert(rows[k + 1] == tail[k]);
        assert forall|j: int| 0 <= j < k + 1 implies !pred(#[trigger] rows[j]) by {
            if j > 0 {
                assert(tail[j - 1] == rows[j]);
            }
        }
        k + 1
    }
}

/// Some carried version has the hash.
pub open spec fn is_carried(versions: Seq<CarriedVersion>, version: VersionHash) -> bool {
    exists|c: int|
        #![trigger versions[c]]
        0 <= c < versions.len() && versions[c].version_hash.0@ == version.0@
}

/// A single edit is proven present exactly where it was observed, is no
/// deletion, and the first effect at its path puts a version there that the
/// change carries. It is proven as that version, of the kind that was read and
/// of the object that was observed. An edit never proves absence.
pub proof fn law_an_edit_is_proven_by_what_its_change_carries(
    deleted: bool,
    meta: Option<LocalFileMetaColumns>,
    identity: Option<FileIdentity>,
    ops: Seq<Op>,
    versions: Seq<CarriedVersion>,
    path: Seq<char>,
)
    ensures
        edit_verdict(deleted, meta, identity, ops, versions, path) is Present <==> !deleted && meta
            is Some && identity is Some && exists|version: VersionHash| #[trigger]
            puts_first(ops, path, version) && is_carried(versions, version),
        edit_verdict(deleted, meta, identity, ops, versions, path) matches Verdict::Present {
            kind,
            version,
            identity: seen,
        } ==> {
            &&& kind == meta->0.record_kind
            &&& seen == identity->0
            &&& puts_first(ops, path, version)
        },
        !(edit_verdict(deleted, meta, identity, ops, versions, path) is Absent),
{
    lemma_first_put(ops, path);
    assert forall|version: VersionHash| #[trigger] puts_first(ops, path, version) implies first_put(
        ops,
        path,
    ) == Some(version) by {
        let m = choose|m: int| #[trigger] is_first_put(ops, path, m, version);
    }
    if let Some(version) = first_put(ops, path) {
        lemma_carried(versions, version);
    }
}

proof fn lemma_carried(versions: Seq<CarriedVersion>, version: VersionHash)
    ensures
        carried(versions, version) is Some <==> is_carried(versions, version),
        carried(versions, version) matches Some(found) ==> exists|c: int|
            #![trigger versions[c]]
            0 <= c < versions.len() && versions[c] == found && found.version_hash.0@ == version.0@,
{
    let pred = has_hash(version);
    lemma_first_where(versions, pred);
    if is_carried(versions, version) {
        let c = choose|c: int|
            #![trigger versions[c]]
            0 <= c < versions.len() && versions[c].version_hash.0@ == version.0@;
        assert(pred(versions[c]));
    }
    if carried(versions, version) is Some {
        let found = carried(versions, version)->0;
        let c = choose|c: int| 0 <= c < versions.len() && versions[c] == found;
        assert(versions[c] == found);
    }
}

/// An edit is written through to a source only where its change has one effect,
/// and that effect moves nothing; the version then counts as put at the source.
pub proof fn law_only_a_single_put_or_deletion_is_written_through(
    ops: Seq<Op>,
    source: Option<Seq<char>>,
    row_path: Seq<char>,
)
    ensures
        sole_path(ops) is Some <==> ops.len() == 1 && !(ops[0] is Move),
        sole_path(ops) matches Some(path) ==> {
            ||| ops[0] matches Op::Put { path: at, .. } && at@ == path
            ||| ops[0] matches Op::Delete { path: at } && at@ == path
        },
        ops.len() == 1 && !(ops[0] is Move) && source is Some ==> put_path(ops, source, row_path)
            == source->0,
        ops.len() != 1 || ops[0] is Move || source is None ==> put_path(ops, source, row_path)
            == row_path,
{
}

/// An edit's capture holds its record, its metadata, its change and that
/// change's heads.
pub proof fn law_an_edit_captures_what_it_was_given(
    entry: FileEntry,
    change: Emitted,
    content: ChangeContent,
    meta: Option<LocalFileMetaColumns>,
    identity: Option<FileIdentity>,
    source: Option<Seq<char>>,
)
    ensures
        ({
            let item = edit_item(entry, change, content, meta, identity, source);
            &&& item.entry == entry
            &&& item.author == Some(change.hash)
            &&& item.meta == meta
            &&& item.heads == change.heads
            &&& item.verdict is Present ==> !entry.deleted && meta is Some && identity is Some
        }),
{
}

/// A scan proves a record present exactly where it observed it and the record is
/// no deletion, as what it observed. It proves no absence, and captures for no
/// change.
pub proof fn law_a_scan_proves_what_it_observed(
    records: Seq<FileRecord>,
    metas: Seq<Option<LocalFileMetaColumns>>,
    observed: Seq<Option<ImportedActualState>>,
    heads: Seq<ChangeHash>,
    i: int,
)
    requires
        0 <= i < records.len(),
    ensures
        scan_items(records, metas, observed, heads).len() == records.len(),
        ({
            let item = scan_items(records, metas, observed, heads)[i];
            let seen = if i < observed.len() {
                observed[i]
            } else {
                None
            };
            &&& item.entry == records[i]@
            &&& item.author is None
            &&& item.heads == heads
            &&& i < metas.len() ==> item.meta == metas[i]
            &&& i >= metas.len() ==> item.meta is None
            &&& item.verdict is Present <==> seen is Some && !records[i].deleted
            &&& item.verdict matches Verdict::Present { kind, version, identity } ==> kind
                == seen->0.record_kind && version == seen->0.version_hash && identity
                == seen->0.filesystem_identity
            &&& !(item.verdict is Absent)
        }),
{
}

/// The evidence at `m` is the first for the path.
pub open spec fn is_first_evidence(
    evidence: Seq<(String, LocalCaptureActualStateEvidence)>,
    path: Seq<char>,
    m: int,
) -> bool {
    &&& 0 <= m < evidence.len()
    &&& evidence[m].0@ == path
    &&& forall|n: int| #![trigger evidence[n]] 0 <= n < m ==> evidence[n].0@ != path
}

/// Evidence is found by path, the first where there is more.
pub proof fn law_evidence_is_found_by_path(
    evidence: Seq<(String, LocalCaptureActualStateEvidence)>,
    path: Seq<char>,
    m: int,
)
    ensures
        is_first_evidence(evidence, path, m) ==> evidence_for(evidence, path) == Some(
            evidence[m].1,
        ),
        (forall|n: int|
            #![trigger evidence[n]]
            0 <= n < evidence.len() ==> evidence[n].0@ != path) ==> evidence_for(evidence, path)
            is None,
{
    let pred = is_evidence_at(path);
    if is_first_evidence(evidence, path, m) {
        assert forall|j: int| 0 <= j < m implies !pred(#[trigger] evidence[j]) by {}
        lemma_first_where_at(evidence, pred, m);
    }
    if forall|n: int|
        #![trigger evidence[n]]
        0 <= n < evidence.len() ==> evidence[n].0@ != path {
        crate::rows::lemma_first_where_none(evidence, pred);
    }
}

/// A record of a batch is proven present exactly where its evidence says so, it
/// is no deletion, and its effect puts a version the change carries; it is
/// proven absent exactly where its evidence says so and it is a deletion whose
/// effect deletes.
pub proof fn law_a_batch_proves_what_evidence_effect_and_change_agree_on(
    deleted: bool,
    evidence: Option<LocalCaptureActualStateEvidence>,
    op: Op,
    versions: Seq<CarriedVersion>,
)
    ensures
        batch_verdict(deleted, evidence, op, versions) is Present <==> !deleted && (
        evidence matches Some(seen) && seen is Present) && (op matches Op::Put { version, .. }
            && is_carried(versions, version)),
        batch_verdict(deleted, evidence, op, versions) matches Verdict::Present {
            kind,
            version,
            identity,
        } ==> {
            &&& evidence == Some(
                LocalCaptureActualStateEvidence::Present { filesystem_identity: identity },
            )
            &&& op matches Op::Put { version: put, .. } && put == version
            &&& exists|c: int|
                #![trigger versions[c]]
                0 <= c < versions.len() && versions[c].version_hash.0@ == version.0@
                    && versions[c].record_kind == kind
        },
        batch_verdict(deleted, evidence, op, versions) is Absent <==> deleted && (
        evidence matches Some(seen) && seen is Absent) && op is Delete,
{
    match op {
        Op::Put { version, .. } => {
            lemma_carried(versions, version);
        },
        _ => {},
    }
}

/// The captures of a batch: each record with its own metadata, evidence and
/// effect, all under the one change and its heads.
pub proof fn law_a_batch_captures_each_record_with_its_own(
    records: Seq<FileRecord>,
    change: Emitted,
    content: ChangeContent,
    metas: Seq<Option<LocalFileMetaColumns>>,
    evidence: Seq<(String, LocalCaptureActualStateEvidence)>,
    i: int,
)
    requires
        0 <= i < records.len(),
    ensures
        batch_items(records, change, content, metas, evidence).len() == records.len(),
        ({
            let item = batch_items(records, change, content, metas, evidence)[i];
            &&& item.entry == records[i]@
            &&& item.author == Some(change.hash)
            &&& item.heads == change.heads
            &&& i < metas.len() ==> item.meta == metas[i]
            &&& i >= metas.len() ==> item.meta is None
            &&& item.verdict == batch_verdict(
                records[i].deleted,
                evidence_for(evidence, records[i].path@),
                content.ops@[i],
                content.versions@,
            )
        }),
{
}

/// A prepared mutation is proven present exactly where it writes a live record
/// with metadata and its evidence says present, as the version it carries; it is
/// proven absent exactly where it deletes and its evidence says absent. Its
/// capture holds its own record and metadata, under its change and its heads.
pub proof fn law_a_mutation_proves_what_its_evidence_says(
    mutation: PreparedLocalMutation,
    evidence: Option<LocalCaptureActualStateEvidence>,
    change: Emitted,
)
    ensures
        mutation_verdict(mutation, evidence) is Present <==> (
        mutation matches PreparedLocalMutation::Upsert { record, meta, .. } && !record.deleted
            && meta is Some) && (evidence matches Some(seen) && seen is Present),
        mutation_verdict(mutation, evidence) matches Verdict::Present { kind, version, identity }
            ==> {
            &&& evidence == Some(
                LocalCaptureActualStateEvidence::Present { filesystem_identity: identity },
            )
            &&& mutation matches PreparedLocalMutation::Upsert { version: carried, meta, .. }
                && version == carried.version_hash && kind == meta->0.record_kind
        },
        mutation_verdict(mutation, evidence) is Absent <==> mutation is Delete && (
        evidence matches Some(seen) && seen is Absent),
        ({
            let item = mutation_item(mutation, evidence, change);
            &&& mutation matches PreparedLocalMutation::Upsert { record, meta, .. } ==> item.entry
                == record@ && item.meta == meta
            &&& mutation matches PreparedLocalMutation::Delete { record, .. } ==> item.entry
                == record@ && item.meta is None
            &&& item.author == Some(change.hash)
            &&& item.heads == change.heads
            &&& item.verdict == mutation_verdict(mutation, evidence)
        }),
{
}

/// Mutations that are each a change of their own are captured each under its
/// own, with its own evidence; those of one part all under the part's change.
pub proof fn law_mutations_are_captured_in_order(
    mutations: Seq<PreparedLocalMutation>,
    evidence: Seq<Option<LocalCaptureActualStateEvidence>>,
    changes: Seq<Emitted>,
    change: Emitted,
    start: int,
    end: int,
    i: int,
)
    requires
        0 <= start <= end <= mutations.len(),
        changes.len() == mutations.len(),
        0 <= i < mutations.len(),
    ensures
        mutation_items(mutations, evidence, changes).len() == mutations.len(),
        mutation_items(mutations, evidence, changes)[i] == mutation_item(
            mutations[i],
            if i < evidence.len() {
                evidence[i]
            } else {
                None
            },
            changes[i],
        ),
        part_items(mutations, evidence, change, start, end).len() == end - start,
        start <= i < end ==> part_items(mutations, evidence, change, start, end)[i - start]
            == mutation_item(
            mutations[i],
            if i < evidence.len() {
                evidence[i]
            } else {
                None
            },
            change,
        ),
{
}

/// A tombstone keeps what the path last held, marked as deleted at the time the
/// deletion was observed; a path never seen gets an empty one.
pub proof fn law_a_tombstone_keeps_what_the_path_last_held(
    found: Option<FileEntry>,
    path: Seq<char>,
    observed_at: int,
)
    ensures
        ({
            let gone = tombstone(found, path, observed_at);
            &&& gone.deleted
            &&& gone.mtime == observed_at
            &&& found matches Some(last) ==> gone.path == last.path && gone.size == last.size
                && gone.blocks == last.blocks
            &&& found is None ==> gone.path == path && gone.size == 0 && gone.blocks.len() == 0
        }),
{
}

/// A path is deleted unless what it holds does not read or the group has history
/// and the path no known author; under a change only the first refuses it. The
/// path's current version is then a tombstone of the observed time, and absence
/// is proven only under a change that made sure of it.
pub proof fn law_a_deletion_leaves_a_tombstone(
    index: FileIndex,
    group: Seq<char>,
    path: Seq<char>,
    device: Seq<char>,
    observed_at: int,
    absent: bool,
    change: Emitted,
    now: Option<i64>,
)
    requires
        index.well_formed(),
    ensures
        emitted_deletion(index, group, path, device, observed_at, absent, change, now) is Ok
            <==> file_at(index.files, group, path) is Ok,
        emitted_deletion(
            index,
            group,
            path,
            device,
            observed_at,
            absent,
            change,
            now,
        ) matches Ok(after) ==> {
            &&& current(after.files, group, path) matches Some(row) && row.deleted && row.mtime
                == observed_at && row.authoring == Some(change.hash.0@) && !(row.materialization
                is Hydrated)
            &&& absent <==> usable_proof(after.proofs, group, path) is Some
            &&& usable_proof(after.proofs, group, path) matches Some(found) ==> found.object_kind
                is Absent && found.basis == change.heads
            &&& after.captures.contains(Capture { group, path, change: change.hash })
        },
        deletion(index, group, path, device, observed_at, now) matches Ok(after) ==> {
            &&& current(after.files, group, path) matches Some(row) && row.deleted && row.mtime
                == observed_at && !(row.materialization is Hydrated)
            &&& usable_proof(after.proofs, group, path) is None
            &&& after.captures == index.captures
        },
{
    lemma_path_of_found(index, group, path);
    match file_at(index.files, group, path) {
        Err(_) => {},
        Ok(found) => {
            let entry = tombstone(found, path, observed_at);
            let under = CaptureItem {
                entry,
                author: Some(change.hash),
                meta: None,
                verdict: if absent {
                    Verdict::Absent
                } else {
                    Verdict::Unproven
                },
                heads: change.heads,
            };
            let alone = CaptureItem {
                entry,
                author: None,
                meta: None,
                verdict: Verdict::Unproven,
                heads: Seq::empty(),
            };
            lemma_with_change_knows(index.changes, group, change.hash.0@, None);
            lemma_authored_capture_is_written(
                emitted(index, group, change.hash),
                group,
                under,
                device,
                0,
                now,
            );
            law_a_capture_leaves_what_it_observed(
                emitted(index, group, change.hash),
                group,
                under,
                device,
                0,
                now,
            );
            law_a_capture_leaves_what_it_observed(index, group, alone, device, 0, now);
        },
    }
}

proof fn lemma_path_of_found(index: FileIndex, group: Seq<char>, path: Seq<char>)
    requires
        index.well_formed(),
    ensures
        file_at(index.files, group, path) matches Ok(Some(entry)) ==> entry.path == path,
{
    law_the_current_version_is_the_row_that_stands_there(index.files, group, path);
}

/// A source is deleted through its copy exactly where the copy is there, reads,
/// and is one of the source's: it is the copy's own path that becomes a
/// tombstone with absence proven.
pub proof fn law_a_copy_is_deleted_through_only_as_a_copy(
    index: FileIndex,
    group: Seq<char>,
    copy: Seq<char>,
    source: Seq<char>,
    is_copy: bool,
    origin: Seq<char>,
    observed_at: int,
    change: Emitted,
    now: Option<i64>,
)
    requires
        index.well_formed(),
    ensures
        write_through_deletion(
            index,
            group,
            copy,
            source,
            is_copy,
            origin,
            observed_at,
            change,
            now,
        ) is Ok <==> is_copy && (file_at(index.files, group, copy) matches Ok(Some(_))),
        file_at(index.files, group, copy) matches Ok(None) ==> (write_through_deletion(
            index,
            group,
            copy,
            source,
            is_copy,
            origin,
            observed_at,
            change,
            now,
        ) matches Err(failure) && failure is NotFound),
        write_through_deletion(
            index,
            group,
            copy,
            source,
            is_copy,
            origin,
            observed_at,
            change,
            now,
        ) matches Ok(after) ==> (current(after.files, group, copy) matches Some(row)
            && row.deleted && row.mtime == observed_at) && (usable_proof(
            after.proofs,
            group,
            copy,
        ) matches Some(found) && found.object_kind is Absent),
{
    law_a_deletion_leaves_a_tombstone(
        index,
        group,
        copy,
        origin,
        observed_at,
        true,
        change,
        now,
    );
}

/// A change taken into the log is known to its group from then on, as a part of
/// its operation where it is one. Whatever was known stays known.
pub proof fn law_an_admitted_change_is_on_record(
    changes: Changes,
    group: Seq<char>,
    hash: Seq<u8>,
    operation: Option<RecursiveOperationRef>,
)
    ensures
        ({
            let after = with_change(changes, group, hash, part_of(hash, operation));
            let entry = after.admitted[changes.admitted.len() as int];
            &&& after.admitted.len() == changes.admitted.len() + 1
            &&& forall|i: int|
                #![trigger after.admitted[i]]
                0 <= i < changes.admitted.len() ==> after.admitted[i] == changes.admitted[i]
            &&& entry.group == group
            &&& entry.hash == hash
            &&& after.authorized == changes.authorized
            &&& operation is None ==> after.operations == changes.operations
            &&& operation matches Some(whole) ==> {
                let part = after.operations[changes.operations.len() as int];
                &&& after.operations.len() == changes.operations.len() + 1
                &&& forall|i: int|
                    #![trigger after.operations[i]]
                    0 <= i < changes.operations.len() ==> after.operations[i]
                        == changes.operations[i]
                &&& part.hash == hash
                &&& part.author == whole.author@
                &&& part.id == whole.operation_id@
            }
        }),
{
}

/// A scan, a batch and a list of mutations are each refused whole where their
/// lists do not line up, and then nothing is written. A batch or a list of
/// mutations that lines up is never refused; an empty one changes nothing.
pub proof fn law_lists_that_do_not_line_up_are_refused(
    index: FileIndex,
    group: Seq<char>,
    records: Seq<FileRecord>,
    origin: Seq<char>,
    content: ChangeContent,
    metas: Seq<Option<LocalFileMetaColumns>>,
    observed: Seq<Option<ImportedActualState>>,
    named: Seq<(String, LocalCaptureActualStateEvidence)>,
    mutations: Seq<PreparedLocalMutation>,
    evidence: Seq<Option<LocalCaptureActualStateEvidence>>,
    change: Emitted,
    changes: Seq<Emitted>,
    heads: Seq<ChangeHash>,
    mask: u32,
    now: Option<i64>,
)
    ensures
        records.len() == 0 ==> scan(
            index,
            group,
            records,
            origin,
            metas,
            observed,
            heads,
            mask,
            now,
        ) == Ok::<FileIndex, crate::error::Failure>(index) && batch(
            index,
            group,
            records,
            origin,
            content,
            metas,
            named,
            change,
            mask,
            now,
        ) == Ok::<FileIndex, crate::error::Failure>(index),
        records.len() > 0 && ((metas.len() != 0 && metas.len() != records.len()) || (
        observed.len() != 0 && observed.len() != records.len())) ==> (scan(
            index,
            group,
            records,
            origin,
            metas,
            observed,
            heads,
            mask,
            now,
        ) matches Err(failure) && failure is CorruptState),
        records.len() > 0 && (content.ops@.len() != records.len() || (metas.len() != 0
            && metas.len() != records.len())) ==> (batch(
            index,
            group,
            records,
            origin,
            content,
            metas,
            named,
            change,
            mask,
            now,
        ) matches Err(failure) && failure is CorruptState),
        mutations.len() == 0 ==> mutations_commit(
            index,
            group,
            mutations,
            evidence,
            origin,
            changes,
            mask,
            now,
        ) == Ok::<FileIndex, crate::error::Failure>(index),
        mutations.len() > 0 && ((evidence.len() != 0 && evidence.len() != mutations.len())
            || changes.len() != mutations.len()) ==> (mutations_commit(
            index,
            group,
            mutations,
            evidence,
            origin,
            changes,
            mask,
            now,
        ) matches Err(failure) && failure is CorruptState),
{
}

/// A change is a path's local capture exactly where the path has a capture on
/// record that names it.
pub proof fn law_a_capture_is_known_by_its_path_and_change(
    index: FileIndex,
    group: Seq<char>,
    path: Seq<char>,
    hash: Seq<u8>,
)
    requires
        side_tables_are_keyed(index),
    ensures
        is_captured_as(index.captures, group, path, hash) <==> exists|i: int|
            #![trigger index.captures[i]]
            0 <= i < index.captures.len() && index.captures[i].group == group
                && index.captures[i].path == path && index.captures[i].change.0@ == hash,
{
    law_a_proof_is_relied_on_while_it_is_usable(index, group, path);
    let captures = index.captures;
    lemma_first_where(captures, is_capture_at(group, path));
    if is_captured_as(captures, group, path, hash) {
        let row = first_where(captures, is_capture_at(group, path))->0;
        let i = choose|i: int| 0 <= i < captures.len() && captures[i] == row;
        assert(captures[i].change.0@ == hash);
    }
}

/// What an edit builds on: the source where it is written through to one, what
/// its path was built from where that is known, and otherwise the frontier.
/// The change names what was shown where its effect is on another path, and is
/// cut back where there is something to leave out.
pub proof fn law_an_edit_builds_on_what_was_shown(
    written_through: bool,
    parents: Option<Vec<ChangeHash>>,
    row_path: Seq<char>,
    op_path: Seq<char>,
    is_cut: bool,
)
    ensures
        basis_of(written_through, parents) is WriteThrough <==> written_through,
        basis_of(written_through, parents) is Materialized <==> !written_through && parents is Some
            && parents->0@.len() > 0,
        emission_of(row_path, op_path, is_cut) is Onto || emission_of(row_path, op_path, is_cut)
            is OntoSeeing <==> is_cut,
        emission_of(row_path, op_path, is_cut) is Seeing || emission_of(row_path, op_path, is_cut)
            is OntoSeeing <==> row_path != op_path,
{
}

/// Only a pending obligation is settled: by absence as it is, by presence while
/// the path has no conflict copies and what it should hold is resolved.
pub proof fn law_only_a_pending_obligation_is_settled(
    obligation: Option<Seq<char>>,
    has_conflict_copies: bool,
    desired: DesiredState,
)
    ensures
        settles_by_absence(obligation) <==> obligation == Some("pending"@),
        settles_by_presence(obligation, has_conflict_copies, desired) ==> settles_by_absence(
            obligation,
        ),
        settles_by_absence(obligation) ==> (settles_by_presence(
            obligation,
            has_conflict_copies,
            desired,
        ) <==> !has_conflict_copies && !(desired is Unknown) && !(desired is StructuralDirectory)),
{
}

/// The mutation at `i` touched the path and was shown the version.
pub open spec fn is_shown_at(
    shown: Seq<Option<VersionHash>>,
    touched: Seq<Vec<String>>,
    i: int,
    p: int,
    seen: Seen,
) -> bool {
    &&& 0 <= i < shown.len()
    &&& shown[i] matches Some(version) && version.0@ == seen.version
    &&& 0 <= p < touched[i]@.len()
    &&& touched[i]@[p]@ == seen.path
}

/// What was shown to mutations is each version at each path its mutation
/// touched.
pub proof fn law_a_version_was_shown_where_its_mutation_touched(
    shown: Seq<Option<VersionHash>>,
    touched: Seq<Vec<String>>,
    seen: Seen,
    list: Seq<Seen>,
)
    ensures
        is_shown(shown, touched, shown.len() as int, seen) <==> exists|i: int, p: int| #[trigger]
            is_shown_at(shown, touched, i, p, seen),
        holds_once(list) <==> list.no_duplicates(),
{
    if is_shown(shown, touched, shown.len() as int, seen) {
        let i = choose|i: int|
            #![trigger shown[i]]
            0 <= i < shown.len() && (shown[i] matches Some(version) && version.0@ == seen.version)
                && texts(touched[i]@).contains(seen.path);
        let p = choose|p: int|
            0 <= p < texts(touched[i]@).len() && texts(touched[i]@)[p] == seen.path;
        assert(is_shown_at(shown, touched, i, p, seen));
    }
    if exists|i: int, p: int| #[trigger] is_shown_at(shown, touched, i, p, seen) {
        let (i, p) = choose|i: int, p: int| #[trigger] is_shown_at(shown, touched, i, p, seen);
        assert(texts(touched[i]@)[p] == seen.path);
        assert(texts(touched[i]@).contains(seen.path));
        assert(shown[i] is Some);
    }
}

/// Changes are taken into the log one after the other, none of them a part.
pub proof fn law_changes_are_admitted_in_order(
    changes: Changes,
    group: Seq<char>,
    hashes: Seq<ChangeHash>,
    i: int,
)
    requires
        0 <= i < hashes.len(),
    ensures
        ({
            let after = with_changes(changes, group, hashes);
            &&& after.operations == changes.operations
            &&& after.authorized == changes.authorized
            &&& after.admitted.len() == changes.admitted.len() + hashes.len()
            &&& after.admitted.take(changes.admitted.len() as int) == changes.admitted
            &&& after.admitted[changes.admitted.len() + i].group == group
            &&& after.admitted[changes.admitted.len() + i].hash == hashes[i].0@
        }),
    decreases hashes.len(),
{
    let shorter = hashes.drop_last();
    let before = with_changes(changes, group, shorter);
    let after = with_changes(changes, group, hashes);
    let n = changes.admitted.len() as int;
    if shorter.len() > 0 {
        law_changes_are_admitted_in_order(
            changes,
            group,
            shorter,
            if i < shorter.len() {
                i
            } else {
                0
            },
        );
    } else {
        assert(before == changes);
    }
    assert(after.admitted == before.admitted.push(after.admitted.last()));
    assert(before.admitted.take(n) =~= changes.admitted);
    assert(after.admitted.take(n) =~= before.admitted.take(n));
    if i < shorter.len() {
        assert(shorter[i] == hashes[i]);
        assert(after.admitted[n + i] == before.admitted[n + i]);
    }
}

/// The changes that were emitted are named by their hashes, and emitting them
/// touches nothing of the index but its log.
pub proof fn law_emitted_changes_go_to_the_log_alone(
    index: FileIndex,
    group: Seq<char>,
    hash: ChangeHash,
    changes: Seq<Emitted>,
    i: int,
)
    requires
        0 <= i < changes.len(),
    ensures
        hashes_of(changes).len() == changes.len(),
        hashes_of(changes)[i] == changes[i].hash,
        (FileIndex { changes: index.changes, ..emitted(index, group, hash) }) == index,
        (FileIndex {
            changes: index.changes,
            ..emitted_all(index, group, hashes_of(changes))
        }) == index,
        emitted(index, group, hash).changes == with_change(index.changes, group, hash.0@, None),
        emitted_all(index, group, hashes_of(changes)).changes == with_changes(
            index.changes,
            group,
            hashes_of(changes),
        ),
        author_known(index.changes, group, Some(hash)) <==> index.changes.knows(group, hash.0@),
        !author_known(index.changes, group, None),
{
}

} // verus!
