//! The ways a local change reaches the file index: single writes, scans,
//! batches, deletions and recursive operations.

use vstd::prelude::*;

use crate::error::{Failure, SyncSqliteError};
use crate::file_metadata::{apply_local_meta_columns_in_tx, column_changed, with_meta};
use crate::file_rows::{
    is_history, Admitted, AdmittedChange, ChangeOperation, Changes, FileIndex, FileIndexRepository,
    FileRecord, LocalFileMetaColumns, OperationPart, RecursiveOperationRef,
};
use crate::file_upsert::{
    authored_by, files_changed, has_room, made_current, new_version, upsert, upsert_file_in_tx,
};
use crate::local_capture::{capture, captured, lemma_capture, CaptureItem};
use crate::root_counter::touched;
use crate::text::{digits, digits_text, join3};
use crate::transaction_rows::ChangeHash;

verus! {

/// The operation a change is a part of, as the log keeps it.
pub open spec fn part_of(hash: Seq<u8>, operation: Option<RecursiveOperationRef>) -> Option<
    OperationPart,
> {
    match operation {
        Some(operation) => Some(
            OperationPart { hash, author: operation.author@, id: operation.operation_id@ },
        ),
        None => None,
    }
}

/// The log with one change more.
pub open spec fn with_change(
    changes: Changes,
    group: Seq<char>,
    hash: Seq<u8>,
    part: Option<OperationPart>,
) -> Changes {
    Changes {
        admitted: changes.admitted.push(Admitted { group, hash }),
        operations: match part {
            Some(part) => changes.operations.push(part),
            None => changes.operations,
        },
        ..changes
    }
}

/// The log with several changes more, none of them part of an operation.
pub open spec fn with_changes(
    changes: Changes,
    group: Seq<char>,
    hashes: Seq<ChangeHash>,
) -> Changes
    decreases hashes.len(),
{
    if hashes.len() == 0 {
        changes
    } else {
        with_change(
            with_changes(changes, group, hashes.drop_last()),
            group,
            hashes.last().0@,
            None,
        )
    }
}

/// The index once a change is admitted.
pub open spec fn emitted(index: FileIndex, group: Seq<char>, hash: ChangeHash) -> FileIndex {
    FileIndex { changes: with_change(index.changes, group, hash.0@, None), ..index }
}

/// The index once several changes are admitted.
pub open spec fn emitted_all(
    index: FileIndex,
    group: Seq<char>,
    hashes: Seq<ChangeHash>,
) -> FileIndex {
    FileIndex { changes: with_changes(index.changes, group, hashes), ..index }
}

/// The log knows the change it was given, and forgets none.
pub proof fn lemma_with_change_knows(
    changes: Changes,
    group: Seq<char>,
    hash: Seq<u8>,
    part: Option<OperationPart>,
)
    ensures
        with_change(changes, group, hash, part).knows(group, hash),
        forall|other: Seq<u8>|
            #![trigger changes.knows(group, other)]
            changes.knows(group, other) ==> with_change(changes, group, hash, part).knows(
                group,
                other,
            ),
{
    let after = with_change(changes, group, hash, part);
    assert(after.admitted[changes.admitted.len() as int] == (Admitted { group, hash }));
    assert forall|other: Seq<u8>|
        #![trigger changes.knows(group, other)]
        changes.knows(group, other) implies after.knows(group, other) by {
        if exists|i: int|
            #![trigger changes.admitted[i]]
            0 <= i < changes.admitted.len() && changes.admitted[i].group == group
                && changes.admitted[i].hash == other {
            let i = choose|i: int|
                #![trigger changes.admitted[i]]
                0 <= i < changes.admitted.len() && changes.admitted[i].group == group
                    && changes.admitted[i].hash == other;
            assert(after.admitted[i] == changes.admitted[i]);
        } else {
            let i = choose|i: int|
                #![trigger changes.authorized[i]]
                0 <= i < changes.authorized.len() && changes.authorized[i] == other;
            assert(after.authorized[i] == other);
        }
    }
}

/// The log knows every change it was given.
pub proof fn lemma_with_changes_knows(
    changes: Changes,
    group: Seq<char>,
    hashes: Seq<ChangeHash>,
)
    ensures
        forall|i: int|
            #![trigger hashes[i]]
            0 <= i < hashes.len() ==> with_changes(changes, group, hashes).knows(
                group,
                hashes[i].0@,
            ),
    decreases hashes.len(),
{
    if hashes.len() > 0 {
        let shorter = hashes.drop_last();
        let last = hashes.last();
        lemma_with_changes_knows(changes, group, shorter);
        let before = with_changes(changes, group, shorter);
        lemma_with_change_knows(before, group, last.0@, None);
        assert forall|i: int| #![trigger hashes[i]] 0 <= i < hashes.len() implies with_changes(
            changes,
            group,
            hashes,
        ).knows(group, hashes[i].0@) by {
            if i < shorter.len() {
                assert(shorter[i] == hashes[i]);
                assert(before.knows(group, shorter[i].0@));
            }
        }
    }
}

/// The change behind a write is known to the log.
pub open spec fn author_known(
    changes: Changes,
    group: Seq<char>,
    author: Option<ChangeHash>,
) -> bool {
    match author {
        Some(hash) => changes.knows(group, hash.0@),
        None => false,
    }
}

/// A capture whose change is known is never refused.
pub proof fn lemma_authored_capture_is_written(
    index: FileIndex,
    group: Seq<char>,
    item: CaptureItem,
    origin: Seq<char>,
    mask: u32,
    now: Option<i64>,
)
    requires
        author_known(index.changes, group, item.author),
    ensures
        capture(index, group, item, origin, mask, now) is Ok,
{
    let new = new_version(index.changes, group, item.entry, origin, item.author, now);
    let made = made_current(index.files, new);
    crate::rows::lemma_first_where(
        index.files,
        crate::file_rows::is_current_at(group, item.entry.path),
    );
    let hash = item.author->0;
    assert(hash.0@.len() == 32);
    assert(made.authoring == Some(hash.0@));
    assert(made.group == group);
}

/// Captures whose changes are all known are never refused.
pub proof fn lemma_authored_captures_are_written(
    index: FileIndex,
    group: Seq<char>,
    items: Seq<CaptureItem>,
    origin: Seq<char>,
    mask: u32,
    now: Option<i64>,
)
    requires
        is_history(index.files),
        has_room(index.files, items.len() as int),
        forall|i: int|
            #![trigger items[i]]
            0 <= i < items.len() ==> author_known(index.changes, group, items[i].author),
    ensures
        captured(index, group, items, origin, mask, now) is Ok,
        captured(index, group, items, origin, mask, now)->Ok_0.changes == index.changes,
    decreases items.len(),
{
    if items.len() > 0 {
        let shorter = items.drop_last();
        assert forall|i: int| #![trigger shorter[i]] 0 <= i < shorter.len() implies author_known(
            index.changes,
            group,
            shorter[i].author,
        ) by {
            assert(items[i] == shorter[i]);
        }
        lemma_authored_captures_are_written(index, group, shorter, origin, mask, now);
        lemma_captured(index, group, shorter, origin, mask, now, items.len() as int);
        let before = captured(index, group, shorter, origin, mask, now)->Ok_0;
        assert(items[items.len() - 1] == items.last());
        lemma_authored_capture_is_written(before, group, items.last(), origin, mask, now);
        lemma_capture(before, group, items.last(), origin, mask, now, 1);
    }
}

/// Captures keep the history well formed and take one version number each.
pub proof fn lemma_captured(
    index: FileIndex,
    group: Seq<char>,
    items: Seq<CaptureItem>,
    origin: Seq<char>,
    mask: u32,
    now: Option<i64>,
    n: int,
)
    requires
        is_history(index.files),
        has_room(index.files, n),
        items.len() <= n,
    ensures
        captured(index, group, items, origin, mask, now) matches Ok(after) ==> has_room(
            after.files,
            n - items.len(),
        ) && is_history(after.files) && after.changes == index.changes,
    decreases items.len(),
{
    if items.len() > 0 {
        lemma_captured(index, group, items.drop_last(), origin, mask, now, n);
        match captured(index, group, items.drop_last(), origin, mask, now) {
            Err(_) => {},
            Ok(before) => {
                lemma_capture(
                    before,
                    group,
                    items.last(),
                    origin,
                    mask,
                    now,
                    n - items.len() + 1,
                );
            },
        }
    }
}

impl FileIndexRepository {
    /// Takes a change into the log: admitted to the group, and part of the
    /// recursive operation where it is one.
    pub fn admit_change(
        &mut self,
        group_id: &str,
        hash: &ChangeHash,
        operation: Option<&RecursiveOperationRef>,
    )
        ensures
            final(self)@ == (FileIndex {
                changes: with_change(
                    old(self)@.changes,
                    group_id@,
                    hash.0@,
                    part_of(hash.0@, operated_by(operation)),
                ),
                ..old(self)@
            }),
    {
        let ghost before = self@.changes;
        self.changes.admitted.push(
            AdmittedChange { group_id: group_id.to_owned(), change_hash: *hash },
        );
        assert(self@.changes.admitted =~= before.admitted.push(
            Admitted { group: group_id@, hash: hash.0@ },
        ));
        match operation {
            Some(operation) => {
                let row = ChangeOperation {
                    change_hash: *hash,
                    operation: RecursiveOperationRef {
                        author: operation.author.clone(),
                        operation_id: operation.operation_id,
                    },
                };
                let ghost part = row@;
                self.changes.operations.push(row);
                assert(self@.changes.operations =~= before.operations.push(part));
            },
            None => {},
        }
    }

    /// Takes several changes into the log, none of them part of an operation.
    pub(crate) fn admit_changes(
        &mut self,
        group_id: &str,
        hashes: &[ChangeHash],
    )
        ensures
            final(self)@ == emitted_all(
                old(self)@,
                group_id@,
                hashes@,
            ),
    {
        let ghost before = self@;
        let mut i: usize = 0;
        assert(hashes@.take(0) =~= Seq::empty());
        while i < hashes.len()
            invariant
                i <= hashes@.len(),
                self@ == emitted_all(
                    before,
                    group_id@,
                    hashes@.take(i as int),
                ),
            decreases hashes@.len() - i,
        {
            assert(hashes@.take(i + 1).drop_last() =~= hashes@.take(i as int));
            self.admit_change(group_id, &hashes[i], None);
            i += 1;
        }
        assert(hashes@.take(hashes@.len() as int) =~= hashes@);
    }

    /// Writes a version nobody observed and no change authored.
    pub fn upsert_file(
        &mut self,
        group_id: &str,
        record: &FileRecord,
        now_unix_nanos: Option<i64>,
    ) -> (result: Result<(), SyncSqliteError>)
        requires
            is_history(old(self)@.files),
            has_room(old(self)@.files, 1),
        ensures
            is_history(final(self)@.files),
            files_changed(
                upsert(
                    old(self)@.files,
                    old(self)@.changes,
                    new_version(
                        old(self)@.changes,
                        group_id@,
                        record@,
                        ""@,
                        None,
                        now_unix_nanos,
                    ),
                ),
                group_id@,
                old(self)@,
                final(self)@,
                result,
            ),
    {
        self.upsert_file_with_origin(group_id, record, "", now_unix_nanos)
    }

    /// Writes a version that came from a device.
    pub fn upsert_file_with_origin(
        &mut self,
        group_id: &str,
        record: &FileRecord,
        origin_device_id: &str,
        now_unix_nanos: Option<i64>,
    ) -> (result: Result<(), SyncSqliteError>)
        requires
            is_history(old(self)@.files),
            has_room(old(self)@.files, 1),
        ensures
            is_history(final(self)@.files),
            files_changed(
                upsert(
                    old(self)@.files,
                    old(self)@.changes,
                    new_version(
                        old(self)@.changes,
                        group_id@,
                        record@,
                        origin_device_id@,
                        None,
                        now_unix_nanos,
                    ),
                ),
                group_id@,
                old(self)@,
                final(self)@,
                result,
            ),
    {
        upsert_file_in_tx(self, group_id, record, origin_device_id, None, now_unix_nanos)
    }

    /// Writes a version that came from a device, authored by a change.
    pub fn upsert_file_with_origin_and_author(
        &mut self,
        group_id: &str,
        record: &FileRecord,
        origin_device_id: &str,
        authoring_change_hash: &ChangeHash,
        now_unix_nanos: Option<i64>,
    ) -> (result: Result<(), SyncSqliteError>)
        requires
            is_history(old(self)@.files),
            has_room(old(self)@.files, 1),
        ensures
            is_history(final(self)@.files),
            files_changed(
                upsert(
                    old(self)@.files,
                    old(self)@.changes,
                    new_version(
                        old(self)@.changes,
                        group_id@,
                        record@,
                        origin_device_id@,
                        Some(*authoring_change_hash),
                        now_unix_nanos,
                    ),
                ),
                group_id@,
                old(self)@,
                final(self)@,
                result,
            ),
    {
        upsert_file_in_tx(
            self,
            group_id,
            record,
            origin_device_id,
            Some(authoring_change_hash),
            now_unix_nanos,
        )
    }

    /// Writes a version and its metadata together.
    pub fn apply_projected_row_atomic(
        &mut self,
        group_id: &str,
        record: &FileRecord,
        origin_device_id: &str,
        authoring_change_hash: Option<&ChangeHash>,
        meta: &LocalFileMetaColumns,
        mask: u32,
        now_unix_nanos: Option<i64>,
    ) -> (result: Result<(), SyncSqliteError>)
        requires
            is_history(old(self)@.files),
            has_room(old(self)@.files, 1),
        ensures
            is_history(final(self)@.files),
            match upsert(
                old(self)@.files,
                old(self)@.changes,
                new_version(
                    old(self)@.changes,
                    group_id@,
                    record@,
                    origin_device_id@,
                    authored_by(authoring_change_hash),
                    now_unix_nanos,
                ),
            ) {
                Ok(files) => result is Ok && final(self)@ == column_changed(
                    touched(FileIndex { files, ..old(self)@ }, group_id@),
                    group_id@,
                    record@.path,
                    with_meta(*meta, mask),
                ),
                Err(failure) => result is Err && result->Err_0@ == failure && final(self)@
                    == old(self)@,
            },
    {
        match upsert_file_in_tx(
            self,
            group_id,
            record,
            origin_device_id,
            authoring_change_hash,
            now_unix_nanos,
        ) {
            Ok(()) => {
                apply_local_meta_columns_in_tx(self, group_id, record.path.as_str(), meta, mask);
                Ok(())
            },
            Err(error) => Err(error),
        }
    }
}

/// The operation behind a change.
pub open spec fn operated_by(operation: Option<&RecursiveOperationRef>) -> Option<
    RecursiveOperationRef,
> {
    match operation {
        Some(operation) => Some(*operation),
        None => None,
    }
}

/// Two lengths that had to agree, put into words.
pub open spec fn mismatch(
    start: Seq<char>,
    given: nat,
    between: Seq<char>,
    wanted: nat,
    end: Seq<char>,
) -> Failure {
    Failure::CorruptState(start + digits(given) + between + digits(wanted) + end)
}

pub(crate) fn mismatch_error(start: &str, given: usize, between: &str, wanted: usize, end: &str) -> (error:
    SyncSqliteError)
    ensures
        error@ == mismatch(start@, given as nat, between@, wanted as nat, end@),
{
    let text = join3(start, digits_text(given as u64).as_str(), between);
    SyncSqliteError::CorruptState(
        join3(text.as_str(), digits_text(wanted as u64).as_str(), end),
    )
}

} // verus!
