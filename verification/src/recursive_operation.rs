//! Recursive operations: how their effects are split into parts, what each
//! part builds on, and how they are committed.

use vstd::prelude::*;

use crate::error::{Failure, SyncSqliteError};
use crate::file_rows::{copy_hashes, FileIndex, FileIndexRepository, RecursiveOperationRef, Version};
use crate::file_upsert::{current, has_room};
use crate::fresh_id::random_bytes;
use crate::local_capture::{
    captured, Emitted, LocalCaptureActualStateEvidence, PreparedLocalMutation,
};
use crate::local_commits::{
    lemma_captured, lemma_with_change_knows, mismatch, mismatch_error, part_of, with_change,
};
use crate::local_mutations::{apply_recursive_part, committed, part_items};
use crate::recursive_part::{
    description, is_emission_of, is_own_emission, member_effects, recursive_part, EmittedPart,
    OperationKind, PartEmission, RecursiveOperationKind,
};
use crate::rows::views;
use crate::stored_rows::{array32, copy32};
use crate::text::{digits, digits_text, join3};
use crate::transaction_rows::ChangeHash;

verus! {

/// How many effects one part may hold.
pub const RECURSIVE_PART_OP_LIMIT: usize = 256;

/// The encoded length of the effects from `start` to `end`.
pub open spec fn total_len(lens: Seq<usize>, start: int, end: int) -> int
    decreases end - start,
{
    if end <= start {
        0
    } else {
        total_len(lens, start, end - 1) + lens[end - 1]
    }
}

/// A part that starts at `start` is full before the effect at `end`.
pub open spec fn is_full(lens: Seq<usize>, limit: int, start: int, end: int) -> bool {
    end - start >= RECURSIVE_PART_OP_LIMIT || total_len(lens, start, end) + lens[end] > limit
}

/// Where the part that starts at `start`, and goes on at least to `at`, ends:
/// before the first effect it is too full for.
pub open spec fn part_end(lens: Seq<usize>, limit: int, start: int, at: int) -> int
    decreases lens.len() - at,
{
    if at >= lens.len() {
        lens.len() as int
    } else if at > start && is_full(lens, limit, start, at) {
        at
    } else {
        part_end(lens, limit, start, at + 1)
    }
}

/// The parts of the effects from `start` on, each taken as far as it goes.
pub open spec fn split_from(lens: Seq<usize>, limit: int, start: int) -> Seq<(int, int)>
    decreases lens.len() - start,
{
    if !(0 <= start < lens.len()) {
        Seq::empty()
    } else {
        let end = part_end(lens, limit, start, start);
        proof {
            lemma_part_end(lens, limit, start, start);
        }
        seq![(start, end)] + split_from(lens, limit, end)
    }
}

/// The parts of an operation: without effects there is one empty part.
pub open spec fn split(lens: Seq<usize>, limit: int) -> Seq<(int, int)> {
    if lens.len() == 0 {
        seq![(0int, 0int)]
    } else {
        split_from(lens, limit, 0)
    }
}

/// Parts with their bounds as numbers.
pub open spec fn bounds(parts: Seq<(usize, usize)>) -> Seq<(int, int)> {
    parts.map_values(|part: (usize, usize)| (part.0 as int, part.1 as int))
}

/// A part takes at least one effect, is not full before any further one, and
/// ends with the effects or where it is full.
pub proof fn lemma_part_end(lens: Seq<usize>, limit: int, start: int, at: int)
    requires
        0 <= start <= at <= lens.len(),
        start < lens.len(),
    ensures
        at <= part_end(lens, limit, start, at) <= lens.len(),
        start < part_end(lens, limit, start, at),
        forall|m: int|
            #![trigger is_full(lens, limit, start, m)]
            at <= m < part_end(lens, limit, start, at) && m > start ==> !is_full(
                lens,
                limit,
                start,
                m,
            ),
        part_end(lens, limit, start, at) < lens.len() ==> is_full(
            lens,
            limit,
            start,
            part_end(lens, limit, start, at),
        ),
    decreases lens.len() - at,
{
    if at < lens.len() && !(at > start && is_full(lens, limit, start, at)) {
        lemma_part_end(lens, limit, start, at + 1);
    }
}

/// The parts of an operation cover its effects in order, each effect once:
/// the first starts at the beginning, each next one where the last ended, and
/// the last ends with the effects. None is empty.
pub proof fn law_parts_cover_every_effect_once(lens: Seq<usize>, limit: int, k: int)
    requires
        lens.len() > 0,
        0 <= k < split(lens, limit).len(),
    ensures
        split(lens, limit)[k].0 < split(lens, limit)[k].1,
        split(lens, limit)[0].0 == 0,
        k > 0 ==> split(lens, limit)[k].0 == split(lens, limit)[k - 1].1,
        k == split(lens, limit).len() - 1 ==> split(lens, limit)[k].1 == lens.len(),
{
    lemma_split_covers(lens, limit, 0, k);
}

proof fn lemma_split_covers(lens: Seq<usize>, limit: int, start: int, k: int)
    requires
        0 <= start < lens.len(),
        0 <= k < split_from(lens, limit, start).len(),
    ensures
        split_from(lens, limit, start)[k].0 < split_from(lens, limit, start)[k].1,
        split_from(lens, limit, start)[0].0 == start,
        k > 0 ==> split_from(lens, limit, start)[k].0 == split_from(lens, limit, start)[k - 1].1,
        k == split_from(lens, limit, start).len() - 1 ==> split_from(lens, limit, start)[k].1
            == lens.len(),
    decreases lens.len() - start,
{
    let end = part_end(lens, limit, start, start);
    lemma_part_end(lens, limit, start, start);
    let rest = split_from(lens, limit, end);
    let all = split_from(lens, limit, start);
    assert(all == seq![(start, end)] + rest);
    assert(all[0] == (start, end));
    if end < lens.len() {
        lemma_part_end(lens, limit, end, end);
        assert(rest.len() > 0);
        if k > 0 {
            assert(all[k] == rest[k - 1]);
            lemma_split_covers(lens, limit, end, k - 1);
            if k > 1 {
                assert(all[k - 1] == rest[k - 2]);
            }
        }
    }
}

/// A part holds no more effects than one part may, and no more bytes unless it
/// is a single effect.
pub proof fn law_parts_keep_their_limits(lens: Seq<usize>, limit: int, k: int)
    requires
        lens.len() > 0,
        0 <= k < split(lens, limit).len(),
    ensures
        split(lens, limit)[k].1 - split(lens, limit)[k].0 <= RECURSIVE_PART_OP_LIMIT,
        split(lens, limit)[k].1 - split(lens, limit)[k].0 == 1 || total_len(
            lens,
            split(lens, limit)[k].0,
            split(lens, limit)[k].1,
        ) <= limit,
{
    lemma_split_is_bounded(lens, limit, 0, k);
}

proof fn lemma_split_is_bounded(lens: Seq<usize>, limit: int, start: int, k: int)
    requires
        0 <= start < lens.len(),
        0 <= k < split_from(lens, limit, start).len(),
    ensures
        split_from(lens, limit, start)[k].1 - split_from(lens, limit, start)[k].0
            <= RECURSIVE_PART_OP_LIMIT,
        split_from(lens, limit, start)[k].1 - split_from(lens, limit, start)[k].0 == 1 || total_len(
            lens,
            split_from(lens, limit, start)[k].0,
            split_from(lens, limit, start)[k].1,
        ) <= limit,
    decreases lens.len() - start,
{
    let end = part_end(lens, limit, start, start);
    lemma_part_end(lens, limit, start, start);
    let rest = split_from(lens, limit, end);
    let all = split_from(lens, limit, start);
    assert(all == seq![(start, end)] + rest);
    if k == 0 {
        assert(all[0] == (start, end));
        if end - start > 1 {
            assert(!is_full(lens, limit, start, end - 1));
        }
    } else {
        assert(all[k] == rest[k - 1]);
        lemma_split_is_bounded(lens, limit, end, k - 1);
    }
}

/// Splits effects of the given encoded lengths into parts, each taken as far
/// as it goes.
pub fn recursive_operation_parts(lens: &[usize], limit: usize) -> (parts: Vec<(usize, usize)>)
    ensures
        bounds(parts@) == split(lens@, limit as int),
{
    let mut parts: Vec<(usize, usize)> = Vec::new();
    let mut start: usize = 0;
    let mut bytes: usize = 0;
    let mut index: usize = 0;
    assert(bounds(parts@) =~= Seq::empty());
    while index < lens.len()
        invariant
            start <= index <= lens@.len(),
            index > 0 ==> start < index,
            bytes == total_len(lens@, start as int, index as int),
            index - start > 1 ==> bytes <= limit,
            lens@.len() > 0 ==> split_from(lens@, limit as int, 0) == bounds(parts@) + split_from(
                lens@,
                limit as int,
                start as int,
            ),
            part_end(lens@, limit as int, start as int, start as int) == part_end(
                lens@,
                limit as int,
                start as int,
                index as int,
            ),
            lens@.len() == 0 ==> parts@.len() == 0,
        decreases lens@.len() - index,
    {
        let len: usize = lens[index];
        let full: bool = index - start >= RECURSIVE_PART_OP_LIMIT || len > limit || bytes > limit
            - len;
        assert(full == is_full(lens@, limit as int, start as int, index as int));
        if index > start && full {
            let ghost before = bounds(parts@);
            let ghost rest = split_from(lens@, limit as int, index as int);
            parts.push((start, index));
            assert(bounds(parts@) =~= before.push((start as int, index as int)));
            assert(split_from(lens@, limit as int, start as int) == seq![
                (start as int, index as int),
            ] + rest);
            assert(before + (seq![(start as int, index as int)] + rest) =~= before.push(
                (start as int, index as int),
            ) + rest);
            start = index;
            bytes = 0;
        }
        assert(total_len(lens@, start as int, index + 1) == total_len(
            lens@,
            start as int,
            index as int,
        ) + lens@[index as int]);
        bytes = bytes + len;
        index += 1;
    }
    let ghost before = bounds(parts@);
    parts.push((start, lens.len()));
    proof {
        assert(bounds(parts@) =~= before.push((start as int, lens@.len() as int)));
        if lens@.len() > 0 {
            let n = lens@.len() as int;
            assert(part_end(lens@, limit as int, start as int, start as int) == n);
            assert(split_from(lens@, limit as int, n) =~= Seq::empty());
            assert(split_from(lens@, limit as int, start as int) =~= seq![(start as int, n)]);
            assert(before + seq![(start as int, n)] =~= before.push((start as int, n)));
        } else {
            assert(before =~= Seq::empty());
            assert(bounds(parts@) =~= seq![(0int, 0int)]);
        }
    }
    parts
}

/// A part lies within the effects.
proof fn lemma_split_within(lens: Seq<usize>, limit: int, start: int, k: int)
    requires
        0 <= start < lens.len(),
        0 <= k < split_from(lens, limit, start).len(),
    ensures
        start <= split_from(lens, limit, start)[k].0,
        split_from(lens, limit, start)[k].1 <= lens.len(),
    decreases lens.len() - start,
{
    let end = part_end(lens, limit, start, start);
    lemma_part_end(lens, limit, start, start);
    let rest = split_from(lens, limit, end);
    let all = split_from(lens, limit, start);
    assert(all == seq![(start, end)] + rest);
    if k == 0 {
        assert(all[0] == (start, end));
    } else {
        assert(all[k] == rest[k - 1]);
        lemma_split_within(lens, limit, end, k - 1);
    }
}

/// The parts a recursive operation is committed in, or why it is refused:
/// evidence that does not line up with the mutations, or more parts than one
/// operation may have.
pub open spec fn recursive_plan(
    lens: Seq<usize>,
    evidence_len: nat,
    limit: int,
    max_parts: u32,
) -> Result<Seq<(int, int)>, Failure> {
    if evidence_len != 0 && evidence_len != lens.len() {
        Err(
            mismatch(
                "commit_recursive_operation length mismatch: "@,
                evidence_len,
                " evidence entries for "@,
                lens.len(),
                " mutations"@,
            ),
        )
    } else if split(lens, limit).len() > max_parts {
        Err(
            Failure::InvalidInput(
                "a recursive operation over "@ + digits(lens.len()) + " entries needs "@ + digits(
                    split(lens, limit).len(),
                ) + " parts, more than the "@ + digits(max_parts as nat)
                    + " one operation may have"@,
            ),
        )
    } else {
        Ok(split(lens, limit))
    }
}

/// Plans the parts of a recursive operation over effects of the given encoded
/// lengths.
pub fn plan_recursive_operation(
    op_lens: &[usize],
    evidence_len: usize,
    part_op_bytes: usize,
    max_parts: u32,
) -> (result: Result<Vec<(usize, usize)>, SyncSqliteError>)
    ensures
        match recursive_plan(op_lens@, evidence_len as nat, part_op_bytes as int, max_parts) {
            Ok(parts) => result is Ok && bounds(result->Ok_0@) == parts,
            Err(failure) => result is Err && result->Err_0@ == failure,
        },
{
    if evidence_len != 0 && evidence_len != op_lens.len() {
        return Err(
            mismatch_error(
                "commit_recursive_operation length mismatch: ",
                evidence_len,
                " evidence entries for ",
                op_lens.len(),
                " mutations",
            ),
        );
    }
    let parts = recursive_operation_parts(op_lens, part_op_bytes);
    assert(bounds(parts@).len() == parts@.len());
    if parts.len() as u64 > max_parts as u64 {
        let entries = join3(
            "a recursive operation over ",
            digits_text(op_lens.len() as u64).as_str(),
            " entries needs ",
        );
        let needed = join3(
            entries.as_str(),
            digits_text(parts.len() as u64).as_str(),
            " parts, more than the ",
        );
        return Err(
            SyncSqliteError::InvalidInput(
                join3(
                    needed.as_str(),
                    digits_text(max_parts as u64).as_str(),
                    " one operation may have",
                ),
            ),
        );
    }
    Ok(parts)
}

/// The index after one part of an operation: its change is in the log as a part
/// of the operation, and its members are captured under it.
pub open spec fn part_written(
    index: FileIndex,
    group: Seq<char>,
    mutations: Seq<PreparedLocalMutation>,
    evidence: Seq<Option<LocalCaptureActualStateEvidence>>,
    origin: Seq<char>,
    operation: RecursiveOperationRef,
    part: (int, int),
    change: Emitted,
    mask: u32,
    now: Option<i64>,
) -> Result<FileIndex, Failure> {
    captured(
        part_admitted(index, group, operation, change.hash),
        group,
        part_items(mutations, evidence, change, part.0, part.1),
        origin,
        mask,
        now,
    )
}

/// The index once the change of a part is in the log.
pub open spec fn part_admitted(
    index: FileIndex,
    group: Seq<char>,
    operation: RecursiveOperationRef,
    hash: ChangeHash,
) -> FileIndex {
    FileIndex {
        changes: with_change(index.changes, group, hash.0@, part_of(hash.0@, Some(operation))),
        ..index
    }
}

/// The index after the first `k` parts of an operation, one after the other.
pub open spec fn parts_written(
    index: FileIndex,
    group: Seq<char>,
    mutations: Seq<PreparedLocalMutation>,
    evidence: Seq<Option<LocalCaptureActualStateEvidence>>,
    origin: Seq<char>,
    operation: RecursiveOperationRef,
    parts: Seq<(int, int)>,
    emissions: Seq<PartEmission>,
    k: int,
    mask: u32,
    now: Option<i64>,
) -> Result<FileIndex, Failure>
    decreases k,
{
    if k <= 0 {
        Ok(index)
    } else {
        match parts_written(
            index,
            group,
            mutations,
            evidence,
            origin,
            operation,
            parts,
            emissions,
            k - 1,
            mask,
            now,
        ) {
            Err(failure) => Err(failure),
            Ok(index) => part_written(
                index,
                group,
                mutations,
                evidence,
                origin,
                operation,
                parts[k - 1],
                emissions[k - 1].change,
                mask,
                now,
            ),
        }
    }
}

/// The refusal of a change that is not the one its part was to be emitted as.
pub open spec fn foreign_part(k: int) -> Failure {
    Failure::CorruptState(
        "commit_recursive_operation change mismatch: part "@ + digits(k as nat)
            + " was emitted with other effects or another description than its own"@,
    )
}

fn foreign_part_error(k: usize) -> (error: SyncSqliteError)
    ensures
        error@ == foreign_part(k as int),
{
    SyncSqliteError::CorruptState(
        join3(
            "commit_recursive_operation change mismatch: part ",
            digits_text(k as u64).as_str(),
            " was emitted with other effects or another description than its own",
        ),
    )
}

/// The change of part `k` carries the part's effects and description.
pub open spec fn is_planned_emission(
    emission: PartEmission,
    mutations: Seq<PreparedLocalMutation>,
    parts: Seq<(int, int)>,
    k: int,
    operation: RecursiveOperationRef,
    kind: OperationKind,
    effect_set: Seq<u8>,
) -> bool {
    is_emission_of(
        emission,
        mutations,
        parts[k].0,
        parts[k].1,
        description(operation, kind, k, parts.len() as int, effect_set),
    )
}

/// The first part from `k` on whose change is not its own, if any.
pub open spec fn first_foreign(
    emissions: Seq<PartEmission>,
    mutations: Seq<PreparedLocalMutation>,
    parts: Seq<(int, int)>,
    k: int,
    operation: RecursiveOperationRef,
    kind: OperationKind,
    effect_set: Seq<u8>,
) -> Option<int>
    decreases parts.len() - k,
{
    if k >= parts.len() {
        None
    } else if !is_planned_emission(
        emissions[k],
        mutations,
        parts,
        k,
        operation,
        kind,
        effect_set,
    ) {
        Some(k)
    } else {
        first_foreign(emissions, mutations, parts, k + 1, operation, kind, effect_set)
    }
}

/// What committing a recursive operation does, given the changes its parts were
/// emitted as.
pub open spec fn recursive_commit(
    index: FileIndex,
    group: Seq<char>,
    kind: OperationKind,
    mutations: Seq<PreparedLocalMutation>,
    lens: Seq<usize>,
    evidence: Seq<Option<LocalCaptureActualStateEvidence>>,
    origin: Seq<char>,
    operation: RecursiveOperationRef,
    effect_set: Seq<u8>,
    emissions: Seq<PartEmission>,
    limit: int,
    max_parts: u32,
    mask: u32,
    now: Option<i64>,
) -> Result<FileIndex, Failure> {
    if mutations.len() == 0 {
        Ok(index)
    } else {
        match recursive_plan(lens, evidence.len(), limit, max_parts) {
            Err(failure) => Err(failure),
            Ok(parts) => if emissions.len() != parts.len() {
                Err(
                    mismatch(
                        "commit_recursive_operation length mismatch: "@,
                        emissions.len(),
                        " changes for "@,
                        parts.len(),
                        " parts"@,
                    ),
                )
            } else {
                match first_foreign(
                    emissions,
                    mutations,
                    parts,
                    0,
                    operation,
                    kind,
                    effect_set,
                ) {
                    Some(k) => Err(foreign_part(k)),
                    None => parts_written(
                        index,
                        group,
                        mutations,
                        evidence,
                        origin,
                        operation,
                        parts,
                        emissions,
                        parts.len() as int,
                        mask,
                        now,
                    ),
                }
            },
        }
    }
}

/// The hashes of the changes the parts were emitted as.
pub open spec fn part_hashes(emissions: Seq<PartEmission>) -> Seq<ChangeHash> {
    emissions.map_values(|emission: PartEmission| emission.change.hash)
}

/// Where no part from `k` on is foreign, each one's change is its own.
proof fn lemma_none_foreign(
    emissions: Seq<PartEmission>,
    mutations: Seq<PreparedLocalMutation>,
    parts: Seq<(int, int)>,
    k: int,
    operation: RecursiveOperationRef,
    kind: OperationKind,
    effect_set: Seq<u8>,
)
    requires
        first_foreign(emissions, mutations, parts, k, operation, kind, effect_set) is None,
    ensures
        forall|m: int|
            #![trigger emissions[m]]
            k <= m < parts.len() ==> is_planned_emission(
                emissions[m],
                mutations,
                parts,
                m,
                operation,
                kind,
                effect_set,
            ),
    decreases parts.len() - k,
{
    if k < parts.len() {
        lemma_none_foreign(emissions, mutations, parts, k + 1, operation, kind, effect_set);
        assert forall|m: int| #![trigger emissions[m]] k <= m < parts.len() implies
            is_planned_emission(
            emissions[m],
            mutations,
            parts,
            m,
            operation,
            kind,
            effect_set,
        ) by {
            if m > k {
                assert(k + 1 <= m);
            }
        }
    }
}

/// A recursive operation that is committed hands back one hash per part. The
/// change of part `k` carries the effects of the part's own members in order,
/// and says that it is part `k` of that many, of one operation of that kind
/// over the effects of that digest.
pub proof fn law_each_committed_change_is_its_own_part(
    index: FileIndex,
    group: Seq<char>,
    kind: OperationKind,
    mutations: Seq<PreparedLocalMutation>,
    lens: Seq<usize>,
    evidence: Seq<Option<LocalCaptureActualStateEvidence>>,
    origin: Seq<char>,
    operation: RecursiveOperationRef,
    effect_set: Seq<u8>,
    emissions: Seq<PartEmission>,
    limit: int,
    max_parts: u32,
    mask: u32,
    now: Option<i64>,
    k: int,
)
    requires
        mutations.len() > 0,
        recursive_commit(
            index,
            group,
            kind,
            mutations,
            lens,
            evidence,
            origin,
            operation,
            effect_set,
            emissions,
            limit,
            max_parts,
            mask,
            now,
        ) is Ok,
        0 <= k < split(lens, limit).len(),
    ensures
        part_hashes(emissions).len() == split(lens, limit).len(),
        part_hashes(emissions)[k] == emissions[k].change.hash,
        emissions[k].effects == member_effects(
            mutations,
            split(lens, limit)[k].0,
            split(lens, limit)[k].1,
        ),
        emissions[k].part.id == operation.operation_id@,
        emissions[k].part.kind == kind,
        emissions[k].part.index == k,
        emissions[k].part.count == split(lens, limit).len(),
        emissions[k].part.effects == effect_set,
{
    lemma_none_foreign(
        emissions,
        mutations,
        split(lens, limit),
        0,
        operation,
        kind,
        effect_set,
    );
    assert(is_planned_emission(
        emissions[k],
        mutations,
        split(lens, limit),
        k,
        operation,
        kind,
        effect_set,
    ));
}

impl FileIndexRepository {
    /// Commits part `k` of a recursive operation under the change it was emitted
    /// as. A change that carries other effects than the part's members, or
    /// another description, is refused.
    pub fn commit_recursive_part(
        &mut self,
        group_id: &str,
        kind: &RecursiveOperationKind,
        mutations: &[PreparedLocalMutation],
        evidence: &[Option<LocalCaptureActualStateEvidence>],
        origin_device_id: &str,
        operation: &RecursiveOperationRef,
        effect_set_hash: [u8; 32],
        parts: &[(usize, usize)],
        k: usize,
        emitted: &EmittedPart,
        mask: u32,
        now_unix_nanos: Option<i64>,
    ) -> (result: Result<ChangeHash, SyncSqliteError>)
        requires
            old(self)@.well_formed(),
            k < parts@.len() <= u32::MAX,
            parts@[k as int].0 <= parts@[k as int].1 <= mutations@.len(),
            has_room(old(self)@.files, parts@[k as int].1 - parts@[k as int].0),
            evidence@.len() == 0 || evidence@.len() == mutations@.len(),
            !is_zero(operation.operation_id@),
        ensures
            final(self)@.well_formed(),
            if is_planned_emission(
                emitted@,
                mutations@,
                bounds(parts@),
                k as int,
                *operation,
                kind@,
                effect_set_hash@,
            ) {
                let plan = part_written(
                    old(self)@,
                    group_id@,
                    mutations@,
                    evidence@,
                    origin_device_id@,
                    *operation,
                    bounds(parts@)[k as int],
                    emitted.change@,
                    mask,
                    now_unix_nanos,
                );
                &&& result is Ok
                &&& result->Ok_0 == emitted.change.hash
                &&& plan is Ok
                &&& final(self)@ == plan->Ok_0
            } else {
                &&& result is Err
                &&& result->Err_0@ == foreign_part(k as int)
                &&& final(self)@ == old(self)@
            },
    {
        let from: usize = parts[k].0;
        let to: usize = parts[k].1;
        assert(bounds(parts@)[k as int] == (from as int, to as int));
        assert(bounds(parts@).len() == parts@.len());
        let wanted = recursive_part(parts, k, operation, kind, effect_set_hash);
        if !is_own_emission(emitted, mutations, from, to, &wanted) {
            return Err(foreign_part_error(k));
        }
        proof {
            lemma_with_change_knows(
                self@.changes,
                group_id@,
                emitted.change.hash.0@,
                part_of(emitted.change.hash.0@, Some(*operation)),
            );
        }
        self.admit_change(group_id, &emitted.change.hash, Some(operation));
        apply_recursive_part(
            self,
            group_id,
            mutations,
            evidence,
            from,
            to,
            origin_device_id,
            &emitted.change,
            mask,
            now_unix_nanos,
        );
        Ok(emitted.change.hash)
    }

    /// Commits a recursive operation part by part, each part under the change
    /// it was emitted as. What an operation deletes stays in the trash under
    /// the operation's name, which is never the one that names none. A change
    /// that is not the one its part was to be emitted as is refused, and
    /// nothing of the operation is written.
    pub fn commit_recursive_operation(
        &mut self,
        group_id: &str,
        kind: &RecursiveOperationKind,
        mutations: &[PreparedLocalMutation],
        op_lens: &[usize],
        evidence: &[Option<LocalCaptureActualStateEvidence>],
        origin_device_id: &str,
        operation: &RecursiveOperationRef,
        effect_set_hash: [u8; 32],
        emitted: &[EmittedPart],
        part_op_bytes: usize,
        max_parts: u32,
        mask: u32,
        now_unix_nanos: Option<i64>,
    ) -> (result: Result<Vec<ChangeHash>, SyncSqliteError>)
        requires
            old(self)@.well_formed(),
            has_room(old(self)@.files, mutations@.len() as int),
            op_lens@.len() == mutations@.len(),
            !is_zero(operation.operation_id@),
        ensures
            final(self)@.well_formed(),
            committed(
                recursive_commit(
                    old(self)@,
                    group_id@,
                    kind@,
                    mutations@,
                    op_lens@,
                    evidence@,
                    origin_device_id@,
                    *operation,
                    effect_set_hash@,
                    views(emitted@),
                    part_op_bytes as int,
                    max_parts,
                    mask,
                    now_unix_nanos,
                ),
                if mutations@.len() == 0 {
                    Seq::empty()
                } else {
                    part_hashes(views(emitted@))
                },
                old(self)@,
                final(self)@,
                result,
            ),
            result is Ok && mutations@.len() > 0 ==> {
                &&& result->Ok_0@.len() == split(op_lens@, part_op_bytes as int).len()
                &&& emitted@.len() == split(op_lens@, part_op_bytes as int).len()
                &&& forall|k: int|
                    #![trigger emitted@[k]]
                    0 <= k < emitted@.len() ==> result->Ok_0@[k] == emitted@[k].change.hash
                        && !is_zero(emitted@[k].part.operation_id@) && is_planned_emission(
                        emitted@[k]@,
                        mutations@,
                        split(op_lens@, part_op_bytes as int),
                        k,
                        *operation,
                        kind@,
                        effect_set_hash@,
                    )
            },
    {
        if mutations.len() == 0 {
            return Ok(Vec::new());
        }
        let parts = match plan_recursive_operation(
            op_lens,
            evidence.len(),
            part_op_bytes,
            max_parts,
        ) {
            Ok(parts) => parts,
            Err(error) => {
                return Err(error);
            },
        };
        let ghost planned = split(op_lens@, part_op_bytes as int);
        let ghost emissions = views(emitted@);
        assert(planned == bounds(parts@));
        assert(planned.len() == parts@.len());
        if emitted.len() != parts.len() {
            return Err(
                mismatch_error(
                    "commit_recursive_operation length mismatch: ",
                    emitted.len(),
                    " changes for ",
                    parts.len(),
                    " parts",
                ),
            );
        }
        let mut j: usize = 0;
        while j < parts.len()
            invariant
                j <= parts@.len() <= u32::MAX,
                planned == split(op_lens@, part_op_bytes as int),
                planned == bounds(parts@),
                planned.len() == parts@.len(),
                emissions == views(emitted@),
                emitted@.len() == parts@.len(),
                mutations@.len() > 0,
                op_lens@.len() == mutations@.len(),
                first_foreign(
                    emissions,
                    mutations@,
                    planned,
                    0,
                    *operation,
                    kind@,
                    effect_set_hash@,
                ) == first_foreign(
                    emissions,
                    mutations@,
                    planned,
                    j as int,
                    *operation,
                    kind@,
                    effect_set_hash@,
                ),
                self@ == old(self)@,
                old(self)@.well_formed(),
                recursive_plan(
                    op_lens@,
                    evidence@.len() as nat,
                    part_op_bytes as int,
                    max_parts,
                ) == Ok::<Seq<(int, int)>, Failure>(planned),
            decreases parts@.len() - j,
        {
            proof {
                assert(planned[j as int] == (parts@[j as int].0 as int, parts@[j as int].1 as int));
                lemma_split_within(op_lens@, part_op_bytes as int, 0, j as int);
                lemma_split_covers(op_lens@, part_op_bytes as int, 0, j as int);
                assert(emissions[j as int] == emitted@[j as int]@);
            }
            let wanted = recursive_part(parts.as_slice(), j, operation, kind, effect_set_hash);
            if !is_own_emission(&emitted[j], mutations, parts[j].0, parts[j].1, &wanted) {
                return Err(foreign_part_error(j));
            }
            j += 1;
        }
        proof {
            lemma_none_foreign(
                emissions,
                mutations@,
                planned,
                0,
                *operation,
                kind@,
                effect_set_hash@,
            );
            lemma_part_end(op_lens@, part_op_bytes as int, 0, 0);
            lemma_split_covers(op_lens@, part_op_bytes as int, 0, 0);
        }
        let ghost start = self@;
        let ghost wanted_hashes = part_hashes(emissions);
        let mut hashes: Vec<ChangeHash> = Vec::new();
        let mut k: usize = 0;
        assert(hashes@ =~= wanted_hashes.take(0));
        while k < parts.len()
            invariant
                k <= parts@.len() <= u32::MAX,
                planned == split(op_lens@, part_op_bytes as int),
                planned == bounds(parts@),
                planned.len() == parts@.len(),
                emissions == views(emitted@),
                emitted@.len() == parts@.len(),
                wanted_hashes == part_hashes(emissions),
                hashes@ == wanted_hashes.take(k as int),
                mutations@.len() > 0,
                op_lens@.len() == mutations@.len(),
                evidence@.len() == 0 || evidence@.len() == mutations@.len(),
                !is_zero(operation.operation_id@),
                forall|m: int|
                    #![trigger emissions[m]]
                    0 <= m < planned.len() ==> is_planned_emission(
                        emissions[m],
                        mutations@,
                        planned,
                        m,
                        *operation,
                        kind@,
                        effect_set_hash@,
                    ),
                self@.well_formed(),
                k < parts@.len() ==> has_room(self@.files, mutations@.len() - planned[k as int].0),
                parts_written(
                    start,
                    group_id@,
                    mutations@,
                    evidence@,
                    origin_device_id@,
                    *operation,
                    planned,
                    emissions,
                    k as int,
                    mask,
                    now_unix_nanos,
                ) is Ok,
                parts_written(
                    start,
                    group_id@,
                    mutations@,
                    evidence@,
                    origin_device_id@,
                    *operation,
                    planned,
                    emissions,
                    k as int,
                    mask,
                    now_unix_nanos,
                )->Ok_0 == self@,
            decreases parts@.len() - k,
        {
            let ghost from = parts@[k as int].0;
            let ghost to = parts@[k as int].1;
            proof {
                assert(planned[k as int] == (from as int, to as int));
                assert(emissions[k as int] == emitted@[k as int]@);
                lemma_split_within(op_lens@, part_op_bytes as int, 0, k as int);
                lemma_split_covers(op_lens@, part_op_bytes as int, 0, k as int);
                if k + 1 < parts@.len() {
                    lemma_split_covers(op_lens@, part_op_bytes as int, 0, k + 1);
                    lemma_split_within(op_lens@, part_op_bytes as int, 0, k + 1);
                }
                lemma_captured(
                    part_admitted(self@, group_id@, *operation, emitted@[k as int].change.hash),
                    group_id@,
                    part_items(
                        mutations@,
                        evidence@,
                        emissions[k as int].change,
                        from as int,
                        to as int,
                    ),
                    origin_device_id@,
                    mask,
                    now_unix_nanos,
                    mutations@.len() - from,
                );
                assert(has_room(self@.files, to - from));
                assert(wanted_hashes.take(k + 1) =~= wanted_hashes.take(k as int).push(
                    wanted_hashes[k as int],
                ));
            }
            match self.commit_recursive_part(
                group_id,
                kind,
                mutations,
                evidence,
                origin_device_id,
                operation,
                effect_set_hash,
                parts.as_slice(),
                k,
                &emitted[k],
                mask,
                now_unix_nanos,
            ) {
                Ok(hash) => {
                    hashes.push(hash);
                },
                Err(error) => {
                    return Err(error);
                },
            }
            k += 1;
        }
        assert(wanted_hashes.take(wanted_hashes.len() as int) =~= wanted_hashes);
        assert forall|m: int| #![trigger emitted@[m]] 0 <= m < emitted@.len() implies hashes@[m]
            == emitted@[m].change.hash && !is_zero(emitted@[m].part.operation_id@)
            && is_planned_emission(
            emitted@[m]@,
            mutations@,
            planned,
            m,
            *operation,
            kind@,
            effect_set_hash@,
        ) by {
            assert(emissions[m] == emitted@[m]@);
        }
        Ok(hashes)
    }

    /// The changes each path showed this device: its basis where it has one,
    /// else the change its current version was authored by.
    pub fn seen_by_path(
        &self,
        group_id: &str,
        paths: &[&str],
        bases: &[Option<Vec<ChangeHash>>],
    ) -> (seen: Vec<Vec<ChangeHash>>)
        requires
            bases@.len() == paths@.len(),
        ensures
            seen@.len() == paths@.len(),
            forall|i: int|
                #![trigger seen@[i]]
                0 <= i < paths@.len() ==> seen@[i]@ == shown(
                    self@.files,
                    group_id@,
                    paths@[i]@,
                    bases@[i],
                ),
    {
        let mut seen: Vec<Vec<ChangeHash>> = Vec::new();
        let mut i: usize = 0;
        while i < paths.len()
            invariant
                i <= paths@.len(),
                bases@.len() == paths@.len(),
                seen@.len() == i,
                forall|k: int|
                    #![trigger seen@[k]]
                    0 <= k < i ==> seen@[k]@ == shown(
                        self@.files,
                        group_id@,
                        paths@[k]@,
                        bases@[k],
                    ),
            decreases paths@.len() - i,
        {
            let one: Vec<ChangeHash> = match &bases[i] {
                Some(basis) if basis.len() > 0 => copy_hashes(basis.as_slice()),
                _ => self.shown_author(group_id, paths[i]),
            };
            seen.push(one);
            i += 1;
        }
        seen
    }

    /// The change the path's current version, if real, was authored by.
    fn shown_author(&self, group_id: &str, path: &str) -> (shown: Vec<ChangeHash>)
        ensures
            shown@ == authored_here(self@.files, group_id@, path@),
    {
        let mut shown: Vec<ChangeHash> = Vec::new();
        match self.current_position(group_id, path) {
            None => {},
            Some(i) => {
                assert(self@.files[i as int] == self.files@[i as int]@);
                if self.files[i].version_seq > 0 {
                    match &self.files[i].authoring_change_hash {
                        Some(bytes) => {
                            if bytes.len() == 32 {
                                shown.push(ChangeHash(copy32(bytes.as_slice())));
                            }
                        },
                        None => {},
                    }
                }
            },
        }
        assert(shown@ =~= authored_here(self@.files, group_id@, path@));
        shown
    }
}

/// The change the path's current version, if real, was authored by.
pub open spec fn authored_here(rows: Seq<Version>, group: Seq<char>, path: Seq<char>) -> Seq<
    ChangeHash,
> {
    match current(rows, group, path) {
        Some(row) => match row.authoring {
            Some(bytes) => if row.seq > 0 && bytes.len() == 32 {
                seq![ChangeHash(array32(bytes))]
            } else {
                Seq::empty()
            },
            None => Seq::empty(),
        },
        None => Seq::empty(),
    }
}

/// The changes a path showed this device.
pub open spec fn shown(
    rows: Seq<Version>,
    group: Seq<char>,
    path: Seq<char>,
    basis: Option<Vec<ChangeHash>>,
) -> Seq<ChangeHash> {
    match basis {
        Some(basis) => if basis@.len() > 0 {
            basis@
        } else {
            authored_here(rows, group, path)
        },
        None => authored_here(rows, group, path),
    }
}

/// Whether the path's basis is unknown.
pub open spec fn is_unknown(basis: Option<Vec<ChangeHash>>) -> bool {
    match basis {
        Some(basis) => basis@.len() == 0,
        None => true,
    }
}

/// Whether a part needs the frontier beside the bases of its paths: it does as
/// soon as one of them is unknown.
pub fn needs_frontier(bases: &[Option<Vec<ChangeHash>>]) -> (needed: bool)
    ensures
        needed == exists|i: int| #![trigger bases@[i]] 0 <= i < bases@.len() && is_unknown(
            bases@[i],
        ),
{
    let mut i: usize = 0;
    while i < bases.len()
        invariant
            i <= bases@.len(),
            forall|k: int| #![trigger bases@[k]] 0 <= k < i ==> !is_unknown(bases@[k]),
        decreases bases@.len() - i,
    {
        let known: bool = match &bases[i] {
            Some(basis) => basis.len() > 0,
            None => false,
        };
        if !known {
            assert(is_unknown(bases@[i as int]));
            return true;
        }
        i += 1;
    }
    false
}

/// Every byte is zero.
pub open spec fn is_zero(bytes: Seq<u8>) -> bool {
    forall|i: int| 0 <= i < bytes.len() ==> bytes[i] == 0
}

/// The id of a recursive operation, unless the drawn bytes are all zero, which
/// name no operation.
pub fn operation_id_of(drawn: [u8; 16]) -> (id: Option<[u8; 16]>)
    ensures
        id == if is_zero(drawn@) {
            None
        } else {
            Some(drawn)
        },
{
    let mut i: usize = 0;
    while i < 16
        invariant
            i <= 16,
            forall|k: int| 0 <= k < i ==> drawn@[k] == 0,
        decreases 16 - i,
    {
        if drawn[i] != 0 {
            return Some(drawn);
        }
        i += 1;
    }
    None
}

/// Draws the id of a recursive operation at random. The one draw that names
/// none gives nothing; a caller that needs an id draws until it has one.
pub fn draw_operation_id() -> (id: Option<[u8; 16]>)
    ensures
        id matches Some(bytes) ==> !is_zero(bytes@),
{
    operation_id_of(random_bytes())
}

} // verus!
