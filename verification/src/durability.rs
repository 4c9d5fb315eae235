//! The versions a group must not lose, and whether they are on this disk.

use vstd::prelude::*;

use crate::error::{Failure, SyncSqliteError};
use crate::file_rows::{is_history, same_path, Block, BlockInfo, FileIndexRepository, Version};
use crate::file_versions::{pin_keys, version_of, VersionEntry, VersionRecord};
use crate::index_vocabulary::{MaterializationState, RecordKind};
use crate::root_counter::{generation_of, is_counter_of};
use crate::rows::{
    any, in_order, lemma_filter_members, lemma_filter_multiset_next, lemma_first_where_at,
    lemma_first_where_none, lemma_insert_in_order, listed_in_order, views,
};
use crate::text::{
    bytes_eq, join, lemma_text_chain, lemma_text_lt_total, lemma_text_order, str_eq, str_less,
    text_lt,
};

verus! {

/// The row is a version of a file of the group that holds content: current,
/// superseded or trashed.
pub open spec fn is_root(group: Seq<char>) -> spec_fn(Version) -> bool {
    |row: Version| row.group == group && !row.deleted && row.kind is File
}

/// Roots are ordered by path, then by version.
pub open spec fn root_order() -> spec_fn(Version, Version) -> bool {
    |a: Version, b: Version| text_lt(a.path, b.path) || (a.path == b.path && a.seq < b.seq)
}

/// The rows at some positions.
pub open spec fn rows_at(rows: Seq<Version>, positions: Seq<usize>) -> Seq<Version> {
    positions.map_values(|i: usize| rows[i as int])
}

/// The list is the group's durable roots in order.
pub open spec fn is_root_listing(listed: Seq<Version>, rows: Seq<Version>, group: Seq<char>) -> bool {
    listed_in_order(listed, rows, is_root(group), root_order())
}

/// The versions rows read as, or the first failure.
pub open spec fn read_versions(listed: Seq<Version>, mask: u32) -> Result<
    Seq<VersionEntry>,
    Failure,
>
    decreases listed.len(),
{
    if listed.len() == 0 {
        Ok(Seq::empty())
    } else {
        match read_versions(listed.drop_last(), mask) {
            Err(failure) => Err(failure),
            Ok(entries) => match version_of(listed.last(), mask) {
                Err(failure) => Err(failure),
                Ok(entry) => Ok(entries.push(entry)),
            },
        }
    }
}

/// A failure among the first rows fails the whole list.
proof fn lemma_read_versions_fails_early(listed: Seq<Version>, mask: u32, i: int)
    requires
        0 <= i <= listed.len(),
        read_versions(listed.take(i), mask) is Err,
    ensures
        read_versions(listed, mask) == read_versions(listed.take(i), mask),
    decreases listed.len() - i,
{
    if i == listed.len() {
        assert(listed.take(i) =~= listed);
    } else {
        assert(listed.take(i + 1).drop_last() =~= listed.take(i));
        lemma_read_versions_fails_early(listed, mask, i + 1);
    }
}

/// Two roots of a well-formed index that are not ordered are the same row.
proof fn lemma_root_order_is_total(rows: Seq<Version>, group: Seq<char>, a: Version, b: Version)
    requires
        is_history(rows),
        rows.contains(a),
        rows.contains(b),
        a.group == group,
        b.group == group,
        !root_order()(a, b),
        !root_order()(b, a),
    ensures
        a == b,
{
    lemma_text_lt_total(a.path, b.path);
    let i = choose|i: int| 0 <= i < rows.len() && rows[i] == a;
    let j = choose|j: int| 0 <= j < rows.len() && rows[j] == b;
    if i != j {
        assert(same_path(rows[i], rows[j]));
    }
}

/// A well-formed index has one listing of a group's durable roots.
pub proof fn law_durable_roots_have_one_listing(
    rows: Seq<Version>,
    group: Seq<char>,
    a: Seq<Version>,
    b: Seq<Version>,
)
    requires
        is_history(rows),
        is_root_listing(a, rows, group),
        is_root_listing(b, rows, group),
    ensures
        a == b,
{
    lemma_listed_members(a, rows, group);
    lemma_listed_members(b, rows, group);
    lemma_orders_agree(rows, group, a, b);
}

proof fn lemma_listed_members(listed: Seq<Version>, rows: Seq<Version>, group: Seq<char>)
    requires
        is_root_listing(listed, rows, group),
    ensures
        forall|row: Version| #[trigger]
            listed.contains(row) ==> rows.contains(row) && row.group == group,
{
    let selected = rows.filter(is_root(group));
    assert forall|row: Version| #[trigger] listed.contains(row) implies rows.contains(row)
        && row.group == group by {
        listed.to_multiset_ensures();
        selected.to_multiset_ensures();
        assert(listed.to_multiset().count(row) > 0);
        assert(selected.contains(row));
        lemma_filter_members(rows, is_root(group), row);
    }
}

proof fn lemma_orders_agree(
    rows: Seq<Version>,
    group: Seq<char>,
    a: Seq<Version>,
    b: Seq<Version>,
)
    requires
        is_history(rows),
        a.to_multiset() == b.to_multiset(),
        in_order(a, root_order()),
        in_order(b, root_order()),
        forall|row: Version| #[trigger]
            a.contains(row) ==> rows.contains(row) && row.group == group,
        forall|row: Version| #[trigger]
            b.contains(row) ==> rows.contains(row) && row.group == group,
    ensures
        a == b,
    decreases a.len(),
{
    a.to_multiset_ensures();
    b.to_multiset_ensures();
    assert(a.len() == b.len());
    if a.len() > 0 {
        let x = a.last();
        let y = b.last();
        assert(a[a.len() - 1] == x);
        assert(b[b.len() - 1] == y);
        assert(a.contains(x) && b.contains(y));
        assert(b.to_multiset().count(x) > 0);
        assert(a.to_multiset().count(y) > 0);
        assert(b.contains(x) && a.contains(y));
        let i = choose|i: int| 0 <= i < b.len() && b[i] == x;
        let j = choose|j: int| 0 <= j < a.len() && a[j] == y;
        if x != y {
            assert(i < b.len() - 1);
            assert(j < a.len() - 1);
            assert(!root_order()(b[b.len() - 1], b[i]));
            assert(!root_order()(a[a.len() - 1], a[j]));
            lemma_root_order_is_total(rows, group, x, y);
        }
        let a1 = a.drop_last();
        let b1 = b.drop_last();
        assert(a =~= a1.push(x));
        assert(b =~= b1.push(x));
        vstd::seq_lib::to_multiset_build(a1, x);
        vstd::seq_lib::to_multiset_build(b1, x);
        assert(a1.to_multiset() =~= a.to_multiset().remove(x));
        assert(b1.to_multiset() =~= b.to_multiset().remove(x));
        assert(in_order(a1, root_order())) by {
            assert forall|p: int, q: int|
                #![trigger a1[p], a1[q]]
                0 <= p < q < a1.len() implies !root_order()(a1[q], a1[p]) by {
                assert(a1[p] == a[p] && a1[q] == a[q]);
            }
        }
        assert(in_order(b1, root_order())) by {
            assert forall|p: int, q: int|
                #![trigger b1[p], b1[q]]
                0 <= p < q < b1.len() implies !root_order()(b1[q], b1[p]) by {
                assert(b1[p] == b[p] && b1[q] == b[q]);
            }
        }
        assert forall|row: Version| #[trigger] a1.contains(row) implies rows.contains(row)
            && row.group == group by {
            let k = choose|k: int| 0 <= k < a1.len() && a1[k] == row;
            assert(a[k] == row);
            assert(a.contains(row));
        }
        assert forall|row: Version| #[trigger] b1.contains(row) implies rows.contains(row)
            && row.group == group by {
            let k = choose|k: int| 0 <= k < b1.len() && b1[k] == row;
            assert(b[k] == row);
            assert(b.contains(row));
        }
        lemma_orders_agree(rows, group, a1, b1);
    } else {
        assert(a =~= b);
    }
}

/// A group's durable roots in order.
#[derive(Debug, PartialEq, Eq)]
pub struct RootSet {
    pub roots: Vec<VersionRecord>,
    pub current: Vec<VersionRecord>,
    pub current_count: u64,
    pub unmaterialized_current_count: u64,
    pub roots_count: u64,
    pub generation: u64,
}

/// The row is current.
pub open spec fn is_current_row() -> spec_fn(Version) -> bool {
    |row: Version| row.state is Current
}

/// The row is current and its content is not all on this disk.
pub open spec fn is_unmaterialized_current() -> spec_fn(Version) -> bool {
    |row: Version| row.state is Current && !(row.materialization is Hydrated)
}

/// Some block of the row has that hash.
pub open spec fn references(blocks: Seq<Block>, hash: Seq<u8>) -> bool {
    any(blocks, |block: Block| block.hash == hash)
}

/// What the search for a block among a group's versions answers: the first row,
/// in table order, that holds it or does not read decides.
pub open spec fn block_search(rows: Seq<Version>, group: Seq<char>, hash: Seq<u8>) -> Result<
    bool,
    Failure,
>
    decreases rows.len(),
{
    if rows.len() == 0 {
        Ok(false)
    } else if rows[0].group != group {
        block_search(rows.skip(1), group, hash)
    } else {
        match rows[0].blocks {
            Err(error) => Err(
                Failure::CorruptState("stored block list is corrupt: "@ + error),
            ),
            Ok(blocks) => if references(blocks, hash) {
                Ok(true)
            } else {
                block_search(rows.skip(1), group, hash)
            },
        }
    }
}

/// Whether some block has the hash.
fn holds_block(blocks: &Vec<BlockInfo>, hash: &[u8]) -> (holds: bool)
    ensures
        holds == references(views(blocks@), hash@),
{
    let ghost all = views(blocks@);
    let ghost pred = |block: Block| block.hash == hash@;
    let mut i: usize = 0;
    while i < blocks.len()
        invariant
            i <= blocks@.len(),
            all == views(blocks@),
            pred == (|block: Block| block.hash == hash@),
            forall|j: int| 0 <= j < i ==> !pred(#[trigger] all[j]),
        decreases blocks@.len() - i,
    {
        assert(all[i as int] == blocks@[i as int]@);
        if bytes_eq(blocks[i].hash.as_slice(), hash) {
            assert(pred(all[i as int]));
            return true;
        }
        i += 1;
    }
    false
}

impl FileIndexRepository {
    /// Whether the row at `a` comes before the row at `b` in root order.
    fn root_before(&self, a: usize, b: usize) -> (before: bool)
        requires
            a < self.files@.len(),
            b < self.files@.len(),
        ensures
            before == root_order()(self@.files[a as int], self@.files[b as int]),
    {
        assert(self@.files[a as int] == self.files@[a as int]@);
        assert(self@.files[b as int] == self.files@[b as int]@);
        str_less(self.files[a].path.as_str(), self.files[b].path.as_str()) || (str_eq(
            self.files[a].path.as_str(),
            self.files[b].path.as_str(),
        ) && self.files[a].version_seq < self.files[b].version_seq)
    }

    /// Where the group's durable roots stand, in order.
    fn root_positions(&self, group_id: &str) -> (positions: Vec<usize>)
        ensures
            forall|k: int|
                #![trigger positions@[k]]
                0 <= k < positions@.len() ==> positions@[k] < self.files@.len(),
            is_root_listing(rows_at(self@.files, positions@), self@.files, group_id@),
    {
        let ghost rows = self@.files;
        let ghost pred = is_root(group_id@);
        let mut positions: Vec<usize> = Vec::new();
        let mut i: usize = 0;
        assert(rows.take(0).filter(pred) =~= Seq::empty());
        assert(rows_at(rows, positions@) =~= rows.take(0).filter(pred));
        while i < self.files.len()
            invariant
                i <= self.files@.len(),
                rows == self@.files,
                pred == is_root(group_id@),
                forall|k: int|
                    #![trigger positions@[k]]
                    0 <= k < positions@.len() ==> positions@[k] < self.files@.len(),
                rows_at(rows, positions@).to_multiset() == rows.take(i as int).filter(
                    pred,
                ).to_multiset(),
                in_order(rows_at(rows, positions@), root_order()),
            decreases self.files@.len() - i,
        {
            assert(rows[i as int] == self.files@[i as int]@);
            proof {
                lemma_filter_multiset_next(rows, pred, i as int);
            }
            let is_file: bool = match self.files[i].record_kind {
                RecordKind::File => true,
                _ => false,
            };
            if is_file && !self.files[i].deleted && str_eq(
                self.files[i].group_id.as_str(),
                group_id,
            ) {
                self.insert_position(&mut positions, i);
            }
            i += 1;
        }
        assert(rows.take(rows.len() as int) =~= rows);
        positions
    }

    /// Puts a position where its row belongs.
    fn insert_position(&self, positions: &mut Vec<usize>, row: usize)
        requires
            row < self.files@.len(),
            forall|k: int|
                #![trigger old(positions)@[k]]
                0 <= k < old(positions)@.len() ==> old(positions)@[k] < self.files@.len(),
            in_order(rows_at(self@.files, old(positions)@), root_order()),
        ensures
            forall|k: int|
                #![trigger final(positions)@[k]]
                0 <= k < final(positions)@.len() ==> final(positions)@[k] < self.files@.len(),
            in_order(rows_at(self@.files, final(positions)@), root_order()),
            rows_at(self@.files, final(positions)@).to_multiset() == rows_at(
                self@.files,
                old(positions)@,
            ).to_multiset().insert(self@.files[row as int]),
    {
        let ghost rows = self@.files;
        let ghost given = positions@;
        let ghost before = rows_at(rows, given);
        let ghost made = rows[row as int];
        let mut at: usize = 0;
        while at < positions.len() && !self.root_before(row, positions[at])
            invariant
                at <= positions@.len(),
                row < self.files@.len(),
                rows == self@.files,
                given == positions@,
                before == rows_at(rows, given),
                made == rows[row as int],
                forall|k: int|
                    #![trigger positions@[k]]
                    0 <= k < positions@.len() ==> positions@[k] < self.files@.len(),
                forall|i: int| 0 <= i < at ==> !root_order()(made, #[trigger] before[i]),
            decreases positions@.len() - at,
        {
            assert(before[at as int] == rows[positions@[at as int] as int]);
            at += 1;
        }
        proof {
            assert forall|i: int| at <= i < before.len() implies !root_order()(
                #[trigger] before[i],
                made,
            ) by {
                let next = before[at as int];
                assert(next == rows[given[at as int] as int]);
                assert(root_order()(made, next));
                if i > at {
                    assert(!root_order()(before[i], next));
                }
                if root_order()(before[i], made) {
                    lemma_root_order_chain(before[i], made, next);
                    if i == at {
                        lemma_root_order_chain(made, next, made);
                        lemma_root_order_irreflexive(made);
                    }
                }
            }
            lemma_insert_in_order(before, root_order(), at as int, made);
        }
        positions.insert(at, row);
        proof {
            assert(rows_at(rows, positions@) =~= before.insert(at as int, made));
            assert forall|k: int| #![trigger positions@[k]] 0 <= k < positions@.len() implies
                positions@[k] < self.files@.len() by {
                if k < at {
                    assert(positions@[k] == given[k]);
                } else if k > at {
                    assert(positions@[k] == given[k - 1]);
                }
            }
        }
    }

    /// The group's durable roots, each by its path and version number, in
    /// order.
    pub fn enumerate_group_durability_root_versions(&self, group_id: &str) -> (keys: Vec<
        (String, i64),
    >)
        ensures
            exists|listed: Seq<Version>|
                is_root_listing(listed, self@.files, group_id@) && pin_keys(keys@)
                    == #[trigger] root_keys(listed),
    {
        let positions = self.root_positions(group_id);
        let ghost rows = self@.files;
        let ghost listed = rows_at(rows, positions@);
        let mut keys: Vec<(String, i64)> = Vec::new();
        let mut k: usize = 0;
        assert(pin_keys(keys@) =~= root_keys(listed.take(0)));
        while k < positions.len()
            invariant
                k <= positions@.len(),
                rows == self@.files,
                listed == rows_at(rows, positions@),
                forall|m: int|
                    #![trigger positions@[m]]
                    0 <= m < positions@.len() ==> positions@[m] < self.files@.len(),
                pin_keys(keys@) == root_keys(listed.take(k as int)),
            decreases positions@.len() - k,
        {
            let i: usize = positions[k];
            let ghost so_far = pin_keys(keys@);
            assert(listed[k as int] == self.files@[i as int]@);
            keys.push((self.files[i].path.clone(), self.files[i].version_seq));
            assert(pin_keys(keys@) =~= so_far.push((listed[k as int].path, listed[k as int].seq)));
            assert(root_keys(listed.take(k + 1)) =~= root_keys(listed.take(k as int)).push(
                (listed[k as int].path, listed[k as int].seq),
            ));
            k += 1;
        }
        assert(listed.take(listed.len() as int) =~= listed);
        keys
    }

    /// The group's durable roots with their content, in order. The first one
    /// that does not read fails the enumeration.
    pub fn enumerate_group_durability_roots(&self, group_id: &str, mask: u32) -> (result: Result<
        Vec<VersionRecord>,
        SyncSqliteError,
    >)
        ensures
            exists|listed: Seq<Version>|
                is_root_listing(listed, self@.files, group_id@) && #[trigger] versions_read(
                    read_versions(listed, mask),
                    result,
                ),
    {
        enumerate_group_durability_roots_on_conn(self, group_id, mask)
    }

    /// The counter of the group's root set.
    pub fn root_set_generation(&self, group_id: &str) -> (generation: u64)
        ensures
            generation == generation_of(self@.generations, group_id@),
    {
        root_set_generation_on_conn(self, group_id)
    }

    /// The group's durable roots, its current ones among them, their numbers,
    /// and the counter they were taken at.
    pub fn group_root_set_summary(&self, group_id: &str, mask: u32) -> (result: Result<
        RootSet,
        SyncSqliteError,
    >)
        ensures
            exists|listed: Seq<Version>|
                is_root_listing(listed, self@.files, group_id@) && #[trigger] summarized(
                    listed,
                    mask,
                    generation_of(self@.generations, group_id@),
                    result,
                ),
    {
        let generation: u64 = root_set_generation_on_conn(self, group_id);
        group_root_set_summary_on_conn(self, group_id, generation, mask)
    }

    /// Whether any version of the group, in whatever state, refers to the
    /// block. A block list that does not read fails the search.
    pub fn group_retained_version_references_block(&self, group_id: &str, block_hash: &[u8]) -> (
    result: Result<bool, SyncSqliteError>)
        ensures
            match block_search(self@.files, group_id@, block_hash@) {
                Ok(found) => result is Ok && result->Ok_0 == found,
                Err(failure) => result is Err && result->Err_0@ == failure,
            },
    {
        let ghost rows = self@.files;
        let mut i: usize = 0;
        assert(rows.skip(0) =~= rows);
        while i < self.files.len()
            invariant
                i <= self.files@.len(),
                rows == self@.files,
                block_search(rows, group_id@, block_hash@) == block_search(
                    rows.skip(i as int),
                    group_id@,
                    block_hash@,
                ),
            decreases self.files@.len() - i,
        {
            assert(rows[i as int] == self.files@[i as int]@);
            assert(rows.skip(i as int)[0] == rows[i as int]);
            assert(rows.skip(i as int).skip(1) =~= rows.skip(i + 1));
            if str_eq(self.files[i].group_id.as_str(), group_id) {
                match &self.files[i].blocks {
                    Ok(blocks) => {
                        if holds_block(blocks, block_hash) {
                            return Ok(true);
                        }
                    },
                    Err(error) => {
                        return Err(
                            SyncSqliteError::CorruptState(
                                join("stored block list is corrupt: ", error.as_str()),
                            ),
                        );
                    },
                }
            }
            i += 1;
        }
        assert(rows.skip(i as int).len() == 0);
        Ok(false)
    }
}

/// The group's durable roots with their content, in order. The first one
/// that does not read fails the enumeration.
pub fn enumerate_group_durability_roots_on_conn(index: &FileIndexRepository, group_id: &str, mask: u32) -> (result: Result<
    Vec<VersionRecord>,
    SyncSqliteError,
>)
    ensures
        exists|listed: Seq<Version>|
            is_root_listing(listed, index@.files, group_id@) && #[trigger] versions_read(
                read_versions(listed, mask),
                result,
            ),
{
    let positions = index.root_positions(group_id);
    let ghost rows = index@.files;
    let ghost listed = rows_at(rows, positions@);
    let mut roots: Vec<VersionRecord> = Vec::new();
    let mut k: usize = 0;
    assert(listed.take(0) =~= Seq::empty());
    assert(views(roots@) =~= Seq::empty());
    while k < positions.len()
        invariant
            k <= positions@.len(),
            rows == index@.files,
            listed == rows_at(rows, positions@),
            is_root_listing(listed, rows, group_id@),
            forall|m: int|
                #![trigger positions@[m]]
                0 <= m < positions@.len() ==> positions@[m] < index.files@.len(),
            read_versions(listed.take(k as int), mask) is Ok,
            read_versions(listed.take(k as int), mask)->Ok_0 == views(roots@),
        decreases positions@.len() - k,
    {
        let i: usize = positions[k];
        assert(listed[k as int] == index.files@[i as int]@);
        assert(listed.take(k + 1).drop_last() =~= listed.take(k as int));
        let ghost so_far = views(roots@);
        match index.files[i].version(mask) {
            Ok(record) => {
                roots.push(record);
                assert(views(roots@) =~= so_far.push(record@));
            },
            Err(error) => {
                proof {
                    lemma_read_versions_fails_early(listed, mask, k + 1);
                }
                let result: Result<Vec<VersionRecord>, SyncSqliteError> = Err(error);
                assert(versions_read(read_versions(listed, mask), result));
                return result;
            },
        }
        k += 1;
    }
    assert(listed.take(listed.len() as int) =~= listed);
    let result: Result<Vec<VersionRecord>, SyncSqliteError> = Ok(roots);
    assert(versions_read(read_versions(listed, mask), result));
    result
}

/// The counter of the group's root set.
pub fn root_set_generation_on_conn(index: &FileIndexRepository, group_id: &str) -> (generation: u64)
    ensures
        generation == generation_of(index@.generations, group_id@),
{
    let ghost rows = index@.generations;
    let ghost pred = is_counter_of(group_id@);
    let mut i: usize = 0;
    while i < index.root_set_generations.len()
        invariant
            i <= index.root_set_generations@.len(),
            rows == index@.generations,
            pred == is_counter_of(group_id@),
            forall|j: int| 0 <= j < i ==> !pred(#[trigger] rows[j]),
        decreases index.root_set_generations@.len() - i,
    {
        assert(rows[i as int] == index.root_set_generations@[i as int]@);
        if str_eq(index.root_set_generations[i].group_id.as_str(), group_id) {
            proof {
                lemma_first_where_at(rows, pred, i as int);
            }
            let generation: i64 = index.root_set_generations[i].generation;
            return if generation < 0 {
                0
            } else {
                generation as u64
            };
        }
        i += 1;
    }
    proof {
        lemma_first_where_none(rows, pred);
    }
    0
}

/// The group's durable roots, its current ones among them, their numbers,
/// and the counter they were taken at, which the caller read first.
pub fn group_root_set_summary_on_conn(index: &FileIndexRepository, group_id: &str, generation: u64, mask: u32) -> (result: Result<
    RootSet,
    SyncSqliteError,
>)
    ensures
        exists|listed: Seq<Version>|
            is_root_listing(listed, index@.files, group_id@) && #[trigger] summarized(
                listed,
                mask,
                generation as int,
                result,
            ),
{
    let positions = index.root_positions(group_id);
    let ghost rows = index@.files;
    let ghost listed = rows_at(rows, positions@);
    let mut roots: Vec<VersionRecord> = Vec::new();
    let mut current: Vec<VersionRecord> = Vec::new();
    let mut unmaterialized: u64 = 0;
    let mut k: usize = 0;
    assert(listed.take(0) =~= Seq::empty());
    assert(listed.take(0).filter(is_current_row()) =~= Seq::empty());
    assert(listed.take(0).filter(is_unmaterialized_current()) =~= Seq::empty());
    assert(views(roots@) =~= Seq::empty());
    assert(views(current@) =~= Seq::empty());
    while k < positions.len()
        invariant
            k <= positions@.len(),
            rows == index@.files,
            listed == rows_at(rows, positions@),
            is_root_listing(listed, rows, group_id@),
            forall|m: int|
                #![trigger positions@[m]]
                0 <= m < positions@.len() ==> positions@[m] < index.files@.len(),
            read_versions(listed.take(k as int), mask) is Ok,
            read_versions(listed.take(k as int), mask)->Ok_0 == views(roots@),
            read_versions(listed.take(k as int).filter(is_current_row()), mask) is Ok,
            read_versions(listed.take(k as int).filter(is_current_row()), mask)->Ok_0
                == views(current@),
            unmaterialized <= k,
            unmaterialized == listed.take(k as int).filter(is_unmaterialized_current()).len(),
        decreases positions@.len() - k,
    {
        let i: usize = positions[k];
        assert(listed[k as int] == index.files@[i as int]@);
        assert(listed.take(k + 1).drop_last() =~= listed.take(k as int));
        proof {
            crate::rows::lemma_filter_take_next(listed, is_current_row(), k as int);
            crate::rows::lemma_filter_take_next(
                listed,
                is_unmaterialized_current(),
                k as int,
            );
            let shown = listed.take(k as int).filter(is_current_row());
            assert(shown.push(listed[k as int]).drop_last() =~= shown);
        }
        let ghost so_far = views(roots@);
        let ghost current_so_far = views(current@);
        match index.files[i].version(mask) {
            Ok(record) => {
                if index.files[i].is_current() {
                    let hydrated: bool = match index.files[i].materialization_state {
                        MaterializationState::Hydrated => true,
                        _ => false,
                    };
                    if !hydrated {
                        unmaterialized = unmaterialized + 1;
                    }
                    let shown = record.copy();
                    current.push(shown);
                    assert(views(current@) =~= current_so_far.push(record@));
                }
                roots.push(record);
                assert(views(roots@) =~= so_far.push(record@));
            },
            Err(error) => {
                proof {
                    lemma_read_versions_fails_early(listed, mask, k + 1);
                }
                let result: Result<RootSet, SyncSqliteError> = Err(error);
                assert(summarized(
                    listed,
                    mask,
                    generation as int,
                    result,
                ));
                return result;
            },
        }
        k += 1;
    }
    assert(listed.take(listed.len() as int) =~= listed);
    let current_count: u64 = current.len() as u64;
    let roots_count: u64 = roots.len() as u64;
    let result: Result<RootSet, SyncSqliteError> = Ok(
        RootSet {
            roots,
            current,
            current_count,
            unmaterialized_current_count: unmaterialized,
            roots_count,
            generation,
        },
    );
    assert(summarized(
        listed,
        mask,
        generation as int,
        result,
    ));
    result
}

/// The root order is transitive.
proof fn lemma_root_order_chain(a: Version, b: Version, c: Version)
    requires
        root_order()(a, b),
        root_order()(b, c),
    ensures
        root_order()(a, c),
{
    if text_lt(a.path, b.path) && text_lt(b.path, c.path) {
        lemma_text_chain(a.path, b.path, c.path);
    }
}

/// No root comes before itself.
proof fn lemma_root_order_irreflexive(a: Version)
    ensures
        !root_order()(a, a),
{
    if text_lt(a.path, a.path) {
        lemma_text_order(a.path, a.path);
    }
}

/// The keys of rows.
pub open spec fn root_keys(listed: Seq<Version>) -> Seq<(Seq<char>, int)> {
    listed.map_values(|row: Version| (row.path, row.seq))
}

/// Reading a list of versions answers so.
pub open spec fn versions_read(
    found: Result<Seq<VersionEntry>, Failure>,
    result: Result<Vec<VersionRecord>, SyncSqliteError>,
) -> bool {
    match found {
        Ok(entries) => result is Ok && views(result->Ok_0@) == entries,
        Err(failure) => result is Err && result->Err_0@ == failure,
    }
}

/// The summary is that of the listed roots.
pub open spec fn summarized(
    listed: Seq<Version>,
    mask: u32,
    generation: int,
    result: Result<RootSet, SyncSqliteError>,
) -> bool {
    match read_versions(listed, mask) {
        Err(failure) => result is Err && result->Err_0@ == failure,
        Ok(entries) => {
            &&& result is Ok
            &&& views(result->Ok_0.roots@) == entries
            &&& result->Ok_0.roots_count == entries.len()
            &&& read_versions(listed.filter(is_current_row()), mask) is Ok
            &&& views(result->Ok_0.current@) == read_versions(
                listed.filter(is_current_row()),
                mask,
            )->Ok_0
            &&& result->Ok_0.current_count == result->Ok_0.current@.len()
            &&& result->Ok_0.unmaterialized_current_count == listed.filter(
                is_unmaterialized_current(),
            ).len()
            &&& result->Ok_0.generation == generation
        },
    }
}

} // verus!
