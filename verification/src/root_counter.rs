//! The counter of a group's file rows: each statement that reaches a row of the
//! group raises it together with the row, so that two equal readings stand for
//! rows that did not change in between.

use vstd::prelude::*;

use crate::file_rows::{FileIndex, FileIndexRepository, Generation, RootSetGeneration, Version};
use crate::rows::{any, first_where, lemma_first_where, lemma_filter_take_next, set_where, views};
use crate::text::str_eq;

verus! {

/// The counter is that of the group.
pub open spec fn is_counter_of(group: Seq<char>) -> spec_fn(Generation) -> bool {
    |row: Generation| row.group == group
}

/// The counter of a group's root set: never negative, 0 without one.
pub open spec fn generation_of(rows: Seq<Generation>, group: Seq<char>) -> int {
    match first_where(rows, is_counter_of(group)) {
        Some(row) => if row.generation < 0 {
            0
        } else {
            row.generation
        },
        None => 0,
    }
}

/// A counter raised by one. It stays at the largest number its column holds.
pub open spec fn next_generation(generation: int) -> int {
    if generation < 0 {
        1
    } else if generation < i64::MAX {
        generation + 1
    } else {
        generation
    }
}

/// The counters with that of the group raised; a group without one gets its
/// first.
pub open spec fn raised(counters: Seq<Generation>, group: Seq<char>) -> Seq<Generation> {
    if any(counters, is_counter_of(group)) {
        set_where(
            counters,
            is_counter_of(group),
            |row: Generation|
                Generation { generation: next_generation(row.generation), ..row },
        )
    } else {
        counters.push(Generation { group, generation: 1 })
    }
}

/// The index after a statement reached rows of the group.
pub open spec fn touched(index: FileIndex, group: Seq<char>) -> FileIndex {
    FileIndex { generations: raised(index.generations, group), ..index }
}

/// The index after a statement that reached rows of the group, or none.
pub open spec fn touched_if(index: FileIndex, group: Seq<char>, reached: bool) -> FileIndex {
    if reached {
        touched(index, group)
    } else {
        index
    }
}

/// The row is a version of a path of the group.
pub open spec fn is_of(group: Seq<char>) -> spec_fn(Version) -> bool {
    |row: Version| row.group == group
}

/// The group's own rows.
pub open spec fn rows_of(rows: Seq<Version>, group: Seq<char>) -> Seq<Version> {
    rows.filter(is_of(group))
}

/// No group but that one has other rows than before.
pub open spec fn only_in(before: Seq<Version>, after: Seq<Version>, group: Seq<char>) -> bool {
    forall|other: Seq<char>|
        other != group ==> #[trigger] rows_of(after, other) == rows_of(before, other)
}

/// The counters kept up with the rows: none went down, and a group whose
/// counter stands where it stood, short of the largest number, has the rows it
/// had.
pub open spec fn counted(before: FileIndex, after: FileIndex) -> bool {
    forall|group: Seq<char>|
        #![trigger rows_of(after.files, group)]
        #![trigger generation_of(after.generations, group)]
        {
            let earlier = generation_of(before.generations, group);
            let later = generation_of(after.generations, group);
            &&& earlier <= later
            &&& earlier == later && later < i64::MAX ==> rows_of(after.files, group) == rows_of(
                before.files,
                group,
            )
        }
}

/// The group's counter is higher than it was, or at the largest number it can
/// hold.
pub open spec fn moved(before: FileIndex, after: FileIndex, group: Seq<char>) -> bool {
    generation_of(before.generations, group) < generation_of(after.generations, group)
        || generation_of(after.generations, group) >= i64::MAX
}

/// Two readings of a group's counter that are equal, short of the largest
/// number it can hold, mean that no row of the group changed in between.
pub proof fn law_equal_counters_mean_equal_rows(
    before: FileIndex,
    after: FileIndex,
    group: Seq<char>,
)
    requires
        counted(before, after),
        generation_of(before.generations, group) == generation_of(after.generations, group),
        generation_of(after.generations, group) < i64::MAX,
    ensures
        rows_of(after.files, group) == rows_of(before.files, group),
{
}

/// A counter that is still 0 after whatever was written to an empty index means
/// that the group has no row, and had none at any time in between: the counter
/// never went down.
pub proof fn law_a_counter_of_zero_means_no_row_was_written(
    empty: FileIndex,
    between: FileIndex,
    after: FileIndex,
    group: Seq<char>,
)
    requires
        empty.files.len() == 0,
        empty.generations.len() == 0,
        counted(empty, between),
        counted(between, after),
        generation_of(after.generations, group) == 0,
    ensures
        generation_of(between.generations, group) == 0,
        rows_of(between.files, group).len() == 0,
        rows_of(after.files, group).len() == 0,
{
    assert(empty.files =~= Seq::empty());
    assert(empty.generations =~= Seq::empty());
    assert(rows_of(empty.files, group) =~= Seq::empty());
    assert(generation_of(empty.generations, group) == 0);
    law_counting_carries_over_several_writes(empty, between, after);
    law_equal_counters_mean_equal_rows(empty, after, group);
    law_equal_counters_mean_equal_rows(empty, between, group);
}

/// However many writes come one after the other, the counters keep up with
/// them.
pub proof fn law_counting_carries_over_several_writes(
    first: FileIndex,
    second: FileIndex,
    third: FileIndex,
)
    requires
        counted(first, second),
        counted(second, third),
    ensures
        counted(first, third),
{
    assert forall|group: Seq<char>|
        #![trigger rows_of(third.files, group)]
        #![trigger generation_of(third.generations, group)]
        {
        let earlier = generation_of(first.generations, group);
        let later = generation_of(third.generations, group);
        &&& earlier <= later
        &&& earlier == later && later < i64::MAX ==> rows_of(third.files, group) == rows_of(
            first.files,
            group,
        )
    } by {
        let middle = generation_of(second.generations, group);
        assert(rows_of(second.files, group) == rows_of(second.files, group));
    }
}

/// What leaves the rows alone leaves them counted.
pub proof fn lemma_untouched_rows_are_counted(before: FileIndex, after: FileIndex)
    requires
        after.files == before.files,
        after.generations == before.generations,
    ensures
        counted(before, after),
{
}

/// The first counter of a group, once the counters of a group were raised.
proof fn lemma_first_counter(
    counters: Seq<Generation>,
    group: Seq<char>,
    f: spec_fn(Generation) -> Generation,
    other: Seq<char>,
)
    requires
        forall|row: Generation| (#[trigger] f(row)).group == row.group,
    ensures
        first_where(set_where(counters, is_counter_of(group), f), is_counter_of(other))
            == match first_where(counters, is_counter_of(other)) {
            Some(row) => Some(
                if other == group {
                    f(row)
                } else {
                    row
                },
            ),
            None => None,
        },
    decreases counters.len(),
{
    let after = set_where(counters, is_counter_of(group), f);
    if counters.len() > 0 {
        let tail = counters.skip(1);
        assert(after[0] == if is_counter_of(group)(counters[0]) {
            f(counters[0])
        } else {
            counters[0]
        });
        assert(after[0].group == counters[0].group);
        if counters[0].group != other {
            lemma_first_counter(tail, group, f, other);
            assert(after.skip(1) =~= set_where(tail, is_counter_of(group), f));
        }
    }
}

/// A counter put at the end is the first of its group only where the group had
/// none.
proof fn lemma_first_counter_of_push(
    counters: Seq<Generation>,
    row: Generation,
    group: Seq<char>,
)
    ensures
        first_where(counters.push(row), is_counter_of(group)) == match first_where(
            counters,
            is_counter_of(group),
        ) {
            Some(found) => Some(found),
            None => if row.group == group {
                Some(row)
            } else {
                None
            },
        },
    decreases counters.len(),
{
    let after = counters.push(row);
    if counters.len() > 0 {
        assert(after[0] == counters[0]);
        if counters[0].group != group {
            lemma_first_counter_of_push(counters.skip(1), row, group);
            assert(after.skip(1) =~= counters.skip(1).push(row));
        }
    } else {
        assert(after[0] == row);
        assert(after.skip(1) =~= Seq::empty());
        assert(first_where(Seq::<Generation>::empty(), is_counter_of(group)) is None);
    }
}

/// Raising a group's counter moves it up and no other, and never leaves it 0.
pub proof fn law_a_raised_counter_moves_up_alone(counters: Seq<Generation>, group: Seq<char>)
    ensures
        generation_of(raised(counters, group), group) == if generation_of(counters, group)
            < i64::MAX {
            generation_of(counters, group) + 1
        } else {
            generation_of(counters, group)
        },
        generation_of(raised(counters, group), group) > 0,
        forall|other: Seq<char>|
            other != group ==> #[trigger] generation_of(raised(counters, group), other)
                == generation_of(counters, other),
{
    let f = |row: Generation| Generation { generation: next_generation(row.generation), ..row };
    lemma_first_where(counters, is_counter_of(group));
    assert forall|other: Seq<char>| true implies #[trigger] generation_of(
        raised(counters, group),
        other,
    ) == if other != group {
        generation_of(counters, other)
    } else if generation_of(counters, group) < i64::MAX {
        generation_of(counters, group) + 1
    } else {
        generation_of(counters, group)
    } by {
        if any(counters, is_counter_of(group)) {
            lemma_first_counter(counters, group, f, other);
        } else {
            lemma_first_counter_of_push(counters, Generation { group, generation: 1 }, other);
        }
    }
}

/// A statement that changed rows of one group and raised its counter is
/// counted.
pub proof fn lemma_touched_is_counted(before: FileIndex, after: FileIndex, group: Seq<char>)
    requires
        only_in(before.files, after.files, group),
        after.generations == raised(before.generations, group),
    ensures
        counted(before, after),
        moved(before, after, group),
{
    law_a_raised_counter_moves_up_alone(before.generations, group);
}

/// Replacing rows of one group by rows of that group changes no other group.
pub proof fn lemma_update_stays_in(
    rows: Seq<Version>,
    pred: spec_fn(Version) -> bool,
    f: spec_fn(Version) -> Version,
    group: Seq<char>,
)
    requires
        forall|row: Version| #[trigger] pred(row) ==> row.group == group && f(row).group == group,
    ensures
        only_in(rows, set_where(rows, pred, f), group),
{
    let after = set_where(rows, pred, f);
    assert forall|other: Seq<char>| other != group implies #[trigger] rows_of(after, other)
        == rows_of(rows, other) by {
        lemma_update_keeps_others(rows, pred, f, group, other, rows.len() as int);
        assert(rows.take(rows.len() as int) =~= rows);
        assert(after.take(rows.len() as int) =~= after);
    }
}

proof fn lemma_update_keeps_others(
    rows: Seq<Version>,
    pred: spec_fn(Version) -> bool,
    f: spec_fn(Version) -> Version,
    group: Seq<char>,
    other: Seq<char>,
    n: int,
)
    requires
        0 <= n <= rows.len(),
        other != group,
        forall|row: Version| #[trigger] pred(row) ==> row.group == group && f(row).group == group,
    ensures
        set_where(rows, pred, f).take(n).filter(is_of(other)) == rows.take(n).filter(is_of(other)),
    decreases n,
{
    let after = set_where(rows, pred, f);
    if n == 0 {
        assert(after.take(0) =~= rows.take(0));
    } else {
        lemma_update_keeps_others(rows, pred, f, group, other, n - 1);
        lemma_filter_take_next(rows, is_of(other), n - 1);
        lemma_filter_take_next(after, is_of(other), n - 1);
        let row = rows[n - 1];
        assert(after[n - 1] == if pred(row) {
            f(row)
        } else {
            row
        });
    }
}

/// A row more of one group changes no other group.
pub proof fn lemma_insert_stays_in(rows: Seq<Version>, row: Version)
    ensures
        only_in(rows, rows.push(row), row.group),
{
    assert forall|other: Seq<char>| other != row.group implies #[trigger] rows_of(
        rows.push(row),
        other,
    ) == rows_of(rows, other) by {
        rows.lemma_filter_push(row, is_of(other));
    }
}

/// Rows of one group that go change no other group.
pub proof fn lemma_delete_stays_in(
    rows: Seq<Version>,
    kept: spec_fn(Version) -> bool,
    group: Seq<char>,
)
    requires
        forall|row: Version| !#[trigger] kept(row) ==> row.group == group,
    ensures
        only_in(rows, rows.filter(kept), group),
{
    assert forall|other: Seq<char>| other != group implies #[trigger] rows_of(
        rows.filter(kept),
        other,
    ) == rows_of(rows, other) by {
        lemma_delete_keeps_others(rows, kept, group, other, rows.len() as int);
        assert(rows.take(rows.len() as int) =~= rows);
    }
}

proof fn lemma_delete_keeps_others(
    rows: Seq<Version>,
    kept: spec_fn(Version) -> bool,
    group: Seq<char>,
    other: Seq<char>,
    n: int,
)
    requires
        0 <= n <= rows.len(),
        other != group,
        forall|row: Version| !#[trigger] kept(row) ==> row.group == group,
    ensures
        rows.take(n).filter(kept).filter(is_of(other)) == rows.take(n).filter(is_of(other)),
    decreases n,
{
    if n == 0 {
        assert(rows.take(0).filter(kept) =~= rows.take(0));
    } else {
        lemma_delete_keeps_others(rows, kept, group, other, n - 1);
        lemma_filter_take_next(rows, kept, n - 1);
        lemma_filter_take_next(rows, is_of(other), n - 1);
        let row = rows[n - 1];
        if kept(row) {
            rows.take(n - 1).filter(kept).lemma_filter_push(row, is_of(other));
        }
    }
}

/// What changes one group, then the same group, changes that group only.
pub proof fn lemma_only_in_twice(
    first: Seq<Version>,
    second: Seq<Version>,
    third: Seq<Version>,
    group: Seq<char>,
)
    requires
        only_in(first, second, group),
        only_in(second, third, group),
    ensures
        only_in(first, third, group),
{
    assert forall|other: Seq<char>| other != group implies #[trigger] rows_of(third, other)
        == rows_of(first, other) by {
        assert(rows_of(second, other) == rows_of(first, other));
    }
}

impl FileIndexRepository {
    /// Raises the counter of the group.
    pub(crate) fn raise_counter(&mut self, group_id: &str)
        ensures
            final(self)@ == touched(old(self)@, group_id@),
    {
        let ghost counters = self@.generations;
        let ghost before = self@;
        let ghost pred = is_counter_of(group_id@);
        let ghost f = |row: Generation|
            Generation { generation: next_generation(row.generation), ..row };
        let ghost after = set_where(counters, pred, f);
        let mut found: bool = false;
        let mut i: usize = 0;
        while i < self.root_set_generations.len()
            invariant
                i <= self.root_set_generations@.len(),
                self.root_set_generations@.len() == counters.len(),
                counters == before.generations,
                pred == is_counter_of(group_id@),
                f == (|row: Generation|
                    Generation { generation: next_generation(row.generation), ..row }),
                after == set_where(counters, pred, f),
                found == exists|j: int| #![trigger counters[j]] 0 <= j < i && pred(counters[j]),
                forall|j: int|
                    #![trigger self.root_set_generations@[j]]
                    0 <= j < counters.len() ==> self.root_set_generations@[j]@ == if j < i {
                        after[j]
                    } else {
                        counters[j]
                    },
                self@.files == before.files,
                self@.pins == before.pins,
                self@.proofs == before.proofs,
                self@.captures == before.captures,
                self@.changes == before.changes,
            decreases self.root_set_generations@.len() - i,
        {
            assert(self.root_set_generations@[i as int]@ == counters[i as int]);
            if str_eq(self.root_set_generations[i].group_id.as_str(), group_id) {
                let generation: i64 = self.root_set_generations[i].generation;
                let next: i64 = if generation < 0 {
                    1
                } else if generation < i64::MAX {
                    generation + 1
                } else {
                    generation
                };
                self.root_set_generations[i].generation = next;
                found = true;
                assert(self.root_set_generations@[i as int]@ == f(counters[i as int]));
                assert(pred(counters[i as int]));
            }
            i += 1;
        }
        if found {
            assert(any(counters, pred));
            assert(self@.generations =~= after);
        } else {
            assert(!any(counters, pred));
            assert(self@.generations =~= counters) by {
                assert forall|j: int| 0 <= j < counters.len() implies #[trigger] after[j]
                    == counters[j] by {
                    assert(!pred(counters[j]));
                }
            }
            self.root_set_generations.push(
                RootSetGeneration { group_id: group_id.to_owned(), generation: 1 },
            );
            assert(self@.generations =~= counters.push(
                Generation { group: group_id@, generation: 1 },
            ));
        }
    }
}

/// Copies a table of counters.
pub fn copy_counters(rows: &Vec<RootSetGeneration>) -> (copy: Vec<RootSetGeneration>)
    ensures
        views(copy@) == views(rows@),
{
    let mut copy: Vec<RootSetGeneration> = Vec::new();
    let mut i: usize = 0;
    while i < rows.len()
        invariant
            i <= rows@.len(),
            views(copy@) == views(rows@).take(i as int),
        decreases rows@.len() - i,
    {
        let ghost sofar = views(copy@);
        let row = RootSetGeneration {
            group_id: rows[i].group_id.clone(),
            generation: rows[i].generation,
        };
        copy.push(row);
        assert(views(copy@) =~= sofar.push(rows@[i as int]@));
        assert(views(rows@).take(i + 1) =~= views(rows@).take(i as int).push(rows@[i as int]@));
        i += 1;
    }
    assert(views(rows@).take(rows@.len() as int) =~= views(rows@));
    copy
}

} // verus!
