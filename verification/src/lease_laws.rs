//! What handoff leases, pinned directories and conflict copies come to, row by
//! row.

use vstd::prelude::*;

use crate::conflict_copies::{
    copy_of, holds, holds_at, is_copy_below, is_live_below, is_live_copy, is_strictly_below,
    law_bounds_enclose_exactly_the_descendants,
};
use crate::durability::{read_versions, root_keys};
use crate::error::{Failure, SyncSqliteError};
use crate::file_effect_laws::{law_the_current_version_is_the_row_that_stands_there, stands_at};
use crate::file_rows::{is_history, FileIndex, Generation, Pin, Version};
use crate::file_upsert::current;
use crate::file_versions::VersionEntry;
use crate::handoff_lease::{
    all_pins, created_earlier, is_lease, is_lease_of, is_pinning, lease_made, lease_of, leases_of,
    lists_once, pins_of, pins_text, recorded, with_lease, with_state, LeaseRow,
};
use crate::pinned_directories::{
    covers, directory_pin_covers, is_below, is_live_file_under, is_other_at, is_pin_above,
    is_pinned_at, pins_set,
};
use crate::root_counter::{generation_of, is_counter_of, touched, touched_if};
use crate::root_recheck::{answered, rechecked, roots_stand, Digested};
use crate::rows::{
    any, first_where, lemma_filter_members, lemma_first_where, lemma_first_where_at, set_where,
};

verus! {

/// A lease that is made starts out provisional, with what it was given.
pub proof fn law_a_lease_is_recorded_as_given(
    id: Seq<char>,
    group: Seq<char>,
    digest: Seq<u8>,
    pins: Seq<(Seq<char>, int)>,
    created_at: int,
    expires_at: int,
)
    ensures
        ({
            let row = recorded(id, group, digest, pins, created_at, expires_at);
            &&& row.id == id
            &&& row.group == group
            &&& row.digest == digest
            &&& row.state == "provisional"@
            &&& row.pins == pins_text(pins)
            &&& row.created_at == created_at
            &&& row.expires_at == expires_at
        }),
{
}

/// A lease takes the place of the one of its name, or joins the others; none of
/// another name changes.
pub proof fn law_a_lease_takes_the_place_of_its_name(
    leases: Seq<LeaseRow>,
    lease: LeaseRow,
    other: LeaseRow,
)
    ensures
        with_lease(leases, lease).contains(lease),
        other != lease ==> (with_lease(leases, lease).contains(other) <==> leases.contains(other)
            && other.id != lease.id),
{
    let pred = is_lease(lease.id);
    let after = with_lease(leases, lease);
    if any(leases, pred) {
        let k = choose|k: int| #![trigger leases[k]] 0 <= k < leases.len() && pred(leases[k]);
        assert(after[k] == lease);
    } else {
        assert(after[leases.len() as int] == lease);
        assert forall|i: int| #![trigger leases[i]] 0 <= i < leases.len() implies leases[i].id
            != lease.id by {
            assert(!pred(leases[i]));
        }
    }
    if after.contains(other) && other != lease {
        let i = choose|i: int| 0 <= i < after.len() && after[i] == other;
        assert(leases[i] == other);
    }
    if leases.contains(other) && other.id != lease.id {
        let i = choose|i: int| 0 <= i < leases.len() && leases[i] == other;
        assert(after[i] == other);
    }
}

/// Setting a lease's state sets that of the lease of the name alone, and nothing
/// else about it.
pub proof fn law_a_leases_state_is_set_alone(
    leases: Seq<LeaseRow>,
    id: Seq<char>,
    state: Seq<char>,
    i: int,
)
    requires
        0 <= i < leases.len(),
    ensures
        ({
            let after = set_where(leases, is_lease(id), with_state(state));
            &&& after.len() == leases.len()
            &&& leases[i].id == id ==> after[i].state == state && (LeaseRow {
                state: leases[i].state,
                ..after[i]
            }) == leases[i]
            &&& leases[i].id != id ==> after[i] == leases[i]
        }),
        any(leases, is_lease(id)) <==> exists|k: int|
            #![trigger leases[k]]
            0 <= k < leases.len() && leases[k].id == id,
{
    if exists|k: int| #![trigger leases[k]] 0 <= k < leases.len() && leases[k].id == id {
        let k = choose|k: int| #![trigger leases[k]] 0 <= k < leases.len() && leases[k].id == id;
        assert(is_lease(id)(leases[k]));
    }
    if any(leases, is_lease(id)) {
        let k = choose|k: int|
            #![trigger leases[k]]
            0 <= k < leases.len() && is_lease(id)(leases[k]);
        assert(leases[k].id == id);
    }
}

/// A lease reads with its own columns. A digest of another length reads as zero
/// bytes, and pins that do not parse as none.
pub proof fn law_a_lease_reads_as_its_row(row: LeaseRow)
    ensures
        ({
            let lease = lease_of(row);
            &&& lease.id == row.id
            &&& lease.group == row.group
            &&& lease.created_at == row.created_at
            &&& lease.expires_at == row.expires_at
            &&& row.state == "confirmed"@ <==> lease.state is Confirmed
            &&& row.state == "released"@ <==> lease.state is Released
            &&& row.state == "expired"@ <==> lease.state is Expired
            &&& lease.digest.len() == 32
            &&& row.digest.len() == 32 ==> lease.digest == row.digest
            &&& row.digest.len() != 32 ==> forall|i: int|
                #![trigger lease.digest[i]]
                0 <= i < 32 ==> lease.digest[i] == 0
            &&& pins_of(row.pins) matches Ok(pins) ==> lease.pins == pins
            &&& pins_of(row.pins) is Err ==> lease.pins.len() == 0
        }),
{
    reveal_strlit("confirmed");
    reveal_strlit("released");
    reveal_strlit("expired");
    assert("confirmed"@.len() == 9 && "released"@.len() == 8 && "expired"@.len() == 7);
}

/// Leases are listed for their group, the oldest first, each as it reads.
pub proof fn law_leases_are_listed_for_their_group(
    rows: Seq<LeaseRow>,
    a: LeaseRow,
    b: LeaseRow,
    group: Seq<char>,
    i: int,
)
    requires
        0 <= i < rows.len(),
    ensures
        is_lease_of(group)(a) <==> a.group == group,
        created_earlier()(a, b) <==> a.created_at < b.created_at,
        leases_of(rows).len() == rows.len(),
        leases_of(rows)[i] == lease_of(rows[i]),
{
}

/// A lease pins its group's versions while it is provisional or confirmed and
/// has not run out: at the second it expires it no longer does.
pub proof fn law_a_lease_pins_until_it_expires(row: LeaseRow, group: Seq<char>, now: int)
    ensures
        is_pinning(group, now)(row) <==> {
            &&& row.group == group
            &&& row.state == "provisional"@ || row.state == "confirmed"@
            &&& now < row.expires_at
        },
{
}

/// The lease at `i` pins the version.
pub open spec fn pins_key(leases: Seq<LeaseRow>, i: int, key: (Seq<char>, int)) -> bool {
    0 <= i < leases.len() && (pins_of(leases[i].pins) matches Ok(pins) && pins.contains(key))
}

/// What leases pin together is what any of them pins; leases whose pins do not
/// parse are refused, not passed over.
pub proof fn law_leases_pin_what_any_of_them_pins(leases: Seq<LeaseRow>)
    ensures
        all_pins(leases) is Err <==> exists|i: int|
            #![trigger leases[i]]
            0 <= i < leases.len() && pins_of(leases[i].pins) is Err,
        all_pins(leases) matches Err(failure) ==> failure is Json,
        all_pins(leases) matches Ok(pins) ==> forall|key: (Seq<char>, int)| #[trigger]
            pins.contains(key) <==> exists|i: int| #[trigger] pins_key(leases, i, key),
    decreases leases.len(),
{
    if leases.len() > 0 {
        let shorter = leases.drop_last();
        let n = leases.len() - 1;
        law_leases_pin_what_any_of_them_pins(shorter);
        if exists|i: int|
            #![trigger shorter[i]]
            0 <= i < shorter.len() && pins_of(shorter[i].pins) is Err {
            let i = choose|i: int|
                #![trigger shorter[i]]
                0 <= i < shorter.len() && pins_of(shorter[i].pins) is Err;
            assert(leases[i] == shorter[i]);
        }
        if exists|i: int|
            #![trigger leases[i]]
            0 <= i < leases.len() && pins_of(leases[i].pins) is Err {
            let i = choose|i: int|
                #![trigger leases[i]]
                0 <= i < leases.len() && pins_of(leases[i].pins) is Err;
            if i < n {
                assert(shorter[i] == leases[i]);
            }
        }
        assert(leases[n] == leases.last());
        if all_pins(leases) is Ok {
            let before = all_pins(shorter)->Ok_0;
            let more = pins_of(leases[n].pins)->Ok_0;
            let pins = all_pins(leases)->Ok_0;
            assert forall|key: (Seq<char>, int)| #[trigger] pins.contains(key) <==> exists|i: int|
                #[trigger] pins_key(leases, i, key) by {
                if pins.contains(key) {
                    let k = choose|k: int| 0 <= k < pins.len() && pins[k] == key;
                    if k < before.len() {
                        assert(before[k] == key);
                        assert(before.contains(key));
                        let i = choose|i: int| #[trigger] pins_key(shorter, i, key);
                        assert(pins_key(leases, i, key));
                    } else {
                        assert(more[k - before.len()] == key);
                        assert(pins_key(leases, n, key));
                    }
                }
                if exists|i: int| #[trigger] pins_key(leases, i, key) {
                    let i = choose|i: int| #[trigger] pins_key(leases, i, key);
                    if i < n {
                        assert(pins_key(shorter, i, key));
                        assert(before.contains(key));
                        let k = choose|k: int| 0 <= k < before.len() && before[k] == key;
                        assert(pins[k] == key);
                    } else {
                        let k = choose|k: int| 0 <= k < more.len() && more[k] == key;
                        assert(pins[before.len() + k] == key);
                    }
                }
            }
        }
    }
}

/// A list of pins holds each version once, and the same versions.
pub proof fn law_pins_are_listed_once(list: Seq<(Seq<char>, int)>, pins: Seq<(Seq<char>, int)>)
    ensures
        lists_once(list, pins) <==> {
            &&& forall|i: int, j: int|
                #![trigger list[i], list[j]]
                0 <= i < j < list.len() ==> list[i] != list[j]
            &&& forall|i: int| #![trigger list[i]] 0 <= i < list.len() ==> pins.contains(list[i])
            &&& forall|i: int| #![trigger pins[i]] 0 <= i < pins.len() ==> list.contains(pins[i])
        },
{
    if lists_once(list, pins) {
        assert forall|i: int| #![trigger list[i]] 0 <= i < list.len() implies pins.contains(
            list[i],
        ) by {
            assert(list.contains(list[i]));
        }
        assert forall|i: int| #![trigger pins[i]] 0 <= i < pins.len() implies list.contains(
            pins[i],
        ) by {
            assert(pins.contains(pins[i]));
        }
    }
    if {
        &&& forall|i: int, j: int|
            #![trigger list[i], list[j]]
            0 <= i < j < list.len() ==> list[i] != list[j]
        &&& forall|i: int| #![trigger list[i]] 0 <= i < list.len() ==> pins.contains(list[i])
        &&& forall|i: int| #![trigger pins[i]] 0 <= i < pins.len() ==> list.contains(pins[i])
    } {
        assert forall|key: (Seq<char>, int)| #[trigger] list.contains(key) <==> pins.contains(
            key,
        ) by {
            if list.contains(key) {
                let i = choose|i: int| 0 <= i < list.len() && list[i] == key;
                assert(pins.contains(list[i]));
            }
            if pins.contains(key) {
                let i = choose|i: int| 0 <= i < pins.len() && pins[i] == key;
                assert(list.contains(pins[i]));
            }
        }
    }
}

/// A lease over a group's durable roots is made only while they are those whose
/// digest was taken. It pins every one of them, under that digest; otherwise
/// nothing is recorded.
pub proof fn law_a_lease_is_made_over_the_roots_it_names(
    listed: Seq<Version>,
    mask: u32,
    taken: Digested,
    id: Seq<char>,
    group: Seq<char>,
    created_at: int,
    expires_at: int,
    before: Seq<LeaseRow>,
    after: Seq<LeaseRow>,
    result: Result<([u8; 32], Vec<(String, i64)>), SyncSqliteError>,
)
    requires
        lease_made(
            listed,
            mask,
            taken,
            id,
            group,
            created_at,
            expires_at,
            before,
            after,
            result,
        ),
    ensures
        result is Ok <==> read_versions(listed, mask) == Ok::<
            Seq<VersionEntry>,
            Failure,
        >(taken.roots),
        result is Err ==> after == before,
        result is Ok ==> {
            &&& result->Ok_0.0@ == taken.digest
            &&& exists|row: LeaseRow| #[trigger]
                after.contains(row) && row.id == id && row.group == group && row.state
                    == "provisional"@ && row.digest == taken.digest && row.created_at == created_at
                    && row.expires_at == expires_at && (pins_of(row.pins) matches Ok(pins)
                    && pins.len() == listed.len() && forall|i: int|
                    #![trigger listed[i]]
                    0 <= i < listed.len() ==> pins[i] == (listed[i].path, listed[i].seq))
            &&& forall|other: LeaseRow|
                other.id != id ==> (#[trigger] after.contains(other) <==> before.contains(other))
        },
{
    if result is Ok {
        let row = recorded(id, group, taken.digest, root_keys(listed), created_at, expires_at);
        law_a_lease_takes_the_place_of_its_name(before, row, row);
        assert(after.contains(row));
        assert forall|other: LeaseRow| other.id != id implies (#[trigger] after.contains(other)
            <==> before.contains(other)) by {
            law_a_lease_takes_the_place_of_its_name(before, row, other);
        }
    }
}

/// Roots stand exactly where they read as those that were taken, and a recheck
/// holds exactly where they stand and their digest is the expected one. What is
/// answered is that.
pub proof fn law_a_recheck_holds_over_unchanged_roots(
    listed: Seq<Version>,
    mask: u32,
    taken: Digested,
    expected: Seq<u8>,
    answer: Result<bool, Failure>,
    result: Result<bool, SyncSqliteError>,
)
    ensures
        roots_stand(listed, mask, taken) == Ok::<bool, Failure>(true)
            <==> read_versions(listed, mask) == Ok::<
            Seq<VersionEntry>,
            Failure,
        >(taken.roots),
        roots_stand(listed, mask, taken) is Err <==> read_versions(
            listed,
            mask,
        ) is Err,
        rechecked(listed, mask, taken, expected) == Ok::<bool, Failure>(true) <==> roots_stand(
            listed,
            mask,
            taken,
        ) == Ok::<bool, Failure>(true) && taken.digest == expected,
        rechecked(listed, mask, taken, expected) is Err <==> read_versions(
            listed,
            mask,
        ) is Err,
        answered(answer, result) ==> (result is Ok <==> answer is Ok) && (result matches Ok(holds)
            ==> answer == Ok::<bool, Failure>(holds)) && (result matches Err(error) ==> answer
            == Err::<bool, Failure>(error@)),
{
}

/// A group's counter is what stands in its row, no less than zero, and zero
/// without one. Touching a group moves its own row on by one, up to the last
/// number, and starts it at one; no other group's counter changes, and no other
/// table.
pub proof fn law_touching_a_group_counts_it_on(index: FileIndex, group: Seq<char>, other: Seq<char>)
    requires
        forall|i: int, j: int|
            #![trigger index.generations[i], index.generations[j]]
            0 <= i < j < index.generations.len() ==> index.generations[i].group
                != index.generations[j].group,
    ensures
        touched(index, group).files == index.files,
        touched(index, group).proofs == index.proofs,
        touched(index, group).captures == index.captures,
        touched(index, group).pins == index.pins,
        touched(index, group).changes == index.changes,
        touched_if(index, group, true) == touched(index, group),
        touched_if(index, group, false) == index,
        forall|i: int|
            #![trigger index.generations[i]]
            0 <= i < index.generations.len() ==> ({
                let row = index.generations[i];
                let after = touched(index, group).generations[i];
                &&& after.group == row.group
                &&& row.group != group ==> after == row
                &&& row.group == group && 0 <= row.generation < i64::MAX ==> after.generation
                    == row.generation + 1
                &&& row.group == group && row.generation < 0 ==> after.generation == 1
                &&& row.group == group && row.generation >= i64::MAX ==> after.generation
                    == row.generation
            }),
        (forall|i: int|
            #![trigger index.generations[i]]
            0 <= i < index.generations.len() ==> index.generations[i].group != group) ==> touched(
            index,
            group,
        ).generations == index.generations.push(Generation { group, generation: 1 }),
        forall|i: int|
            #![trigger index.generations[i]]
            0 <= i < index.generations.len() && index.generations[i].group == other
                ==> generation_of(index.generations, other) == if index.generations[i].generation
                < 0 {
                0
            } else {
                index.generations[i].generation
            },
        (forall|i: int|
            #![trigger index.generations[i]]
            0 <= i < index.generations.len() ==> index.generations[i].group != other)
            ==> generation_of(index.generations, other) == 0,
{
    let counters = index.generations;
    let pred = is_counter_of(other);
    lemma_first_where(counters, pred);
    assert forall|i: int| #![trigger counters[i]] 0 <= i < counters.len() && counters[i].group
        == other implies first_where(counters, pred) == Some(counters[i]) by {
        assert forall|j: int| 0 <= j < i implies !pred(#[trigger] counters[j]) by {
            assert(counters[j].group != counters[i].group);
        }
        lemma_first_where_at(counters, pred, i);
    }
    let of_group = is_counter_of(group);
    if any(counters, of_group) {
        let k = choose|k: int|
            #![trigger counters[k]]
            0 <= k < counters.len() && of_group(counters[k]);
        assert(counters[k].group == group);
    } else {
        assert forall|i: int| #![trigger counters[i]] 0 <= i < counters.len() implies
            counters[i].group != group by {
            assert(!of_group(counters[i]));
        }
    }
    if forall|i: int| #![trigger counters[i]] 0 <= i < counters.len() ==> counters[i].group
        != other {
        assert(!any(counters, pred));
    }
}

/// A path lies below a directory exactly where it is the directory, a slash and
/// something or nothing after it.
pub proof fn law_a_path_below_is_the_directory_a_slash_and_more(
    path: Seq<char>,
    directory: Seq<char>,
    rest: Seq<char>,
)
    ensures
        is_below(directory + seq!['/'] + rest, directory),
        is_below(path, directory) <==> exists|more: Seq<char>|
            path == #[trigger] (directory + seq!['/'] + more),
{
    let whole = directory + seq!['/'] + rest;
    assert(whole.take(directory.len() as int + 1) =~= directory.push('/'));
    if is_below(path, directory) {
        let more = path.skip(directory.len() as int + 1);
        assert(path.take(directory.len() as int + 1) + more =~= path);
        assert(directory.push('/') =~= directory + seq!['/']);
        assert(path == directory + seq!['/'] + more);
    }
    if exists|more: Seq<char>| path == #[trigger] (directory + seq!['/'] + more) {
        let more = choose|more: Seq<char>| path == #[trigger] (directory + seq!['/'] + more);
        assert(path.take(directory.len() as int + 1) =~= directory.push('/'));
    }
}

/// A path is covered exactly where its group has a pin on everything, on a
/// directory above it, or on the path itself while no live file or link stands
/// there.
pub proof fn law_a_path_is_pinned_by_its_own_groups_directories(
    index: FileIndex,
    group: Seq<char>,
    path: Seq<char>,
)
    ensures
        directory_pin_covers(index, group, path) <==> exists|p: int|
            #![trigger index.pins[p]]
            {
                &&& 0 <= p < index.pins.len()
                &&& index.pins[p].group == group
                &&& {
                    ||| index.pins[p].prefix.len() == 0
                    ||| is_below(path, index.pins[p].prefix)
                    ||| index.pins[p].prefix == path && forall|i: int|
                        #![trigger index.files[i]]
                        0 <= i < index.files.len() ==> !(index.files[i].group == group
                            && index.files[i].path == path && index.files[i].state is Current
                            && !index.files[i].deleted && (index.files[i].kind is File
                            || index.files[i].kind is Symlink))
                }
            },
        forall|pin: Pin| #[trigger]
            is_pin_above(group, path)(pin) <==> pin.group == group && pin.prefix != path && (
            pin.prefix.len() == 0 || is_below(path, pin.prefix)),
{
    let dir = crate::pinned_directories::may_be_directory(index.files, group, path);
    let pred = |pin: Pin| pin.group == group && covers(pin.prefix, path, dir);
    let standing = is_other_at(group, path);
    if dir {
        assert forall|i: int| #![trigger index.files[i]] 0 <= i < index.files.len() implies !(
        index.files[i].group == group && index.files[i].path == path && index.files[i].state
            is Current && !index.files[i].deleted && (index.files[i].kind is File
            || index.files[i].kind is Symlink)) by {
            assert(!standing(index.files[i]));
        }
    } else {
        let i = choose|i: int|
            #![trigger index.files[i]]
            0 <= i < index.files.len() && standing(index.files[i]);
        assert(index.files[i].kind is File || index.files[i].kind is Symlink);
    }
    assert(directory_pin_covers(index, group, path) <==> any(index.pins, pred));
    if any(index.pins, pred) {
        let p = choose|p: int|
            #![trigger index.pins[p]]
            0 <= p < index.pins.len() && pred(index.pins[p]);
        assert(covers(index.pins[p].prefix, path, dir));
    }
    assert forall|p: int|
        #![trigger index.pins[p]]
        0 <= p < index.pins.len() && index.pins[p].group == group && covers(
            index.pins[p].prefix,
            path,
            dir,
        ) implies any(index.pins, pred) by {
        assert(pred(index.pins[p]));
    }
}

/// Pinning puts the one pin there, releasing takes it away, and no other pin
/// changes.
pub proof fn law_a_pin_is_set_alone(pins: Seq<Pin>, pin: Pin, pinned: bool, other: Pin)
    ensures
        pins_set(pins, pin, pinned).contains(pin) <==> pinned,
        other != pin ==> (pins_set(pins, pin, pinned).contains(other) <==> pins.contains(other)),
        pinned && pins.contains(pin) ==> pins_set(pins, pin, pinned) == pins,
{
    if pinned {
        if !pins.contains(pin) {
            let after = pins.push(pin);
            assert(after[pins.len() as int] == pin);
            if pins.contains(other) {
                let i = choose|i: int| 0 <= i < pins.len() && pins[i] == other;
                assert(after[i] == other);
            }
            if after.contains(other) && other != pin {
                let i = choose|i: int| 0 <= i < after.len() && after[i] == other;
                assert(pins[i] == other);
            }
        }
    } else {
        lemma_filter_members(pins, crate::pinned_directories::is_other_pin(pin), pin);
        lemma_filter_members(pins, crate::pinned_directories::is_other_pin(pin), other);
    }
}

/// The live files under a prefix are the group's current, undeleted files at it
/// or below it; an empty prefix has them all.
pub proof fn law_live_files_lie_at_or_below(row: Version, group: Seq<char>, prefix: Seq<char>)
    ensures
        is_live_file_under(group, prefix)(row) <==> {
            &&& row.group == group
            &&& row.state is Current
            &&& !row.deleted
            &&& row.kind is File
            &&& prefix.len() == 0 || row.path == prefix || exists|rest: Seq<char>|
                row.path == #[trigger] (prefix + seq!['/'] + rest)
        },
{
    law_a_path_below_is_the_directory_a_slash_and_more(row.path, prefix, row.path);
}

/// A letter in lower case, and anything else as it is.
pub open spec fn lowered(c: char) -> int {
    if 'A' <= c <= 'Z' {
        c as int + 32
    } else {
        c as int
    }
}

/// The text holds the part at a place, whatever the case of its letters.
pub open spec fn reads_at(text: Seq<char>, part: Seq<char>, i: int) -> bool {
    &&& 0 <= i <= text.len() - part.len()
    &&& forall|j: int|
        #![trigger part[j]]
        0 <= j < part.len() ==> lowered(text[i + j]) == lowered(part[j])
}

/// A text holds a part exactly where it reads the same somewhere but for the
/// case of ASCII letters; so does every text with the part inside.
pub proof fn law_a_text_holds_a_part_in_any_case(
    text: Seq<char>,
    part: Seq<char>,
    before: Seq<char>,
    after: Seq<char>,
)
    ensures
        holds(text, part) <==> exists|i: int| #[trigger] reads_at(text, part, i),
        holds(before + part + after, part),
{
    if holds(text, part) {
        let i = choose|i: int| holds_at(text, part, i);
        assert(reads_at(text, part, i));
    }
    if exists|i: int| #[trigger] reads_at(text, part, i) {
        let i = choose|i: int| #[trigger] reads_at(text, part, i);
        assert(holds_at(text, part, i));
    }
    let whole = before + part + after;
    assert forall|j: int| 0 <= j < part.len() implies crate::conflict_copies::same_letter(
        whole[before.len() + j],
        #[trigger] part[j],
    ) by {
        assert(whole[before.len() + j] == part[j]);
    }
    assert(holds_at(whole, part, before.len() as int));
}

/// A live conflict copy is a current, undeleted row of the group whose path
/// carries the mark and is recognized; it is shown with its own columns.
pub proof fn law_a_conflict_copy_is_a_live_row_with_the_mark(
    row: Version,
    group: Seq<char>,
    recognized: Seq<Seq<char>>,
)
    ensures
        is_live_copy(group, recognized)(row) <==> {
            &&& row.group == group
            &&& row.state is Current
            &&& !row.deleted
            &&& exists|i: int| #[trigger] reads_at(row.path, "(conflicted copy, "@, i)
            &&& recognized.contains(row.path)
        },
        copy_of()(row).path == row.path,
        copy_of()(row).size == row.size,
        copy_of()(row).mtime == row.mtime,
        copy_of()(row).kind == row.kind,
{
    law_a_text_holds_a_part_in_any_case(row.path, "(conflicted copy, "@, row.path, row.path);
}

/// A live row lies below a directory where its path is the directory, a slash
/// and at least one more character; below the root lies every path.
pub proof fn law_a_live_descendant_lies_strictly_below(
    row: Version,
    group: Seq<char>,
    path: Seq<char>,
)
    ensures
        is_live_below(group, path)(row) <==> {
            &&& row.group == group
            &&& row.state is Current
            &&& !row.deleted
            &&& path.len() == 0 ==> row.path.len() > 0
            &&& path.len() > 0 ==> exists|rest: Seq<char>|
                rest.len() > 0 && row.path == #[trigger] (path + seq!['/'] + rest)
        },
{
    law_a_path_below_is_the_directory_a_slash_and_more(row.path, path, row.path);
    if path.len() > 0 && is_strictly_below(row.path, path) {
        let rest = choose|rest: Seq<char>| row.path == #[trigger] (path + seq!['/'] + rest);
        assert(rest.len() > 0);
    }
}

/// A conflict copy lies below a directory where a live row does whose path
/// carries the mark behind a space and is recognized; the root has every one.
pub proof fn law_a_copy_below_is_a_marked_live_descendant(
    row: Version,
    group: Seq<char>,
    path: Seq<char>,
    recognized: Seq<Seq<char>>,
)
    ensures
        is_copy_below(group, path, recognized)(row) <==> {
            &&& row.group == group
            &&& row.state is Current
            &&& !row.deleted
            &&& path.len() > 0 ==> exists|rest: Seq<char>|
                rest.len() > 0 && row.path == #[trigger] (path + seq!['/'] + rest)
            &&& exists|i: int| #[trigger] reads_at(row.path, " (conflicted copy, "@, i)
            &&& recognized.contains(row.path)
        },
{
    law_a_text_holds_a_part_in_any_case(row.path, " (conflicted copy, "@, row.path, row.path);
    if path.len() > 0 {
        law_bounds_enclose_exactly_the_descendants(path, row.path);
        law_a_path_below_is_the_directory_a_slash_and_more(row.path, path, row.path);
        if is_strictly_below(row.path, path) {
            let rest = choose|rest: Seq<char>| row.path == #[trigger] (path + seq!['/'] + rest);
            assert(rest.len() > 0);
        }
    }
}

/// A path is pinned where the row that stands there is, or a directory covers it.
pub proof fn law_a_path_is_pinned_by_its_row_or_a_directory(
    index: FileIndex,
    group: Seq<char>,
    path: Seq<char>,
)
    requires
        is_history(index.files),
    ensures
        is_pinned_at(index, group, path) <==> directory_pin_covers(index, group, path) || exists|
            i: int,
        |
            #![trigger index.files[i]]
            0 <= i < index.files.len() && stands_at(index.files[i], group, path)
                && index.files[i].pinned,
{
    law_the_current_version_is_the_row_that_stands_there(index.files, group, path);
    if current(index.files, group, path) is Some {
        let row = current(index.files, group, path)->0;
        let k = choose|k: int| 0 <= k < index.files.len() && index.files[k] == row;
        assert(stands_at(index.files[k], group, path));
    }
}

} // verus!
