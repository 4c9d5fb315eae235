//! What linking folders does to the table of links, row by row.

use vstd::prelude::*;

use crate::error::{Failure, SyncSqliteError};
use crate::file_rows::Version;
use crate::index_vocabulary::MaterializationPolicy;
use crate::link::{
    claimants, floors_after, folder_of, gate_of, is_in_group, is_link, is_live_for, is_live_link,
    is_not_link, is_paused, link_change, linked, links_changed, live_paths, lives_elsewhere,
    opts_in_to_symlinks, path_of, paths_are_unique, policy_of, rechecked_change, shown_link,
    sole_live, starts_anew, suppresses_tombstones, token_of, with_max_size, with_orphaned,
    with_paused, with_policy, with_root_token, with_suppressed_tombstones, with_windows_symlinks,
    without, Floor, Gate, Link, LinkTable, Recovery,
};
use crate::link_recovery::{
    armed, floor_of, is_of_group, is_other_recovery, is_recovering, token_at, with_recovery,
};
use crate::listing_laws::{lemma_selection_counts, positions};
use crate::rows::{
    any, first_where, lemma_filter_members, lemma_first_where, lemma_first_where_at,
    lemma_first_where_none, set_where,
};
use crate::sorted_text::{lemma_sorted_is_ordered, sorted_texts, text_order};
use crate::text::text_lt;

verus! {

/// The folder at `i` is linked to the group and there.
pub open spec fn is_live_at(links: Seq<Link>, group: Seq<char>, i: int) -> bool {
    0 <= i < links.len() && links[i].group == group && !links[i].orphaned
}

/// The folder at `i` is at the path.
pub open spec fn is_linked_at(links: Seq<Link>, path: Seq<char>, i: int) -> bool {
    0 <= i < links.len() && links[i].path == path
}

/// Each text once more than it was, in the order of its bytes.
proof fn lemma_sorted_members(list: Seq<Seq<char>>, text: Seq<char>)
    ensures
        sorted_texts(list).len() == list.len(),
        sorted_texts(list).contains(text) <==> list.contains(text),
        forall|i: int, j: int|
            #![trigger sorted_texts(list)[i], sorted_texts(list)[j]]
            0 <= i < j < list.len() ==> !text_lt(sorted_texts(list)[j], sorted_texts(list)[i]),
{
    lemma_sorted_is_ordered(list);
    list.to_multiset_ensures();
    sorted_texts(list).to_multiset_ensures();
    assert(sorted_texts(list).contains(text) <==> sorted_texts(list).to_multiset().contains(text));
    assert(list.contains(text) <==> list.to_multiset().contains(text));
    assert forall|i: int, j: int|
        #![trigger sorted_texts(list)[i], sorted_texts(list)[j]]
        0 <= i < j < list.len() implies !text_lt(sorted_texts(list)[j], sorted_texts(list)[i]) by {
        assert(!text_order()(sorted_texts(list)[j], sorted_texts(list)[i]));
    }
}

/// The live paths of a group are those of its links that are not orphaned, as
/// many as there are of them, in the order of their bytes.
pub proof fn law_live_paths_are_those_of_live_links(
    links: Seq<Link>,
    group: Seq<char>,
    path: Seq<char>,
)
    ensures
        live_paths(links, group).contains(path) <==> exists|i: int| #[trigger]
            is_live_at(links, group, i) && links[i].path == path,
        live_paths(links, group).len() == Set::new(|i: int| is_live_at(links, group, i)).len(),
        forall|i: int, j: int|
            #![trigger live_paths(links, group)[i], live_paths(links, group)[j]]
            0 <= i < j < live_paths(links, group).len() ==> !text_lt(
                live_paths(links, group)[j],
                live_paths(links, group)[i],
            ),
{
    let pred = is_live_for(group);
    let live = links.filter(pred);
    let paths = live.map_values(path_of());
    lemma_sorted_members(paths, path);
    lemma_selection_counts(links, pred);
    assert(positions(links, pred) =~= Set::new(|i: int| is_live_at(links, group, i)));
    if paths.contains(path) {
        let k = choose|k: int| 0 <= k < paths.len() && paths[k] == path;
        assert(live.contains(live[k]));
        lemma_filter_members(links, pred, live[k]);
        let i = choose|i: int| 0 <= i < links.len() && links[i] == live[k];
        assert(is_live_at(links, group, i));
    }
    if exists|i: int| #[trigger] is_live_at(links, group, i) && links[i].path == path {
        let i = choose|i: int| #[trigger] is_live_at(links, group, i) && links[i].path == path;
        assert(links.contains(links[i]));
        lemma_filter_members(links, pred, links[i]);
        let k = choose|k: int| 0 <= k < live.len() && live[k] == links[i];
        assert(paths[k] == path);
    }
}

/// A group's one live link answers for it; none answers where there is none; and
/// two are refused as ambiguous, naming every live path.
pub proof fn law_only_one_live_link_answers(links: Seq<Link>, group: Seq<char>)
    ensures
        sole_live(links, group) is Err <==> exists|i: int, j: int|
            i < j && #[trigger] is_live_at(links, group, i) && #[trigger] is_live_at(
                links,
                group,
                j,
            ),
        sole_live(links, group) matches Err(failure) ==> failure == (Failure::AmbiguousLink {
            group_id: group,
            local_paths: live_paths(links, group),
        }),
        sole_live(links, group) matches Ok(None) ==> forall|i: int| !#[trigger]
            is_live_at(links, group, i),
        sole_live(links, group) matches Ok(Some(link)) ==> !link.orphaned && link.group == group
            && exists|i: int| #[trigger] is_live_at(links, group, i) && links[i] == link,
        forall|i: int|
            #![trigger is_live_at(links, group, i)]
            is_live_at(links, group, i) && sole_live(links, group) is Ok ==> sole_live(links, group)
                == Ok::<Option<Link>, Failure>(Some(links[i])),
{
    let pred = is_live_for(group);
    law_live_paths_are_those_of_live_links(links, group, group);
    let live = Set::new(|i: int| is_live_at(links, group, i));
    lemma_selection_counts(links, pred);
    assert(positions(links, pred) =~= live);
    lemma_first_where(links, pred);
    if live.len() > 1 {
        let i = live.choose();
        let rest = live.remove(i);
        let j = rest.choose();
        assert(rest.len() > 0);
        assert(live.contains(i) && live.contains(j) && i != j);
        assert(is_live_at(links, group, i) && is_live_at(links, group, j));
        assert(i < j || j < i);
    }
    if exists|i: int, j: int|
        i < j && #[trigger] is_live_at(links, group, i) && #[trigger] is_live_at(links, group, j) {
        let (i, j) = choose|i: int, j: int|
            i < j && #[trigger] is_live_at(links, group, i) && #[trigger] is_live_at(
                links,
                group,
                j,
            );
        assert(live.contains(i) && live.contains(j));
        assert(live.remove(i).contains(j));
        if live.len() <= 1 {
            assert(live.remove(i).len() == 0);
            assert(live.remove(i) =~= Set::empty());
        }
    }
    if sole_live(links, group) is Ok {
        assert forall|i: int| #[trigger] is_live_at(links, group, i) implies sole_live(links, group)
            == Ok::<Option<Link>, Failure>(Some(links[i])) by {
            assert forall|j: int| 0 <= j < i implies !pred(#[trigger] links[j]) by {
                if pred(links[j]) {
                    assert(is_live_at(links, group, j));
                }
            }
            assert(pred(links[i]));
            lemma_first_where_at(links, pred, i);
        }
        if first_where(links, pred) is Some {
            let link = first_where(links, pred)->0;
            let i = choose|i: int| 0 <= i < links.len() && links[i] == link;
            assert(is_live_at(links, group, i));
        }
    }
}

/// A folder is linked exactly where the group has no live link elsewhere and the
/// folder belongs to no other group. The first refusal names every path that
/// claims the group, the second both groups.
pub proof fn law_a_folder_is_linked_where_nothing_stands_in_its_way(
    links: Seq<Link>,
    path: Seq<char>,
    group: Seq<char>,
)
    requires
        paths_are_unique(links),
    ensures
        linked(links, path, group) is Ok <==> forall|i: int|
            #![trigger links[i]]
            0 <= i < links.len() ==> {
                &&& is_live_at(links, group, i) ==> links[i].path == path
                &&& links[i].path == path ==> links[i].group == group
            },
        linked(links, path, group) matches Err(failure) ==> {
            &&& failure is AmbiguousLink <==> exists|i: int| #[trigger]
                is_live_at(links, group, i) && links[i].path != path
            &&& failure is AmbiguousLink || failure is InvalidInput
            &&& failure matches Failure::AmbiguousLink { group_id, local_paths } ==> group_id
                == group && forall|claimant: Seq<char>| #[trigger]
                local_paths.contains(claimant) <==> claimant == path || exists|i: int| #[trigger]
                    is_live_at(links, group, i) && links[i].path == claimant
            &&& failure matches Failure::InvalidInput(reason) ==> exists|i: int| #[trigger]
                is_linked_at(links, path, i) && reason == path
                    + " is already linked to folder group "@ + links[i].group
                    + "; unlink it before linking it to "@ + group
        },
{
    let elsewhere = |link: Link| is_live_for(group)(link) && link.path != path;
    lemma_first_where(links, is_link(path));
    assert forall|i: int| #[trigger] is_live_at(links, group, i) && links[i].path != path implies
        lives_elsewhere(links, group, path) by {
        assert(elsewhere(links[i]));
    }
    if lives_elsewhere(links, group, path) {
        let i = choose|i: int|
            #![trigger links[i]]
            0 <= i < links.len() && elsewhere(links[i]);
        assert(is_live_at(links, group, i) && links[i].path != path);
        assert forall|claimant: Seq<char>| #[trigger]
            claimants(links, group, path).contains(claimant) <==> claimant == path || exists|i: int|
                #[trigger] is_live_at(links, group, i) && links[i].path == claimant by {
            law_live_paths_are_those_of_live_links(links, group, claimant);
            let paths = live_paths(links, group);
            let with = paths.push(path);
            lemma_sorted_members(with, claimant);
            if with.contains(claimant) {
                let k = choose|k: int| 0 <= k < with.len() && with[k] == claimant;
                if k < paths.len() {
                    assert(paths[k] == claimant);
                }
            }
            if paths.contains(claimant) {
                let k = choose|k: int| 0 <= k < paths.len() && paths[k] == claimant;
                assert(with[k] == claimant);
            }
            assert(with[paths.len() as int] == path);
        }
    } else {
        if first_where(links, is_link(path)) is Some {
            let link = first_where(links, is_link(path))->0;
            let k = choose|k: int| 0 <= k < links.len() && links[k] == link;
            assert(is_linked_at(links, path, k));
            assert forall|i: int| #![trigger links[i]] 0 <= i < links.len() && links[i].path
                == path implies i == k by {
                if i < k {
                    assert(links[i].path != links[k].path);
                } else if k < i {
                    assert(links[k].path != links[i].path);
                }
            }
        } else {
            assert forall|i: int| #![trigger links[i]] 0 <= i < links.len() implies links[i].path
                != path by {
                if links[i].path == path {
                    assert(is_link(path)(links[i]));
                    assert(any(links, is_link(path)));
                }
            }
        }
    }
}

/// A folder that was linked before keeps everything about its link and is
/// neither paused nor orphaned any more; a new one stands behind the others and
/// starts out eager, unlimited, without a token or an opt-in. No other link
/// changes.
pub proof fn law_linking_wakes_a_known_folder_or_adds_a_plain_one(
    links: Seq<Link>,
    path: Seq<char>,
    group: Seq<char>,
)
    ensures
        linked(links, path, group) matches Ok(after) ==> {
            let known = exists|i: int| #[trigger] is_linked_at(links, path, i);
            &&& after.len() == if known {
                links.len()
            } else {
                links.len() + 1
            }
            &&& forall|i: int|
                #![trigger after[i]]
                0 <= i < links.len() ==> if links[i].path == path {
                    &&& !after[i].paused
                    &&& !after[i].orphaned
                    &&& (Link {
                        paused: links[i].paused,
                        orphaned: links[i].orphaned,
                        ..after[i]
                    }) == links[i]
                } else {
                    after[i] == links[i]
                }
            &&& !known ==> {
                let made = after[links.len() as int];
                &&& made.path == path
                &&& made.group == group
                &&& !made.paused
                &&& !made.orphaned
                &&& made.policy is Eager
                &&& made.max_size is None
                &&& made.root_token is None
                &&& !made.windows_symlinks
                &&& !made.suppress_tombstones
            }
        },
{
    lemma_first_where(links, is_link(path));
    if any(links, is_link(path)) {
        let i = choose|i: int| #![trigger links[i]] 0 <= i < links.len() && is_link(path)(links[i]);
        assert(is_linked_at(links, path, i));
    } else {
        assert forall|i: int| !#[trigger] is_linked_at(links, path, i) by {
            if is_linked_at(links, path, i) {
                assert(is_link(path)(links[i]));
            }
        }
    }
}

/// A change to a link is refused exactly where no link meets its condition. It
/// reaches every link that does and no other.
pub proof fn law_a_link_change_reaches_the_links_it_is_for(
    links: Seq<Link>,
    path: Seq<char>,
    f: spec_fn(Link) -> Link,
    i: int,
)
    requires
        0 <= i < links.len(),
    ensures
        link_change(links, path, is_link(path), f) is Ok <==> exists|k: int| #[trigger]
            is_linked_at(links, path, k),
        link_change(links, path, is_link(path), f) matches Ok(after) ==> after.len() == links.len()
            && after[i] == if links[i].path == path {
            f(links[i])
        } else {
            links[i]
        },
        link_change(links, path, is_live_link(path), f) is Ok <==> exists|k: int| #[trigger]
            is_linked_at(links, path, k) && !links[k].orphaned,
        link_change(links, path, is_live_link(path), f) matches Ok(after) ==> after.len()
            == links.len() && after[i] == if links[i].path == path && !links[i].orphaned {
            f(links[i])
        } else {
            links[i]
        },
        link_change(links, path, is_link(path), f) matches Err(failure) ==> failure
            == Failure::NotFound("link "@ + path),
        link_change(links, path, is_live_link(path), f) matches Err(failure) ==> failure
            == Failure::NotFound("link "@ + path),
{
    if any(links, is_link(path)) {
        let k = choose|k: int| #![trigger links[k]] 0 <= k < links.len() && is_link(path)(links[k]);
        assert(is_linked_at(links, path, k));
    }
    if any(links, is_live_link(path)) {
        let k = choose|k: int|
            #![trigger links[k]]
            0 <= k < links.len() && is_live_link(path)(links[k]);
        assert(is_linked_at(links, path, k) && !links[k].orphaned);
    }
    assert forall|k: int| #[trigger] is_linked_at(links, path, k) implies any(
        links,
        is_link(path),
    ) && (!links[k].orphaned ==> any(links, is_live_link(path))) by {
        assert(is_link(path)(links[k]));
        if !links[k].orphaned {
            assert(is_live_link(path)(links[k]));
        }
    }
}

/// Each setter of a link sets its own column, to what it was given, and nothing
/// else: with that column put back the link is what it was.
pub proof fn law_a_link_setter_sets_its_own_column_alone(
    link: Link,
    policy: MaterializationPolicy,
    flag: bool,
    max_bytes: Option<i64>,
    token: Seq<char>,
)
    ensures
        with_policy(policy)(link).policy == policy,
        (Link { policy: link.policy, ..with_policy(policy)(link) }) == link,
        with_windows_symlinks(flag)(link).windows_symlinks == flag,
        (Link { windows_symlinks: link.windows_symlinks, ..with_windows_symlinks(flag)(link) })
            == link,
        with_max_size(max_bytes)(link).max_size == max_bytes,
        (Link { max_size: link.max_size, ..with_max_size(max_bytes)(link) }) == link,
        with_paused(flag)(link).paused == flag,
        (Link { paused: link.paused, ..with_paused(flag)(link) }) == link,
        with_suppressed_tombstones(flag)(link).suppress_tombstones == flag,
        (Link {
            suppress_tombstones: link.suppress_tombstones,
            ..with_suppressed_tombstones(flag)(link)
        }) == link,
        with_root_token(token)(link).root_token == Some(token),
        (Link { root_token: link.root_token, ..with_root_token(token)(link) }) == link,
        with_orphaned()(link).orphaned,
        (Link { orphaned: link.orphaned, ..with_orphaned()(link) }) == link,
{
}

/// A token for a group reaches its live links and no others.
pub proof fn law_a_groups_token_reaches_its_live_links(
    links: Seq<Link>,
    group: Seq<char>,
    token: Seq<char>,
    i: int,
)
    requires
        0 <= i < links.len(),
    ensures
        ({
            let after = set_where(links, is_live_for(group), with_root_token(token));
            &&& after.len() == links.len()
            &&& is_live_at(links, group, i) ==> after[i].root_token == Some(token)
            &&& !is_live_at(links, group, i) ==> after[i] == links[i]
        }),
{
}

/// Unlinking a folder takes its link and no other.
pub proof fn law_unlinking_takes_one_folder_alone(links: Seq<Link>, path: Seq<char>, link: Link)
    ensures
        links.filter(is_not_link(path)).contains(link) <==> links.contains(link) && link.path
            != path,
{
    lemma_filter_members(links, is_not_link(path), link);
}

/// A link is shown with its own columns; a group's way in is closed without a
/// live link, paused with a paused one, and otherwise open at that link's path
/// under its policy.
pub proof fn law_a_link_is_shown_as_it_stands(link: Link)
    ensures
        ({
            let shown = shown_link()(link);
            &&& shown.path == link.path
            &&& shown.group == link.group
            &&& shown.paused == link.paused
            &&& shown.policy == link.policy
            &&& shown.max_size == link.max_size
            &&& shown.orphaned == link.orphaned
        }),
        gate_of(None) is NoLiveLink,
        link.paused ==> gate_of(Some(link)) == Gate::Paused(link.path),
        !link.paused ==> gate_of(Some(link)) == Gate::Live(link.path, link.policy),
{
}

/// A group's history floor moves only where its history starts anew: it is then
/// the given time, and every other group keeps its own.
pub proof fn law_a_floor_moves_where_history_starts_anew(
    floors: Seq<Floor>,
    group: Seq<char>,
    starts_anew: bool,
    now: int,
    other: Seq<char>,
)
    ensures
        starts_anew ==> floor_of(floors_after(floors, group, starts_anew, now), group) == Some(now),
        !starts_anew ==> floors_after(floors, group, starts_anew, now) == floors,
        other != group ==> floor_of(floors_after(floors, group, starts_anew, now), other)
            == floor_of(floors, other),
{
    let of_group = |floor: Floor| floor.group == group;
    let of_other = |floor: Floor| floor.group == other;
    let after = floors_after(floors, group, starts_anew, now);
    lemma_first_where(floors, of_other);
    lemma_first_where(after, of_group);
    if starts_anew {
        if any(floors, of_group) {
            let k = choose|k: int|
                #![trigger floors[k]]
                0 <= k < floors.len() && of_group(floors[k]);
            assert(after[k].group == group && after[k].since == now);
            assert(any(after, of_group));
            let found = first_where(after, of_group)->0;
            let j = choose|j: int| 0 <= j < after.len() && after[j] == found;
            assert(of_group(floors[j]));
        } else {
            assert(after[floors.len() as int] == (Floor { group, since: now }));
            assert(of_group(after[floors.len() as int]));
            assert(any(after, of_group));
            let found = first_where(after, of_group)->0;
            let j = choose|j: int| 0 <= j < after.len() && after[j] == found;
            if j < floors.len() {
                assert(of_group(floors[j]));
            }
        }
        if other != group {
            lemma_floor_of_other(floors, after, other);
        }
    }
}

/// Floors that differ only in other groups give a group the same one.
proof fn lemma_floor_of_other(floors: Seq<Floor>, after: Seq<Floor>, other: Seq<char>)
    requires
        floors.len() <= after.len() <= floors.len() + 1,
        forall|i: int|
            #![trigger floors[i]]
            0 <= i < floors.len() ==> after[i].group == floors[i].group && (floors[i].group == other
                ==> after[i] == floors[i]),
        forall|i: int|
            #![trigger after[i]]
            floors.len() <= i < after.len() ==> after[i].group != other,
    ensures
        floor_of(after, other) == floor_of(floors, other),
    decreases after.len(),
{
    reveal_with_fuel(first_where, 2);
    if floors.len() > 0 {
        let rest = floors.skip(1);
        let more = after.skip(1);
        assert(after[0].group == floors[0].group);
        assert forall|i: int| #![trigger rest[i]] 0 <= i < rest.len() implies more[i].group
            == rest[i].group && (rest[i].group == other ==> more[i] == rest[i]) by {
            assert(rest[i] == floors[i + 1]);
        }
        assert forall|i: int| #![trigger more[i]] rest.len() <= i < more.len() implies more[i].group
            != other by {
            assert(more[i] == after[i + 1]);
        }
        lemma_floor_of_other(rest, more, other);
    } else if after.len() > 0 {
        assert(after[0].group != other);
        assert(after.skip(1).len() == 0);
    }
}

/// A path's token is its own link's, and a path that is not linked has none.
pub proof fn law_a_token_is_read_at_its_path(links: Seq<Link>, path: Seq<char>)
    requires
        paths_are_unique(links),
    ensures
        forall|i: int| #[trigger]
            is_linked_at(links, path, i) ==> token_at(links)(path) == links[i].root_token,
        (forall|i: int| !#[trigger] is_linked_at(links, path, i)) ==> token_at(links)(path) is None,
{
    assert forall|i: int| #[trigger] is_linked_at(links, path, i) implies token_at(links)(path)
        == links[i].root_token by {
        assert forall|j: int| 0 <= j < i implies !is_link(path)(#[trigger] links[j]) by {
            assert(links[j].path != links[i].path);
        }
        assert(is_link(path)(links[i]));
        lemma_first_where_at(links, is_link(path), i);
    }
    lemma_first_where(links, is_link(path));
    if forall|i: int| !#[trigger] is_linked_at(links, path, i) {
        assert forall|i: int| 0 <= i < links.len() implies !is_link(path)(#[trigger] links[i]) by {
            assert(!is_linked_at(links, path, i));
        }
        lemma_first_where_none(links, is_link(path));
    }
}

/// Arming recovery for rows marks each of their paths, once, and keeps every
/// mark that stood. A mark is taken back alone.
pub proof fn law_recovery_is_armed_for_every_path(
    recoveries: Seq<Recovery>,
    rows: Seq<Version>,
    mark: Recovery,
)
    ensures
        armed(recoveries, rows).contains(mark) <==> recoveries.contains(mark) || exists|i: int|
            #![trigger rows[i]]
            0 <= i < rows.len() && rows[i].group == mark.group && rows[i].path == mark.path,
        recoveries.no_duplicates() ==> armed(recoveries, rows).no_duplicates(),
        forall|taken: Recovery| #[trigger]
            recoveries.filter(is_other_recovery(taken)).contains(mark) <==> recoveries.contains(
                mark,
            ) && mark != taken,
    decreases rows.len(),
{
    assert forall|taken: Recovery| #[trigger]
        recoveries.filter(is_other_recovery(taken)).contains(mark) <==> recoveries.contains(mark)
            && mark != taken by {
        lemma_filter_members(recoveries, is_other_recovery(taken), mark);
    }
    if rows.len() > 0 {
        let shorter = rows.drop_last();
        law_recovery_is_armed_for_every_path(recoveries, shorter, mark);
        let before = armed(recoveries, shorter);
        let last = Recovery { group: rows.last().group, path: rows.last().path };
        let after = with_recovery(before, last);
        let n = rows.len() - 1;
        assert(rows[n] == rows.last());
        if !before.contains(last) {
            assert(after == before.push(last));
            if before.contains(mark) {
                let k = choose|k: int| 0 <= k < before.len() && before[k] == mark;
                assert(after[k] == mark);
            }
            assert(after[before.len() as int] == last);
            if after.contains(mark) && mark != last {
                let k = choose|k: int| 0 <= k < after.len() && after[k] == mark;
                assert(before[k] == mark);
            }
        }
        if exists|i: int|
            #![trigger rows[i]]
            0 <= i < rows.len() && rows[i].group == mark.group && rows[i].path == mark.path {
            let i = choose|i: int|
                #![trigger rows[i]]
                0 <= i < rows.len() && rows[i].group == mark.group && rows[i].path == mark.path;
            if i < n {
                assert(shorter[i] == rows[i]);
            } else {
                assert(mark == last);
            }
        }
        if exists|i: int|
            #![trigger shorter[i]]
            0 <= i < shorter.len() && shorter[i].group == mark.group && shorter[i].path
                == mark.path {
            let i = choose|i: int|
                #![trigger shorter[i]]
                0 <= i < shorter.len() && shorter[i].group == mark.group && shorter[i].path
                    == mark.path;
            assert(rows[i] == shorter[i]);
        }
    }
}

/// Which of a group's live paths are left without one is a matter of the path
/// alone. Links and rows belong to the group they name.
pub proof fn law_leaving_out_a_path_leaves_the_others(
    paths: Seq<Seq<char>>,
    excluded: Seq<char>,
    path: Seq<char>,
    link: Link,
    row: Version,
    group: Seq<char>,
)
    ensures
        without(paths, Some(excluded)).contains(path) <==> paths.contains(path) && path != excluded,
        without(paths, None).contains(path) <==> paths.contains(path),
        is_of_group(group)(link) <==> link.group == group,
        is_in_group(group)(row) <==> row.group == group,
{
    let some = |path: Seq<char>| Some(path) != Some(excluded);
    let all = |path: Seq<char>| Some(path) != None::<Seq<char>>;
    lemma_filter_members(paths, some, path);
    lemma_filter_members(paths, all, path);
    assert(without(paths, Some(excluded)) == paths.filter(some));
    assert(without(paths, None) == paths.filter(all));
}

/// What a link operation answers. A refusal leaves the tables as they are;
/// success changes the links alone. One that rechecks first says whether the
/// recheck held, and changes nothing where it did not.
pub proof fn law_a_refused_link_operation_changes_nothing(
    recheck: Result<bool, Failure>,
    plan: Result<Seq<Link>, Failure>,
    before: LinkTable,
    after: LinkTable,
    result: Result<(), SyncSqliteError>,
    answer: Result<bool, SyncSqliteError>,
)
    ensures
        links_changed(plan, before, after, result) ==> {
            &&& result is Ok <==> plan is Ok
            &&& result matches Err(error) ==> after == before && plan == Err::<Seq<Link>, Failure>(
                error@,
            )
            &&& result is Ok ==> after.links == plan->Ok_0 && after.recoveries == before.recoveries
                && after.floors == before.floors
        },
        rechecked_change(recheck, plan, before, after, answer) ==> {
            &&& answer is Err <==> recheck is Err || (recheck->Ok_0 && plan is Err)
            &&& answer matches Err(error) ==> after == before && (recheck matches Err(failure)
                ==> error@ == failure) && (recheck is Ok ==> plan == Err::<Seq<Link>, Failure>(
                error@,
            ))
            &&& answer matches Ok(holds) ==> {
                &&& recheck == Ok::<bool, Failure>(holds)
                &&& !holds ==> after == before
                &&& holds ==> plan is Ok && after.links == plan->Ok_0 && after.recoveries
                    == before.recoveries && after.floors == before.floors
            }
        },
{
}

/// What a group's live link says is what it answers; without one it answers with
/// nothing.
pub proof fn law_a_live_link_answers_with_its_columns(link: Link)
    ensures
        policy_of(Some(link)) == Some(link.policy),
        token_of(Some(link)) == link.root_token,
        opts_in_to_symlinks(Some(link)) == link.windows_symlinks,
        suppresses_tombstones(Some(link)) == link.suppress_tombstones,
        folder_of(Some(link)) == Some(link.path),
        is_paused(Some(link)) == link.paused,
        policy_of(None) is None,
        token_of(None) is None,
        !opts_in_to_symlinks(None),
        !suppresses_tombstones(None),
        folder_of(None) is None,
        !is_paused(None),
{
}

/// Linking starts a group's history anew exactly where it has no rows and the
/// folder was never linked. A group recovers while any of its paths is marked.
pub proof fn law_history_starts_anew_in_a_folder_never_linked(
    links: Seq<Link>,
    path: Seq<char>,
    indexed: bool,
    recoveries: Seq<Recovery>,
    group: Seq<char>,
)
    ensures
        starts_anew(links, path, indexed) <==> !indexed && forall|i: int| !#[trigger]
            is_linked_at(links, path, i),
        is_recovering(recoveries, group) <==> exists|i: int|
            #![trigger recoveries[i]]
            0 <= i < recoveries.len() && recoveries[i].group == group,
{
    assert forall|i: int| #[trigger] is_linked_at(links, path, i) implies any(
        links,
        is_link(path),
    ) by {
        assert(is_link(path)(links[i]));
    }
    if any(links, is_link(path)) {
        let i = choose|i: int| #![trigger links[i]] 0 <= i < links.len() && is_link(path)(links[i]);
        assert(is_linked_at(links, path, i));
    }
    let of_group = |recovery: Recovery| recovery.group == group;
    assert(is_recovering(recoveries, group) <==> any(recoveries, of_group));
    if exists|i: int|
        #![trigger recoveries[i]]
        0 <= i < recoveries.len() && recoveries[i].group == group {
        let i = choose|i: int|
            #![trigger recoveries[i]]
            0 <= i < recoveries.len() && recoveries[i].group == group;
        assert(of_group(recoveries[i]));
    }
}

} // verus!
