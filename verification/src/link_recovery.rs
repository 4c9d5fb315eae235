//! What a link leaves to be recovered, and since when a group is known.

use vstd::prelude::*;

use crate::error::texts;
use crate::file_queries::is_live_in;
use crate::file_rows::{FileIndexRepository, Version};
use crate::link::{is_link, path_of, Floor, Link, LinkRepository, LinkTable, Recovery, RecoveryPath};
use crate::rows::{
    any, first_where, in_order, lemma_filter_map_multiset_next, lemma_filter_take_next,
    lemma_first_where_at, lemma_first_where_none, views,
};
use crate::sorted_text::{insert_text, lemma_ordered_is_sorted, sorted_texts, text_order};
use crate::text::{copy_opt_str, str_eq};
use crate::transaction_rows::opt_text;

verus! {

/// The recoveries with one more, unless it is there.
pub open spec fn with_recovery(recoveries: Seq<Recovery>, recovery: Recovery) -> Seq<Recovery> {
    if recoveries.contains(recovery) {
        recoveries
    } else {
        recoveries.push(recovery)
    }
}

/// The recoveries with one for each of the rows.
pub open spec fn armed(recoveries: Seq<Recovery>, rows: Seq<Version>) -> Seq<Recovery>
    decreases rows.len(),
{
    if rows.len() == 0 {
        recoveries
    } else {
        with_recovery(
            armed(recoveries, rows.drop_last()),
            Recovery { group: rows.last().group, path: rows.last().path },
        )
    }
}

/// Whether a path of the group is marked for recovery.
pub open spec fn is_recovering(recoveries: Seq<Recovery>, group: Seq<char>) -> bool {
    any(recoveries, |recovery: Recovery| recovery.group == group)
}

/// The recovery is another one.
pub open spec fn is_other_recovery(recovery: Recovery) -> spec_fn(Recovery) -> bool {
    |other: Recovery| other != recovery
}

/// The link is of that group, live or orphaned.
pub open spec fn is_of_group(group: Seq<char>) -> spec_fn(Link) -> bool {
    |link: Link| link.group == group
}

/// The root token of the link at a path.
pub open spec fn token_at(links: Seq<Link>) -> spec_fn(Seq<char>) -> Option<Seq<char>> {
    |path: Seq<char>|
        match first_where(links, is_link(path)) {
            Some(link) => link.root_token,
            None => None,
        }
}

/// Root tokens.
pub open spec fn tokens(list: Seq<Option<String>>) -> Seq<Option<Seq<char>>> {
    list.map_values(|token: Option<String>| opt_text(token))
}

/// Since when a group's history is known.
pub open spec fn floor_of(floors: Seq<Floor>, group: Seq<char>) -> Option<int> {
    match first_where(floors, |floor: Floor| floor.group == group) {
        Some(floor) => Some(floor.since),
        None => None,
    }
}

impl LinkRepository {
    /// Whether the path of the group is still to be recovered.
    fn holds_recovery(&self, group_id: &str, path: &str) -> (holds: bool)
        ensures
            holds == self@.recoveries.contains(Recovery { group: group_id@, path: path@ }),
    {
        let ghost all = self@.recoveries;
        let ghost wanted = Recovery { group: group_id@, path: path@ };
        let mut i: usize = 0;
        while i < self.duplicate_recovery_paths.len()
            invariant
                i <= self.duplicate_recovery_paths@.len(),
                all == self@.recoveries,
                wanted == (Recovery { group: group_id@, path: path@ }),
                forall|j: int| 0 <= j < i ==> #[trigger] all[j] != wanted,
            decreases self.duplicate_recovery_paths@.len() - i,
        {
            assert(all[i as int] == self.duplicate_recovery_paths@[i as int]@);
            if str_eq(self.duplicate_recovery_paths[i].group_id.as_str(), group_id) && str_eq(
                self.duplicate_recovery_paths[i].path.as_str(),
                path,
            ) {
                assert(all[i as int] == wanted);
                return true;
            }
            i += 1;
        }
        false
    }

    /// Arms the recovery of every live path of a group.
    pub fn arm_duplicate_recovery_paths(&mut self, group_id: &str, index: &FileIndexRepository)
        ensures
            final(self)@ == (LinkTable {
                recoveries: armed(
                    old(self)@.recoveries,
                    index@.files.filter(is_live_in(group_id@)),
                ),
                ..old(self)@
            }),
    {
        let ghost rows = index@.files;
        let ghost pred = is_live_in(group_id@);
        let ghost before = self@;
        let mut i: usize = 0;
        assert(rows.take(0).filter(pred) =~= Seq::empty());
        while i < index.files.len()
            invariant
                i <= index.files@.len(),
                rows == index@.files,
                pred == is_live_in(group_id@),
                self@.links == before.links,
                self@.floors == before.floors,
                self@.recoveries == armed(before.recoveries, rows.take(i as int).filter(pred)),
            decreases index.files@.len() - i,
        {
            assert(rows[i as int] == index.files@[i as int]@);
            let ghost so_far = rows.take(i as int).filter(pred);
            proof {
                lemma_filter_take_next(rows, pred, i as int);
                assert(so_far.push(rows[i as int]).drop_last() =~= so_far);
            }
            if index.files[i].is_current() && !index.files[i].deleted && str_eq(
                index.files[i].group_id.as_str(),
                group_id,
            ) && !self.holds_recovery(group_id, index.files[i].path.as_str()) {
                let ghost now = self@.recoveries;
                self.duplicate_recovery_paths.push(
                    RecoveryPath {
                        group_id: group_id.to_owned(),
                        path: index.files[i].path.clone(),
                    },
                );
                assert(self@.recoveries =~= now.push(
                    Recovery { group: group_id@, path: rows[i as int].path },
                ));
            }
            i += 1;
        }
        assert(rows.take(rows.len() as int) =~= rows);
    }

    /// Takes a path as recovered.
    pub fn resolve_duplicate_recovery_path(&mut self, group_id: &str, path: &str)
        ensures
            final(self)@ == (LinkTable {
                recoveries: old(self)@.recoveries.filter(
                    is_other_recovery(Recovery { group: group_id@, path: path@ }),
                ),
                ..old(self)@
            }),
    {
        let ghost before = self@;
        let ghost rows = self@.recoveries;
        let ghost all = self.duplicate_recovery_paths@;
        let ghost pred = is_other_recovery(Recovery { group: group_id@, path: path@ });
        let mut i: usize = 0;
        let ghost mut k: int = 0;
        assert(rows.take(0).filter(pred) =~= Seq::empty());
        assert(views(self.duplicate_recovery_paths@.take(0)) =~= Seq::empty());
        while i < self.duplicate_recovery_paths.len()
            invariant
                0 <= k <= all.len(),
                i <= self.duplicate_recovery_paths@.len(),
                rows == views(all),
                self.duplicate_recovery_paths@.skip(i as int) == all.skip(k),
                pred == is_other_recovery(Recovery { group: group_id@, path: path@ }),
                views(self.duplicate_recovery_paths@.take(i as int)) == rows.take(k).filter(pred),
                self@.links == before.links,
                self@.floors == before.floors,
            decreases self.duplicate_recovery_paths@.len() - i,
        {
            let ghost now = self.duplicate_recovery_paths@;
            proof {
                assert(now.skip(i as int).len() > 0);
                assert(k < all.len());
                assert(now[i as int] == now.skip(i as int)[0]);
                assert(all.skip(k)[0] == all[k]);
                assert(rows[k] == now[i as int]@);
                lemma_filter_take_next(rows, pred, k);
            }
            if str_eq(self.duplicate_recovery_paths[i].group_id.as_str(), group_id) && str_eq(
                self.duplicate_recovery_paths[i].path.as_str(),
                path,
            ) {
                self.duplicate_recovery_paths.remove(i);
                assert(self.duplicate_recovery_paths@.take(i as int) =~= now.take(i as int));
                assert(self.duplicate_recovery_paths@.skip(i as int) =~= now.skip(i as int).skip(
                    1,
                ));
            } else {
                assert(now.take(i + 1) =~= now.take(i as int).push(now[i as int]));
                assert(views(now.take(i + 1)) =~= views(now.take(i as int)).push(now[i as int]@));
                assert(now.skip(i + 1) =~= now.skip(i as int).skip(1));
                i += 1;
            }
            assert(all.skip(k).skip(1) =~= all.skip(k + 1));
            proof {
                k = k + 1;
            }
        }
        proof {
            assert(self.duplicate_recovery_paths@.skip(i as int).len() == 0);
            assert(all.skip(k).len() == 0);
            assert(rows.take(k) =~= rows);
            assert(self.duplicate_recovery_paths@.take(i as int)
                =~= self.duplicate_recovery_paths@);
        }
    }

    /// Whether anything of the group is still to be recovered.
    pub fn duplicate_recovery_pending(&self, group_id: &str) -> (pending: bool)
        ensures
            pending == is_recovering(self@.recoveries, group_id@),
    {
        let ghost all = self@.recoveries;
        let ghost pred = |recovery: Recovery| recovery.group == group_id@;
        let mut i: usize = 0;
        while i < self.duplicate_recovery_paths.len()
            invariant
                i <= self.duplicate_recovery_paths@.len(),
                all == self@.recoveries,
                pred == (|recovery: Recovery| recovery.group == group_id@),
                forall|j: int| 0 <= j < i ==> !pred(#[trigger] all[j]),
            decreases self.duplicate_recovery_paths@.len() - i,
        {
            assert(all[i as int] == self.duplicate_recovery_paths@[i as int]@);
            if str_eq(self.duplicate_recovery_paths[i].group_id.as_str(), group_id) {
                assert(pred(all[i as int]));
                return true;
            }
            i += 1;
        }
        false
    }

    /// Since when this device knows the group's history.
    pub fn local_history_floor(&self, group_id: &str) -> (floor: Option<i64>)
        ensures
            match floor {
                Some(since) => floor_of(self@.floors, group_id@) == Some(since as int),
                None => floor_of(self@.floors, group_id@) is None,
            },
    {
        let ghost floors = self@.floors;
        let ghost pred = |floor: Floor| floor.group == group_id@;
        let mut i: usize = 0;
        while i < self.history_floors.len()
            invariant
                i <= self.history_floors@.len(),
                floors == self@.floors,
                pred == (|floor: Floor| floor.group == group_id@),
                forall|j: int| 0 <= j < i ==> !pred(#[trigger] floors[j]),
            decreases self.history_floors@.len() - i,
        {
            assert(floors[i as int] == self.history_floors@[i as int]@);
            if str_eq(self.history_floors[i].group_id.as_str(), group_id) {
                proof {
                    lemma_first_where_at(floors, pred, i as int);
                }
                return Some(self.history_floors[i].floor_unix_nanos);
            }
            i += 1;
        }
        proof {
            lemma_first_where_none(floors, pred);
        }
        None
    }

    /// The root tokens of all of a group's links, live or orphaned, in path
    /// order.
    pub fn link_root_tokens_for_group_unchecked_for_test(&self, group_id: &str) -> (listed: Vec<
        Option<String>,
    >)
        ensures
            tokens(listed@) == sorted_texts(
                self@.links.filter(is_of_group(group_id@)).map_values(path_of()),
            ).map_values(token_at(self@.links)),
    {
        let ghost links = self@.links;
        let ghost pred = is_of_group(group_id@);
        let ghost f = path_of();
        let mut paths: Vec<String> = Vec::new();
        let mut i: usize = 0;
        assert(links.take(0).filter(pred) =~= Seq::empty());
        assert(texts(paths@) =~= links.take(0).filter(pred).map_values(f));
        while i < self.links.len()
            invariant
                i <= self.links@.len(),
                links == self@.links,
                pred == is_of_group(group_id@),
                f == path_of(),
                texts(paths@).to_multiset() == links.take(i as int).filter(pred).map_values(
                    f,
                ).to_multiset(),
                in_order(texts(paths@), text_order()),
            decreases self.links@.len() - i,
        {
            assert(links[i as int] == self.links@[i as int]@);
            proof {
                lemma_filter_map_multiset_next(links, pred, f, i as int);
            }
            if str_eq(self.links[i].group_id.as_str(), group_id) {
                insert_text(&mut paths, self.links[i].local_path.clone());
            }
            i += 1;
        }
        assert(links.take(links.len() as int) =~= links);
        proof {
            lemma_ordered_is_sorted(texts(paths@), links.filter(pred).map_values(f));
        }
        let ghost sorted = texts(paths@);
        let ghost at = token_at(links);
        let mut listed: Vec<Option<String>> = Vec::new();
        let mut k: usize = 0;
        assert(tokens(listed@) =~= sorted.take(0).map_values(at));
        while k < paths.len()
            invariant
                k <= paths@.len(),
                links == self@.links,
                sorted == texts(paths@),
                at == token_at(links),
                tokens(listed@) == sorted.take(k as int).map_values(at),
            decreases paths@.len() - k,
        {
            assert(sorted[k as int] == paths@[k as int]@);
            let token: Option<String> = match self.link_position(paths[k].as_str()) {
                Some(position) => {
                    assert(links[position as int] == self.links@[position as int]@);
                    copy_opt_str(&self.links[position].root_token)
                },
                None => None,
            };
            let ghost so_far = tokens(listed@);
            let ghost shown = opt_text(token);
            listed.push(token);
            assert(tokens(listed@) =~= so_far.push(shown));
            assert(shown == at(sorted[k as int]));
            assert(sorted.take(k + 1).map_values(at) =~= sorted.take(k as int).map_values(at).push(
                at(sorted[k as int]),
            ));
            k += 1;
        }
        assert(sorted.take(sorted.len() as int) =~= sorted);
        listed
    }
}

} // verus!
