//! Links between local folders and folder groups.

use vstd::prelude::*;

use crate::durability::is_root_listing;
use crate::error::{outcome, texts, Failure, SyncSqliteError};
use crate::file_rows::{FileIndexRepository, Version};
use crate::index_vocabulary::MaterializationPolicy;
use crate::root_recheck::{rechecked, RootDigest};
use crate::rows::{
    any, at_most_one, first_where, in_order, lemma_filter_map_multiset_next, lemma_filter_members,
    lemma_filter_take_next, lemma_first_where, lemma_first_where_at, lemma_first_where_none,
    lemma_set_where_at, lemma_set_where_none, set_where, views,
};
use crate::sorted_text::{
    insert_text, lemma_ordered_is_sorted, lemma_sorted_is_ordered, sorted_texts, text_order,
};
use crate::text::{copy_opt_str, join, join3, str_eq};
use crate::transaction_rows::opt_text;

verus! {

/// A link between a local folder and a folder group.
#[derive(Debug, PartialEq, Eq)]
pub struct LinkRow {
    pub local_path: String,
    pub group_id: String,
    pub paused: bool,
    pub materialization_policy: MaterializationPolicy,
    pub max_local_size_bytes: Option<i64>,
    pub orphaned: bool,
    pub root_token: Option<String>,
    pub windows_symlink_opt_in: bool,
    pub suppress_tombstones_until_scan: bool,
}

/// The model of a [`LinkRow`].
pub struct Link {
    pub path: Seq<char>,
    pub group: Seq<char>,
    pub paused: bool,
    pub policy: MaterializationPolicy,
    pub max_size: Option<i64>,
    pub orphaned: bool,
    pub root_token: Option<Seq<char>>,
    pub windows_symlinks: bool,
    pub suppress_tombstones: bool,
}

impl View for LinkRow {
    type V = Link;

    open spec fn view(&self) -> Link {
        Link {
            path: self.local_path@,
            group: self.group_id@,
            paused: self.paused,
            policy: self.materialization_policy,
            max_size: self.max_local_size_bytes,
            orphaned: self.orphaned,
            root_token: opt_text(self.root_token),
            windows_symlinks: self.windows_symlink_opt_in,
            suppress_tombstones: self.suppress_tombstones_until_scan,
        }
    }
}

/// A path of a group whose duplicate is still to be recovered.
#[derive(Debug, PartialEq, Eq)]
pub struct RecoveryPath {
    pub group_id: String,
    pub path: String,
}

/// The model of a [`RecoveryPath`].
pub struct Recovery {
    pub group: Seq<char>,
    pub path: Seq<char>,
}

impl View for RecoveryPath {
    type V = Recovery;

    open spec fn view(&self) -> Recovery {
        Recovery { group: self.group_id@, path: self.path@ }
    }
}

/// From when on this device knows a group's history.
#[derive(Debug, PartialEq, Eq)]
pub struct HistoryFloor {
    pub group_id: String,
    pub floor_unix_nanos: i64,
}

/// The model of a [`HistoryFloor`].
pub struct Floor {
    pub group: Seq<char>,
    pub since: int,
}

impl View for HistoryFloor {
    type V = Floor;

    open spec fn view(&self) -> Floor {
        Floor { group: self.group_id@, since: self.floor_unix_nanos as int }
    }
}

/// A link as callers see it.
#[derive(Debug, PartialEq, Eq)]
pub struct FolderLink {
    pub local_path: String,
    pub group_id: String,
    pub paused: bool,
    pub materialization_policy: MaterializationPolicy,
    pub max_local_size_bytes: Option<i64>,
    pub orphaned: bool,
}

/// The model of a [`FolderLink`].
pub struct ShownLink {
    pub path: Seq<char>,
    pub group: Seq<char>,
    pub paused: bool,
    pub policy: MaterializationPolicy,
    pub max_size: Option<i64>,
    pub orphaned: bool,
}

impl View for FolderLink {
    type V = ShownLink;

    open spec fn view(&self) -> ShownLink {
        ShownLink {
            path: self.local_path@,
            group: self.group_id@,
            paused: self.paused,
            policy: self.materialization_policy,
            max_size: self.max_local_size_bytes,
            orphaned: self.orphaned,
        }
    }
}

/// Whether a group's link lets work through.
#[derive(Debug, PartialEq, Eq)]
pub enum LinkGate {
    NoLiveLink,
    Paused { local_path: String },
    Live { local_path: String, policy: MaterializationPolicy },
}

/// The model of a [`LinkGate`].
pub enum Gate {
    NoLiveLink,
    Paused(Seq<char>),
    Live(Seq<char>, MaterializationPolicy),
}

impl View for LinkGate {
    type V = Gate;

    open spec fn view(&self) -> Gate {
        match *self {
            LinkGate::NoLiveLink => Gate::NoLiveLink,
            LinkGate::Paused { local_path } => Gate::Paused(local_path@),
            LinkGate::Live { local_path, policy } => Gate::Live(local_path@, policy),
        }
    }
}

/// The links of this device.
pub struct LinkRepository {
    pub links: Vec<LinkRow>,
    pub duplicate_recovery_paths: Vec<RecoveryPath>,
    pub history_floors: Vec<HistoryFloor>,
}

/// The model of a [`LinkRepository`]: each table's rows in insertion order.
pub struct LinkTable {
    pub links: Seq<Link>,
    pub recoveries: Seq<Recovery>,
    pub floors: Seq<Floor>,
}

impl View for LinkRepository {
    type V = LinkTable;

    open spec fn view(&self) -> LinkTable {
        LinkTable {
            links: views(self.links@),
            recoveries: views(self.duplicate_recovery_paths@),
            floors: views(self.history_floors@),
        }
    }
}

/// Each local path is linked at most once.
pub open spec fn paths_are_unique(links: Seq<Link>) -> bool {
    forall|i: int, j: int|
        #![trigger links[i], links[j]]
        0 <= i < j < links.len() ==> links[i].path != links[j].path
}

/// Each group has at most one live link.
pub open spec fn one_live_link_per_group(links: Seq<Link>) -> bool {
    forall|i: int, j: int|
        #![trigger links[i], links[j]]
        0 <= i < j < links.len() && !links[i].orphaned && !links[j].orphaned ==> links[i].group
            != links[j].group
}

/// The link is at that path.
pub open spec fn is_link(path: Seq<char>) -> spec_fn(Link) -> bool {
    |link: Link| link.path == path
}

/// The link is at that path and live.
pub open spec fn is_live_link(path: Seq<char>) -> spec_fn(Link) -> bool {
    |link: Link| link.path == path && !link.orphaned
}

/// The link is a live one of the group.
pub open spec fn is_live_for(group: Seq<char>) -> spec_fn(Link) -> bool {
    |link: Link| link.group == group && !link.orphaned
}

/// The path of a link.
pub open spec fn path_of() -> spec_fn(Link) -> Seq<char> {
    |link: Link| link.path
}

/// The paths of a group's live links, in order.
pub open spec fn live_paths(links: Seq<Link>, group: Seq<char>) -> Seq<Seq<char>> {
    sorted_texts(links.filter(is_live_for(group)).map_values(path_of()))
}

/// The refusal to choose among several live links.
pub open spec fn ambiguous(group: Seq<char>, paths: Seq<Seq<char>>) -> Failure {
    Failure::AmbiguousLink { group_id: group, local_paths: paths }
}

/// The one live link of a group, or the refusal to choose among several.
pub open spec fn sole_live(links: Seq<Link>, group: Seq<char>) -> Result<Option<Link>, Failure> {
    if live_paths(links, group).len() > 1 {
        Err(ambiguous(group, live_paths(links, group)))
    } else {
        Ok(first_where(links, is_live_for(group)))
    }
}

/// A new link.
pub open spec fn new_link(path: Seq<char>, group: Seq<char>) -> Link {
    Link {
        path,
        group,
        paused: false,
        policy: MaterializationPolicy::Eager,
        max_size: None,
        orphaned: false,
        root_token: None,
        windows_symlinks: false,
        suppress_tombstones: false,
    }
}

/// The failure of a link to a path that is another group's.
pub open spec fn linked_elsewhere(path: Seq<char>, other: Seq<char>, group: Seq<char>) -> Failure {
    Failure::InvalidInput(
        path + " is already linked to folder group "@ + other
            + "; unlink it before linking it to "@ + group,
    )
}

/// Some live link of the group is at another path.
pub open spec fn lives_elsewhere(links: Seq<Link>, group: Seq<char>, path: Seq<char>) -> bool {
    any(links, |link: Link| is_live_for(group)(link) && link.path != path)
}

/// The paths that would all be live.
pub open spec fn claimants(links: Seq<Link>, group: Seq<char>, path: Seq<char>) -> Seq<Seq<char>> {
    if live_paths(links, group).contains(path) {
        live_paths(links, group)
    } else {
        sorted_texts(live_paths(links, group).push(path))
    }
}

/// Linking a path to a group: refused while the group is live elsewhere, and
/// while the path is another group's. A path the group already had comes back
/// to life; a new one is linked.
pub open spec fn linked(links: Seq<Link>, path: Seq<char>, group: Seq<char>) -> Result<
    Seq<Link>,
    Failure,
> {
    if lives_elsewhere(links, group, path) {
        Err(ambiguous(group, claimants(links, group, path)))
    } else {
        match first_where(links, is_link(path)) {
            Some(link) => if link.group != group {
                Err(linked_elsewhere(path, link.group, group))
            } else {
                Ok(
                    set_where(
                        links,
                        is_link(path),
                        |link: Link| Link { paused: false, orphaned: false, ..link },
                    ),
                )
            },
            None => Ok(links.push(new_link(path, group))),
        }
    }
}

/// Whether linking a folder starts its group's history anew: the group has no
/// rows yet and the folder was not linked before.
pub open spec fn starts_anew(links: Seq<Link>, path: Seq<char>, indexed: bool) -> bool {
    !indexed && !any(links, is_link(path))
}

/// A group that gets its first link, with nothing of it indexed yet, is known
/// from then on; any other link leaves what is known alone.
pub open spec fn floors_after(
    floors: Seq<Floor>,
    group: Seq<char>,
    starts_anew: bool,
    now: int,
) -> Seq<Floor> {
    if !starts_anew {
        floors
    } else if any(floors, |floor: Floor| floor.group == group) {
        set_where(
            floors,
            |floor: Floor| floor.group == group,
            |floor: Floor| Floor { since: now, ..floor },
        )
    } else {
        floors.push(Floor { group, since: now })
    }
}

/// Only one link has the path.
proof fn lemma_one_link(links: Seq<Link>, path: Seq<char>)
    requires
        paths_are_unique(links),
    ensures
        at_most_one(links, is_link(path)),
        at_most_one(links, is_live_link(path)),
{
    assert forall|i: int, j: int|
        #![trigger links[i], links[j]]
        0 <= i < links.len() && 0 <= j < links.len() && is_link(path)(links[i]) && is_link(path)(
            links[j],
        ) implies i == j by {
        if i < j {
            assert(links[i].path != links[j].path);
        } else if j < i {
            assert(links[j].path != links[i].path);
        }
    }
}

/// A group gets no second live link: linking keeps each group at one.
pub proof fn law_a_group_never_gets_a_second_live_link(
    links: Seq<Link>,
    path: Seq<char>,
    group: Seq<char>,
)
    requires
        paths_are_unique(links),
        one_live_link_per_group(links),
    ensures
        linked(links, path, group) matches Ok(after) ==> paths_are_unique(after)
            && one_live_link_per_group(after),
{
    if linked(links, path, group) is Ok {
        lemma_linked_keeps_unique(links, path, group);
        let after = linked(links, path, group)->Ok_0;
        let elsewhere = |link: Link| is_live_for(group)(link) && link.path != path;
        assert forall|i: int| #![trigger links[i]] 0 <= i < links.len() && links[i].group == group
            && !links[i].orphaned implies links[i].path == path by {
            assert(!elsewhere(links[i]));
        }
        lemma_first_where(links, is_link(path));
        lemma_one_link(links, path);
        match first_where(links, is_link(path)) {
            Some(link) => {
                let k = choose|k: int| 0 <= k < links.len() && links[k] == link;
                let f = |link: Link| Link { paused: false, orphaned: false, ..link };
                lemma_set_where_at(links, is_link(path), f, k);
                assert(after == links.update(k, f(link)));
                assert forall|i: int, j: int|
                    #![trigger after[i], after[j]]
                    0 <= i < j < after.len() && !after[i].orphaned
                        && !after[j].orphaned implies after[i].group != after[j].group by {
                    assert(links[i].path != links[j].path);
                    if i != k && j != k {
                        assert(after[i] == links[i] && after[j] == links[j]);
                    }
                }
            },
            None => {
                assert forall|i: int, j: int|
                    #![trigger after[i], after[j]]
                    0 <= i < j < after.len() && !after[i].orphaned
                        && !after[j].orphaned implies after[i].group != after[j].group by {
                    assert(after[i] == links[i]);
                    if j < links.len() {
                        assert(after[j] == links[j]);
                    } else if links[i].group == group {
                        assert(links[i].path == path);
                        assert(any(links, is_link(path))) by {
                            assert(is_link(path)(links[i]));
                        }
                    }
                }
            },
        }
    }
}

/// Linking keeps each path linked once.
proof fn lemma_linked_keeps_unique(links: Seq<Link>, path: Seq<char>, group: Seq<char>)
    requires
        paths_are_unique(links),
    ensures
        linked(links, path, group) matches Ok(after) ==> paths_are_unique(after),
{
    if linked(links, path, group) is Ok {
        let after = linked(links, path, group)->Ok_0;
        lemma_first_where(links, is_link(path));
        assert forall|i: int, j: int|
            #![trigger after[i], after[j]]
            0 <= i < j < after.len() implies after[i].path != after[j].path by {
            if j < links.len() {
                assert(links[i].path != links[j].path);
            } else {
                assert(after[i] == links[i]);
                if links[i].path == path {
                    assert(is_link(path)(links[i]));
                    assert(any(links, is_link(path)));
                }
            }
        }
    }
}

/// Where each group has at most one live link, none is ambiguous: its one live
/// link, or that it has none, is the answer.
pub proof fn law_one_live_link_answers_for_its_group(links: Seq<Link>, group: Seq<char>)
    requires
        one_live_link_per_group(links),
    ensures
        sole_live(links, group) is Ok,
{
    let pred = is_live_for(group);
    lemma_sorted_is_ordered(links.filter(pred).map_values(path_of()));
    lemma_at_most_one_live(links, group);
    links.filter(pred).map_values(path_of()).to_multiset_ensures();
    live_paths(links, group).to_multiset_ensures();
}

proof fn lemma_at_most_one_live(links: Seq<Link>, group: Seq<char>)
    requires
        one_live_link_per_group(links),
    ensures
        links.filter(is_live_for(group)).len() <= 1,
    decreases links.len(),
{
    reveal(Seq::filter);
    let pred = is_live_for(group);
    if links.len() > 0 {
        let shorter = links.drop_last();
        assert forall|i: int, j: int|
            #![trigger shorter[i], shorter[j]]
            0 <= i < j < shorter.len() && !shorter[i].orphaned
                && !shorter[j].orphaned implies shorter[i].group != shorter[j].group by {
            assert(links[i].group == shorter[i].group && links[j].group == shorter[j].group);
        }
        lemma_at_most_one_live(shorter, group);
        if pred(links.last()) && shorter.filter(pred).len() > 0 {
            let row = shorter.filter(pred)[0];
            assert(shorter.filter(pred).contains(row));
            lemma_filter_members(shorter, pred, row);
            let k = choose|k: int| 0 <= k < shorter.len() && shorter[k] == row;
            assert(links[k].group != links[links.len() - 1].group);
        }
    }
}

/// A change of the links that waits for a recheck: it is made where the recheck
/// holds. Where it does not, or fails, nothing changes.
pub open spec fn rechecked_change(
    recheck: Result<bool, Failure>,
    plan: Result<Seq<Link>, Failure>,
    before: LinkTable,
    after: LinkTable,
    result: Result<bool, SyncSqliteError>,
) -> bool {
    match recheck {
        Err(failure) => result is Err && result->Err_0@ == failure && after == before,
        Ok(holds) => if !holds {
            result is Ok && result->Ok_0 == false && after == before
        } else {
            match plan {
                Ok(links) => result is Ok && result->Ok_0 == true && after == (LinkTable {
                    links,
                    ..before
                }),
                Err(failure) => result is Err && result->Err_0@ == failure && after == before,
            }
        },
    }
}

impl LinkRepository {
    /// A device without links.
    pub fn new() -> (repository: Self)
        ensures
            repository@ == (LinkTable {
                links: Seq::empty(),
                recoveries: Seq::empty(),
                floors: Seq::empty(),
            }),
    {
        let repository = LinkRepository {
            links: Vec::new(),
            duplicate_recovery_paths: Vec::new(),
            history_floors: Vec::new(),
        };
        assert(repository@.links =~= Seq::empty());
        assert(repository@.recoveries =~= Seq::empty());
        assert(repository@.floors =~= Seq::empty());
        repository
    }

    /// Where the link at the path stands.
    pub(crate) fn link_position(&self, local_path: &str) -> (found: Option<usize>)
        ensures
            match found {
                Some(i) => {
                    &&& i < self.links@.len()
                    &&& is_link(local_path@)(self@.links[i as int])
                    &&& first_where(self@.links, is_link(local_path@)) == Some(
                        self@.links[i as int],
                    )
                },
                None => {
                    &&& first_where(self@.links, is_link(local_path@)) is None
                    &&& forall|j: int|
                        0 <= j < self@.links.len() ==> !is_link(local_path@)(
                            #[trigger] self@.links[j],
                        )
                },
            },
    {
        let ghost links = self@.links;
        let ghost pred = is_link(local_path@);
        let mut i: usize = 0;
        while i < self.links.len()
            invariant
                i <= self.links@.len(),
                links == self@.links,
                pred == is_link(local_path@),
                forall|j: int| 0 <= j < i ==> !pred(#[trigger] links[j]),
            decreases self.links@.len() - i,
        {
            assert(links[i as int] == self.links@[i as int]@);
            if str_eq(self.links[i].local_path.as_str(), local_path) {
                proof {
                    lemma_first_where_at(links, pred, i as int);
                }
                return Some(i);
            }
            i += 1;
        }
        proof {
            lemma_first_where_none(links, pred);
        }
        None
    }

    /// Where the group's first live link stands.
    fn live_position(&self, group_id: &str) -> (found: Option<usize>)
        ensures
            match found {
                Some(i) => {
                    &&& i < self.links@.len()
                    &&& is_live_for(group_id@)(self@.links[i as int])
                    &&& first_where(self@.links, is_live_for(group_id@)) == Some(
                        self@.links[i as int],
                    )
                },
                None => {
                    &&& first_where(self@.links, is_live_for(group_id@)) is None
                    &&& forall|j: int|
                        0 <= j < self@.links.len() ==> !is_live_for(group_id@)(
                            #[trigger] self@.links[j],
                        )
                },
            },
    {
        let ghost links = self@.links;
        let ghost pred = is_live_for(group_id@);
        let mut i: usize = 0;
        while i < self.links.len()
            invariant
                i <= self.links@.len(),
                links == self@.links,
                pred == is_live_for(group_id@),
                forall|j: int| 0 <= j < i ==> !pred(#[trigger] links[j]),
            decreases self.links@.len() - i,
        {
            assert(links[i as int] == self.links@[i as int]@);
            if !self.links[i].orphaned && str_eq(self.links[i].group_id.as_str(), group_id) {
                proof {
                    lemma_first_where_at(links, pred, i as int);
                }
                return Some(i);
            }
            i += 1;
        }
        proof {
            lemma_first_where_none(links, pred);
        }
        None
    }

    /// The path of the group's live link, if it has one; a group with several is
    /// refused.
    pub fn live_link_paths_for_group(&self, group_id: &str) -> (result: Result<
        Vec<String>,
        SyncSqliteError,
    >)
        ensures
            match sole_live(self@.links, group_id@) {
                Err(failure) => result is Err && result->Err_0@ == failure,
                Ok(_) => result is Ok && texts(result->Ok_0@) == live_paths(
                    self@.links,
                    group_id@,
                ),
            },
    {
        let paths = self.live_paths_of(group_id);
        assert(texts(paths@).len() == paths@.len());
        if paths.len() > 1 {
            return Err(
                SyncSqliteError::AmbiguousLink {
                    group_id: group_id.to_owned(),
                    local_paths: paths,
                },
            );
        }
        Ok(paths)
    }

    /// The paths of the group's live links, in order.
    fn live_paths_of(&self, group_id: &str) -> (paths: Vec<String>)
        ensures
            texts(paths@) == live_paths(self@.links, group_id@),
    {
        let ghost links = self@.links;
        let ghost pred = is_live_for(group_id@);
        let ghost f = path_of();
        let mut paths: Vec<String> = Vec::new();
        let mut i: usize = 0;
        assert(links.take(0).filter(pred) =~= Seq::empty());
        assert(texts(paths@) =~= links.take(0).filter(pred).map_values(f));
        while i < self.links.len()
            invariant
                i <= self.links@.len(),
                links == self@.links,
                pred == is_live_for(group_id@),
                f == path_of(),
                texts(paths@).to_multiset() == links.take(i as int).filter(pred).map_values(
                    f,
                ).to_multiset(),
                in_order(texts(paths@), text_order()),
            decreases self.links@.len() - i,
        {
            assert(links[i as int] == self.links@[i as int]@);
            proof {
                lemma_filter_map_multiset_next(links, pred, f, i as int);
            }
            if !self.links[i].orphaned && str_eq(self.links[i].group_id.as_str(), group_id) {
                insert_text(&mut paths, self.links[i].local_path.clone());
            }
            i += 1;
        }
        assert(links.take(links.len() as int) =~= links);
        proof {
            lemma_ordered_is_sorted(texts(paths@), links.filter(pred).map_values(f));
        }
        paths
    }

    /// Refuses a group with more than one live link.
    pub fn ensure_unambiguous_group(&self, group_id: &str) -> (result: Result<(), SyncSqliteError>)
        ensures
            outcome(result) == match sole_live(self@.links, group_id@) {
                Ok(_) => Ok(()),
                Err(failure) => Err(failure),
            },
    {
        match self.live_link_paths_for_group(group_id) {
            Ok(_) => Ok(()),
            Err(error) => Err(error),
        }
    }

    /// Where the one live link of a group stands, or the refusal to choose
    /// among several.
    fn sole_position(&self, group_id: &str) -> (result: Result<Option<usize>, SyncSqliteError>)
        ensures
            match sole_live(self@.links, group_id@) {
                Err(failure) => result is Err && result->Err_0@ == failure,
                Ok(None) => result is Ok && result->Ok_0 is None && forall|j: int|
                    0 <= j < self@.links.len() ==> !is_live_for(group_id@)(
                        #[trigger] self@.links[j],
                    ),
                Ok(Some(link)) => result is Ok && (result->Ok_0 matches Some(i) && i
                    < self.links@.len() && self@.links[i as int] == link && is_live_for(group_id@)(
                    link,
                )),
            },
    {
        match self.ensure_unambiguous_group(group_id) {
            Ok(()) => Ok(self.live_position(group_id)),
            Err(error) => Err(error),
        }
    }
}

/// The failure of a write to a path that is not linked.
pub open spec fn no_such_link(path: Seq<char>) -> Failure {
    Failure::NotFound("link "@ + path)
}

fn no_such_link_error(local_path: &str) -> (error: SyncSqliteError)
    ensures
        error@ == no_such_link(local_path@),
{
    SyncSqliteError::NotFound(join("link ", local_path))
}

/// Changing the links that meet a condition, of which there must be one.
pub open spec fn link_change(
    links: Seq<Link>,
    path: Seq<char>,
    pred: spec_fn(Link) -> bool,
    f: spec_fn(Link) -> Link,
) -> Result<Seq<Link>, Failure> {
    if any(links, pred) {
        Ok(set_where(links, pred, f))
    } else {
        Err(no_such_link(path))
    }
}

/// The links are the only thing that changed, or nothing did.
pub open spec fn links_changed(
    plan: Result<Seq<Link>, Failure>,
    before: LinkTable,
    after: LinkTable,
    result: Result<(), SyncSqliteError>,
) -> bool {
    match plan {
        Ok(links) => result is Ok && after == (LinkTable { links, ..before }),
        Err(failure) => result is Err && result->Err_0@ == failure && after == before,
    }
}

/// Changing columns of links keeps each path linked once, and each group at
/// one live link while no link comes back to life.
pub proof fn lemma_link_change(
    links: Seq<Link>,
    pred: spec_fn(Link) -> bool,
    f: spec_fn(Link) -> Link,
)
    requires
        forall|link: Link|
            #![trigger f(link)]
            f(link).path == link.path && f(link).group == link.group && (link.orphaned ==> f(
                link,
            ).orphaned),
    ensures
        paths_are_unique(links) ==> paths_are_unique(set_where(links, pred, f)),
        one_live_link_per_group(links) ==> one_live_link_per_group(set_where(links, pred, f)),
{
    let after = set_where(links, pred, f);
    assert forall|i: int| #![trigger after[i]] 0 <= i < after.len() implies after[i].path
        == links[i].path && after[i].group == links[i].group && (links[i].orphaned ==>
        after[i].orphaned) by {
        let link = links[i];
        assert(f(link).path == link.path);
    }
    if paths_are_unique(links) {
        assert forall|i: int, j: int|
            #![trigger after[i], after[j]]
            0 <= i < j < after.len() implies after[i].path != after[j].path by {
            assert(links[i].path != links[j].path);
        }
    }
    if one_live_link_per_group(links) {
        assert forall|i: int, j: int|
            #![trigger after[i], after[j]]
            0 <= i < j < after.len() && !after[i].orphaned
                && !after[j].orphaned implies after[i].group != after[j].group by {
            let a = links[i];
            let b = links[j];
            assert(links[i].group != links[j].group);
        }
    }
}

/// Removing links keeps each path linked once and each group at one live link.
pub proof fn lemma_unlinking(links: Seq<Link>, pred: spec_fn(Link) -> bool)
    ensures
        paths_are_unique(links) ==> paths_are_unique(links.filter(pred)),
        one_live_link_per_group(links) ==> one_live_link_per_group(links.filter(pred)),
    decreases links.len(),
{
    reveal(Seq::filter);
    if links.len() > 0 {
        let shorter = links.drop_last();
        let last = links.last();
        let kept = shorter.filter(pred);
        let all = links.filter(pred);
        assert(paths_are_unique(links) ==> paths_are_unique(shorter)) by {
            assert forall|i: int, j: int|
                #![trigger shorter[i], shorter[j]]
                paths_are_unique(links) && 0 <= i < j < shorter.len() implies shorter[i].path
                != shorter[j].path by {
                assert(links[i].path != links[j].path);
            }
        }
        assert(one_live_link_per_group(links) ==> one_live_link_per_group(shorter)) by {
            assert forall|i: int, j: int|
                #![trigger shorter[i], shorter[j]]
                one_live_link_per_group(links) && 0 <= i < j < shorter.len()
                    && !shorter[i].orphaned && !shorter[j].orphaned implies shorter[i].group
                != shorter[j].group by {
                assert(links[i] == shorter[i] && links[j] == shorter[j]);
            }
        }
        lemma_unlinking(shorter, pred);
        if pred(last) {
            assert(all =~= kept.push(last));
            assert(links[links.len() - 1] == last);
            assert forall|i: int| #![trigger kept[i]] 0 <= i < kept.len() implies {
                &&& paths_are_unique(links) ==> kept[i].path != last.path
                &&& one_live_link_per_group(links) && !kept[i].orphaned && !last.orphaned ==>
                    kept[i].group != last.group
            } by {
                assert(kept.contains(kept[i]));
                lemma_filter_members(shorter, pred, kept[i]);
                let k = choose|k: int| 0 <= k < shorter.len() && shorter[k] == kept[i];
                assert(links[k] == kept[i]);
            }
            if paths_are_unique(links) {
                assert forall|i: int, j: int|
                    #![trigger all[i], all[j]]
                    0 <= i < j < all.len() implies all[i].path != all[j].path by {
                    assert(all[i] == kept[i]);
                    if j < kept.len() {
                        assert(all[j] == kept[j]);
                    }
                }
            }
            if one_live_link_per_group(links) {
                assert forall|i: int, j: int|
                    #![trigger all[i], all[j]]
                    0 <= i < j < all.len() && !all[i].orphaned && !all[j].orphaned implies
                    all[i].group != all[j].group by {
                    assert(all[i] == kept[i]);
                    if j < kept.len() {
                        assert(all[j] == kept[j]);
                    }
                }
            }
        } else {
            assert(all =~= kept);
        }
    }
}

/// The link orphaned.
pub open spec fn with_orphaned() -> spec_fn(Link) -> Link {
    |link: Link| Link { orphaned: true, ..link }
}

/// The link under another policy.
pub open spec fn with_policy(policy: MaterializationPolicy) -> spec_fn(Link) -> Link {
    |link: Link| Link { policy, ..link }
}

/// The link with its choice about symlinks on Windows.
pub open spec fn with_windows_symlinks(opt_in: bool) -> spec_fn(Link) -> Link {
    |link: Link| Link { windows_symlinks: opt_in, ..link }
}

/// The link with another size limit.
pub open spec fn with_max_size(max_bytes: Option<i64>) -> spec_fn(Link) -> Link {
    |link: Link| Link { max_size: max_bytes, ..link }
}

/// The link paused, or not.
pub open spec fn with_paused(paused: bool) -> spec_fn(Link) -> Link {
    |link: Link| Link { paused, ..link }
}

/// The link with its tombstones suppressed, or not.
pub open spec fn with_suppressed_tombstones(suppress: bool) -> spec_fn(Link) -> Link {
    |link: Link| Link { suppress_tombstones: suppress, ..link }
}

/// The link with another root token.
pub open spec fn with_root_token(token: Seq<char>) -> spec_fn(Link) -> Link {
    |link: Link| Link { root_token: Some(token), ..link }
}

/// The link is at another path.
pub open spec fn is_not_link(path: Seq<char>) -> spec_fn(Link) -> bool {
    |link: Link| link.path != path
}

/// What a link shows to callers.
pub open spec fn shown_link() -> spec_fn(Link) -> ShownLink {
    |link: Link|
        ShownLink {
            path: link.path,
            group: link.group,
            paused: link.paused,
            policy: link.policy,
            max_size: link.max_size,
            orphaned: link.orphaned,
        }
}

/// The policy of a group's live link.
pub open spec fn policy_of(live: Option<Link>) -> Option<MaterializationPolicy> {
    match live {
        Some(link) => Some(link.policy),
        None => None,
    }
}

/// The root token of a group's live link.
pub open spec fn token_of(live: Option<Link>) -> Option<Seq<char>> {
    match live {
        Some(link) => link.root_token,
        None => None,
    }
}

/// Whether a group's live link opts in to symlinks on Windows.
pub open spec fn opts_in_to_symlinks(live: Option<Link>) -> bool {
    match live {
        Some(link) => link.windows_symlinks,
        None => false,
    }
}

/// Whether a group's live link holds tombstones back.
pub open spec fn suppresses_tombstones(live: Option<Link>) -> bool {
    match live {
        Some(link) => link.suppress_tombstones,
        None => false,
    }
}

/// The folder of a group's live link.
pub open spec fn folder_of(live: Option<Link>) -> Option<Seq<char>> {
    match live {
        Some(link) => Some(link.path),
        None => None,
    }
}

/// Whether a group's live link is paused.
pub open spec fn is_paused(live: Option<Link>) -> bool {
    live matches Some(link) && link.paused
}

/// What a group's links let through.
pub open spec fn gate_of(live: Option<Link>) -> Gate {
    match live {
        None => Gate::NoLiveLink,
        Some(link) => if link.paused {
            Gate::Paused(link.path)
        } else {
            Gate::Live(link.path, link.policy)
        },
    }
}

/// The paths without the excluded one.
pub open spec fn without(paths: Seq<Seq<char>>, excluded: Option<Seq<char>>) -> Seq<Seq<char>> {
    paths.filter(|path: Seq<char>| Some(path) != excluded)
}

impl LinkRepository {
    /// Marks a link as orphaned.
    pub fn mark_link_orphaned(&mut self, local_path: &str) -> (result: Result<
        (),
        SyncSqliteError,
    >)
        requires
            paths_are_unique(old(self)@.links),
        ensures
            paths_are_unique(final(self)@.links),
            one_live_link_per_group(old(self)@.links) ==> one_live_link_per_group(
                final(self)@.links,
            ),
            links_changed(
                link_change(
                    old(self)@.links,
                    local_path@,
                    is_link(local_path@),
                    with_orphaned(),
                ),
                old(self)@,
                final(self)@,
                result,
            ),
    {
        let ghost links = self@.links;
        let ghost f = with_orphaned();
        match self.link_position(local_path) {
            None => Err(no_such_link_error(local_path)),
            Some(i) => {
                assert(links[i as int] == self.links@[i as int]@);
                assert(any(links, is_link(local_path@))) by {
                    assert(is_link(local_path@)(links[i as int]));
                }
                proof {
                    lemma_one_link(links, local_path@);
                    lemma_set_where_at(links, is_link(local_path@), f, i as int);
                    lemma_link_change(links, is_link(local_path@), f);
                }
                self.links[i].orphaned = true;
                assert(self@.links =~= links.update(i as int, f(links[i as int])));
                Ok(())
            },
        }
    }

    /// Sets the policy of a live link.
    pub fn set_materialization_policy(&mut self, local_path: &str, policy: MaterializationPolicy) -> (result: Result<
        (),
        SyncSqliteError,
    >)
        requires
            paths_are_unique(old(self)@.links),
        ensures
            paths_are_unique(final(self)@.links),
            one_live_link_per_group(old(self)@.links) ==> one_live_link_per_group(
                final(self)@.links,
            ),
            links_changed(
                link_change(
                    old(self)@.links,
                    local_path@,
                    is_live_link(local_path@),
                    with_policy(policy),
                ),
                old(self)@,
                final(self)@,
                result,
            ),
    {
        let ghost links = self@.links;
        let ghost f = with_policy(policy);
        match self.link_position(local_path) {
            None => {
                assert(!any(links, is_live_link(local_path@))) by {
                    assert forall|j: int|
                        #![trigger links[j]]
                        0 <= j < links.len() implies !is_live_link(local_path@)(links[j]) by {
                        assert(!is_link(local_path@)(links[j]));
                    }
                }
                Err(no_such_link_error(local_path))
            },
            Some(i) => {
                assert(links[i as int] == self.links@[i as int]@);
                if self.links[i].orphaned {
                    proof {
                        lemma_one_link(links, local_path@);
                        if any(links, is_live_link(local_path@)) {
                            let k = choose|k: int|
                                #![trigger links[k]]
                                0 <= k < links.len() && is_live_link(local_path@)(links[k]);
                            assert(is_link(local_path@)(links[k]));
                            assert(is_link(local_path@)(links[i as int]));
                        }
                    }
                    return Err(no_such_link_error(local_path));
                }
                assert(any(links, is_live_link(local_path@))) by {
                    assert(is_live_link(local_path@)(links[i as int]));
                }
                proof {
                    lemma_one_link(links, local_path@);
                    lemma_set_where_at(links, is_live_link(local_path@), f, i as int);
                    lemma_link_change(links, is_live_link(local_path@), f);
                }
                self.links[i].materialization_policy = policy;
                assert(self@.links =~= links.update(i as int, f(links[i as int])));
                Ok(())
            },
        }
    }

    /// Sets a link's choice about symlinks on Windows.
    pub fn set_windows_symlink_opt_in(&mut self, local_path: &str, opt_in: bool) -> (result: Result<
        (),
        SyncSqliteError,
    >)
        requires
            paths_are_unique(old(self)@.links),
        ensures
            paths_are_unique(final(self)@.links),
            one_live_link_per_group(old(self)@.links) ==> one_live_link_per_group(
                final(self)@.links,
            ),
            links_changed(
                link_change(
                    old(self)@.links,
                    local_path@,
                    is_link(local_path@),
                    with_windows_symlinks(opt_in),
                ),
                old(self)@,
                final(self)@,
                result,
            ),
    {
        let ghost links = self@.links;
        let ghost f = with_windows_symlinks(opt_in);
        match self.link_position(local_path) {
            None => Err(no_such_link_error(local_path)),
            Some(i) => {
                assert(links[i as int] == self.links@[i as int]@);
                assert(any(links, is_link(local_path@))) by {
                    assert(is_link(local_path@)(links[i as int]));
                }
                proof {
                    lemma_one_link(links, local_path@);
                    lemma_set_where_at(links, is_link(local_path@), f, i as int);
                    lemma_link_change(links, is_link(local_path@), f);
                }
                self.links[i].windows_symlink_opt_in = opt_in;
                assert(self@.links =~= links.update(i as int, f(links[i as int])));
                Ok(())
            },
        }
    }

    /// Sets a link's size limit.
    pub fn set_max_local_size_bytes(&mut self, local_path: &str, max_bytes: Option<i64>) -> (result: Result<
        (),
        SyncSqliteError,
    >)
        requires
            paths_are_unique(old(self)@.links),
        ensures
            paths_are_unique(final(self)@.links),
            one_live_link_per_group(old(self)@.links) ==> one_live_link_per_group(
                final(self)@.links,
            ),
            links_changed(
                link_change(
                    old(self)@.links,
                    local_path@,
                    is_link(local_path@),
                    with_max_size(max_bytes),
                ),
                old(self)@,
                final(self)@,
                result,
            ),
    {
        let ghost links = self@.links;
        let ghost f = with_max_size(max_bytes);
        match self.link_position(local_path) {
            None => Err(no_such_link_error(local_path)),
            Some(i) => {
                assert(links[i as int] == self.links@[i as int]@);
                assert(any(links, is_link(local_path@))) by {
                    assert(is_link(local_path@)(links[i as int]));
                }
                proof {
                    lemma_one_link(links, local_path@);
                    lemma_set_where_at(links, is_link(local_path@), f, i as int);
                    lemma_link_change(links, is_link(local_path@), f);
                }
                self.links[i].max_local_size_bytes = max_bytes;
                assert(self@.links =~= links.update(i as int, f(links[i as int])));
                Ok(())
            },
        }
    }

    /// Pauses a link, or resumes it.
    pub fn set_paused(&mut self, local_path: &str, paused: bool) -> (result: Result<
        (),
        SyncSqliteError,
    >)
        requires
            paths_are_unique(old(self)@.links),
        ensures
            paths_are_unique(final(self)@.links),
            one_live_link_per_group(old(self)@.links) ==> one_live_link_per_group(
                final(self)@.links,
            ),
            links_changed(
                link_change(
                    old(self)@.links,
                    local_path@,
                    is_link(local_path@),
                    with_paused(paused),
                ),
                old(self)@,
                final(self)@,
                result,
            ),
    {
        let ghost links = self@.links;
        let ghost f = with_paused(paused);
        match self.link_position(local_path) {
            None => Err(no_such_link_error(local_path)),
            Some(i) => {
                assert(links[i as int] == self.links@[i as int]@);
                assert(any(links, is_link(local_path@))) by {
                    assert(is_link(local_path@)(links[i as int]));
                }
                proof {
                    lemma_one_link(links, local_path@);
                    lemma_set_where_at(links, is_link(local_path@), f, i as int);
                    lemma_link_change(links, is_link(local_path@), f);
                }
                self.links[i].paused = paused;
                assert(self@.links =~= links.update(i as int, f(links[i as int])));
                Ok(())
            },
        }
    }

    /// Suppresses a link's tombstones until its next scan, or no longer.
    pub fn set_suppress_tombstones(&mut self, local_path: &str, suppress: bool) -> (result: Result<
        (),
        SyncSqliteError,
    >)
        requires
            paths_are_unique(old(self)@.links),
        ensures
            paths_are_unique(final(self)@.links),
            one_live_link_per_group(old(self)@.links) ==> one_live_link_per_group(
                final(self)@.links,
            ),
            links_changed(
                link_change(
                    old(self)@.links,
                    local_path@,
                    is_link(local_path@),
                    with_suppressed_tombstones(suppress),
                ),
                old(self)@,
                final(self)@,
                result,
            ),
    {
        let ghost links = self@.links;
        let ghost f = with_suppressed_tombstones(suppress);
        match self.link_position(local_path) {
            None => Err(no_such_link_error(local_path)),
            Some(i) => {
                assert(links[i as int] == self.links@[i as int]@);
                assert(any(links, is_link(local_path@))) by {
                    assert(is_link(local_path@)(links[i as int]));
                }
                proof {
                    lemma_one_link(links, local_path@);
                    lemma_set_where_at(links, is_link(local_path@), f, i as int);
                    lemma_link_change(links, is_link(local_path@), f);
                }
                self.links[i].suppress_tombstones_until_scan = suppress;
                assert(self@.links =~= links.update(i as int, f(links[i as int])));
                Ok(())
            },
        }
    }

    /// Sets the root token of a link by its path.
    pub fn set_link_root_token_for_path_for_test(&mut self, local_path: &str, root_token: &str) -> (result: Result<
        (),
        SyncSqliteError,
    >)
        requires
            paths_are_unique(old(self)@.links),
        ensures
            paths_are_unique(final(self)@.links),
            one_live_link_per_group(old(self)@.links) ==> one_live_link_per_group(
                final(self)@.links,
            ),
            links_changed(
                link_change(
                    old(self)@.links,
                    local_path@,
                    is_link(local_path@),
                    with_root_token(root_token@),
                ),
                old(self)@,
                final(self)@,
                result,
            ),
    {
        let ghost links = self@.links;
        let ghost f = with_root_token(root_token@);
        match self.link_position(local_path) {
            None => Err(no_such_link_error(local_path)),
            Some(i) => {
                assert(links[i as int] == self.links@[i as int]@);
                assert(any(links, is_link(local_path@))) by {
                    assert(is_link(local_path@)(links[i as int]));
                }
                proof {
                    lemma_one_link(links, local_path@);
                    lemma_set_where_at(links, is_link(local_path@), f, i as int);
                    lemma_link_change(links, is_link(local_path@), f);
                }
                self.links[i].root_token = Some(root_token.to_owned());
                assert(self@.links =~= links.update(i as int, f(links[i as int])));
                Ok(())
            },
        }
    }

    /// The policy of a group's live link. A group with several live links is refused.
    pub fn materialization_policy_for_group(&self, group_id: &str) -> (result: Result<
        Option<MaterializationPolicy>,
        SyncSqliteError,
    >)
        ensures
            match sole_live(self@.links, group_id@) {
                Err(failure) => result is Err && result->Err_0@ == failure,
                Ok(live) => result is Ok && result->Ok_0 == policy_of(live),
            },
    {
        match self.sole_position(group_id) {
            Err(error) => Err(error),
            Ok(None) => Ok(None),
            Ok(Some(i)) => {
                assert(self@.links[i as int] == self.links@[i as int]@);
                Ok(Some(self.links[i].materialization_policy))
            },
        }
    }

    /// Whether the group has a live link. A group with several live links is refused.
    pub fn has_live_link_for_group(&self, group_id: &str) -> (result: Result<
        bool,
        SyncSqliteError,
    >)
        ensures
            match sole_live(self@.links, group_id@) {
                Err(failure) => result is Err && result->Err_0@ == failure,
                Ok(live) => result is Ok && result->Ok_0 == (live is Some),
            },
    {
        match self.sole_position(group_id) {
            Err(error) => Err(error),
            Ok(None) => Ok(false),
            Ok(Some(i)) => {
                assert(self@.links[i as int] == self.links@[i as int]@);
                Ok(true)
            },
        }
    }

    /// The root token of a group's live link. A group with several live links is refused.
    pub fn link_root_token_for_group(&self, group_id: &str) -> (result: Result<
        Option<String>,
        SyncSqliteError,
    >)
        ensures
            match sole_live(self@.links, group_id@) {
                Err(failure) => result is Err && result->Err_0@ == failure,
                Ok(live) => result is Ok && opt_text(result->Ok_0) == token_of(live),
            },
    {
        match self.sole_position(group_id) {
            Err(error) => Err(error),
            Ok(None) => Ok(None),
            Ok(Some(i)) => {
                assert(self@.links[i as int] == self.links@[i as int]@);
                Ok(copy_opt_str(&self.links[i].root_token))
            },
        }
    }

    /// A group's choice about symlinks on Windows. A group with several live links is refused.
    pub fn windows_symlink_opt_in_for_group(&self, group_id: &str) -> (result: Result<
        bool,
        SyncSqliteError,
    >)
        ensures
            match sole_live(self@.links, group_id@) {
                Err(failure) => result is Err && result->Err_0@ == failure,
                Ok(live) => result is Ok && result->Ok_0 == opts_in_to_symlinks(live),
            },
    {
        match self.sole_position(group_id) {
            Err(error) => Err(error),
            Ok(None) => Ok(false),
            Ok(Some(i)) => {
                assert(self@.links[i as int] == self.links@[i as int]@);
                Ok(self.links[i].windows_symlink_opt_in)
            },
        }
    }

    /// Whether the group's tombstones are suppressed. A group with several live links is refused.
    pub fn suppress_tombstones_for_group(&self, group_id: &str) -> (result: Result<
        bool,
        SyncSqliteError,
    >)
        ensures
            match sole_live(self@.links, group_id@) {
                Err(failure) => result is Err && result->Err_0@ == failure,
                Ok(live) => result is Ok && result->Ok_0 == suppresses_tombstones(live),
            },
    {
        match self.sole_position(group_id) {
            Err(error) => Err(error),
            Ok(None) => Ok(false),
            Ok(Some(i)) => {
                assert(self@.links[i as int] == self.links@[i as int]@);
                Ok(self.links[i].suppress_tombstones_until_scan)
            },
        }
    }

    /// The local path of a group's live link. A group with several live links is refused.
    pub fn live_link_local_path_for_group(&self, group_id: &str) -> (result: Result<
        Option<String>,
        SyncSqliteError,
    >)
        ensures
            match sole_live(self@.links, group_id@) {
                Err(failure) => result is Err && result->Err_0@ == failure,
                Ok(live) => result is Ok && opt_text(result->Ok_0) == folder_of(live),
            },
    {
        match self.sole_position(group_id) {
            Err(error) => Err(error),
            Ok(None) => Ok(None),
            Ok(Some(i)) => {
                assert(self@.links[i as int] == self.links@[i as int]@);
                Ok(Some(self.links[i].local_path.clone()))
            },
        }
    }

    /// What the group's link lets through: nothing without a live link or while it
    /// is paused. A group with several live links is refused.
    pub fn link_gate_for_group(&self, group_id: &str) -> (result: Result<
        LinkGate,
        SyncSqliteError,
    >)
        ensures
            match sole_live(self@.links, group_id@) {
                Err(failure) => result is Err && result->Err_0@ == failure,
                Ok(live) => result is Ok && result->Ok_0@ == gate_of(live),
            },
    {
        match self.sole_position(group_id) {
            Err(error) => Err(error),
            Ok(None) => Ok(LinkGate::NoLiveLink),
            Ok(Some(i)) => {
                assert(self@.links[i as int] == self.links@[i as int]@);
                if self.links[i].paused {
                    Ok(LinkGate::Paused { local_path: self.links[i].local_path.clone() })
                } else {
                    Ok(
                        LinkGate::Live {
                            local_path: self.links[i].local_path.clone(),
                            policy: self.links[i].materialization_policy,
                        },
                    )
                }
            },
        }
    }

    /// Whether the group's live link is paused. A group with several live links
    /// is refused.
    pub fn is_paused_for_group(&self, group_id: &str) -> (result: Result<bool, SyncSqliteError>)
        ensures
            match sole_live(self@.links, group_id@) {
                Err(failure) => result is Err && result->Err_0@ == failure,
                Ok(live) => result is Ok && result->Ok_0 == is_paused(live),
            },
    {
        match self.link_gate_for_group(group_id) {
            Ok(LinkGate::Paused { .. }) => Ok(true),
            Ok(_) => Ok(false),
            Err(error) => Err(error),
        }
    }

    /// Refuses a group with more than one live link, one path left out of
    /// account.
    pub fn ensure_unambiguous_group_on_conn(&self, group_id: &str, excluding: Option<&str>) -> (
    result: Result<(), SyncSqliteError>)
        ensures
            outcome(result) == ({
                let rest = without(
                    live_paths(self@.links, group_id@),
                    match excluding {
                        Some(path) => Some(path@),
                        None => None,
                    },
                );
                if rest.len() > 1 {
                    Err(ambiguous(group_id@, rest))
                } else {
                    Ok(())
                }
            }),
    {
        let all = self.live_paths_of(group_id);
        let ghost paths = texts(all@);
        let ghost excluded = match excluding {
            Some(path) => Some(path@),
            None => None,
        };
        let ghost pred = |path: Seq<char>| Some(path) != excluded;
        let mut rest: Vec<String> = Vec::new();
        let mut i: usize = 0;
        assert(paths.take(0).filter(pred) =~= Seq::empty());
        assert(texts(rest@) =~= Seq::empty());
        while i < all.len()
            invariant
                i <= all@.len(),
                paths == texts(all@),
                excluded == match excluding {
                    Some(path) => Some(path@),
                    None => None,
                },
                pred == (|path: Seq<char>| Some(path) != excluded),
                texts(rest@) == paths.take(i as int).filter(pred),
            decreases all@.len() - i,
        {
            assert(paths[i as int] == all@[i as int]@);
            proof {
                lemma_filter_take_next(paths, pred, i as int);
            }
            let left_out: bool = match excluding {
                Some(path) => str_eq(all[i].as_str(), path),
                None => false,
            };
            if !left_out {
                let ghost so_far = texts(rest@);
                rest.push(all[i].clone());
                assert(texts(rest@) =~= so_far.push(paths[i as int]));
            }
            i += 1;
        }
        assert(paths.take(paths.len() as int) =~= paths);
        assert(texts(rest@).len() == rest@.len());
        if rest.len() > 1 {
            return Err(
                SyncSqliteError::AmbiguousLink {
                    group_id: group_id.to_owned(),
                    local_paths: rest,
                },
            );
        }
        Ok(())
    }

    /// Stamps the root token on a group's live link. With several live links
    /// nothing is stamped.
    pub fn set_link_root_token_for_group(&mut self, group_id: &str, root_token: &str) -> (result:
        Result<(), SyncSqliteError>)
        requires
            paths_are_unique(old(self)@.links),
        ensures
            paths_are_unique(final(self)@.links),
            one_live_link_per_group(old(self)@.links) ==> one_live_link_per_group(
                final(self)@.links,
            ),
            match sole_live(old(self)@.links, group_id@) {
                Err(failure) => result is Err && result->Err_0@ == failure && final(self)@
                    == old(self)@,
                Ok(_) => result is Ok && final(self)@ == (LinkTable {
                    links: set_where(
                        old(self)@.links,
                        is_live_for(group_id@),
                        with_root_token(root_token@),
                    ),
                    ..old(self)@
                }),
            },
    {
        let ghost links = self@.links;
        let ghost pred = is_live_for(group_id@);
        let ghost f = with_root_token(root_token@);
        proof {
            lemma_link_change(links, pred, f);
        }
        match self.sole_position(group_id) {
            Err(error) => Err(error),
            Ok(None) => {
                proof {
                    lemma_set_where_none(links, pred, f);
                }
                Ok(())
            },
            Ok(Some(i)) => {
                assert(links[i as int] == self.links@[i as int]@);
                proof {
                    lemma_unambiguous_is_single(links, group_id@);
                    lemma_set_where_at(links, pred, f, i as int);
                }
                self.links[i].root_token = Some(root_token.to_owned());
                assert(self@.links =~= links.update(i as int, f(links[i as int])));
                Ok(())
            },
        }
    }

    /// Links a path to a group. `group_is_indexed` says whether anything of the
    /// group is indexed already.
    pub fn insert_link_row(
        &mut self,
        local_path: &str,
        group_id: &str,
        group_is_indexed: bool,
        now_unix_nanos: i64,
    ) -> (result: Result<(), SyncSqliteError>)
        requires
            paths_are_unique(old(self)@.links),
        ensures
            paths_are_unique(final(self)@.links),
            one_live_link_per_group(old(self)@.links) ==> one_live_link_per_group(
                final(self)@.links,
            ),
            match linked(old(self)@.links, local_path@, group_id@) {
                Err(failure) => result is Err && result->Err_0@ == failure && final(self)@
                    == old(self)@,
                Ok(links) => result is Ok && final(self)@ == (LinkTable {
                    links,
                    floors: floors_after(
                        old(self)@.floors,
                        group_id@,
                        starts_anew(old(self)@.links, local_path@, group_is_indexed),
                        now_unix_nanos as int,
                    ),
                    ..old(self)@
                }),
            },
    {
        let ghost links = self@.links;
        let ghost before = self@;
        proof {
            lemma_linked_keeps_unique(links, local_path@, group_id@);
            if one_live_link_per_group(links) {
                law_a_group_never_gets_a_second_live_link(links, local_path@, group_id@);
            }
            lemma_first_where(links, is_link(local_path@));
        }
        if self.lives_at_another(group_id, local_path) {
            let mut local_paths = self.live_paths_of(group_id);
            if !crate::file_queries::holds_text(local_paths.as_slice(), local_path) {
                let ghost live = texts(local_paths@);
                proof {
                    lemma_sorted_is_ordered(
                        links.filter(is_live_for(group_id@)).map_values(path_of()),
                    );
                }
                insert_text(&mut local_paths, local_path.to_owned());
                proof {
                    vstd::seq_lib::to_multiset_build(live, local_path@);
                    lemma_ordered_is_sorted(texts(local_paths@), live.push(local_path@));
                }
            }
            return Err(
                SyncSqliteError::AmbiguousLink { group_id: group_id.to_owned(), local_paths },
            );
        }
        match self.link_position(local_path) {
            Some(i) => {
                assert(links[i as int] == self.links@[i as int]@);
                if !str_eq(self.links[i].group_id.as_str(), group_id) {
                    let start = join3(
                        local_path,
                        " is already linked to folder group ",
                        self.links[i].group_id.as_str(),
                    );
                    return Err(
                        SyncSqliteError::InvalidInput(
                            join3(
                                start.as_str(),
                                "; unlink it before linking it to ",
                                group_id,
                            ),
                        ),
                    );
                }
                let ghost f = |link: Link| Link { paused: false, orphaned: false, ..link };
                proof {
                    lemma_one_link(links, local_path@);
                    lemma_set_where_at(links, is_link(local_path@), f, i as int);
                }
                self.links[i].paused = false;
                self.links[i].orphaned = false;
                assert(self@.links =~= links.update(i as int, f(links[i as int])));
                Ok(())
            },
            None => {
                self.links.push(
                    LinkRow {
                        local_path: local_path.to_owned(),
                        group_id: group_id.to_owned(),
                        paused: false,
                        materialization_policy: MaterializationPolicy::Eager,
                        max_local_size_bytes: None,
                        orphaned: false,
                        root_token: None,
                        windows_symlink_opt_in: false,
                        suppress_tombstones_until_scan: false,
                    },
                );
                assert(self@.links =~= links.push(new_link(local_path@, group_id@)));
                if !group_is_indexed {
                    self.raise_floor(group_id, now_unix_nanos);
                }
                Ok(())
            },
        }
    }

    /// Whether the group has a live link at another path.
    fn lives_at_another(&self, group_id: &str, local_path: &str) -> (lives: bool)
        ensures
            lives == lives_elsewhere(self@.links, group_id@, local_path@),
    {
        let ghost links = self@.links;
        let ghost pred = |link: Link| is_live_for(group_id@)(link) && link.path != local_path@;
        let mut i: usize = 0;
        while i < self.links.len()
            invariant
                i <= self.links@.len(),
                links == self@.links,
                pred == (|link: Link| is_live_for(group_id@)(link) && link.path != local_path@),
                forall|j: int| 0 <= j < i ==> !pred(#[trigger] links[j]),
            decreases self.links@.len() - i,
        {
            assert(links[i as int] == self.links@[i as int]@);
            if !self.links[i].orphaned && str_eq(self.links[i].group_id.as_str(), group_id)
                && !str_eq(self.links[i].local_path.as_str(), local_path) {
                assert(pred(links[i as int]));
                return true;
            }
            i += 1;
        }
        false
    }

    /// Moves a group's history floor to now.
    fn raise_floor(&mut self, group_id: &str, now_unix_nanos: i64)
        ensures
            final(self)@ == (LinkTable {
                floors: floors_after(old(self)@.floors, group_id@, true, now_unix_nanos as int),
                ..old(self)@
            }),
    {
        let ghost before = self@;
        let ghost floors = self@.floors;
        let ghost pred = |floor: Floor| floor.group == group_id@;
        let ghost f = |floor: Floor| Floor { since: now_unix_nanos as int, ..floor };
        let mut found: bool = false;
        let mut i: usize = 0;
        while i < self.history_floors.len()
            invariant
                i <= self.history_floors@.len(),
                self.history_floors@.len() == floors.len(),
                pred == (|floor: Floor| floor.group == group_id@),
                f == (|floor: Floor| Floor { since: now_unix_nanos as int, ..floor }),
                found == any(floors.take(i as int), pred),
                self@.floors == set_where(floors.take(i as int), pred, f) + floors.skip(i as int),
                self@.links == before.links,
                self@.recoveries == before.recoveries,
            decreases self.history_floors@.len() - i,
        {
            let ghost now = self@.floors;
            let ghost earlier = floors.take(i as int);
            let ghost longer = floors.take(i + 1);
            proof {
                assert(now[i as int] == floors.skip(i as int)[0]);
                assert(now[i as int] == floors[i as int]);
                assert(now[i as int] == self.history_floors@[i as int]@);
                assert(longer =~= earlier.push(floors[i as int]));
            }
            let here: bool = str_eq(self.history_floors[i].group_id.as_str(), group_id);
            if here {
                found = true;
                self.history_floors[i].floor_unix_nanos = now_unix_nanos;
            }
            proof {
                if any(earlier, pred) {
                    let k = choose|k: int|
                        #![trigger earlier[k]]
                        0 <= k < earlier.len() && pred(earlier[k]);
                    assert(longer[k] == earlier[k]);
                }
                assert(longer[i as int] == floors[i as int]);
                if any(longer, pred) && !here {
                    let k = choose|k: int|
                        #![trigger longer[k]]
                        0 <= k < longer.len() && pred(longer[k]);
                    assert(earlier[k] == longer[k]);
                }
                let after = self@.floors;
                let wanted = set_where(longer, pred, f) + floors.skip(i + 1);
                assert(after =~= if here {
                    now.update(i as int, f(floors[i as int]))
                } else {
                    now
                });
                assert(after.len() == wanted.len());
                assert forall|k: int| 0 <= k < after.len() implies after[k] == wanted[k] by {
                    if k < i {
                        assert(now[k] == set_where(earlier, pred, f)[k]);
                        assert(longer[k] == earlier[k]);
                    } else if k > i {
                        assert(now[k] == floors.skip(i as int)[k - i]);
                        assert(wanted[k] == floors.skip(i + 1)[k - i - 1]);
                    }
                }
                assert(after =~= wanted);
            }
            i += 1;
        }
        proof {
            assert(floors.take(floors.len() as int) =~= floors);
            assert(floors.skip(floors.len() as int) =~= Seq::empty());
            assert(self@.floors =~= set_where(floors, pred, f));
            if !found {
                assert forall|j: int| 0 <= j < floors.len() implies !pred(#[trigger] floors[j]) by {
                    assert(!any(floors, pred));
                }
                lemma_set_where_none(floors, pred, f);
            }
        }
        if !found {
            self.history_floors.push(
                HistoryFloor { group_id: group_id.to_owned(), floor_unix_nanos: now_unix_nanos },
            );
            assert(self@.floors =~= floors.push(
                Floor { group: group_id@, since: now_unix_nanos as int },
            ));
        }
    }

    /// Links a path to a group. The first link of a group this device has
    /// nothing of records since when it knows the group's history.
    pub fn add_link(
        &mut self,
        local_path: &str,
        group_id: &str,
        index: &FileIndexRepository,
        now_unix_nanos: i64,
    ) -> (result: Result<(), SyncSqliteError>)
        requires
            paths_are_unique(old(self)@.links),
        ensures
            paths_are_unique(final(self)@.links),
            one_live_link_per_group(old(self)@.links) ==> one_live_link_per_group(
                final(self)@.links,
            ),
            match linked(old(self)@.links, local_path@, group_id@) {
                Err(failure) => result is Err && result->Err_0@ == failure && final(self)@
                    == old(self)@,
                Ok(links) => result is Ok && final(self)@ == (LinkTable {
                    links,
                    floors: floors_after(
                        old(self)@.floors,
                        group_id@,
                        starts_anew(
                            old(self)@.links,
                            local_path@,
                            any(index@.files, is_in_group(group_id@)),
                        ),
                        now_unix_nanos as int,
                    ),
                    ..old(self)@
                }),
            },
    {
        let ghost rows = index@.files;
        let ghost pred = is_in_group(group_id@);
        let mut indexed: bool = false;
        let mut i: usize = 0;
        while i < index.files.len() && !indexed
            invariant
                i <= index.files@.len(),
                rows == index@.files,
                pred == is_in_group(group_id@),
                indexed ==> any(rows, pred),
                !indexed ==> forall|j: int| 0 <= j < i ==> !pred(#[trigger] rows[j]),
            decreases index.files@.len() - i,
        {
            assert(rows[i as int] == index.files@[i as int]@);
            if str_eq(index.files[i].group_id.as_str(), group_id) {
                assert(pred(rows[i as int]));
                indexed = true;
            }
            i += 1;
        }
        assert(indexed == any(rows, pred));
        self.insert_link_row(local_path, group_id, indexed, now_unix_nanos)
    }

    /// Unlinks a path.
    pub fn remove_link(&mut self, local_path: &str)
        requires
            paths_are_unique(old(self)@.links),
        ensures
            paths_are_unique(final(self)@.links),
            one_live_link_per_group(old(self)@.links) ==> one_live_link_per_group(
                final(self)@.links,
            ),
            final(self)@ == (LinkTable {
                links: old(self)@.links.filter(is_not_link(local_path@)),
                ..old(self)@
            }),
    {
        let ghost links = self@.links;
        proof {
            lemma_unlinking(links, is_not_link(local_path@));
        }
        match self.link_position(local_path) {
            None => {
                proof {
                    lemma_nothing_to_unlink(links, local_path@);
                }
            },
            Some(i) => {
                proof {
                    lemma_unlink_at(links, local_path@, i as int);
                }
                self.links.remove(i);
                assert(self@.links =~= links.remove(i as int));
            },
        }
    }

    /// Every link, live or orphaned.
    pub fn list_links(&self) -> (listed: Vec<FolderLink>)
        ensures
            views(listed@) == self@.links.map_values(shown_link()),
    {
        let ghost links = self@.links;
        let mut listed: Vec<FolderLink> = Vec::new();
        let mut i: usize = 0;
        while i < self.links.len()
            invariant
                i <= self.links@.len(),
                links == self@.links,
                views(listed@) == links.take(i as int).map_values(shown_link()),
            decreases self.links@.len() - i,
        {
            assert(links[i as int] == self.links@[i as int]@);
            let ghost so_far = views(listed@);
            let link = FolderLink {
                local_path: self.links[i].local_path.clone(),
                group_id: self.links[i].group_id.clone(),
                paused: self.links[i].paused,
                materialization_policy: self.links[i].materialization_policy,
                max_local_size_bytes: self.links[i].max_local_size_bytes,
                orphaned: self.links[i].orphaned,
            };
            listed.push(link);
            assert(views(listed@) =~= so_far.push(shown_link()(links[i as int])));
            assert(links.take(i + 1).map_values(shown_link()) =~= links.take(i as int).map_values(
                shown_link(),
            ).push(shown_link()(links[i as int])));
            i += 1;
        }
        assert(links.take(links.len() as int) =~= links);
        listed
    }

    /// Sets the policy of a live link, unless the group's durable roots moved
    /// since the digest that was expected was taken; says whether it did. Roots
    /// that do not read fail the call. `current` is the digest of the roots the
    /// group has now.
    pub fn recheck_digest_then_set_materialization_policy(
        &mut self,
        group_id: &str,
        local_path: &str,
        policy: MaterializationPolicy,
        current: &RootDigest,
        expected_digest: [u8; 32],
        index: &FileIndexRepository,
        mask: u32,
    ) -> (result: Result<bool, SyncSqliteError>)
        requires
            paths_are_unique(old(self)@.links),
        ensures
            paths_are_unique(final(self)@.links),
            one_live_link_per_group(old(self)@.links) ==> one_live_link_per_group(
                final(self)@.links,
            ),
            exists|listed: Seq<Version>|
                is_root_listing(listed, index@.files, group_id@) && rechecked_change(
                    #[trigger] rechecked(listed, mask, current@, expected_digest@),
                    link_change(
                        old(self)@.links,
                        local_path@,
                        is_live_link(local_path@),
                        with_policy(policy),
                    ),
                    old(self)@,
                    final(self)@,
                    result,
                ),
    {
        match index.recheck_root_digest(group_id, mask, current, expected_digest) {
            Ok(holds) => {
                if !holds {
                    return Ok(false);
                }
            },
            Err(error) => {
                return Err(error);
            },
        }
        match self.set_materialization_policy(local_path, policy) {
            Ok(()) => Ok(true),
            Err(error) => Err(error),
        }
    }

    /// Unlinks a path, unless the group's durable roots moved since the digest
    /// that was expected was taken; says whether it did. Roots that do not read
    /// fail the call. `current` is the digest of the roots the group has now.
    pub fn recheck_digest_then_remove_link(
        &mut self,
        group_id: &str,
        local_path: &str,
        current: &RootDigest,
        expected_digest: [u8; 32],
        index: &FileIndexRepository,
        mask: u32,
    ) -> (result: Result<bool, SyncSqliteError>)
        requires
            paths_are_unique(old(self)@.links),
        ensures
            paths_are_unique(final(self)@.links),
            one_live_link_per_group(old(self)@.links) ==> one_live_link_per_group(
                final(self)@.links,
            ),
            exists|listed: Seq<Version>|
                is_root_listing(listed, index@.files, group_id@) && rechecked_change(
                    #[trigger] rechecked(listed, mask, current@, expected_digest@),
                    Ok(old(self)@.links.filter(is_not_link(local_path@))),
                    old(self)@,
                    final(self)@,
                    result,
                ),
    {
        match index.recheck_root_digest(group_id, mask, current, expected_digest) {
            Ok(holds) => {
                if !holds {
                    return Ok(false);
                }
            },
            Err(error) => {
                return Err(error);
            },
        }
        self.remove_link(local_path);
        Ok(true)
    }

    /// Puts a live link beside whatever the group has, past every check.
    pub fn force_second_live_link_for_test(&mut self, local_path: &str, group_id: &str) -> (result:
        Result<(), SyncSqliteError>)
        requires
            paths_are_unique(old(self)@.links),
        ensures
            paths_are_unique(final(self)@.links),
            if any(old(self)@.links, is_link(local_path@)) {
                result is Err && result->Err_0@ == Failure::DuplicateKey(
                    "links.local_path "@ + local_path@,
                ) && final(self)@ == old(self)@
            } else {
                result is Ok && final(self)@ == (LinkTable {
                    links: old(self)@.links.push(new_link(local_path@, group_id@)),
                    ..old(self)@
                })
            },
    {
        let ghost links = self@.links;
        match self.link_position(local_path) {
            Some(i) => {
                assert(any(links, is_link(local_path@))) by {
                    assert(is_link(local_path@)(links[i as int]));
                }
                Err(SyncSqliteError::DuplicateKey(join("links.local_path ", local_path)))
            },
            None => {
                self.links.push(
                    LinkRow {
                        local_path: local_path.to_owned(),
                        group_id: group_id.to_owned(),
                        paused: false,
                        materialization_policy: MaterializationPolicy::Eager,
                        max_local_size_bytes: None,
                        orphaned: false,
                        root_token: None,
                        windows_symlink_opt_in: false,
                        suppress_tombstones_until_scan: false,
                    },
                );
                let ghost after = links.push(new_link(local_path@, group_id@));
                assert(self@.links =~= after);
                proof {
                    assert forall|i: int, j: int|
                        #![trigger after[i], after[j]]
                        0 <= i < j < after.len() implies after[i].path != after[j].path by {
                        assert(after[i] == links[i]);
                        if j < links.len() {
                            assert(links[i].path != links[j].path);
                        } else {
                            assert(!is_link(local_path@)(links[i]));
                        }
                    }
                }
                Ok(())
            },
        }
    }
}

/// The row is of that group.
pub open spec fn is_in_group(group: Seq<char>) -> spec_fn(Version) -> bool {
    |row: Version| row.group == group
}

/// A group that is not ambiguous has at most one live link.
proof fn lemma_unambiguous_is_single(links: Seq<Link>, group: Seq<char>)
    requires
        live_paths(links, group).len() <= 1,
    ensures
        at_most_one(links, is_live_for(group)),
{
    let pred = is_live_for(group);
    let selected = links.filter(pred);
    lemma_sorted_is_ordered(selected.map_values(path_of()));
    selected.map_values(path_of()).to_multiset_ensures();
    live_paths(links, group).to_multiset_ensures();
    assert(selected.len() <= 1);
    assert forall|i: int, j: int|
        #![trigger links[i], links[j]]
        0 <= i < links.len() && 0 <= j < links.len() && pred(links[i]) && pred(
            links[j],
        ) implies i == j by {
        if i < j {
            lemma_two_selected(links, pred, i, j);
        } else if j < i {
            lemma_two_selected(links, pred, j, i);
        }
    }
}

/// Two rows that meet a condition make a selection of two.
proof fn lemma_two_selected(links: Seq<Link>, pred: spec_fn(Link) -> bool, i: int, j: int)
    requires
        0 <= i < j < links.len(),
        pred(links[i]),
        pred(links[j]),
    ensures
        links.filter(pred).len() >= 2,
{
    let head = links.take(j);
    let tail = links.skip(j);
    assert(links =~= head + tail);
    Seq::filter_distributes_over_add(head, tail, pred);
    lemma_filter_members(head, pred, links[i]);
    lemma_filter_members(tail, pred, links[j]);
    assert(head[i] == links[i]);
    assert(tail[0] == links[j]);
    assert(head.contains(links[i]));
    assert(tail.contains(links[j]));
    assert(head.filter(pred).contains(links[i]));
    assert(tail.filter(pred).contains(links[j]));
    assert(head.filter(pred).len() > 0);
    assert(tail.filter(pred).len() > 0);
}

/// With no such link, unlinking changes nothing.
proof fn lemma_nothing_to_unlink(links: Seq<Link>, path: Seq<char>)
    requires
        forall|j: int| 0 <= j < links.len() ==> !is_link(path)(#[trigger] links[j]),
    ensures
        links.filter(is_not_link(path)) == links,
    decreases links.len(),
{
    reveal(Seq::filter);
    if links.len() > 0 {
        let shorter = links.drop_last();
        assert forall|j: int| 0 <= j < shorter.len() implies !is_link(path)(
            #[trigger] shorter[j],
        ) by {
            assert(shorter[j] == links[j]);
        }
        lemma_nothing_to_unlink(shorter, path);
        assert(!is_link(path)(links[links.len() - 1]));
        assert(shorter.push(links.last()) =~= links);
    } else {
        assert(links.filter(is_not_link(path)) =~= links);
    }
}

/// Unlinking the one link at a path removes it from its place.
proof fn lemma_unlink_at(links: Seq<Link>, path: Seq<char>, i: int)
    requires
        paths_are_unique(links),
        0 <= i < links.len(),
        links[i].path == path,
    ensures
        links.filter(is_not_link(path)) == links.remove(i),
{
    let pred = is_not_link(path);
    let head = links.take(i);
    let tail = links.skip(i + 1);
    assert(links =~= head.push(links[i]) + tail);
    assert forall|j: int| 0 <= j < head.len() implies !is_link(path)(#[trigger] head[j]) by {
        assert(head[j] == links[j]);
        assert(links[j].path != links[i].path);
    }
    assert forall|j: int| 0 <= j < tail.len() implies !is_link(path)(#[trigger] tail[j]) by {
        assert(tail[j] == links[i + 1 + j]);
        assert(links[i].path != links[i + 1 + j].path);
    }
    Seq::filter_distributes_over_add(head.push(links[i]), tail, pred);
    head.lemma_filter_push(links[i], pred);
    lemma_nothing_to_unlink(head, path);
    lemma_nothing_to_unlink(tail, path);
    assert(head + tail =~= links.remove(i));
}

} // verus!
