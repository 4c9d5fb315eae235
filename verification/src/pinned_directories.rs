//! Pinned directories: a pin covers a whole subtree, and whatever arrives in
//! it later.

use vstd::prelude::*;
use vstd::string::StrSliceExecFns;

use crate::error::texts;
use crate::file_rows::{
    side_tables_are_keyed, FileIndex, FileIndexRepository, Pin, PinnedDirectory, Version,
};
use crate::file_upsert::current;
use crate::index_vocabulary::RecordKind;
use crate::rows::{any, in_order, lemma_filter_map_multiset_next};
use crate::sorted_text::{insert_text, lemma_ordered_is_sorted, sorted_texts, text_order};
use crate::text::str_eq;

verus! {

/// The path lies below the directory: the directory, a slash, and more.
pub open spec fn is_below(path: Seq<char>, directory: Seq<char>) -> bool {
    path.len() > directory.len() && path.take(directory.len() as int + 1) == directory.push('/')
}

/// A pin on the prefix covers the path: the empty prefix covers everything, and
/// any other one the directory itself and what is below it.
pub open spec fn covers(prefix: Seq<char>, path: Seq<char>, is_directory: bool) -> bool {
    prefix.len() == 0 || (path == prefix && is_directory) || is_below(path, prefix)
}

/// The row is a live current version of the path that is no directory.
pub open spec fn is_other_at(group: Seq<char>, path: Seq<char>) -> spec_fn(Version) -> bool {
    |row: Version|
        row.group == group && row.path == path && row.state is Current && !row.deleted && !(
        row.kind is Directory)
}

/// Nothing but a directory lives at the path.
pub open spec fn may_be_directory(rows: Seq<Version>, group: Seq<char>, path: Seq<char>) -> bool {
    !any(rows, is_other_at(group, path))
}

/// Some directory pin covers the path.
pub open spec fn directory_pin_covers(index: FileIndex, group: Seq<char>, path: Seq<char>) -> bool {
    any(
        index.pins,
        |pin: Pin|
            pin.group == group && covers(
                pin.prefix,
                path,
                may_be_directory(index.files, group, path),
            ),
    )
}

/// Whether the path is pinned, by itself or by a directory.
pub open spec fn is_pinned_at(index: FileIndex, group: Seq<char>, path: Seq<char>) -> bool {
    (current(index.files, group, path) matches Some(row) && row.pinned) || directory_pin_covers(
        index,
        group,
        path,
    )
}

/// The pin is on a directory above the path.
pub open spec fn is_pin_above(group: Seq<char>, path: Seq<char>) -> spec_fn(Pin) -> bool {
    |pin: Pin| pin.group == group && pin.prefix != path && covers(pin.prefix, path, false)
}

/// The row is a live file of the group at or below the prefix; everything is
/// below the empty prefix.
pub open spec fn is_live_file_under(group: Seq<char>, prefix: Seq<char>) -> spec_fn(
    Version,
) -> bool {
    |row: Version|
        row.group == group && row.state is Current && !row.deleted && row.kind is File && (
        prefix.len() == 0 || row.path == prefix || is_below(row.path, prefix))
}

/// Whether the path lies below the directory.
pub fn lies_below(path: &str, directory: &str) -> (below: bool)
    ensures
        below == is_below(path@, directory@),
{
    let n: usize = directory.unicode_len();
    if path.unicode_len() <= n {
        return false;
    }
    let mut i: usize = 0;
    while i < n
        invariant
            i <= n,
            n == directory@.len(),
            n < path@.len(),
            forall|j: int| 0 <= j < i ==> path@[j] == directory@[j],
        decreases n - i,
    {
        if path.get_char(i) != directory.get_char(i) {
            assert(path@.take(directory@.len() as int + 1)[i as int] != directory@.push('/')[i as int]);
            return false;
        }
        i += 1;
    }
    let below: bool = path.get_char(n) == '/';
    proof {
        if below {
            assert(path@.take(directory@.len() as int + 1) =~= directory@.push('/'));
        } else {
            assert(path@.take(directory@.len() as int + 1)[n as int] != directory@.push('/')[n as int]);
        }
    }
    below
}

fn pin_covers(prefix: &str, path: &str, is_directory: bool) -> (covered: bool)
    ensures
        covered == covers(prefix@, path@, is_directory),
{
    prefix.is_empty() || (is_directory && str_eq(path, prefix)) || lies_below(path, prefix)
}

/// A pinned directory covers everything below it, whether it was there when
/// the pin was set or arrived later.
pub proof fn law_a_pinned_directory_covers_everything_below_it(
    index: FileIndex,
    group: Seq<char>,
    prefix: Seq<char>,
    path: Seq<char>,
)
    requires
        index.pins.contains(Pin { group, prefix }),
        is_below(path, prefix),
    ensures
        directory_pin_covers(index, group, path),
{
    let i = choose|i: int| 0 <= i < index.pins.len() && index.pins[i] == (Pin { group, prefix });
    assert(index.pins[i].group == group);
}

/// A file that takes a pinned directory's name is not kept by the pin, unless
/// a directory above it is pinned.
pub proof fn law_a_file_that_takes_a_pinned_name_is_not_covered_by_it(
    index: FileIndex,
    group: Seq<char>,
    path: Seq<char>,
)
    requires
        any(index.files, is_other_at(group, path)),
        !any(index.pins, is_pin_above(group, path)),
        path.len() > 0,
    ensures
        !directory_pin_covers(index, group, path),
{
    let pred = |pin: Pin|
        pin.group == group && covers(
            pin.prefix,
            path,
            may_be_directory(index.files, group, path),
        );
    assert forall|i: int| #![trigger index.pins[i]] 0 <= i < index.pins.len() implies !pred(
        index.pins[i],
    ) by {
        assert(!is_pin_above(group, path)(index.pins[i]));
    }
}

/// The directories pinned above a path are prefixes of it, so two of the same
/// length are the same: the deepest one is unique.
pub proof fn law_the_deepest_pin_above_is_unique(path: Seq<char>, a: Seq<char>, b: Seq<char>)
    requires
        covers(a, path, false),
        covers(b, path, false),
        a.len() == b.len(),
    ensures
        a == b,
{
    if a.len() > 0 {
        assert(path.take(a.len() as int + 1) == a.push('/'));
        assert(path.take(b.len() as int + 1) == b.push('/'));
        assert(a =~= a.push('/').take(a.len() as int));
        assert(b =~= b.push('/').take(b.len() as int));
    } else {
        assert(a =~= b);
    }
}

impl FileIndexRepository {
    /// Whether nothing but a directory lives at the path.
    fn is_directory_name(&self, group_id: &str, path: &str) -> (is: bool)
        ensures
            is == may_be_directory(self@.files, group_id@, path@),
    {
        let ghost rows = self@.files;
        let ghost pred = is_other_at(group_id@, path@);
        let mut i: usize = 0;
        while i < self.files.len()
            invariant
                i <= self.files@.len(),
                rows == self@.files,
                pred == is_other_at(group_id@, path@),
                forall|j: int| 0 <= j < i ==> !pred(#[trigger] rows[j]),
            decreases self.files@.len() - i,
        {
            assert(rows[i as int] == self.files@[i as int]@);
            let directory: bool = match self.files[i].record_kind {
                RecordKind::Directory => true,
                _ => false,
            };
            if !directory && !self.files[i].deleted && self.files[i].is_current() && str_eq(
                self.files[i].group_id.as_str(),
                group_id,
            ) && str_eq(self.files[i].path.as_str(), path) {
                assert(pred(rows[i as int]));
                return false;
            }
            i += 1;
        }
        true
    }

    /// Whether a directory pin covers the path.
    pub fn is_directory_pinned(&self, group_id: &str, path: &str) -> (pinned: bool)
        ensures
            pinned == directory_pin_covers(self@, group_id@, path@),
    {
        let directory: bool = self.is_directory_name(group_id, path);
        let ghost pins = self@.pins;
        let ghost pred = |pin: Pin|
            pin.group == group_id@ && covers(
                pin.prefix,
                path@,
                may_be_directory(self@.files, group_id@, path@),
            );
        let mut i: usize = 0;
        while i < self.pinned_directories.len()
            invariant
                i <= self.pinned_directories@.len(),
                pins == self@.pins,
                directory == may_be_directory(self@.files, group_id@, path@),
                pred == (|pin: Pin|
                    pin.group == group_id@ && covers(
                        pin.prefix,
                        path@,
                        may_be_directory(self@.files, group_id@, path@),
                    )),
                forall|j: int| 0 <= j < i ==> !pred(#[trigger] pins[j]),
            decreases self.pinned_directories@.len() - i,
        {
            assert(pins[i as int] == self.pinned_directories@[i as int]@);
            if str_eq(self.pinned_directories[i].group_id.as_str(), group_id) && pin_covers(
                self.pinned_directories[i].prefix.as_str(),
                path,
                directory,
            ) {
                assert(pred(pins[i as int]));
                return true;
            }
            i += 1;
        }
        false
    }

    /// Whether the path is pinned, by itself or by a directory.
    pub fn is_pinned(&self, group_id: &str, path: &str) -> (pinned: bool)
        ensures
            pinned == is_pinned_at(self@, group_id@, path@),
    {
        match self.current_position(group_id, path) {
            Some(i) => {
                assert(self@.files[i as int] == self.files@[i as int]@);
                if self.files[i].pinned {
                    return true;
                }
            },
            None => {},
        }
        self.is_directory_pinned(group_id, path)
    }

    /// Where the pin on the directory stands.
    fn pin_position(&self, group_id: &str, prefix: &str) -> (found: Option<usize>)
        ensures
            match found {
                Some(i) => i < self.pinned_directories@.len() && self@.pins[i as int] == (Pin {
                    group: group_id@,
                    prefix: prefix@,
                }),
                None => !self@.pins.contains(Pin { group: group_id@, prefix: prefix@ }),
            },
    {
        let ghost pins = self@.pins;
        let ghost wanted = Pin { group: group_id@, prefix: prefix@ };
        let mut i: usize = 0;
        while i < self.pinned_directories.len()
            invariant
                i <= self.pinned_directories@.len(),
                pins == self@.pins,
                wanted == (Pin { group: group_id@, prefix: prefix@ }),
                forall|j: int| 0 <= j < i ==> #[trigger] pins[j] != wanted,
            decreases self.pinned_directories@.len() - i,
        {
            assert(pins[i as int] == self.pinned_directories@[i as int]@);
            if str_eq(self.pinned_directories[i].group_id.as_str(), group_id) && str_eq(
                self.pinned_directories[i].prefix.as_str(),
                prefix,
            ) {
                return Some(i);
            }
            i += 1;
        }
        None
    }

    /// Pins a directory or releases it, and says whether that changed anything.
    pub fn set_directory_pinned(&mut self, group_id: &str, prefix: &str, pinned: bool) -> (changed:
        bool)
        requires
            side_tables_are_keyed(old(self)@),
        ensures
            side_tables_are_keyed(final(self)@),
            final(self)@ == (FileIndex {
                pins: pins_set(
                    old(self)@.pins,
                    Pin { group: group_id@, prefix: prefix@ },
                    pinned,
                ),
                ..old(self)@
            }),
            changed == (old(self)@.pins.contains(Pin { group: group_id@, prefix: prefix@ })
                != pinned),
    {
        let ghost before = self@;
        let ghost pins = self@.pins;
        let ghost pin = Pin { group: group_id@, prefix: prefix@ };
        proof {
            lemma_pins_stay_distinct(pins, pin, pinned);
        }
        match self.pin_position(group_id, prefix) {
            None => {
                if pinned {
                    self.pinned_directories.push(
                        PinnedDirectory {
                            group_id: group_id.to_owned(),
                            prefix: prefix.to_owned(),
                        },
                    );
                    assert(self@.pins =~= pins.push(pin));
                    true
                } else {
                    proof {
                        lemma_nothing_to_release(pins, pin);
                    }
                    false
                }
            },
            Some(i) => {
                assert(pins.contains(pin)) by {
                    assert(pins[i as int] == pin);
                }
                if pinned {
                    false
                } else {
                    proof {
                        lemma_release_at(pins, pin, i as int);
                    }
                    self.pinned_directories.remove(i);
                    assert(self@.pins =~= pins.remove(i as int));
                    true
                }
            },
        }
    }

    /// The deepest pinned directory above a path.
    pub fn pinned_directory_above(&self, group_id: &str, path: &str) -> (found: Option<String>)
        ensures
            match found {
                Some(prefix) => {
                    &&& self@.pins.contains(Pin { group: group_id@, prefix: prefix@ })
                    &&& is_pin_above(group_id@, path@)(Pin { group: group_id@, prefix: prefix@ })
                    &&& forall|i: int|
                        #![trigger self@.pins[i]]
                        0 <= i < self@.pins.len() && is_pin_above(group_id@, path@)(self@.pins[i])
                            ==> self@.pins[i].prefix.len() <= prefix@.len()
                },
                None => !any(self@.pins, is_pin_above(group_id@, path@)),
            },
    {
        let ghost pins = self@.pins;
        let ghost pred = is_pin_above(group_id@, path@);
        let mut best: Option<usize> = None;
        let mut i: usize = 0;
        while i < self.pinned_directories.len()
            invariant
                i <= self.pinned_directories@.len(),
                pins == self@.pins,
                pred == is_pin_above(group_id@, path@),
                match best {
                    Some(b) => {
                        &&& b < i
                        &&& pred(pins[b as int])
                        &&& forall|j: int|
                            #![trigger pins[j]]
                            0 <= j < i && pred(pins[j]) ==> pins[j].prefix.len()
                                <= pins[b as int].prefix.len()
                    },
                    None => forall|j: int| #![trigger pins[j]] 0 <= j < i ==> !pred(pins[j]),
                },
            decreases self.pinned_directories@.len() - i,
        {
            assert(pins[i as int] == self.pinned_directories@[i as int]@);
            if str_eq(self.pinned_directories[i].group_id.as_str(), group_id) && !str_eq(
                self.pinned_directories[i].prefix.as_str(),
                path,
            ) && pin_covers(self.pinned_directories[i].prefix.as_str(), path, false) {
                match best {
                    Some(b) => {
                        assert(pins[b as int] == self.pinned_directories@[b as int]@);
                        if self.pinned_directories[i].prefix.as_str().unicode_len()
                            > self.pinned_directories[b].prefix.as_str().unicode_len() {
                            best = Some(i);
                        }
                    },
                    None => {
                        best = Some(i);
                    },
                }
            }
            i += 1;
        }
        match best {
            Some(b) => {
                assert(pins[b as int] == self.pinned_directories@[b as int]@);
                let prefix = self.pinned_directories[b].prefix.clone();
                assert(pins.contains(Pin { group: group_id@, prefix: prefix@ })) by {
                    assert(pins[b as int] == (Pin { group: group_id@, prefix: prefix@ }));
                }
                Some(prefix)
            },
            None => None,
        }
    }

    /// The live files at or below a prefix, in path order.
    pub fn list_live_files_under(&self, group_id: &str, prefix: &str) -> (paths: Vec<String>)
        ensures
            texts(paths@) == sorted_texts(
                self@.files.filter(is_live_file_under(group_id@, prefix@)).map_values(
                    |row: Version| row.path,
                ),
            ),
    {
        let ghost rows = self@.files;
        let ghost pred = is_live_file_under(group_id@, prefix@);
        let ghost f = |row: Version| row.path;
        let mut paths: Vec<String> = Vec::new();
        let mut i: usize = 0;
        assert(rows.take(0).filter(pred) =~= Seq::empty());
        assert(texts(paths@) =~= rows.take(0).filter(pred).map_values(f));
        while i < self.files.len()
            invariant
                i <= self.files@.len(),
                rows == self@.files,
                pred == is_live_file_under(group_id@, prefix@),
                f == (|row: Version| row.path),
                texts(paths@).to_multiset() == rows.take(i as int).filter(pred).map_values(
                    f,
                ).to_multiset(),
                in_order(texts(paths@), text_order()),
            decreases self.files@.len() - i,
        {
            assert(rows[i as int] == self.files@[i as int]@);
            proof {
                lemma_filter_map_multiset_next(rows, pred, f, i as int);
            }
            let is_file: bool = match self.files[i].record_kind {
                RecordKind::File => true,
                _ => false,
            };
            if is_file && !self.files[i].deleted && self.files[i].is_current() && str_eq(
                self.files[i].group_id.as_str(),
                group_id,
            ) && (prefix.is_empty() || str_eq(self.files[i].path.as_str(), prefix) || lies_below(
                self.files[i].path.as_str(),
                prefix,
            )) {
                insert_text(&mut paths, self.files[i].path.clone());
            }
            i += 1;
        }
        assert(rows.take(rows.len() as int) =~= rows);
        proof {
            lemma_ordered_is_sorted(texts(paths@), rows.filter(pred).map_values(f));
        }
        paths
    }
}

/// The pin is another one.
pub open spec fn is_other_pin(pin: Pin) -> spec_fn(Pin) -> bool {
    |other: Pin| other != pin
}

/// The pins with one set or released.
pub open spec fn pins_set(pins: Seq<Pin>, pin: Pin, pinned: bool) -> Seq<Pin> {
    if pinned {
        if pins.contains(pin) {
            pins
        } else {
            pins.push(pin)
        }
    } else {
        pins.filter(is_other_pin(pin))
    }
}

/// Releasing a pin undoes setting it.
pub proof fn law_releasing_a_pin_undoes_setting_it(pins: Seq<Pin>, pin: Pin)
    requires
        !pins.contains(pin),
    ensures
        pins_set(pins_set(pins, pin, true), pin, false) == pins,
{
    lemma_nothing_to_release(pins, pin);
    pins.lemma_filter_push(pin, is_other_pin(pin));
}

/// With no such pin, releasing it changes nothing.
proof fn lemma_nothing_to_release(pins: Seq<Pin>, pin: Pin)
    requires
        !pins.contains(pin),
    ensures
        pins.filter(is_other_pin(pin)) == pins,
    decreases pins.len(),
{
    reveal(Seq::filter);
    if pins.len() > 0 {
        let shorter = pins.drop_last();
        assert(!shorter.contains(pin)) by {
            if shorter.contains(pin) {
                let k = choose|k: int| 0 <= k < shorter.len() && shorter[k] == pin;
                assert(pins[k] == pin);
            }
        }
        lemma_nothing_to_release(shorter, pin);
        assert(pins[pins.len() - 1] == pins.last());
        assert(pins.last() != pin);
        assert(shorter.push(pins.last()) =~= pins);
    } else {
        assert(pins.filter(is_other_pin(pin)) =~= pins);
    }
}

/// Releasing the one pin removes it from its place.
proof fn lemma_release_at(pins: Seq<Pin>, pin: Pin, i: int)
    requires
        0 <= i < pins.len(),
        pins[i] == pin,
        forall|a: int, b: int|
            #![trigger pins[a], pins[b]]
            0 <= a < b < pins.len() ==> pins[a] != pins[b],
    ensures
        pins.filter(is_other_pin(pin)) == pins.remove(i),
{
    let pred = is_other_pin(pin);
    let head = pins.take(i);
    let tail = pins.skip(i + 1);
    assert(pins =~= head.push(pin) + tail);
    assert(!head.contains(pin)) by {
        if head.contains(pin) {
            let k = choose|k: int| 0 <= k < head.len() && head[k] == pin;
            assert(pins[k] != pins[i]);
        }
    }
    assert(!tail.contains(pin)) by {
        if tail.contains(pin) {
            let k = choose|k: int| 0 <= k < tail.len() && tail[k] == pin;
            assert(tail[k] == pins[i + 1 + k]);
            assert(pins[i] != pins[i + 1 + k]);
        }
    }
    Seq::filter_distributes_over_add(head.push(pin), tail, pred);
    head.lemma_filter_push(pin, pred);
    lemma_nothing_to_release(head, pin);
    lemma_nothing_to_release(tail, pin);
    assert(head + tail =~= pins.remove(i));
}

/// Setting or releasing a pin keeps each pinned once.
proof fn lemma_pins_stay_distinct(pins: Seq<Pin>, pin: Pin, pinned: bool)
    requires
        forall|a: int, b: int|
            #![trigger pins[a], pins[b]]
            0 <= a < b < pins.len() ==> pins[a] != pins[b],
    ensures
        forall|a: int, b: int|
            #![trigger pins_set(pins, pin, pinned)[a], pins_set(pins, pin, pinned)[b]]
            0 <= a < b < pins_set(pins, pin, pinned).len() ==> pins_set(pins, pin, pinned)[a]
                != pins_set(pins, pin, pinned)[b],
{
    let after = pins_set(pins, pin, pinned);
    if pinned {
        if !pins.contains(pin) {
            assert forall|a: int, b: int| #![trigger after[a], after[b]] 0 <= a < b
                < after.len() implies after[a] != after[b] by {
                assert(after[a] == pins[a]);
                if b < pins.len() {
                    assert(after[b] == pins[b]);
                }
            }
        }
    } else if pins.contains(pin) {
        let i = choose|i: int| 0 <= i < pins.len() && pins[i] == pin;
        lemma_release_at(pins, pin, i);
        assert forall|a: int, b: int| #![trigger after[a], after[b]] 0 <= a < b
            < after.len() implies after[a] != after[b] by {
            let x = if a < i {
                a
            } else {
                a + 1
            };
            let y = if b < i {
                b
            } else {
                b + 1
            };
            assert(after[a] == pins[x] && after[b] == pins[y]);
        }
    } else {
        lemma_nothing_to_release(pins, pin);
    }
}

} // verus!
