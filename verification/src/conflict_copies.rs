//! Conflict copies among the live files.

use vstd::prelude::*;
use vstd::string::StrSliceExecFns;
use vstd::utf8::{
    codepoint_width_1, decode_first_scalar, decode_utf8, encode_utf8, is_continuation_byte,
    is_leading_byte_width_1, leading_byte_width_1,
};

use crate::error::texts;
use crate::file_queries::holds_text;
use crate::file_rows::{FileIndexRepository, Version};
use crate::index_vocabulary::RecordKind;
use crate::rows::{any, lemma_filter_take_next, views};
use crate::pinned_directories::{is_below, lies_below};
use crate::text::{bytes_lt, join, lemma_encoding_of_concat, less_at, str_eq, str_less, text_lt};

verus! {

/// A live conflict copy.
#[derive(Debug, PartialEq, Eq)]
pub struct ConflictCopyFile {
    pub path: String,
    pub size: u64,
    pub mtime_unix_nanos: i64,
    pub record_kind: RecordKind,
}

/// The model of a [`ConflictCopyFile`].
pub struct ConflictCopy {
    pub path: Seq<char>,
    pub size: u64,
    pub mtime: int,
    pub kind: RecordKind,
}

impl View for ConflictCopyFile {
    type V = ConflictCopy;

    open spec fn view(&self) -> ConflictCopy {
        ConflictCopy {
            path: self.path@,
            size: self.size,
            mtime: self.mtime_unix_nanos as int,
            kind: self.record_kind,
        }
    }
}

/// The character is an upper-case ASCII letter.
pub open spec fn is_upper(c: char) -> bool {
    65 <= c as int <= 90
}

/// The characters are the same but for the case of an ASCII letter, which is
/// how the database's patterns compare them.
pub open spec fn same_letter(a: char, b: char) -> bool {
    a == b || (is_upper(a) && a as int + 32 == b as int) || (is_upper(b) && b as int + 32
        == a as int)
}

/// The text holds the other one from position `i` on, ASCII case aside.
pub open spec fn holds_at(text: Seq<char>, part: Seq<char>, i: int) -> bool {
    &&& 0 <= i
    &&& i + part.len() <= text.len()
    &&& forall|j: int| 0 <= j < part.len() ==> same_letter(text[i + j], #[trigger] part[j])
}

/// The text holds the other one somewhere, ASCII case aside.
pub open spec fn holds(text: Seq<char>, part: Seq<char>) -> bool {
    exists|i: int| holds_at(text, part, i)
}

fn is_same_letter(a: char, b: char) -> (same: bool)
    ensures
        same == same_letter(a, b),
{
    let x: u32 = a as u32;
    let y: u32 = b as u32;
    x == y || (65 <= x && x <= 90 && x + 32 == y) || (65 <= y && y <= 90 && y + 32 == x)
}

/// Whether the text holds the other one, ASCII case aside.
fn holds_part(text: &str, part: &str) -> (held: bool)
    ensures
        held == holds(text@, part@),
{
    let n: usize = text.unicode_len();
    let m: usize = part.unicode_len();
    if n < m {
        return false;
    }
    let last: usize = n - m;
    let mut i: usize = 0;
    while i <= last
        invariant
            n == text@.len(),
            m == part@.len(),
            last == n - m,
            i <= last + 1,
            forall|k: int| 0 <= k < i ==> !#[trigger] holds_at(text@, part@, k),
        decreases last + 1 - i,
    {
        let mut j: usize = 0;
        while j < m && is_same_letter(text.get_char(i + j), part.get_char(j))
            invariant
                n == text@.len(),
                m == part@.len(),
                last == n - m,
                i <= last,
                j <= m,
                forall|k: int| 0 <= k < j ==> same_letter(text@[i + k], #[trigger] part@[k]),
            decreases m - j,
        {
            j += 1;
        }
        if j == m {
            assert(holds_at(text@, part@, i as int));
            return true;
        }
        assert(!same_letter(text@[i + j], part@[j as int]));
        assert(!holds_at(text@, part@, i as int));
        if i == last {
            assert forall|k: int| !#[trigger] holds_at(text@, part@, k) by {}
            return false;
        }
        i += 1;
    }
    false
}

/// The row is a live file whose path looks like a conflict copy's, and is
/// recognized as one.
pub open spec fn is_live_copy(group: Seq<char>, recognized: Seq<Seq<char>>) -> spec_fn(
    Version,
) -> bool {
    |row: Version|
        row.group == group && row.state is Current && !row.deleted && holds(
            row.path,
            "(conflicted copy, "@,
        ) && recognized.contains(row.path)
}

/// What a row shows as a conflict copy.
pub open spec fn copy_of() -> spec_fn(Version) -> ConflictCopy {
    |row: Version|
        ConflictCopy { path: row.path, size: row.size, mtime: row.mtime, kind: row.kind }
}

/// The paths strictly below a directory lie between these two texts.
pub open spec fn below_bounds(path: Seq<char>) -> (Seq<char>, Seq<char>) {
    (path + "/"@, path + "0"@)
}

/// The path lies below the directory by more than a slash; every path with a
/// name lies below the root.
pub open spec fn is_strictly_below(path: Seq<char>, directory: Seq<char>) -> bool {
    if directory.len() == 0 {
        path.len() > 0
    } else {
        is_below(path, directory) && path.len() > directory.len() + 1
    }
}

/// The row is a live version strictly below the path.
pub open spec fn is_live_below(group: Seq<char>, path: Seq<char>) -> spec_fn(Version) -> bool {
    |row: Version|
        row.group == group && row.state is Current && !row.deleted && is_strictly_below(
            row.path,
            path,
        )
}

/// The row is a live conflict copy strictly below the path, or anywhere in the
/// group where the path is empty.
pub open spec fn is_copy_below(
    group: Seq<char>,
    path: Seq<char>,
    recognized: Seq<Seq<char>>,
) -> spec_fn(Version) -> bool {
    |row: Version|
        {
            &&& row.group == group
            &&& row.state is Current
            &&& !row.deleted
            &&& path.len() == 0 || (text_lt(below_bounds(path).0, row.path) && text_lt(
                row.path,
                below_bounds(path).1,
            ))
            &&& holds(row.path, " (conflicted copy, "@)
            &&& recognized.contains(row.path)
        }
}

impl FileIndexRepository {
    /// The live conflict copies of a group, in table order. `recognized` lists
    /// the paths whose names are those of conflict copies.
    pub fn list_live_conflict_copies(&self, group_id: &str, recognized: &[String]) -> (copies: Vec<
        ConflictCopyFile,
    >)
        ensures
            views(copies@) == self@.files.filter(
                is_live_copy(group_id@, texts(recognized@)),
            ).map_values(copy_of()),
    {
        let ghost rows = self@.files;
        let ghost pred = is_live_copy(group_id@, texts(recognized@));
        let mut copies: Vec<ConflictCopyFile> = Vec::new();
        let mut i: usize = 0;
        assert(rows.take(0).filter(pred) =~= Seq::empty());
        assert(views(copies@) =~= rows.take(0).filter(pred).map_values(copy_of()));
        while i < self.files.len()
            invariant
                i <= self.files@.len(),
                rows == self@.files,
                pred == is_live_copy(group_id@, texts(recognized@)),
                views(copies@) == rows.take(i as int).filter(pred).map_values(copy_of()),
            decreases self.files@.len() - i,
        {
            assert(rows[i as int] == self.files@[i as int]@);
            proof {
                lemma_filter_take_next(rows, pred, i as int);
            }
            if self.files[i].is_current() && !self.files[i].deleted && str_eq(
                self.files[i].group_id.as_str(),
                group_id,
            ) && holds_part(self.files[i].path.as_str(), "(conflicted copy, ") && holds_text(
                recognized,
                self.files[i].path.as_str(),
            ) {
                let ghost so_far = views(copies@);
                let copy = ConflictCopyFile {
                    path: self.files[i].path.clone(),
                    size: self.files[i].size,
                    mtime_unix_nanos: self.files[i].mtime_unix_nanos,
                    record_kind: self.files[i].record_kind,
                };
                copies.push(copy);
                assert(views(copies@) =~= so_far.push(copy_of()(rows[i as int])));
                assert(views(copies@) =~= rows.take(i + 1).filter(pred).map_values(copy_of()));
            }
            i += 1;
        }
        assert(rows.take(rows.len() as int) =~= rows);
        copies
    }

    /// Whether some live version lies strictly below the path, or anywhere in
    /// the group for the root: whether the path is a directory that holds
    /// something.
    pub fn has_live_descendant_row(&self, group_id: &str, path: &str) -> (has: bool)
        ensures
            has == any(self@.files, is_live_below(group_id@, path@)),
    {
        let ghost rows = self@.files;
        let ghost pred = is_live_below(group_id@, path@);
        let n: usize = path.unicode_len();
        let mut i: usize = 0;
        while i < self.files.len()
            invariant
                i <= self.files@.len(),
                n == path@.len(),
                rows == self@.files,
                pred == is_live_below(group_id@, path@),
                forall|j: int| 0 <= j < i ==> !pred(#[trigger] rows[j]),
            decreases self.files@.len() - i,
        {
            assert(rows[i as int] == self.files@[i as int]@);
            let at: &str = self.files[i].path.as_str();
            if self.files[i].is_current() && !self.files[i].deleted && str_eq(
                self.files[i].group_id.as_str(),
                group_id,
            ) && (if path.is_empty() {
                !at.is_empty()
            } else {
                lies_below(at, path) && at.unicode_len() - n > 1
            }) {
                assert(pred(rows[i as int]));
                return true;
            }
            i += 1;
        }
        false
    }

    /// Whether a live conflict copy lies strictly below the path, or anywhere
    /// in the group for the root. `recognized` lists the paths whose names are
    /// those of conflict copies.
    pub fn has_live_conflict_copy_descendant(
        &self,
        group_id: &str,
        path: &str,
        recognized: &[String],
    ) -> (has: bool)
        ensures
            has == any(self@.files, is_copy_below(group_id@, path@, texts(recognized@))),
    {
        let ghost rows = self@.files;
        let ghost pred = is_copy_below(group_id@, path@, texts(recognized@));
        let lower: String = join(path, "/");
        let upper: String = join(path, "0");
        let mut i: usize = 0;
        while i < self.files.len()
            invariant
                i <= self.files@.len(),
                rows == self@.files,
                pred == is_copy_below(group_id@, path@, texts(recognized@)),
                lower@ == below_bounds(path@).0,
                upper@ == below_bounds(path@).1,
                forall|j: int| 0 <= j < i ==> !pred(#[trigger] rows[j]),
            decreases self.files@.len() - i,
        {
            assert(rows[i as int] == self.files@[i as int]@);
            if self.files[i].is_current() && !self.files[i].deleted && str_eq(
                self.files[i].group_id.as_str(),
                group_id,
            ) && (path.is_empty() || (str_less(lower.as_str(), self.files[i].path.as_str())
                && str_less(self.files[i].path.as_str(), upper.as_str()))) && holds_part(self.files[i].path.as_str(), " (conflicted copy, ") && holds_text(
                recognized,
                self.files[i].path.as_str(),
            ) {
                assert(pred(rows[i as int]));
                return true;
            }
            i += 1;
        }
        false
    }
}

/// A directory with a live conflict copy below it holds a live version.
pub proof fn law_a_conflict_copy_below_is_a_live_descendant(
    rows: Seq<Version>,
    group: Seq<char>,
    path: Seq<char>,
    recognized: Seq<Seq<char>>,
)
    ensures
        any(rows, is_copy_below(group, path, recognized)) ==> any(rows, is_live_below(group, path)),
{
    let copy = is_copy_below(group, path, recognized);
    if any(rows, copy) {
        let i = choose|i: int| #![trigger rows[i]] 0 <= i < rows.len() && copy(rows[i]);
        if path.len() > 0 {
            law_bounds_enclose_exactly_the_descendants(path, rows[i].path);
        } else {
            reveal_strlit(" (conflicted copy, ");
        }
        assert(is_live_below(group, path)(rows[i]));
    }
}

/// The texts between the two bounds of a directory are exactly the paths
/// strictly below it.
pub proof fn law_bounds_enclose_exactly_the_descendants(path: Seq<char>, candidate: Seq<char>)
    requires
        path.len() > 0,
    ensures
        text_lt(below_bounds(path).0, candidate) && text_lt(candidate, below_bounds(path).1) <==>
            is_below(candidate, path) && candidate.len() > path.len() + 1,
{
    let bytes = encode_utf8(path);
    let all = encode_utf8(candidate);
    let n = bytes.len() as int;
    let lower = path + "/"@;
    let upper = path + "0"@;
    lemma_encoding_of_concat(path, "/"@);
    lemma_encoding_of_concat(path, "0"@);
    lemma_encoding_of_bounds();
    assert(encode_utf8(lower) == bytes + seq![47u8]);
    assert(encode_utf8(upper) == bytes + seq![48u8]);
    if text_lt(lower, candidate) && text_lt(candidate, upper) {
        lemma_between_bounds(bytes, all);
        assert(all.take(n + 1) == bytes.push(47u8));
        vstd::utf8::encode_utf8_valid_utf8(candidate);
        assert(all.take(n + 1)[n] == all[n]);
        assert(!is_continuation_byte(all[n])) by {
            assert(all[n] == 47u8);
            assert(!(0x80u8 <= 47u8 <= 0xbfu8));
        }
        vstd::utf8::is_char_boundary_iff_not_is_continuation_byte(all, n);
        vstd::utf8::decode_utf8_split(all, n);
        vstd::utf8::valid_utf8_split(all, n);
        let head = all.subrange(0, n);
        let tail = all.subrange(n, all.len() as int);
        assert(head =~= bytes) by {
            assert forall|i: int| 0 <= i < n implies head[i] == bytes[i] by {
                assert(all.take(n + 1)[i] == bytes.push(47u8)[i]);
            }
        }
        vstd::utf8::encode_utf8_decode_utf8(path);
        vstd::utf8::encode_utf8_decode_utf8(candidate);
        let rest = decode_utf8(tail);
        assert(candidate == path + rest);
        vstd::utf8::decode_utf8_encode_utf8(tail);
        assert(tail[0] == 47u8);
        lemma_leading_slash(rest);
        assert(rest[0] == '/');
        assert(candidate.take(path.len() as int + 1) =~= path.push('/'));
        if rest.len() == 1 {
            reveal_strlit("/");
            assert(rest =~= "/"@);
            assert(all =~= bytes + seq![47u8]);
            crate::text::lemma_bytes_lt_irreflexive(all);
        }
    }
    if is_below(candidate, path) && candidate.len() > path.len() + 1 {
        let rest = candidate.skip(path.len() as int + 1);
        assert(candidate =~= lower + rest) by {
            reveal_strlit("/");
            assert("/"@ =~= seq!['/']);
            assert(path.push('/') =~= lower);
            assert forall|i: int| 0 <= i < candidate.len() implies candidate[i] == (lower + rest)[i]
                by {
                if i < lower.len() {
                    assert(candidate.take(path.len() as int + 1)[i] == lower[i]);
                }
            }
        }
        lemma_encoding_of_concat(lower, rest);
        let more = encode_utf8(rest);
        vstd::utf8::encode_utf8_first_scalar(rest);
        assert(more.len() > 0);
        assert(all == bytes + seq![47u8] + more);
        assert(less_at(bytes + seq![47u8], all, n + 1));
        assert(less_at(all, bytes + seq![48u8], n));
    }
}

/// The encodings of the two characters that close the bounds.
proof fn lemma_encoding_of_bounds()
    ensures
        encode_utf8("/"@) == seq![47u8],
        encode_utf8("0"@) == seq![48u8],
{
    reveal_strlit("/");
    reveal_strlit("0");
    reveal_with_fuel(encode_utf8, 2);
    assert("/"@.drop_first() =~= Seq::empty());
    assert("0"@.drop_first() =~= Seq::empty());
    assert(leading_byte_width_1(47u32) == 47u8) by (bit_vector);
    assert(leading_byte_width_1(48u32) == 48u8) by (bit_vector);
    assert(encode_utf8("/"@) =~= seq![47u8]);
    assert(encode_utf8("0"@) =~= seq![48u8]);
}

/// Bytes between `bytes` with a slash and `bytes` with the next byte start with
/// `bytes` and a slash.
proof fn lemma_between_bounds(bytes: Seq<u8>, all: Seq<u8>)
    requires
        bytes_lt(bytes + seq![47u8], all),
        bytes_lt(all, bytes + seq![48u8]),
    ensures
        all.len() > bytes.len(),
        all.take(bytes.len() as int + 1) == bytes.push(47u8),
{
    let lower = bytes + seq![47u8];
    let upper = bytes + seq![48u8];
    let n = bytes.len() as int;
    let k = choose|k: int| less_at(lower, all, k);
    let l = choose|l: int| less_at(all, upper, l);
    assert(lower[n] == 47u8 && upper[n] == 48u8);
    if l < n {
        assert(upper[l] == bytes[l] && lower[l] == bytes[l]);
        if k > l {
            assert(lower[l] == all[l]);
        } else if k < l {
            assert(all[k] == upper[k]);
            assert(upper[k] == bytes[k] && lower[k] == bytes[k]);
        }
        assert(false);
    }
    assert(l == n);
    assert forall|i: int| 0 <= i < n implies all[i] == bytes[i] by {
        assert(all[i] == upper[i]);
    }
    if k < n {
        assert(lower[k] == bytes[k]);
        assert(all[k] == bytes[k]);
    }
    assert(all.len() > n);
    assert(all[n] < 48u8);
    if k == n {
        assert(lower[n] < all[n]);
    } else {
        assert(k == n + 1);
        assert(lower[n] == all[n]);
    }
    assert(all.take(n + 1) =~= bytes.push(47u8));
}

/// A text whose encoding starts with the byte of a slash starts with a slash.
proof fn lemma_leading_slash(text: Seq<char>)
    requires
        encode_utf8(text).len() > 0,
        encode_utf8(text)[0] == 47u8,
    ensures
        text.len() > 0,
        text[0] == '/',
{
    let bytes = encode_utf8(text);
    assert(text.len() > 0);
    vstd::utf8::encode_utf8_first_scalar(text);
    vstd::utf8::encode_utf8_valid_utf8(text);
    vstd::utf8::encode_utf8_decode_utf8(text);
    assert(is_leading_byte_width_1(47u8));
    assert(codepoint_width_1(47u8) == 47u32) by (bit_vector);
    assert(decode_first_scalar(bytes) == 47u32);
    assert(decode_utf8(bytes)[0] == decode_first_scalar(bytes) as char);
}

} // verus!
