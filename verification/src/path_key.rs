//! Range keys for paths: a path's key and the end of its subtree bound exactly
//! the keys of the path itself and of everything below it.

use vstd::prelude::*;
use vstd::utf8::encode_utf8;

use crate::error::{Failure, SyncSqliteError};
use crate::rows::{first_where, lemma_first_where_at, lemma_first_where_none, views};
use crate::text::{
    bytes_le, bytes_less, bytes_lt, join3, lemma_bytes_lt_total, lemma_bytes_lt_transitive, less_at,
    quoted, quoted_text,
};

verus! {

/// `/` and `\` both separate segments.
pub open spec fn is_separator(byte: u8) -> bool {
    byte == 0x2f || byte == 0x5c
}

/// The segments of a path: a separator starts a new one, any other byte
/// extends the last.
pub open spec fn split(path: Seq<u8>) -> Seq<Seq<u8>>
    decreases path.len(),
{
    if path.len() == 0 {
        seq![Seq::<u8>::empty()]
    } else {
        let before = split(path.drop_last());
        if is_separator(path.last()) {
            before.push(Seq::<u8>::empty())
        } else {
            before.update(before.len() - 1, before.last().push(path.last()))
        }
    }
}

/// A segment that names nothing of its own: empty, `.` or `..`.
pub open spec fn is_unnormalized(segment: Seq<u8>) -> bool {
    segment.len() == 0 || segment == seq![0x2eu8] || segment == seq![0x2eu8, 0x2eu8]
}

/// The segments a reservation path is keyed by, or why it has no key.
pub open spec fn reservation_segments(path: Seq<char>) -> Result<Seq<Seq<u8>>, Failure> {
    let bytes = encode_utf8(path);
    if bytes.contains(0) {
        Err(
            Failure::InvalidInput(
                "path "@ + quoted(path)
                    + " contains a NUL byte, which the reservation range encoding reserves as a segment terminator"@,
            ),
        )
    } else if bytes.len() == 0 {
        Ok(Seq::empty())
    } else if is_separator(bytes[0]) {
        Err(
            Failure::InvalidInput(
                "path "@ + quoted(path) + " must be relative to the sync root, not absolute"@,
            ),
        )
    } else {
        match first_where(split(bytes), |segment: Seq<u8>| is_unnormalized(segment)) {
            Some(segment) => if segment.len() == 0 {
                Err(
                    Failure::InvalidInput(
                        "path "@ + quoted(path)
                            + " contains an empty segment (a leading, trailing, or doubled separator)"@,
                    ),
                )
            } else {
                Err(
                    Failure::InvalidInput(
                        "path "@ + quoted(path) + " contains a '.' or '..' segment"@,
                    ),
                )
            },
            None => Ok(split(bytes)),
        }
    }
}

/// Each segment followed by a zero byte.
pub open spec fn terminated(segments: Seq<Seq<u8>>) -> Seq<u8>
    decreases segments.len(),
{
    if segments.len() == 0 {
        Seq::empty()
    } else {
        terminated(segments.drop_last()) + segments.last().push(0)
    }
}

/// The key of a path, or why it has none.
pub open spec fn key_of(path: Seq<char>) -> Result<Seq<u8>, Failure> {
    match reservation_segments(path) {
        Ok(segments) => Ok(terminated(segments)),
        Err(failure) => Err(failure),
    }
}

/// The first key past a subtree.
pub open spec fn end_of(key: Seq<u8>) -> Seq<u8> {
    if key.len() == 0 {
        seq![0xffu8]
    } else {
        key.update(key.len() - 1, 1)
    }
}

/// Two half-open key ranges share a key.
pub open spec fn overlapping(
    a_start: Seq<u8>,
    a_end: Seq<u8>,
    b_start: Seq<u8>,
    b_end: Seq<u8>,
) -> bool {
    bytes_lt(a_start, b_end) && bytes_lt(b_start, a_end)
}

/// `key` lies in the half-open range.
pub open spec fn in_range(key: Seq<u8>, start: Seq<u8>, end: Seq<u8>) -> bool {
    bytes_le(start, key) && bytes_lt(key, end)
}

/// `path` is `ancestor` itself or lies below it.
pub open spec fn at_or_below(path: Seq<Seq<u8>>, ancestor: Seq<Seq<u8>>) -> bool {
    ancestor.len() <= path.len() && path.take(ancestor.len() as int) == ancestor
}

/// Splits a path into the segments its key is made of.
pub fn normalized_reservation_segments(path: &str) -> (result: Result<
    Vec<Vec<u8>>,
    SyncSqliteError,
>)
    ensures
        match result {
            Ok(segments) => reservation_segments(path@) == Ok::<_, Failure>(views(segments@)),
            Err(error) => reservation_segments(path@) == Err::<Seq<Seq<u8>>, _>(error@),
        },
{
    let bytes = path.as_bytes();
    let ghost encoded = encode_utf8(path@);
    let mut i: usize = 0;
    while i < bytes.len()
        invariant
            bytes@ == encoded,
            i <= bytes@.len(),
            forall|j: int| 0 <= j < i ==> bytes@[j] != 0,
            encoded == encode_utf8(path@),
        decreases bytes@.len() - i,
    {
        if bytes[i] == 0 {
            assert(encoded.contains(0)) by {
                assert(encoded[i as int] == 0);
            }
            return Err(
                SyncSqliteError::InvalidInput(
                    join3(
                        "path ",
                        quoted_text(path).as_str(),
                        " contains a NUL byte, which the reservation range encoding reserves as a segment terminator",
                    ),
                ),
            );
        }
        i += 1;
    }
    let mut segments: Vec<Vec<u8>> = Vec::new();
    if bytes.len() == 0 {
        assert(views(segments@) =~= Seq::<Seq<u8>>::empty());
        return Ok(segments);
    }
    if bytes[0] == 0x2f || bytes[0] == 0x5c {
        return Err(
            SyncSqliteError::InvalidInput(
                join3(
                    "path ",
                    quoted_text(path).as_str(),
                    " must be relative to the sync root, not absolute",
                ),
            ),
        );
    }
    let mut segment: Vec<u8> = Vec::new();
    let mut i: usize = 0;
    assert(views(segments@).push(segment@) =~= split(bytes@.take(0)));
    while i < bytes.len()
        invariant
            i <= bytes@.len(),
            views(segments@).push(segment@) == split(bytes@.take(i as int)),
        decreases bytes@.len() - i,
    {
        let byte = bytes[i];
        let ghost before = views(segments@);
        let ghost last = segment@;
        proof {
            assert(bytes@.take(i + 1).drop_last() =~= bytes@.take(i as int));
            assert(bytes@.take(i + 1).last() == byte);
        }
        if byte == 0x2f || byte == 0x5c {
            segments.push(segment);
            segment = Vec::new();
            assert(views(segments@) =~= before.push(last));
        } else {
            segment.push(byte);
            assert(before.push(segment@) =~= before.push(last).update(
                before.len() as int,
                last.push(byte),
            ));
        }
        i += 1;
    }
    let ghost before = views(segments@);
    let ghost last = segment@;
    segments.push(segment);
    proof {
        assert(views(segments@) =~= before.push(last));
        assert(bytes@.take(bytes@.len() as int) =~= bytes@);
    }
    let ghost all = views(segments@);
    let ghost bad = |segment: Seq<u8>| is_unnormalized(segment);
    let mut i: usize = 0;
    while i < segments.len()
        invariant
            i <= segments@.len(),
            all == views(segments@),
            all == split(encoded),
            bad == (|segment: Seq<u8>| is_unnormalized(segment)),
            encoded == encode_utf8(path@),
            forall|j: int| 0 <= j < i ==> !bad(#[trigger] all[j]),
            !encoded.contains(0),
            encoded.len() > 0,
            !is_separator(encoded[0]),
        decreases segments@.len() - i,
    {
        assert(all[i as int] == segments@[i as int]@);
        let segment = &segments[i];
        if segment.len() == 0 {
            proof {
                lemma_first_where_at(all, bad, i as int);
            }
            return Err(
                SyncSqliteError::InvalidInput(
                    join3(
                        "path ",
                        quoted_text(path).as_str(),
                        " contains an empty segment (a leading, trailing, or doubled separator)",
                    ),
                ),
            );
        }
        if (segment.len() == 1 && segment[0] == 0x2e) || (segment.len() == 2 && segment[0] == 0x2e
            && segment[1] == 0x2e) {
            proof {
                assert(segment@ =~= seq![0x2eu8] || segment@ =~= seq![0x2eu8, 0x2eu8]);
                lemma_first_where_at(all, bad, i as int);
            }
            return Err(
                SyncSqliteError::InvalidInput(
                    join3("path ", quoted_text(path).as_str(), " contains a '.' or '..' segment"),
                ),
            );
        }
        i += 1;
    }
    proof {
        lemma_first_where_none(all, bad);
    }
    Ok(segments)
}

/// The key a reservation on `path` is stored and compared by.
pub fn path_key(path: &str) -> (result: Result<Vec<u8>, SyncSqliteError>)
    ensures
        match result {
            Ok(key) => key_of(path@) == Ok::<_, Failure>(key@),
            Err(error) => key_of(path@) == Err::<Seq<u8>, _>(error@),
        },
{
    let segments = match normalized_reservation_segments(path) {
        Ok(segments) => segments,
        Err(error) => {
            return Err(error);
        },
    };
    let ghost all = views(segments@);
    let mut key: Vec<u8> = Vec::new();
    let mut i: usize = 0;
    assert(terminated(all.take(0)) =~= Seq::<u8>::empty());
    while i < segments.len()
        invariant
            i <= segments@.len(),
            all == views(segments@),
            key@ == terminated(all.take(i as int)),
        decreases segments@.len() - i,
    {
        let ghost so_far = key@;
        let ghost segment = segments@[i as int]@;
        key.extend_from_slice(segments[i].as_slice());
        key.push(0);
        proof {
            assert(all[i as int] == segment);
            assert(all.take(i + 1).drop_last() =~= all.take(i as int));
            assert(all.take(i + 1).last() == segment);
            assert(key@ =~= so_far + segment.push(0));
        }
        i += 1;
    }
    assert(all.take(all.len() as int) =~= all);
    Ok(key)
}

/// The end of the key range a subtree occupies.
pub fn subtree_end_key(path_key: &[u8]) -> (end: Vec<u8>)
    ensures
        end@ == end_of(path_key@),
{
    if path_key.len() == 0 {
        let mut end: Vec<u8> = Vec::new();
        end.push(0xff);
        assert(end@ =~= seq![0xffu8]);
        return end;
    }
    let mut end = vstd::slice::slice_to_vec(path_key);
    let last: usize = end.len() - 1;
    end.set(last, 1);
    end
}

/// Whether two half-open key ranges overlap.
pub fn ranges_overlap(a_start: &[u8], a_end: &[u8], b_start: &[u8], b_end: &[u8]) -> (overlap: bool)
    ensures
        overlap == overlapping(a_start@, a_end@, b_start@, b_end@),
{
    bytes_less(a_start, b_end) && bytes_less(b_start, a_end)
}

/// What every keyed path's segments are like: none is empty, none holds the
/// terminator.
pub open spec fn is_keyed(segments: Seq<Seq<u8>>) -> bool {
    &&& forall|i: int|
        #![trigger segments[i]]
        0 <= i < segments.len() ==> segments[i].len() > 0 && !segments[i].contains(0)
    &&& segments.len() > 0 ==> segments[0][0] < 0xff
}

proof fn lemma_split_keeps_bytes(path: Seq<u8>)
    requires
        !path.contains(0),
    ensures
        split(path).len() > 0,
        forall|i: int| 0 <= i < split(path).len() ==> !(#[trigger] split(path)[i]).contains(0),
        path.len() > 0 && !is_separator(path[0]) ==> split(path)[0].len() > 0 && split(path)[0][0]
            == path[0],
    decreases path.len(),
{
    if path.len() > 0 {
        let shorter = path.drop_last();
        assert(!shorter.contains(0)) by {
            if shorter.contains(0) {
                let i = choose|i: int| 0 <= i < shorter.len() && shorter[i] == 0;
                assert(path[i] == 0);
            }
        }
        lemma_split_keeps_bytes(shorter);
        let before = split(shorter);
        let all = split(path);
        assert(path[path.len() - 1] != 0);
        assert forall|i: int| 0 <= i < all.len() implies !(#[trigger] all[i]).contains(0) by {
            if !is_separator(path.last()) && i == before.len() - 1 {
                let grown = before.last().push(path.last());
                if grown.contains(0) {
                    let k = choose|k: int| 0 <= k < grown.len() && grown[k] == 0;
                    assert(before.last()[k] == 0);
                    assert(before[before.len() - 1].contains(0));
                }
            } else if i < before.len() {
                assert(all[i] == before[i]);
            }
        }
        if shorter.len() == 0 {
            assert(before =~= seq![Seq::<u8>::empty()]);
        } else {
            assert(shorter[0] == path[0]);
        }
    }
}

/// The segments of every keyed path are [`is_keyed`].
pub proof fn lemma_reservation_segments_are_keyed(path: Seq<char>)
    requires
        reservation_segments(path) is Ok,
    ensures
        is_keyed(reservation_segments(path)->Ok_0),
{
    let bytes = encode_utf8(path);
    if bytes.len() > 0 {
        let bad = |segment: Seq<u8>| is_unnormalized(segment);
        let all = split(bytes);
        lemma_split_keeps_bytes(bytes);
        crate::rows::lemma_first_where(all, bad);
        assert forall|i: int| #![trigger all[i]] 0 <= i < all.len() implies all[i].len() > 0 by {
            if all[i].len() == 0 {
                assert(bad(all[i]));
            }
        }
        vstd::utf8::encode_utf8_valid_utf8(path);
        assert(bytes[0] < 0xff);
    }
}

proof fn lemma_terminated_concat(a: Seq<Seq<u8>>, b: Seq<Seq<u8>>)
    ensures
        terminated(a + b) == terminated(a) + terminated(b),
    decreases b.len(),
{
    if b.len() == 0 {
        assert(a + b =~= a);
        assert(terminated(a) + terminated(b) =~= terminated(a));
    } else {
        lemma_terminated_concat(a, b.drop_last());
        assert((a + b).drop_last() =~= a + b.drop_last());
        assert((a + b).last() == b.last());
        assert(terminated(a + b) =~= terminated(a) + terminated(b));
    }
}

proof fn lemma_terminated_head(segments: Seq<Seq<u8>>)
    requires
        segments.len() > 0,
    ensures
        terminated(segments) == segments[0].push(0) + terminated(segments.skip(1)),
{
    let head = seq![segments[0]];
    assert(segments =~= head + segments.skip(1));
    lemma_terminated_concat(head, segments.skip(1));
    assert(head.drop_last() =~= Seq::<Seq<u8>>::empty());
    assert(terminated(head) =~= segments[0].push(0)) by {
        reveal_with_fuel(terminated, 2);
    }
}

proof fn lemma_terminated_ends_in_zero(segments: Seq<Seq<u8>>)
    requires
        segments.len() > 0,
    ensures
        terminated(segments).len() > 0,
        terminated(segments).last() == 0,
{
}

/// `a` begins with `b`.
pub open spec fn begins_with(a: Seq<u8>, b: Seq<u8>) -> bool {
    b.len() <= a.len() && a.take(b.len() as int) == b
}

proof fn lemma_prefix_of_keys(path: Seq<Seq<u8>>, ancestor: Seq<Seq<u8>>)
    requires
        forall|i: int| #![trigger path[i]] 0 <= i < path.len() ==> !path[i].contains(0),
        forall|i: int| #![trigger ancestor[i]] 0 <= i < ancestor.len() ==> !ancestor[i].contains(0),
    ensures
        begins_with(terminated(path), terminated(ancestor)) <==> at_or_below(path, ancestor),
    decreases ancestor.len(),
{
    let long = terminated(path);
    let short = terminated(ancestor);
    if ancestor.len() == 0 {
        assert(long.take(0) =~= short);
        assert(path.take(0) =~= ancestor);
    } else if path.len() == 0 {
        lemma_terminated_ends_in_zero(ancestor);
    } else {
        lemma_terminated_head(path);
        lemma_terminated_head(ancestor);
        let p = path[0];
        let a = ancestor[0];
        let path_rest = path.skip(1);
        let ancestor_rest = ancestor.skip(1);
        assert forall|i: int| #![trigger path_rest[i]] 0 <= i < path_rest.len() implies !path_rest[i].contains(
            0,
        ) by {
            assert(path_rest[i] == path[i + 1]);
        }
        assert forall|i: int| #![trigger ancestor_rest[i]] 0 <= i < ancestor_rest.len() implies !ancestor_rest[i].contains(
            0,
        ) by {
            assert(ancestor_rest[i] == ancestor[i + 1]);
        }
        lemma_prefix_of_keys(path_rest, ancestor_rest);
        let long_rest = terminated(path_rest);
        let short_rest = terminated(ancestor_rest);
        assert(path[0] == p && ancestor[0] == a);
        if begins_with(long, short) {
            assert(forall|i: int| 0 <= i < short.len() ==> long[i] == long.take(short.len() as int)[i]);
            // The first terminator stands at the end of the first segment in both.
            assert(short[a.len() as int] == 0);
            assert(long[p.len() as int] == 0);
            if p.len() < a.len() {
                assert(long[p.len() as int] == short[p.len() as int]);
                assert(short[p.len() as int] == a[p.len() as int]);
                assert(a.contains(0));
            }
            if a.len() < p.len() {
                assert(long[a.len() as int] == short[a.len() as int]);
                assert(long[a.len() as int] == p[a.len() as int]);
                assert(p.contains(0));
            }
            assert(p.len() == a.len());
            assert forall|i: int| 0 <= i < p.len() implies p[i] == a[i] by {
                assert(long[i] == p[i]);
                assert(short[i] == a[i]);
            }
            assert(p =~= a);
            assert forall|i: int| 0 <= i < short_rest.len() implies long_rest[i] == short_rest[i] by {
                assert(short[i + p.len() + 1] == short_rest[i]);
                assert(long[i + p.len() + 1] == long_rest[i]);
            }
            assert(long_rest.take(short_rest.len() as int) =~= short_rest);
            assert(at_or_below(path_rest, ancestor_rest));
            assert forall|i: int| 0 <= i < ancestor.len() implies path[i] == ancestor[i] by {
                if i > 0 {
                    assert(path_rest.take(ancestor_rest.len() as int)[i - 1] == ancestor_rest[i - 1]);
                }
            }
            assert(path.take(ancestor.len() as int) =~= ancestor);
        }
        if at_or_below(path, ancestor) {
            assert(path.take(ancestor.len() as int)[0] == ancestor[0]);
            assert forall|i: int| 0 <= i < ancestor_rest.len() implies path_rest[i] == ancestor_rest[i] by {
                assert(path.take(ancestor.len() as int)[i + 1] == ancestor[i + 1]);
            }
            assert(path_rest.take(ancestor_rest.len() as int) =~= ancestor_rest);
            assert(begins_with(long_rest, short_rest));
            assert forall|i: int| 0 <= i < short.len() implies long[i] == short[i] by {
                if i > a.len() {
                    let j = i - a.len() - 1;
                    assert(short[i] == short_rest[j]);
                    assert(long[i] == long_rest[j]);
                    assert(long_rest.take(short_rest.len() as int)[j] == short_rest[j]);
                }
            }
            assert(long.take(short.len() as int) =~= short);
        }
    }
}

/// The range of a key that ends in a terminator holds exactly the byte strings
/// that begin with it.
proof fn lemma_range_is_prefix(key: Seq<u8>, other: Seq<u8>)
    requires
        key.len() > 0,
        key.last() == 0,
    ensures
        in_range(other, key, end_of(key)) <==> begins_with(other, key),
{
    let end = end_of(key);
    let m = key.len() - 1;
    if in_range(other, key, end) {
        let k = choose|k: int| less_at(other, end, k);
        if other == key {
            assert(other.take(key.len() as int) =~= key);
        } else {
            let l = choose|l: int| less_at(key, other, l);
            if l < m {
                assert(key[l] < other[l]);
                if k <= l {
                    assert(end[k] == key[k]);
                    if k < l {
                        assert(key[k] == other[k]);
                    }
                    assert(false);
                } else {
                    assert(other[l] == end[l]);
                    assert(false);
                }
            }
            assert(l >= m);
            if k < m {
                assert(end[k] == key[k]);
                assert(key[k] == other[k]);
                assert(false);
            }
            assert(k >= m);
            if l == m {
                assert(other[m] > 0);
                if k > m {
                    assert(other[m] == end[m]);
                    assert(k < end.len());
                }
                assert(false);
            }
            assert(l == key.len());
            assert(other.take(key.len() as int) =~= key);
        }
    }
    if begins_with(other, key) {
        assert(forall|i: int| 0 <= i < key.len() ==> other.take(key.len() as int)[i] == other[i]);
        assert(less_at(other, end, m));
        if other.len() > key.len() {
            assert(less_at(key, other, key.len() as int));
        } else {
            assert(other =~= key);
        }
    }
}

/// A path's key range holds the key of another path exactly when that path is
/// the path itself or lies below it: no descendant is missed, and no sibling
/// that merely shares a string prefix is caught.
pub proof fn law_key_range_is_the_subtree(ancestor: Seq<char>, path: Seq<char>)
    requires
        reservation_segments(ancestor) is Ok,
        reservation_segments(path) is Ok,
    ensures
        in_range(
            key_of(path)->Ok_0,
            key_of(ancestor)->Ok_0,
            end_of(key_of(ancestor)->Ok_0),
        ) <==> at_or_below(reservation_segments(path)->Ok_0, reservation_segments(ancestor)->Ok_0),
{
    lemma_reservation_segments_are_keyed(ancestor);
    lemma_reservation_segments_are_keyed(path);
    lemma_keyed_range_is_the_subtree(
        reservation_segments(ancestor)->Ok_0,
        reservation_segments(path)->Ok_0,
    );
}

proof fn lemma_keyed_range_is_the_subtree(ancestor: Seq<Seq<u8>>, path: Seq<Seq<u8>>)
    requires
        is_keyed(ancestor),
        is_keyed(path),
    ensures
        in_range(terminated(path), terminated(ancestor), end_of(terminated(ancestor)))
            <==> at_or_below(path, ancestor),
{
    let start = terminated(ancestor);
    let key = terminated(path);
    lemma_prefix_of_keys(path, ancestor);
    if ancestor.len() == 0 {
        assert(key.take(0) =~= start);
        assert(path.take(0) =~= ancestor);
        if path.len() == 0 {
            assert(key =~= start);
            assert(less_at(key, end_of(start), 0));
        } else {
            lemma_terminated_head(path);
            assert(key[0] == path[0][0]);
            assert(less_at(key, end_of(start), 0));
            assert(less_at(start, key, 0));
        }
    } else {
        lemma_terminated_ends_in_zero(ancestor);
        lemma_range_is_prefix(start, key);
    }
}

/// The sync root's range holds the key of every path.
pub proof fn law_root_range_holds_every_key(path: Seq<char>)
    requires
        reservation_segments(path) is Ok,
    ensures
        key_of(Seq::<char>::empty()) == Ok::<Seq<u8>, Failure>(Seq::empty()),
        in_range(key_of(path)->Ok_0, Seq::empty(), end_of(Seq::empty())),
{
    let root = Seq::<char>::empty();
    assert(encode_utf8(root) =~= Seq::<u8>::empty());
    assert(reservation_segments(root) == Ok::<Seq<Seq<u8>>, Failure>(Seq::empty()));
    law_key_range_is_the_subtree(root, path);
    assert(reservation_segments(path)->Ok_0.take(0) =~= Seq::<Seq<u8>>::empty());
}

/// The key ranges of two paths overlap exactly when one of the two is the
/// other one or lies below it.
pub proof fn law_ranges_overlap_along_one_line_of_descent(a: Seq<char>, b: Seq<char>)
    requires
        reservation_segments(a) is Ok,
        reservation_segments(b) is Ok,
    ensures
        overlapping(
            key_of(a)->Ok_0,
            end_of(key_of(a)->Ok_0),
            key_of(b)->Ok_0,
            end_of(key_of(b)->Ok_0),
        ) <==> {
            ||| at_or_below(reservation_segments(a)->Ok_0, reservation_segments(b)->Ok_0)
            ||| at_or_below(reservation_segments(b)->Ok_0, reservation_segments(a)->Ok_0)
        },
{
    let a_start = key_of(a)->Ok_0;
    let b_start = key_of(b)->Ok_0;
    let a_end = end_of(a_start);
    let b_end = end_of(b_start);
    law_key_range_is_the_subtree(a, b);
    law_key_range_is_the_subtree(b, a);
    law_key_range_is_the_subtree(a, a);
    law_key_range_is_the_subtree(b, b);
    let a_segments = reservation_segments(a)->Ok_0;
    let b_segments = reservation_segments(b)->Ok_0;
    assert(a_segments.take(a_segments.len() as int) =~= a_segments);
    assert(b_segments.take(b_segments.len() as int) =~= b_segments);
    lemma_bytes_lt_total(a_start, b_start);
    if in_range(b_start, a_start, a_end) && a_start != b_start {
        lemma_bytes_lt_transitive(a_start, b_start, b_end);
    }
    if in_range(a_start, b_start, b_end) && a_start != b_start {
        lemma_bytes_lt_transitive(b_start, a_start, a_end);
    }
}

/// Two paths that differ only in which separator they write have the same key.
pub proof fn law_separators_are_interchangeable(a: Seq<char>, b: Seq<char>)
    requires
        encode_utf8(a).len() == encode_utf8(b).len(),
        forall|i: int|
            #![trigger encode_utf8(a)[i], encode_utf8(b)[i]]
            0 <= i < encode_utf8(a).len() ==> encode_utf8(a)[i] == encode_utf8(b)[i] || (
            is_separator(encode_utf8(a)[i]) && is_separator(encode_utf8(b)[i])),
    ensures
        key_of(a) is Ok <==> key_of(b) is Ok,
        key_of(a) is Ok ==> key_of(a) == key_of(b),
{
    let x = encode_utf8(a);
    let y = encode_utf8(b);
    lemma_split_ignores_which_separator(x, y);
    if x.contains(0) {
        let i = choose|i: int| 0 <= i < x.len() && x[i] == 0;
        assert(y[i] == 0);
    }
    if y.contains(0) {
        let i = choose|i: int| 0 <= i < y.len() && y[i] == 0;
        assert(x[i] == 0);
    }
    if x.len() > 0 {
        assert(is_separator(x[0]) <==> is_separator(y[0]));
    }
}

proof fn lemma_split_ignores_which_separator(x: Seq<u8>, y: Seq<u8>)
    requires
        x.len() == y.len(),
        forall|i: int|
            #![trigger x[i], y[i]]
            0 <= i < x.len() ==> x[i] == y[i] || (is_separator(x[i]) && is_separator(y[i])),
    ensures
        split(x) == split(y),
    decreases x.len(),
{
    if x.len() > 0 {
        lemma_split_ignores_which_separator(x.drop_last(), y.drop_last());
        assert(x[x.len() - 1] == x.last() && y[y.len() - 1] == y.last());
    }
}

/// Different segments, different keys.
pub proof fn law_keys_tell_paths_apart(a: Seq<char>, b: Seq<char>)
    requires
        reservation_segments(a) is Ok,
        reservation_segments(b) is Ok,
        key_of(a) == key_of(b),
    ensures
        reservation_segments(a) == reservation_segments(b),
{
    let a_segments = reservation_segments(a)->Ok_0;
    let b_segments = reservation_segments(b)->Ok_0;
    lemma_reservation_segments_are_keyed(a);
    lemma_reservation_segments_are_keyed(b);
    lemma_prefix_of_keys(a_segments, b_segments);
    lemma_prefix_of_keys(b_segments, a_segments);
    let key = terminated(a_segments);
    assert(key.take(key.len() as int) =~= key);
    assert(a_segments.take(b_segments.len() as int) =~= b_segments);
    assert(a_segments =~= b_segments);
}

} // verus!
