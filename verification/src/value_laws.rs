//! How the library orders, writes and reads plain values: texts, numbers, names,
//! paths, identities and stored columns.

use vstd::prelude::*;
use vstd::utf8::encode_utf8;

use crate::error::{Failure, SyncSqliteError};
use crate::file_metadata::{authoring_at, authoring_read, mode_column, stored_mode};
use crate::file_rows::Version;
use crate::file_upsert::current;
use crate::fresh_id::{hex, hex_digit, id_text, is_id};
use crate::frontier::{in_a_basis, is_normal_form, is_parent, some_unknown};
use crate::identity::{
    big_endian, decoded, encoded, encoded_generation, encoded_object, encoded_time, encoded_volume,
    DirectoryIdentity, FileIdentity, PlatformObjectId, Timestamp, VolumeIdentity, WindowsObjectId,
};
use crate::path_key::{
    at_or_below, end_of, is_unnormalized, key_of, reservation_segments, split, terminated,
};
use crate::recursive_operation::is_zero;
use crate::rows::{any, lemma_first_where};
use crate::stored_rows::{
    array32, read_epoch, read_transaction, stored_hash, stored_identity, StoredEpoch,
    StoredTransaction,
};
use crate::text::{
    bytes_le, bytes_lt, decimal, digits, lemma_bytes_lt_asymmetric, lemma_bytes_lt_irreflexive,
    less_at, text_le, text_lt,
};
use crate::transaction_rows::{opt_bytes, opt_text, ChangeHash};
use crate::vocabulary::{
    DurabilityLevel, EpochState, FilesystemTransactionKind, PlacementRole, TransactionCause,
    TransactionPhase,
};

verus! {

/// Bytes are ordered by the first in which they differ; what ends first comes
/// first, and nothing comes before itself.
pub proof fn law_the_first_difference_decides(
    head: Seq<u8>,
    a: u8,
    b: u8,
    rest: Seq<u8>,
    more: Seq<u8>,
)
    ensures
        a < b ==> bytes_lt(head + seq![a] + rest, head + seq![b] + more),
        a > b ==> !bytes_lt(head + seq![a] + rest, head + seq![b] + more),
        more.len() > 0 ==> bytes_lt(head, head + more),
        !bytes_lt(head + more, head),
        bytes_le(head, head + more),
{
    let x = head + seq![a] + rest;
    let y = head + seq![b] + more;
    let n = head.len() as int;
    if a < b {
        assert(less_at(x, y, n));
    }
    if a > b {
        assert(less_at(y, x, n));
        assert(bytes_lt(y, x));
        lemma_bytes_lt_asymmetric(y, x);
    }
    if more.len() > 0 {
        assert(less_at(head, head + more, n));
        lemma_bytes_lt_asymmetric(head, head + more);
    } else {
        assert(head + more =~= head);
        lemma_bytes_lt_irreflexive(head);
    }
}

/// Texts are ordered as the bytes they are stored as.
pub proof fn law_texts_are_ordered_as_their_bytes(a: Seq<char>, b: Seq<char>)
    ensures
        text_lt(a, b) <==> bytes_lt(encode_utf8(a), encode_utf8(b)),
        text_le(a, b) <==> a == b || bytes_lt(encode_utf8(a), encode_utf8(b)),
{
}

/// The number a text of decimal digits writes.
pub open spec fn number_written(text: Seq<char>) -> int
    decreases text.len(),
{
    if text.len() == 0 {
        0
    } else {
        number_written(text.drop_last()) * 10 + (text.last() as int - '0' as int)
    }
}

/// A number is written in decimal digits that denote it, without a leading zero;
/// a negative one with a minus sign in front.
pub proof fn law_a_number_is_written_in_decimal(n: nat, m: int)
    ensures
        number_written(digits(n)) == n,
        digits(n).len() > 0,
        digits(n)[0] == '0' ==> n == 0,
        forall|i: int|
            #![trigger digits(n)[i]]
            0 <= i < digits(n).len() ==> '0' <= digits(n)[i] <= '9',
        m >= 0 ==> decimal(m) == digits(m as nat),
        m < 0 ==> decimal(m) == seq!['-'] + digits((-m) as nat),
    decreases n,
{
    reveal_with_fuel(number_written, 2);
    if n < 10 {
        assert(digits(n).drop_last() =~= Seq::empty());
    } else {
        law_a_number_is_written_in_decimal(n / 10, m);
        let short = digits(n / 10);
        let all = digits(n);
        assert(all.drop_last() =~= short);
        assert(all[0] == short[0]);
        assert forall|i: int| #![trigger all[i]] 0 <= i < all.len() implies '0' <= all[i]
            <= '9' by {
            if i < short.len() {
                assert(all[i] == short[i]);
            }
        }
    }
}

/// The value of a lower-case hexadecimal digit.
pub open spec fn hex_value(c: char) -> int {
    if '0' <= c <= '9' {
        c as int - '0' as int
    } else if 'a' <= c <= 'f' {
        c as int - 'a' as int + 10
    } else {
        -1
    }
}

/// An identifier is its prefix, a hyphen and two lower-case hexadecimal digits
/// for each of its sixteen bytes, the high one first.
pub proof fn law_an_id_spells_its_bytes(prefix: Seq<char>, bytes: Seq<u8>, id: Seq<char>)
    ensures
        hex(bytes).len() == 2 * bytes.len(),
        forall|i: int|
            #![trigger bytes[i]]
            0 <= i < bytes.len() ==> hex_value(hex(bytes)[2 * i]) * 16 + hex_value(
                hex(bytes)[2 * i + 1],
            ) == bytes[i] && hex_value(hex(bytes)[2 * i]) >= 0 && hex_value(hex(bytes)[2 * i + 1])
                >= 0,
        id_text(prefix, bytes) == prefix + seq!['-'] + hex(bytes),
        is_id(prefix, id) ==> id.len() == prefix.len() + 33 && id.take(prefix.len() as int)
            == prefix && id[prefix.len() as int] == '-',
{
    assert forall|i: int| #![trigger bytes[i]] 0 <= i < bytes.len() implies hex_value(
        hex(bytes)[2 * i],
    ) * 16 + hex_value(hex(bytes)[2 * i + 1]) == bytes[i] && hex_value(hex(bytes)[2 * i]) >= 0
        && hex_value(hex(bytes)[2 * i + 1]) >= 0 by {
        let byte = bytes[i] as int;
        assert((2 * i) % 2 == 0 && (2 * i) / 2 == i);
        assert((2 * i + 1) % 2 == 1 && (2 * i + 1) / 2 == i);
        lemma_hex_digit(byte / 16);
        lemma_hex_digit(byte % 16);
    }
    reveal_strlit("-");
    assert("-"@ =~= seq!['-']);
    if is_id(prefix, id) {
        let drawn = choose|drawn: Seq<u8>| drawn.len() == 16 && id == #[trigger] id_text(
            prefix,
            drawn,
        );
        assert(id.take(prefix.len() as int) =~= prefix);
    }
}

proof fn lemma_hex_digit(value: int)
    requires
        0 <= value < 16,
    ensures
        hex_value(hex_digit(value)) == value,
{
}

/// No byte of the text is a slash or a backslash.
pub open spec fn has_no_separator(bytes: Seq<u8>) -> bool {
    forall|i: int|
        #![trigger bytes[i]]
        0 <= i < bytes.len() ==> bytes[i] != 0x2f && bytes[i] != 0x5c
}

/// A path is split at each slash and backslash, whatever stands between: a piece
/// without one is a segment, and two pieces on either side of one are split each
/// by itself.
pub proof fn law_a_path_is_split_at_its_separators(a: Seq<u8>, separator: u8, b: Seq<u8>)
    requires
        separator == 0x2f || separator == 0x5c,
    ensures
        has_no_separator(a) ==> split(a) == seq![a],
        split(a + seq![separator] + b) == split(a) + split(b),
    decreases a.len() + b.len(),
{
    lemma_unsplit(a);
    let whole = a + seq![separator] + b;
    if b.len() == 0 {
        assert(whole.drop_last() =~= a);
        assert(whole.last() == separator);
        assert(split(b) == seq![Seq::<u8>::empty()]);
        assert(split(whole) =~= split(a) + split(b));
    } else {
        law_a_path_is_split_at_its_separators(a, separator, b.drop_last());
        assert(whole.drop_last() =~= a + seq![separator] + b.drop_last());
        assert(whole.last() == b.last());
        let before = split(b.drop_last());
        lemma_split_is_not_empty(b.drop_last());
        lemma_split_is_not_empty(a);
        assert(split(whole) =~= split(a) + split(b));
    }
}

proof fn lemma_split_is_not_empty(path: Seq<u8>)
    ensures
        split(path).len() > 0,
    decreases path.len(),
{
    if path.len() > 0 {
        lemma_split_is_not_empty(path.drop_last());
    }
}

proof fn lemma_unsplit(a: Seq<u8>)
    ensures
        has_no_separator(a) ==> split(a) == seq![a],
    decreases a.len(),
{
    if has_no_separator(a) {
        if a.len() == 0 {
            assert(a =~= Seq::empty());
        } else {
            let shorter = a.drop_last();
            assert forall|i: int| #![trigger shorter[i]] 0 <= i < shorter.len() implies shorter[i]
                != 0x2f && shorter[i] != 0x5c by {
                assert(shorter[i] == a[i]);
            }
            lemma_unsplit(shorter);
            assert(a[a.len() - 1] == a.last());
            assert(shorter.push(a.last()) =~= a);
            assert(split(a) =~= seq![a]);
        }
    }
}

/// A path can be reserved exactly where it holds no NUL and is either empty or
/// relative, with no empty segment and none that is a dot or two.
pub proof fn law_a_path_is_reserved_where_it_is_normalized(path: Seq<char>)
    ensures
        ({
            let bytes = encode_utf8(path);
            reservation_segments(path) is Ok <==> !bytes.contains(0) && (bytes.len() > 0 ==> {
                &&& bytes[0] != 0x2f && bytes[0] != 0x5c
                &&& forall|k: int|
                    #![trigger split(bytes)[k]]
                    0 <= k < split(bytes).len() ==> split(bytes)[k].len() > 0 && split(bytes)[k]
                        != seq![0x2eu8] && split(bytes)[k] != seq![0x2eu8, 0x2eu8]
            })
        }),
        reservation_segments(path) matches Ok(segments) ==> if encode_utf8(path).len() == 0 {
            segments.len() == 0
        } else {
            segments == split(encode_utf8(path))
        },
        reservation_segments(path) matches Err(failure) ==> failure is InvalidInput,
        key_of(path) is Ok <==> reservation_segments(path) is Ok,
{
    let bytes = encode_utf8(path);
    let pieces = split(bytes);
    let bad = |segment: Seq<u8>| is_unnormalized(segment);
    lemma_first_where(pieces, bad);
    if any(pieces, bad) {
        let k = choose|k: int| #![trigger pieces[k]] 0 <= k < pieces.len() && bad(pieces[k]);
        assert(is_unnormalized(pieces[k]));
    } else {
        assert forall|k: int| #![trigger pieces[k]] 0 <= k < pieces.len() implies !is_unnormalized(
            pieces[k],
        ) by {
            assert(!bad(pieces[k]));
        }
    }
}

/// A key ends each segment with a NUL, segment after segment, and its range ends
/// at the same bytes with the last one higher; the root's ends above all.
pub proof fn law_a_key_terminates_each_segment(
    a: Seq<Seq<u8>>,
    segment: Seq<u8>,
    b: Seq<Seq<u8>>,
    key: Seq<u8>,
)
    ensures
        terminated(Seq::empty()) == Seq::<u8>::empty(),
        terminated(seq![segment]) == segment + seq![0u8],
        terminated(a + b) == terminated(a) + terminated(b),
        key.len() == 0 ==> end_of(key) == seq![0xffu8],
        end_of(key + seq![0u8]) == key + seq![1u8],
    decreases b.len(),
{
    reveal_with_fuel(terminated, 2);
    assert(seq![segment].drop_last() =~= Seq::empty());
    assert(terminated(seq![segment]) =~= segment + seq![0u8]);
    assert((key + seq![0u8]).update(key.len() as int, 1) =~= key + seq![1u8]);
    if b.len() == 0 {
        assert(a + b =~= a);
        assert(terminated(a) + terminated(b) =~= terminated(a));
    } else {
        law_a_key_terminates_each_segment(a, segment, b.drop_last(), key);
        assert((a + b).drop_last() =~= a + b.drop_last());
        assert((a + b).last() == b.last());
        assert(terminated(a + b) =~= terminated(a) + terminated(b));
    }
}

/// A number is laid out with its highest byte first.
pub proof fn law_numbers_are_laid_out_high_byte_first(high: nat, low: u8, n: nat)
    ensures
        big_endian(high * 256 + low as nat, n + 1) == big_endian(high, n).push(low),
        big_endian(high, 0).len() == 0,
        big_endian(high, n).len() == n,
    decreases n,
{
    let value = high * 256 + low as nat;
    assert(value / 256 == high && value % 256 == low as nat);
    if n > 0 {
        law_numbers_are_laid_out_high_byte_first(high / 256, low, (n - 1) as nat);
    }
}

/// A directory's identity is laid out as a version byte, a volume, an object, a
/// generation and a time. Each starts with a byte that says which kind it is or
/// whether it is there, and numbers take eight bytes, a generation sixteen, and
/// a time's part of a second four.
pub proof fn law_an_identity_is_laid_out_part_by_part(
    identity: DirectoryIdentity,
    device: u64,
    serial: u64,
    inode: u64,
    index: u64,
    id: [u8; 16],
    generation: u128,
    time: Timestamp,
)
    ensures
        encoded(identity) == seq![3u8] + encoded_volume(identity.volume_identity) + encoded_object(
            identity.object_id,
        ) + encoded_generation(identity.generation_or_usn) + encoded_time(
            identity.birth_or_creation_time,
        ),
        encoded_volume(VolumeIdentity::Unix { device_id: device }) == seq![0u8] + big_endian(
            device as nat,
            8,
        ),
        encoded_volume(VolumeIdentity::Windows { volume_serial_number: serial }) == seq![1u8]
            + big_endian(serial as nat, 8),
        encoded_object(PlatformObjectId::Unix { inode }) == seq![0u8] + big_endian(inode as nat, 8),
        encoded_object(PlatformObjectId::Windows(WindowsObjectId::Fallback { file_index: index }))
            == seq![1u8, 0u8] + big_endian(index as nat, 8),
        encoded_object(PlatformObjectId::Windows(WindowsObjectId::Proven { file_id: id }))
            == seq![1u8, 1u8] + id@,
        encoded_generation(Some(generation)) == seq![1u8] + big_endian(generation as nat, 16),
        encoded_generation(None) == seq![0u8],
        encoded_time(Some(time)).len() == 13,
        encoded_time(Some(time))[0] == 1,
        time.seconds_since_unix_epoch >= 0 ==> encoded_time(Some(time)).subrange(1, 9)
            == big_endian(time.seconds_since_unix_epoch as nat, 8),
        time.seconds_since_unix_epoch < 0 ==> encoded_time(Some(time)).subrange(1, 9) == big_endian(
            (time.seconds_since_unix_epoch + 0x1_0000_0000_0000_0000) as nat,
            8,
        ),
        encoded_time(Some(time)).subrange(9, 13) == big_endian(time.subsec_nanos as nat, 4),
        encoded_time(None) == seq![0u8],
{
    let seconds = time.seconds_since_unix_epoch;
    law_numbers_are_laid_out_high_byte_first((seconds as u64) as nat, 0, 8);
    law_numbers_are_laid_out_high_byte_first(time.subsec_nanos as nat, 0, 4);
    let bytes = encoded_time(Some(time));
    assert(bytes.subrange(1, 9) =~= big_endian((seconds as u64) as nat, 8));
    assert(bytes.subrange(9, 13) =~= big_endian(time.subsec_nanos as nat, 4));
    if seconds < 0 {
        assert(seconds as u64 == seconds + 0x1_0000_0000_0000_0000) by (bit_vector)
            requires
                seconds < 0,
        ;
    } else {
        assert(seconds as u64 == seconds) by (bit_vector)
            requires
                seconds >= 0,
        ;
    }
}

/// A stored hash is thirty-two bytes or none; any other length is refused. A
/// stored identity that does not decode is refused with its complaint.
pub proof fn law_a_stored_hash_has_thirty_two_bytes(
    bytes: Option<Seq<u8>>,
    otherwise: Failure,
    hash: [u8; 32],
    column: Option<Result<FileIdentity, String>>,
)
    ensures
        stored_hash(bytes, otherwise) is Err <==> bytes is Some && bytes->0.len() != 32,
        stored_hash(bytes, otherwise) matches Err(failure) ==> failure == otherwise,
        stored_hash(None, otherwise) == Ok::<Option<ChangeHash>, Failure>(None),
        stored_hash(Some(hash@), otherwise) == Ok::<Option<ChangeHash>, Failure>(
            Some(ChangeHash(hash)),
        ),
        stored_identity(column) is Err <==> (column matches Some(Err(_))),
        column matches Some(Ok(identity)) ==> stored_identity(column) == Ok::<
            Option<FileIdentity>,
            Failure,
        >(Some(identity)),
        column is None ==> stored_identity(column) == Ok::<Option<FileIdentity>, Failure>(None),
        column matches Some(Err(complaint)) ==> stored_identity(column) == Err::<
            Option<FileIdentity>,
            Failure,
        >(Failure::CorruptState(complaint@)),
{
    crate::stored_rows::lemma_array32(hash);
}

/// A stored transaction reads exactly where its hashes have their length and its
/// kind, cause and phase are known names. It then reads as its own columns.
pub proof fn law_a_stored_transaction_reads_as_its_columns(stored: StoredTransaction)
    ensures
        read_transaction(stored) is Ok <==> {
            &&& stored.trigger_change_hash matches Some(hash) ==> hash@.len() == 32
            &&& stored.desired_frontier_hash@.len() == 32
            &&& FilesystemTransactionKind::of_stored_name(stored.kind@) is Some
            &&& TransactionCause::of_stored_name(stored.cause@) is Some
            &&& TransactionPhase::of_stored_name(stored.phase@) is Some
        },
        read_transaction(stored) matches Err(failure) ==> failure is CorruptState,
        read_transaction(stored) matches Ok(row) ==> {
            &&& row.transaction_id == stored.transaction_id@
            &&& row.group_id == stored.group_id@
            &&& row.source_path == stored.source_path@
            &&& Some(row.kind) == FilesystemTransactionKind::of_stored_name(stored.kind@)
            &&& Some(row.cause) == TransactionCause::of_stored_name(stored.cause@)
            &&& Some(row.phase) == TransactionPhase::of_stored_name(stored.phase@)
            &&& row.trigger_change_hash is Some <==> stored.trigger_change_hash is Some
            &&& stored.trigger_change_hash matches Some(hash) ==> forall|given: [u8; 32]|
                #![trigger given@]
                given@ == hash@ ==> row.trigger_change_hash == Some(ChangeHash(given))
            &&& forall|given: [u8; 32]|
                #![trigger given@]
                given@ == stored.desired_frontier_hash@ ==> row.desired_frontier_hash == given
            &&& row.plan_revision == stored.plan_revision
            &&& row.execution_generation == stored.execution_generation
            &&& row.epoch_watermark == stored.epoch_watermark
            &&& row.blocked_reason == opt_text(stored.blocked_reason)
            &&& row.created_at == stored.created_at_unix_nanos
            &&& row.updated_at == stored.updated_at_unix_nanos
        },
{
    assert forall|given: [u8; 32]| #![trigger given@] array32(given@) == given by {
        crate::stored_rows::lemma_array32(given);
    }
}

/// A stored epoch reads exactly where its hash has its length, its role, state
/// and durability are known names and its identities decode. It then reads as
/// its own columns.
pub proof fn law_a_stored_epoch_reads_as_its_columns(stored: StoredEpoch)
    ensures
        read_epoch(stored) is Ok <==> {
            &&& stored.captured_change_hash matches Some(hash) ==> hash@.len() == 32
            &&& PlacementRole::of_stored_name(stored.placement_role@) is Some
            &&& EpochState::of_stored_name(stored.phase@) is Some
            &&& decoded(stored.parent_directory_identity@) is Ok
            &&& !(stored.staged_identity matches Some(Err(_)))
            &&& !(stored.displaced_identity matches Some(Err(_)))
            &&& DurabilityLevel::of_stored_name(stored.durability_level@) is Some
        },
        read_epoch(stored) matches Ok(row) ==> {
            &&& row.transaction_id == stored.transaction_id@
            &&& row.epoch == stored.epoch
            &&& row.plan_revision == stored.plan_revision
            &&& row.target_path == stored.target_path@
            &&& Some(row.placement_role) == PlacementRole::of_stored_name(stored.placement_role@)
            &&& Some(row.phase) == EpochState::of_stored_name(stored.phase@)
            &&& row.displaced_generation_id == opt_text(stored.displaced_generation_id)
            &&& row.target_generation == stored.target_generation@
            &&& Ok::<DirectoryIdentity, Failure>(row.parent_directory_identity) == decoded(
                stored.parent_directory_identity@,
            )
            &&& row.displaced_snapshot == opt_bytes(stored.displaced_snapshot)
            &&& row.stage_path == opt_text(stored.stage_path)
            &&& row.preimage_path == opt_text(stored.preimage_path)
            &&& row.backup_path == opt_text(stored.backup_path)
            &&& row.staged_identity is Some <==> stored.staged_identity is Some
            &&& stored.staged_identity matches Some(Ok(identity)) ==> row.staged_identity == Some(
                identity,
            )
            &&& row.displaced_identity is Some <==> stored.displaced_identity is Some
            &&& stored.displaced_identity matches Some(Ok(identity)) ==> row.displaced_identity
                == Some(identity)
            &&& row.capability_snapshot == stored.capability_snapshot@
            &&& Some(row.durability_level) == DurabilityLevel::of_stored_name(
                stored.durability_level@,
            )
            &&& row.classification_result == opt_text(stored.classification_result)
            &&& row.captured_change_hash is Some <==> stored.captured_change_hash is Some
            &&& stored.captured_change_hash matches Some(hash) ==> forall|given: [u8; 32]|
                #![trigger given@]
                given@ == hash@ ==> row.captured_change_hash == Some(ChangeHash(given))
            &&& row.unresolved_block_reason == opt_text(stored.unresolved_block_reason)
            &&& row.created_at == stored.created_at_unix_nanos
            &&& row.updated_at == stored.updated_at_unix_nanos
        },
{
    assert forall|given: [u8; 32]| #![trigger given@] array32(given@) == given by {
        crate::stored_rows::lemma_array32(given);
    }
}

/// A text or bytes that may be missing are missing in the model exactly where
/// they are in the column, and otherwise the same.
pub proof fn law_a_missing_column_reads_as_none(text: Option<String>, bytes: Option<Vec<u8>>)
    ensures
        opt_text(text) is None <==> text is None,
        text matches Some(inner) ==> opt_text(text) == Some(inner@),
        opt_bytes(bytes) is None <==> bytes is None,
        bytes matches Some(inner) ==> opt_bytes(bytes) == Some(inner@),
{
}

/// Who authored a path is read off the row that stands there; an author that is
/// no hash is refused.
pub proof fn law_an_author_is_read_at_its_path(
    rows: Seq<Version>,
    group: Seq<char>,
    path: Seq<char>,
    stored: Option<Seq<u8>>,
    result: Result<Option<ChangeHash>, SyncSqliteError>,
)
    ensures
        authoring_at(rows, group, path) is Some ==> current(rows, group, path) is Some,
        current(rows, group, path) matches Some(row) ==> authoring_at(rows, group, path)
            == row.authoring,
        authoring_read(stored, group, path, result) ==> {
            &&& result is Err <==> stored is Some && stored->0.len() != 32
            &&& result matches Err(error) ==> error@ is CorruptState
            &&& result matches Ok(found) ==> (found is Some <==> stored is Some) && forall|
                given: [u8; 32],
            |
                #![trigger given@]
                stored == Some(given@) ==> found == Some(ChangeHash(given))
        },
{
    assert forall|given: [u8; 32]| #![trigger given@] array32(given@) == given by {
        crate::stored_rows::lemma_array32(given);
    }
}

/// A mode is stored as the bits that are replicated, or as minus one where there
/// is none, and reads back the same way.
pub proof fn law_a_mode_is_stored_as_its_replicated_bits(bits: u32, raw: int, mask: u32)
    ensures
        mode_column(None, mask) == -1,
        mode_column(Some(bits), mask) == bits & mask,
        raw < 0 ==> stored_mode(raw, mask) is None,
        0 <= raw <= u32::MAX ==> stored_mode(raw, mask) == Some((raw as u32) & mask),
{
}

/// A list is a frontier's normal form exactly where it is in the order of its
/// hashes' bytes, each hash once, and names the same hashes.
pub proof fn law_a_frontier_is_listed_in_order(listed: Seq<ChangeHash>, given: Seq<ChangeHash>)
    ensures
        is_normal_form(listed, given) <==> {
            &&& forall|i: int, j: int|
                #![trigger listed[i], listed[j]]
                0 <= i < j < listed.len() ==> bytes_lt(listed[i].0@, listed[j].0@)
            &&& forall|i: int|
                #![trigger listed[i]]
                0 <= i < listed.len() ==> given.contains(listed[i])
            &&& forall|i: int|
                #![trigger given[i]]
                0 <= i < given.len() ==> listed.contains(given[i])
        },
{
    if is_normal_form(listed, given) {
        assert forall|i: int| #![trigger listed[i]] 0 <= i < listed.len() implies given.contains(
            listed[i],
        ) by {
            assert(listed.contains(listed[i]));
        }
        assert forall|i: int| #![trigger given[i]] 0 <= i < given.len() implies listed.contains(
            given[i],
        ) by {
            assert(given.contains(given[i]));
        }
    }
    if {
        &&& forall|i: int, j: int|
            #![trigger listed[i], listed[j]]
            0 <= i < j < listed.len() ==> bytes_lt(listed[i].0@, listed[j].0@)
        &&& forall|i: int| #![trigger listed[i]] 0 <= i < listed.len() ==> given.contains(listed[i])
        &&& forall|i: int| #![trigger given[i]] 0 <= i < given.len() ==> listed.contains(given[i])
    } {
        assert forall|hash: ChangeHash| #[trigger] listed.contains(hash) <==> given.contains(
            hash,
        ) by {
            if listed.contains(hash) {
                let i = choose|i: int| 0 <= i < listed.len() && listed[i] == hash;
                assert(given.contains(listed[i]));
            }
            if given.contains(hash) {
                let i = choose|i: int| 0 <= i < given.len() && given[i] == hash;
                assert(listed.contains(given[i]));
            }
        }
    }
}

/// The basis at `i` names the hash at `j`.
pub open spec fn is_in_basis_at(
    bases: Seq<Option<Vec<ChangeHash>>>,
    i: int,
    j: int,
    hash: ChangeHash,
) -> bool {
    0 <= i < bases.len() && (bases[i] matches Some(basis) && 0 <= j < basis@.len() && basis@[j]
        == hash)
}

/// A hash is in a basis where some basis names it; a basis is unknown where it
/// is missing or names nothing; an operation's id of zeros is none.
pub proof fn law_a_basis_names_its_hashes(
    bases: Seq<Option<Vec<ChangeHash>>>,
    hash: ChangeHash,
    bytes: Seq<u8>,
)
    ensures
        in_a_basis(bases, hash) <==> exists|i: int, j: int| #[trigger]
            is_in_basis_at(bases, i, j, hash),
        some_unknown(bases) <==> exists|i: int|
            #![trigger bases[i]]
            0 <= i < bases.len() && (bases[i] is None || bases[i]->0@.len() == 0),
        is_zero(bytes) <==> bytes == Seq::new(bytes.len(), |i: int| 0u8),
{
    if in_a_basis(bases, hash) {
        let i = choose|i: int|
            #![trigger bases[i]]
            0 <= i < bases.len() && (bases[i] matches Some(basis) && basis@.contains(hash));
        let j = choose|j: int| 0 <= j < bases[i]->0@.len() && bases[i]->0@[j] == hash;
        assert(is_in_basis_at(bases, i, j, hash));
    }
    if exists|i: int, j: int| #[trigger] is_in_basis_at(bases, i, j, hash) {
        let (i, j) = choose|i: int, j: int| #[trigger] is_in_basis_at(bases, i, j, hash);
        assert(bases[i]->0@.contains(hash));
    }
    if is_zero(bytes) {
        assert(bytes =~= Seq::new(bytes.len(), |i: int| 0u8));
    }
}

/// A recursive operation's parts build on what some basis names, and on the
/// frontier too where a basis is unknown.
pub proof fn law_a_parts_parents_come_from_its_bases(
    bases: Seq<Option<Vec<ChangeHash>>>,
    frontier: Seq<ChangeHash>,
    hash: ChangeHash,
)
    ensures
        (exists|i: int, j: int| #[trigger] is_in_basis_at(bases, i, j, hash)) ==> is_parent(
            bases,
            frontier,
            hash,
        ),
        is_parent(bases, frontier, hash) && !(exists|i: int, j: int| #[trigger]
            is_in_basis_at(bases, i, j, hash)) <==> !(exists|i: int, j: int| #[trigger]
            is_in_basis_at(bases, i, j, hash)) && frontier.contains(hash) && exists|i: int|
            #![trigger bases[i]]
            0 <= i < bases.len() && (bases[i] is None || bases[i]->0@.len() == 0),
{
    law_a_basis_names_its_hashes(bases, hash, Seq::empty());
}

/// A path lies at or below another exactly where its segments are the other's
/// and then any more.
pub proof fn law_a_path_lies_at_or_below_by_its_segments(
    path: Seq<Seq<u8>>,
    ancestor: Seq<Seq<u8>>,
    rest: Seq<Seq<u8>>,
)
    ensures
        at_or_below(ancestor + rest, ancestor),
        at_or_below(path, ancestor) <==> exists|more: Seq<Seq<u8>>|
            path == #[trigger] (ancestor + more),
{
    assert((ancestor + rest).take(ancestor.len() as int) =~= ancestor);
    if at_or_below(path, ancestor) {
        let more = path.skip(ancestor.len() as int);
        assert(path.take(ancestor.len() as int) + more =~= path);
        assert(path == ancestor + more);
    }
    if exists|more: Seq<Seq<u8>>| path == #[trigger] (ancestor + more) {
        let more = choose|more: Seq<Seq<u8>>| path == #[trigger] (ancestor + more);
        assert(path.take(ancestor.len() as int) =~= ancestor);
    }
}

} // verus!
