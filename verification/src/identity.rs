//! What the file system says an object is, and the stored form of a directory's
//! identity.

use vstd::prelude::*;

use crate::error::{Failure, SyncSqliteError};
use crate::text::{digits, digits_text, join3};

verus! {

/// The volume an object lives on.
#[derive(Debug, Clone, Copy, PartialEq, Eq)]
pub enum VolumeIdentity {
    Unix { device_id: u64 },
    Windows { volume_serial_number: u64 },
}

/// How Windows names an object: by an index it may reuse, or by a proven id.
#[derive(Debug, Clone, Copy, PartialEq, Eq)]
pub enum WindowsObjectId {
    Fallback { file_index: u64 },
    Proven { file_id: [u8; 16] },
}

/// The object on its volume.
#[derive(Debug, Clone, Copy, PartialEq, Eq)]
pub enum PlatformObjectId {
    Unix { inode: u64 },
    Windows(WindowsObjectId),
}

/// What kind of object stands at a path.
#[derive(Debug, Clone, Copy, PartialEq, Eq)]
pub enum ObjectKind {
    RegularFile,
    Directory,
    Symlink,
}

/// A point in time.
#[derive(Debug, Clone, Copy, PartialEq, Eq)]
pub struct Timestamp {
    pub seconds_since_unix_epoch: i64,
    pub subsec_nanos: u32,
}

/// The identity of a directory.
#[derive(Debug, Clone, Copy, PartialEq, Eq)]
pub struct DirectoryIdentity {
    pub volume_identity: VolumeIdentity,
    pub object_id: PlatformObjectId,
    pub generation_or_usn: Option<u128>,
    pub birth_or_creation_time: Option<Timestamp>,
}

/// The identity of a file and what was observed of it.
#[derive(Debug, Clone, Copy, PartialEq, Eq)]
pub struct FileIdentity {
    pub volume_identity: VolumeIdentity,
    pub object_id: PlatformObjectId,
    pub object_kind: ObjectKind,
    pub generation_or_usn: Option<u128>,
    pub birth_or_creation_time: Option<Timestamp>,
    pub observed_size: u64,
    pub metadata_fingerprint: [u8; 32],
    pub link_count: Option<u64>,
    pub symlink_target_digest: Option<[u8; 32]>,
}

/// The version byte every stored directory identity begins with.
pub const EPOCH_ENCODING_VERSION: i32 = 3;

/// The `n` low bytes of a number, most significant first.
pub open spec fn big_endian(value: nat, n: nat) -> Seq<u8>
    decreases n,
{
    if n == 0 {
        Seq::empty()
    } else {
        big_endian(value / 256, (n - 1) as nat).push((value % 256) as u8)
    }
}

/// The number some bytes write, most significant first.
pub open spec fn number_of(bytes: Seq<u8>) -> nat
    decreases bytes.len(),
{
    if bytes.len() == 0 {
        0
    } else {
        number_of(bytes.drop_last()) * 256 + bytes.last() as nat
    }
}

/// How many numbers `n` bytes can write.
pub open spec fn span(n: nat) -> nat
    decreases n,
{
    if n == 0 {
        1
    } else {
        256 * span((n - 1) as nat)
    }
}

proof fn lemma_spans()
    ensures
        span(4) == 0x1_0000_0000,
        span(8) == 0x1_0000_0000_0000_0000,
        span(16) == 0x1_0000_0000_0000_0000_0000_0000_0000_0000,
{
    reveal_with_fuel(span, 17);
}

proof fn lemma_span_grows(n: nat, m: nat)
    requires
        n <= m,
    ensures
        0 < span(n) <= span(m),
    decreases m,
{
    if n == m {
        if n > 0 {
            lemma_span_grows((n - 1) as nat, (n - 1) as nat);
        }
    } else {
        lemma_span_grows(n, (m - 1) as nat);
    }
}

proof fn lemma_big_endian_round_trips(value: nat, n: nat)
    requires
        value < span(n),
    ensures
        big_endian(value, n).len() == n,
        number_of(big_endian(value, n)) == value,
    decreases n,
{
    if n > 0 {
        lemma_big_endian_round_trips(value / 256, (n - 1) as nat);
        assert(big_endian(value, n).drop_last() =~= big_endian(value / 256, (n - 1) as nat));
    }
}

proof fn lemma_number_of_round_trips(bytes: Seq<u8>)
    ensures
        number_of(bytes) < span(bytes.len()),
        big_endian(number_of(bytes), bytes.len()) == bytes,
    decreases bytes.len(),
{
    if bytes.len() > 0 {
        let high = bytes.drop_last();
        lemma_number_of_round_trips(high);
        assert(number_of(bytes) / 256 == number_of(high));
        assert(number_of(bytes) % 256 == bytes.last());
        assert(big_endian(number_of(bytes), bytes.len()) =~= bytes);
    }
}

/// Appends the `n` low bytes of a number, most significant first.
fn push_big_endian(buf: &mut Vec<u8>, value: u128, n: usize)
    ensures
        final(buf)@ == old(buf)@ + big_endian(value as nat, n as nat),
    decreases n,
{
    if n > 0 {
        push_big_endian(buf, value / 256, n - 1);
        buf.push((value % 256) as u8);
    }
    assert(buf@ =~= old(buf)@ + big_endian(value as nat, n as nat));
}

/// The stored form of a volume.
pub open spec fn encoded_volume(volume: VolumeIdentity) -> Seq<u8> {
    match volume {
        VolumeIdentity::Unix { device_id } => seq![0u8] + big_endian(device_id as nat, 8),
        VolumeIdentity::Windows { volume_serial_number } => seq![1u8] + big_endian(
            volume_serial_number as nat,
            8,
        ),
    }
}

/// The stored form of an object id.
pub open spec fn encoded_object(object: PlatformObjectId) -> Seq<u8> {
    match object {
        PlatformObjectId::Unix { inode } => seq![0u8] + big_endian(inode as nat, 8),
        PlatformObjectId::Windows(WindowsObjectId::Fallback { file_index }) => seq![1u8, 0u8]
            + big_endian(file_index as nat, 8),
        PlatformObjectId::Windows(WindowsObjectId::Proven { file_id }) => seq![1u8, 1u8] + file_id@,
    }
}

/// The stored form of a generation, behind a presence flag.
pub open spec fn encoded_generation(generation: Option<u128>) -> Seq<u8> {
    match generation {
        Some(g) => seq![1u8] + big_endian(g as nat, 16),
        None => seq![0u8],
    }
}

/// The stored form of a time, behind a presence flag.
pub open spec fn encoded_time(time: Option<Timestamp>) -> Seq<u8> {
    match time {
        Some(t) => seq![1u8] + big_endian((t.seconds_since_unix_epoch as u64) as nat, 8)
            + big_endian(t.subsec_nanos as nat, 4),
        None => seq![0u8],
    }
}

/// The stored form of a directory identity.
pub open spec fn encoded(identity: DirectoryIdentity) -> Seq<u8> {
    seq![EPOCH_ENCODING_VERSION as u8] + encoded_volume(identity.volume_identity) + encoded_object(
        identity.object_id,
    ) + encoded_generation(identity.generation_or_usn) + encoded_time(
        identity.birth_or_creation_time,
    )
}

/// Encodes a directory identity for storage.
pub fn encode_directory_identity(identity: &DirectoryIdentity) -> (blob: Vec<u8>)
    ensures
        blob@ == encoded(*identity),
{
    let mut buf: Vec<u8> = Vec::new();
    buf.push(EPOCH_ENCODING_VERSION as u8);
    let ghost head = seq![EPOCH_ENCODING_VERSION as u8];
    assert(buf@ =~= head);
    match identity.volume_identity {
        VolumeIdentity::Unix { device_id } => {
            buf.push(0);
            push_big_endian(&mut buf, device_id as u128, 8);
        },
        VolumeIdentity::Windows { volume_serial_number } => {
            buf.push(1);
            push_big_endian(&mut buf, volume_serial_number as u128, 8);
        },
    }
    assert(buf@ =~= head + encoded_volume(identity.volume_identity));
    let ghost head = buf@;
    match identity.object_id {
        PlatformObjectId::Unix { inode } => {
            buf.push(0);
            push_big_endian(&mut buf, inode as u128, 8);
        },
        PlatformObjectId::Windows(WindowsObjectId::Fallback { file_index }) => {
            buf.push(1);
            buf.push(0);
            push_big_endian(&mut buf, file_index as u128, 8);
        },
        PlatformObjectId::Windows(WindowsObjectId::Proven { file_id }) => {
            buf.push(1);
            buf.push(1);
            buf.extend_from_slice(file_id.as_slice());
        },
    }
    assert(buf@ =~= head + encoded_object(identity.object_id));
    let ghost head = buf@;
    match identity.generation_or_usn {
        Some(g) => {
            buf.push(1);
            push_big_endian(&mut buf, g, 16);
        },
        None => {
            buf.push(0);
        },
    }
    assert(buf@ =~= head + encoded_generation(identity.generation_or_usn));
    let ghost head = buf@;
    match identity.birth_or_creation_time {
        Some(t) => {
            buf.push(1);
            push_big_endian(&mut buf, (t.seconds_since_unix_epoch as u64) as u128, 8);
            push_big_endian(&mut buf, t.subsec_nanos as u128, 4);
        },
        None => {
            buf.push(0);
        },
    }
    assert(buf@ =~= head + encoded_time(identity.birth_or_creation_time));
    buf
}

/// The array that holds the given 16 bytes.
pub open spec fn array16(bytes: Seq<u8>) -> [u8; 16] {
    choose|array: [u8; 16]| array@ == bytes
}

proof fn lemma_array16(array: [u8; 16])
    ensures
        array16(array@) == array,
{
    let chosen = array16(array@);
    assert(chosen@ == array@);
    assert(chosen =~= array);
}

proof fn lemma_array16_of(b: Seq<u8>)
    requires
        b.len() == 16,
    ensures
        array16(b)@ == b,
{
    let array: [u8; 16] = [b[0], b[1], b[2], b[3], b[4], b[5], b[6], b[7], b[8], b[9], b[10], b[11], b[12], b[13], b[14], b[15]];
    assert(array@ =~= b);
}

/// Copies 16 bytes into an array.
fn copy16(bytes: &[u8]) -> (array: [u8; 16])
    requires
        bytes@.len() == 16,
    ensures
        array == array16(bytes@),
        array@ == bytes@,
{
    let mut array: [u8; 16] = [0; 16];
    let mut i: usize = 0;
    while i < 16
        invariant
            i <= 16,
            bytes@.len() == 16,
            forall|j: int| 0 <= j < i ==> array@[j] == bytes@[j],
        decreases 16 - i,
    {
        array[i] = bytes[i];
        i += 1;
    }
    assert(array@ =~= bytes@);
    proof {
        lemma_array16(array);
    }
    array
}

/// What is left of a blob after `n` bytes were read, with those bytes.
pub open spec fn cut(blob: Seq<u8>, n: nat) -> Result<(Seq<u8>, Seq<u8>), Failure> {
    if n <= blob.len() {
        Ok((blob.take(n as int), blob.skip(n as int)))
    } else {
        Err(Failure::CorruptState("identity blob ends before the value it names"@))
    }
}

/// Reads a number of `n` bytes.
pub open spec fn cut_number(blob: Seq<u8>, n: nat) -> Result<(nat, Seq<u8>), Failure> {
    match cut(blob, n) {
        Ok((bytes, rest)) => Ok((number_of(bytes), rest)),
        Err(failure) => Err(failure),
    }
}

/// Reads a presence flag.
pub open spec fn cut_flag(blob: Seq<u8>) -> Result<(bool, Seq<u8>), Failure> {
    match cut_number(blob, 1) {
        Ok((flag, rest)) => if flag == 0 {
            Ok((false, rest))
        } else if flag == 1 {
            Ok((true, rest))
        } else {
            Err(
                Failure::CorruptState(
                    "invalid flag byte "@ + digits(flag) + " in a stored identity blob"@,
                ),
            )
        },
        Err(failure) => Err(failure),
    }
}

/// Reads a volume.
pub open spec fn cut_volume(blob: Seq<u8>) -> Result<(VolumeIdentity, Seq<u8>), Failure> {
    match cut_number(blob, 1) {
        Ok((tag, rest)) => if tag == 0 || tag == 1 {
            match cut_number(rest, 8) {
                Ok((value, rest)) => if tag == 0 {
                    Ok((VolumeIdentity::Unix { device_id: value as u64 }, rest))
                } else {
                    Ok((VolumeIdentity::Windows { volume_serial_number: value as u64 }, rest))
                },
                Err(failure) => Err(failure),
            }
        } else {
            Err(
                Failure::CorruptState(
                    "unknown VolumeIdentity tag "@ + digits(tag)
                        + " in a stored parent_directory_identity blob"@,
                ),
            )
        },
        Err(failure) => Err(failure),
    }
}

/// Reads an object id.
pub open spec fn cut_object(blob: Seq<u8>) -> Result<(PlatformObjectId, Seq<u8>), Failure> {
    match cut_number(blob, 1) {
        Ok((tag, rest)) => if tag == 0 {
            match cut_number(rest, 8) {
                Ok((inode, rest)) => Ok((PlatformObjectId::Unix { inode: inode as u64 }, rest)),
                Err(failure) => Err(failure),
            }
        } else if tag == 1 {
            match cut_windows_object(rest) {
                Ok((object, rest)) => Ok((PlatformObjectId::Windows(object), rest)),
                Err(failure) => Err(failure),
            }
        } else {
            Err(
                Failure::CorruptState(
                    "unknown PlatformObjectId tag "@ + digits(tag)
                        + " in a stored parent_directory_identity blob"@,
                ),
            )
        },
        Err(failure) => Err(failure),
    }
}

/// Reads a Windows object id.
pub open spec fn cut_windows_object(blob: Seq<u8>) -> Result<(WindowsObjectId, Seq<u8>), Failure> {
    match cut_number(blob, 1) {
        Ok((subtag, rest)) => if subtag == 0 {
            match cut_number(rest, 8) {
                Ok((index, rest)) => Ok(
                    (WindowsObjectId::Fallback { file_index: index as u64 }, rest),
                ),
                Err(failure) => Err(failure),
            }
        } else if subtag == 1 {
            match cut(rest, 16) {
                Ok((file_id, rest)) => Ok(
                    (WindowsObjectId::Proven { file_id: array16(file_id) }, rest),
                ),
                Err(failure) => Err(failure),
            }
        } else {
            Err(
                Failure::CorruptState(
                    "unknown WindowsObjectId subtag "@ + digits(subtag)
                        + " in a stored parent_directory_identity blob"@,
                ),
            )
        },
        Err(failure) => Err(failure),
    }
}

/// Reads a generation.
pub open spec fn cut_generation(blob: Seq<u8>) -> Result<(Option<u128>, Seq<u8>), Failure> {
    match cut_flag(blob) {
        Ok((true, rest)) => match cut_number(rest, 16) {
            Ok((value, rest)) => Ok((Some(value as u128), rest)),
            Err(failure) => Err(failure),
        },
        Ok((false, rest)) => Ok((None, rest)),
        Err(failure) => Err(failure),
    }
}

/// Reads a time.
pub open spec fn cut_time(blob: Seq<u8>) -> Result<(Option<Timestamp>, Seq<u8>), Failure> {
    match cut_flag(blob) {
        Ok((true, rest)) => match cut_number(rest, 8) {
            Ok((seconds, rest)) => match cut_number(rest, 4) {
                Ok((nanos, rest)) => Ok(
                    (
                        Some(
                            Timestamp {
                                seconds_since_unix_epoch: (seconds as u64) as i64,
                                subsec_nanos: nanos as u32,
                            },
                        ),
                        rest,
                    ),
                ),
                Err(failure) => Err(failure),
            },
            Err(failure) => Err(failure),
        },
        Ok((false, rest)) => Ok((None, rest)),
        Err(failure) => Err(failure),
    }
}

/// What a stored directory identity decodes to: the parts in their stored
/// order, the first one that cannot be read deciding the failure, and whatever
/// follows the last part ignored.
pub open spec fn decoded(blob: Seq<u8>) -> Result<DirectoryIdentity, Failure> {
    match cut_number(blob, 1) {
        Ok((version, rest)) => if version != EPOCH_ENCODING_VERSION as u8 {
            Err(
                Failure::CorruptState(
                    "parent_directory_identity blob encoding_version "@ + digits(version)
                        + " is not this build's 3"@,
                ),
            )
        } else {
            match cut_volume(rest) {
                Ok((volume_identity, rest)) => match cut_object(rest) {
                    Ok((object_id, rest)) => match cut_generation(rest) {
                        Ok((generation_or_usn, rest)) => match cut_time(rest) {
                            Ok((birth_or_creation_time, _)) => Ok(
                                DirectoryIdentity {
                                    volume_identity,
                                    object_id,
                                    generation_or_usn,
                                    birth_or_creation_time,
                                },
                            ),
                            Err(failure) => Err(failure),
                        },
                        Err(failure) => Err(failure),
                    },
                    Err(failure) => Err(failure),
                },
                Err(failure) => Err(failure),
            }
        },
        Err(failure) => Err(failure),
    }
}

/// A blob being read from the front.
struct Reader<'a> {
    blob: &'a [u8],
    at: usize,
}

impl<'a> Reader<'a> {
    spec fn ok(&self) -> bool {
        self.at <= self.blob@.len()
    }

    spec fn rest(&self) -> Seq<u8> {
        self.blob@.skip(self.at as int)
    }

    /// The next `n` bytes.
    fn take(&mut self, n: usize) -> (result: Result<&'a [u8], SyncSqliteError>)
        requires
            old(self).ok(),
        ensures
            final(self).ok(),
            match result {
                Ok(bytes) => cut(old(self).rest(), n as nat) == Ok::<_, Failure>(
                    (bytes@, final(self).rest()),
                ),
                Err(error) => cut(old(self).rest(), n as nat) == Err::<(Seq<u8>, Seq<u8>), _>(
                    error@,
                ),
            },
    {
        if n > self.blob.len() - self.at {
            return Err(
                SyncSqliteError::CorruptState(
                    "identity blob ends before the value it names".to_owned(),
                ),
            );
        }
        let bytes = vstd::slice::slice_subrange(self.blob, self.at, self.at + n);
        self.at = self.at + n;
        assert(bytes@ =~= old(self).rest().take(n as int));
        assert(self.rest() =~= old(self).rest().skip(n as int));
        Ok(bytes)
    }

    /// The next `n` bytes as a number.
    fn number(&mut self, n: usize) -> (result: Result<u128, SyncSqliteError>)
        requires
            old(self).ok(),
            n <= 16,
        ensures
            final(self).ok(),
            match result {
                Ok(value) => {
                    &&& cut_number(old(self).rest(), n as nat) == Ok::<_, Failure>(
                        (value as nat, final(self).rest()),
                    )
                    &&& value < span(n as nat)
                },
                Err(error) => cut_number(old(self).rest(), n as nat) == Err::<(nat, Seq<u8>), _>(
                    error@,
                ),
            },
    {
        let bytes = match self.take(n) {
            Ok(bytes) => bytes,
            Err(error) => {
                return Err(error);
            },
        };
        let mut value: u128 = 0;
        let mut i: usize = 0;
        assert(bytes@.take(0) =~= Seq::<u8>::empty());
        while i < bytes.len()
            invariant
                i <= bytes@.len() <= 16,
                value == number_of(bytes@.take(i as int)),
                value < span(i as nat),
            decreases bytes@.len() - i,
        {
            proof {
                lemma_spans();
                lemma_span_grows((i + 1) as nat, 16);
                assert(bytes@.take(i + 1).drop_last() =~= bytes@.take(i as int));
                assert(span((i + 1) as nat) == 256 * span(i as nat));
            }
            value = value * 256 + bytes[i] as u128;
            i += 1;
        }
        assert(bytes@.take(bytes@.len() as int) =~= bytes@);
        Ok(value)
    }

    fn u8(&mut self) -> (result: Result<u8, SyncSqliteError>)
        requires
            old(self).ok(),
        ensures
            final(self).ok(),
            match result {
                Ok(value) => cut_number(old(self).rest(), 1) == Ok::<_, Failure>(
                    (value as nat, final(self).rest()),
                ),
                Err(error) => cut_number(old(self).rest(), 1) == Err::<(nat, Seq<u8>), _>(error@),
            },
    {
        match self.number(1) {
            Ok(value) => {
                proof {
                    reveal_with_fuel(span, 2);
                }
                Ok(value as u8)
            },
            Err(error) => Err(error),
        }
    }

    fn u64(&mut self) -> (result: Result<u64, SyncSqliteError>)
        requires
            old(self).ok(),
        ensures
            final(self).ok(),
            match result {
                Ok(value) => cut_number(old(self).rest(), 8) == Ok::<_, Failure>(
                    (value as nat, final(self).rest()),
                ),
                Err(error) => cut_number(old(self).rest(), 8) == Err::<(nat, Seq<u8>), _>(error@),
            },
    {
        match self.number(8) {
            Ok(value) => {
                proof {
                    lemma_spans();
                }
                Ok(value as u64)
            },
            Err(error) => Err(error),
        }
    }

    fn u32(&mut self) -> (result: Result<u32, SyncSqliteError>)
        requires
            old(self).ok(),
        ensures
            final(self).ok(),
            match result {
                Ok(value) => cut_number(old(self).rest(), 4) == Ok::<_, Failure>(
                    (value as nat, final(self).rest()),
                ),
                Err(error) => cut_number(old(self).rest(), 4) == Err::<(nat, Seq<u8>), _>(error@),
            },
    {
        match self.number(4) {
            Ok(value) => {
                proof {
                    lemma_spans();
                }
                Ok(value as u32)
            },
            Err(error) => Err(error),
        }
    }

    fn bool_flag(&mut self) -> (result: Result<bool, SyncSqliteError>)
        requires
            old(self).ok(),
        ensures
            final(self).ok(),
            match result {
                Ok(flag) => cut_flag(old(self).rest()) == Ok::<_, Failure>(
                    (flag, final(self).rest()),
                ),
                Err(error) => cut_flag(old(self).rest()) == Err::<(bool, Seq<u8>), _>(error@),
            },
    {
        match self.u8() {
            Ok(0) => Ok(false),
            Ok(1) => Ok(true),
            Ok(other) => Err(
                SyncSqliteError::CorruptState(
                    join3(
                        "invalid flag byte ",
                        digits_text(other as u64).as_str(),
                        " in a stored identity blob",
                    ),
                ),
            ),
            Err(error) => Err(error),
        }
    }

    fn volume(&mut self) -> (result: Result<VolumeIdentity, SyncSqliteError>)
        requires
            old(self).ok(),
        ensures
            final(self).ok(),
            match result {
                Ok(volume) => cut_volume(old(self).rest()) == Ok::<_, Failure>(
                    (volume, final(self).rest()),
                ),
                Err(error) => cut_volume(old(self).rest()) == Err::<(VolumeIdentity, Seq<u8>), _>(
                    error@,
                ),
            },
    {
        match self.u8() {
            Ok(0) => match self.u64() {
                Ok(device_id) => Ok(VolumeIdentity::Unix { device_id }),
                Err(error) => Err(error),
            },
            Ok(1) => match self.u64() {
                Ok(volume_serial_number) => Ok(VolumeIdentity::Windows { volume_serial_number }),
                Err(error) => Err(error),
            },
            Ok(other) => Err(
                SyncSqliteError::CorruptState(
                    join3(
                        "unknown VolumeIdentity tag ",
                        digits_text(other as u64).as_str(),
                        " in a stored parent_directory_identity blob",
                    ),
                ),
            ),
            Err(error) => Err(error),
        }
    }

    fn windows_object(&mut self) -> (result: Result<WindowsObjectId, SyncSqliteError>)
        requires
            old(self).ok(),
        ensures
            final(self).ok(),
            match result {
                Ok(object) => cut_windows_object(old(self).rest()) == Ok::<_, Failure>(
                    (object, final(self).rest()),
                ),
                Err(error) => cut_windows_object(old(self).rest()) == Err::<
                    (WindowsObjectId, Seq<u8>),
                    _,
                >(error@),
            },
    {
        match self.u8() {
            Ok(0) => match self.u64() {
                Ok(file_index) => Ok(WindowsObjectId::Fallback { file_index }),
                Err(error) => Err(error),
            },
            Ok(1) => match self.take(16) {
                Ok(bytes) => Ok(WindowsObjectId::Proven { file_id: copy16(bytes) }),
                Err(error) => Err(error),
            },
            Ok(other) => Err(
                SyncSqliteError::CorruptState(
                    join3(
                        "unknown WindowsObjectId subtag ",
                        digits_text(other as u64).as_str(),
                        " in a stored parent_directory_identity blob",
                    ),
                ),
            ),
            Err(error) => Err(error),
        }
    }

    fn object(&mut self) -> (result: Result<PlatformObjectId, SyncSqliteError>)
        requires
            old(self).ok(),
        ensures
            final(self).ok(),
            match result {
                Ok(object) => cut_object(old(self).rest()) == Ok::<_, Failure>(
                    (object, final(self).rest()),
                ),
                Err(error) => cut_object(old(self).rest()) == Err::<
                    (PlatformObjectId, Seq<u8>),
                    _,
                >(error@),
            },
    {
        match self.u8() {
            Ok(0) => match self.u64() {
                Ok(inode) => Ok(PlatformObjectId::Unix { inode }),
                Err(error) => Err(error),
            },
            Ok(1) => match self.windows_object() {
                Ok(object) => Ok(PlatformObjectId::Windows(object)),
                Err(error) => Err(error),
            },
            Ok(other) => Err(
                SyncSqliteError::CorruptState(
                    join3(
                        "unknown PlatformObjectId tag ",
                        digits_text(other as u64).as_str(),
                        " in a stored parent_directory_identity blob",
                    ),
                ),
            ),
            Err(error) => Err(error),
        }
    }

    fn generation(&mut self) -> (result: Result<Option<u128>, SyncSqliteError>)
        requires
            old(self).ok(),
        ensures
            final(self).ok(),
            match result {
                Ok(generation) => cut_generation(old(self).rest()) == Ok::<_, Failure>(
                    (generation, final(self).rest()),
                ),
                Err(error) => cut_generation(old(self).rest()) == Err::<
                    (Option<u128>, Seq<u8>),
                    _,
                >(error@),
            },
    {
        match self.bool_flag() {
            Ok(true) => match self.number(16) {
                Ok(value) => Ok(Some(value)),
                Err(error) => Err(error),
            },
            Ok(false) => Ok(None),
            Err(error) => Err(error),
        }
    }

    fn time(&mut self) -> (result: Result<Option<Timestamp>, SyncSqliteError>)
        requires
            old(self).ok(),
        ensures
            final(self).ok(),
            match result {
                Ok(time) => cut_time(old(self).rest()) == Ok::<_, Failure>(
                    (time, final(self).rest()),
                ),
                Err(error) => cut_time(old(self).rest()) == Err::<
                    (Option<Timestamp>, Seq<u8>),
                    _,
                >(error@),
            },
    {
        match self.bool_flag() {
            Ok(true) => {
                let seconds = match self.u64() {
                    Ok(seconds) => seconds,
                    Err(error) => {
                        return Err(error);
                    },
                };
                match self.u32() {
                    Ok(subsec_nanos) => Ok(
                        Some(
                            Timestamp {
                                seconds_since_unix_epoch: seconds as i64,
                                subsec_nanos,
                            },
                        ),
                    ),
                    Err(error) => Err(error),
                }
            },
            Ok(false) => Ok(None),
            Err(error) => Err(error),
        }
    }
}

/// Reads a stored directory identity back.
pub fn decode_directory_identity(blob: &[u8]) -> (result: Result<
    DirectoryIdentity,
    SyncSqliteError,
>)
    ensures
        match result {
            Ok(identity) => decoded(blob@) == Ok::<_, Failure>(identity),
            Err(error) => decoded(blob@) == Err::<DirectoryIdentity, _>(error@),
        },
{
    let mut reader = Reader { blob, at: 0 };
    assert(reader.rest() =~= blob@);
    let version = match reader.u8() {
        Ok(version) => version,
        Err(error) => {
            return Err(error);
        },
    };
    if version != EPOCH_ENCODING_VERSION as u8 {
        return Err(
            SyncSqliteError::CorruptState(
                join3(
                    "parent_directory_identity blob encoding_version ",
                    digits_text(version as u64).as_str(),
                    " is not this build's 3",
                ),
            ),
        );
    }
    let volume_identity = match reader.volume() {
        Ok(volume) => volume,
        Err(error) => {
            return Err(error);
        },
    };
    let object_id = match reader.object() {
        Ok(object) => object,
        Err(error) => {
            return Err(error);
        },
    };
    let generation_or_usn = match reader.generation() {
        Ok(generation) => generation,
        Err(error) => {
            return Err(error);
        },
    };
    match reader.time() {
        Ok(birth_or_creation_time) => Ok(
            DirectoryIdentity {
                volume_identity,
                object_id,
                generation_or_usn,
                birth_or_creation_time,
            },
        ),
        Err(error) => Err(error),
    }
}

proof fn lemma_cut_front(front: Seq<u8>, rest: Seq<u8>)
    ensures
        cut(front + rest, front.len()) == Ok::<_, Failure>((front, rest)),
{
    assert((front + rest).take(front.len() as int) =~= front);
    assert((front + rest).skip(front.len() as int) =~= rest);
}

proof fn lemma_cut_number_front(value: nat, n: nat, rest: Seq<u8>)
    requires
        value < span(n),
    ensures
        cut_number(big_endian(value, n) + rest, n) == Ok::<_, Failure>((value, rest)),
{
    lemma_big_endian_round_trips(value, n);
    lemma_cut_front(big_endian(value, n), rest);
}

proof fn lemma_cut_tag(tag: u8, rest: Seq<u8>)
    ensures
        cut_number(seq![tag] + rest, 1) == Ok::<_, Failure>((tag as nat, rest)),
{
    lemma_cut_front(seq![tag], rest);
    reveal_with_fuel(number_of, 2);
    assert(seq![tag].drop_last() =~= Seq::<u8>::empty());
}

proof fn lemma_cut_volume_front(volume: VolumeIdentity, rest: Seq<u8>)
    ensures
        cut_volume(encoded_volume(volume) + rest) == Ok::<_, Failure>((volume, rest)),
{
    lemma_spans();
    let (tag, value) = match volume {
        VolumeIdentity::Unix { device_id } => (0u8, device_id),
        VolumeIdentity::Windows { volume_serial_number } => (1u8, volume_serial_number),
    };
    let tail = big_endian(value as nat, 8) + rest;
    assert(encoded_volume(volume) + rest =~= seq![tag] + tail);
    lemma_cut_tag(tag, tail);
    lemma_cut_number_front(value as nat, 8, rest);
}

proof fn lemma_cut_object_front(object: PlatformObjectId, rest: Seq<u8>)
    ensures
        cut_object(encoded_object(object) + rest) == Ok::<_, Failure>((object, rest)),
{
    lemma_spans();
    match object {
        PlatformObjectId::Unix { inode } => {
            let tail = big_endian(inode as nat, 8) + rest;
            assert(encoded_object(object) + rest =~= seq![0u8] + tail);
            lemma_cut_tag(0, tail);
            lemma_cut_number_front(inode as nat, 8, rest);
        },
        PlatformObjectId::Windows(WindowsObjectId::Fallback { file_index }) => {
            let tail = big_endian(file_index as nat, 8) + rest;
            let windows = seq![0u8] + tail;
            assert(encoded_object(object) + rest =~= seq![1u8] + windows);
            lemma_cut_tag(1, windows);
            lemma_cut_tag(0, tail);
            lemma_cut_number_front(file_index as nat, 8, rest);
        },
        PlatformObjectId::Windows(WindowsObjectId::Proven { file_id }) => {
            let tail = file_id@ + rest;
            let windows = seq![1u8] + tail;
            assert(encoded_object(object) + rest =~= seq![1u8] + windows);
            lemma_cut_tag(1, windows);
            lemma_cut_tag(1, tail);
            lemma_cut_front(file_id@, rest);
            lemma_array16(file_id);
        },
    }
}

proof fn lemma_cut_generation_front(generation: Option<u128>, rest: Seq<u8>)
    ensures
        cut_generation(encoded_generation(generation) + rest) == Ok::<_, Failure>(
            (generation, rest),
        ),
{
    lemma_spans();
    match generation {
        Some(g) => {
            let tail = big_endian(g as nat, 16) + rest;
            assert(encoded_generation(generation) + rest =~= seq![1u8] + tail);
            lemma_cut_tag(1, tail);
            lemma_cut_number_front(g as nat, 16, rest);
        },
        None => {
            lemma_cut_tag(0, rest);
        },
    }
}

proof fn lemma_cut_time_front(time: Option<Timestamp>, rest: Seq<u8>)
    ensures
        cut_time(encoded_time(time) + rest) == Ok::<_, Failure>((time, rest)),
{
    lemma_spans();
    match time {
        Some(t) => {
            let seconds = t.seconds_since_unix_epoch as u64;
            let nanos = big_endian(t.subsec_nanos as nat, 4) + rest;
            let tail = big_endian(seconds as nat, 8) + nanos;
            assert(encoded_time(time) + rest =~= seq![1u8] + tail);
            lemma_cut_tag(1, tail);
            lemma_cut_number_front(seconds as nat, 8, nanos);
            lemma_cut_number_front(t.subsec_nanos as nat, 4, rest);
            let s = t.seconds_since_unix_epoch;
            assert((s as u64) as i64 == s) by (bit_vector);
        },
        None => {
            lemma_cut_tag(0, rest);
        },
    }
}

/// A stored identity decodes to the identity it was encoded from, whatever
/// stands behind it in the blob.
pub proof fn law_directory_identity_round_trips(identity: DirectoryIdentity, rest: Seq<u8>)
    ensures
        decoded(encoded(identity) + rest) == Ok::<_, Failure>(identity),
        decoded(encoded(identity)) == Ok::<_, Failure>(identity),
{
    lemma_decoded_front(identity, rest);
    lemma_decoded_front(identity, Seq::empty());
    assert(encoded(identity) + Seq::<u8>::empty() =~= encoded(identity));
}

proof fn lemma_decoded_front(identity: DirectoryIdentity, rest: Seq<u8>)
    ensures
        decoded(encoded(identity) + rest) == Ok::<_, Failure>(identity),
{
    let from_time = encoded_time(identity.birth_or_creation_time) + rest;
    let from_generation = encoded_generation(identity.generation_or_usn) + from_time;
    let from_object = encoded_object(identity.object_id) + from_generation;
    let from_volume = encoded_volume(identity.volume_identity) + from_object;
    lemma_join_parts(
        seq![EPOCH_ENCODING_VERSION as u8],
        encoded_volume(identity.volume_identity),
        encoded_object(identity.object_id),
        encoded_generation(identity.generation_or_usn),
        encoded_time(identity.birth_or_creation_time),
        rest,
    );
    lemma_cut_tag(EPOCH_ENCODING_VERSION as u8, from_volume);
    lemma_cut_volume_front(identity.volume_identity, from_object);
    lemma_cut_object_front(identity.object_id, from_generation);
    lemma_cut_generation_front(identity.generation_or_usn, from_time);
    lemma_cut_time_front(identity.birth_or_creation_time, rest);
}

/// Two identities with the same stored form are the same identity.
pub proof fn law_directory_identity_encoding_is_injective(
    a: DirectoryIdentity,
    b: DirectoryIdentity,
)
    requires
        encoded(a) == encoded(b),
    ensures
        a == b,
{
    law_directory_identity_round_trips(a, Seq::empty());
    law_directory_identity_round_trips(b, Seq::empty());
}

/// A truncated identity is never read as one.
pub proof fn law_truncated_identity_is_refused(identity: DirectoryIdentity, n: int)
    requires
        0 <= n < encoded(identity).len(),
    ensures
        decoded(encoded(identity).take(n)) is Err,
{
    let blob = encoded(identity).take(n);
    if decoded(blob) is Ok {
        let other = decoded(blob)->Ok_0;
        lemma_decoded_prefix(blob);
        // The blob begins with the encoding of what it decodes to, so does the
        // whole encoding, which then decodes to it as well.
        let whole = encoded(identity);
        let rest = whole.skip(encoded(other).len() as int);
        assert(whole =~= encoded(other) + rest) by {
            assert forall|i: int| 0 <= i < encoded(other).len() implies whole[i] == encoded(other)[i] by {
                assert(blob[i] == blob.take(encoded(other).len() as int)[i]);
            }
        }
        lemma_decoded_front(other, rest);
        law_directory_identity_round_trips(identity, Seq::empty());
    }
}

proof fn lemma_cut_number_is_front(blob: Seq<u8>, n: nat)
    requires
        cut_number(blob, n) is Ok,
    ensures
        blob == big_endian(cut_number(blob, n)->Ok_0.0, n) + cut_number(blob, n)->Ok_0.1,
        cut_number(blob, n)->Ok_0.0 < span(n),
{
    lemma_number_of_round_trips(blob.take(n as int));
    assert(blob =~= blob.take(n as int) + blob.skip(n as int));
}

proof fn lemma_cut_tag_is_front(blob: Seq<u8>)
    requires
        cut_number(blob, 1) is Ok,
    ensures
        blob == seq![cut_number(blob, 1)->Ok_0.0 as u8] + cut_number(blob, 1)->Ok_0.1,
{
    lemma_cut_number_is_front(blob, 1);
    let tag = cut_number(blob, 1)->Ok_0.0;
    reveal_with_fuel(span, 2);
    reveal_with_fuel(big_endian, 2);
    assert(big_endian(tag, 1) =~= seq![tag as u8]);
}

proof fn lemma_cut_volume_is_front(blob: Seq<u8>)
    requires
        cut_volume(blob) is Ok,
    ensures
        blob == encoded_volume(cut_volume(blob)->Ok_0.0) + cut_volume(blob)->Ok_0.1,
{
    lemma_spans();
    lemma_cut_tag_is_front(blob);
    lemma_cut_number_is_front(cut_number(blob, 1)->Ok_0.1, 8);
    assert(blob =~= encoded_volume(cut_volume(blob)->Ok_0.0) + cut_volume(blob)->Ok_0.1);
}

proof fn lemma_cut_generation_is_front(blob: Seq<u8>)
    requires
        cut_generation(blob) is Ok,
    ensures
        blob == encoded_generation(cut_generation(blob)->Ok_0.0) + cut_generation(blob)->Ok_0.1,
{
    lemma_spans();
    lemma_cut_tag_is_front(blob);
    if cut_generation(blob)->Ok_0.0 is Some {
        lemma_cut_number_is_front(cut_number(blob, 1)->Ok_0.1, 16);
    }
    assert(blob =~= encoded_generation(cut_generation(blob)->Ok_0.0) + cut_generation(
        blob,
    )->Ok_0.1);
}

proof fn lemma_cut_time_is_front(blob: Seq<u8>)
    requires
        cut_time(blob) is Ok,
    ensures
        blob == encoded_time(cut_time(blob)->Ok_0.0) + cut_time(blob)->Ok_0.1,
{
    lemma_spans();
    lemma_cut_tag_is_front(blob);
    if cut_time(blob)->Ok_0.0 is Some {
        let seconds_blob = cut_number(blob, 1)->Ok_0.1;
        lemma_cut_number_is_front(seconds_blob, 8);
        lemma_cut_number_is_front(cut_number(seconds_blob, 8)->Ok_0.1, 4);
        let s = cut_number(seconds_blob, 8)->Ok_0.0 as u64;
        assert((s as i64) as u64 == s) by (bit_vector);
    }
    assert(blob =~= encoded_time(cut_time(blob)->Ok_0.0) + cut_time(blob)->Ok_0.1);
}

/// Whatever decodes begins with the stored form of what it decodes to.
proof fn lemma_decoded_prefix(blob: Seq<u8>)
    requires
        decoded(blob) is Ok,
    ensures
        encoded(decoded(blob)->Ok_0).len() <= blob.len(),
        blob.take(encoded(decoded(blob)->Ok_0).len() as int) == encoded(decoded(blob)->Ok_0),
{
    let identity = decoded(blob)->Ok_0;
    let from_volume = cut_number(blob, 1)->Ok_0.1;
    lemma_cut_tag_is_front(blob);
    let from_object = cut_volume(from_volume)->Ok_0.1;
    lemma_cut_volume_is_front(from_volume);
    let from_generation = cut_object(from_object)->Ok_0.1;
    lemma_cut_object_is_front(from_object);
    let from_time = cut_generation(from_generation)->Ok_0.1;
    lemma_cut_generation_is_front(from_generation);
    let rest = cut_time(from_time)->Ok_0.1;
    lemma_cut_time_is_front(from_time);
    lemma_join_parts(
        seq![EPOCH_ENCODING_VERSION as u8],
        encoded_volume(identity.volume_identity),
        encoded_object(identity.object_id),
        encoded_generation(identity.generation_or_usn),
        encoded_time(identity.birth_or_creation_time),
        rest,
    );
    assert(blob == encoded(identity) + rest);
    assert(blob.take(encoded(identity).len() as int) =~= encoded(identity));
}

proof fn lemma_join_parts(
    a: Seq<u8>,
    b: Seq<u8>,
    c: Seq<u8>,
    d: Seq<u8>,
    e: Seq<u8>,
    rest: Seq<u8>,
)
    ensures
        a + (b + (c + (d + (e + rest)))) == (a + b + c + d + e) + rest,
{
    assert(a + (b + (c + (d + (e + rest)))) =~= (a + b + c + d + e) + rest);
}

proof fn lemma_cut_object_is_front(blob: Seq<u8>)
    requires
        cut_object(blob) is Ok,
    ensures
        blob == encoded_object(cut_object(blob)->Ok_0.0) + cut_object(blob)->Ok_0.1,
{
    lemma_spans();
    let (object, rest) = cut_object(blob)->Ok_0;
    lemma_cut_tag_is_front(blob);
    let after_tag = cut_number(blob, 1)->Ok_0.1;
    match object {
        PlatformObjectId::Unix { .. } => {
            lemma_cut_number_is_front(after_tag, 8);
        },
        PlatformObjectId::Windows(windows) => {
            lemma_cut_tag_is_front(after_tag);
            let after_subtag = cut_number(after_tag, 1)->Ok_0.1;
            match windows {
                WindowsObjectId::Fallback { .. } => {
                    lemma_cut_number_is_front(after_subtag, 8);
                },
                WindowsObjectId::Proven { file_id } => {
                    lemma_array16_of(after_subtag.take(16));
                    assert(after_subtag =~= after_subtag.take(16) + after_subtag.skip(16));
                },
            }
        },
    }
    assert(blob =~= encoded_object(object) + rest);
}

} // verus!
