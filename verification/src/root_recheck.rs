//! Holding a digest of a group's durable roots against the roots the group has
//! now.

use vstd::prelude::*;

use crate::durability::{
    enumerate_group_durability_roots_on_conn, is_root_listing, law_durable_roots_have_one_listing,
    read_versions, versions_read,
};
use crate::error::{Failure, SyncSqliteError};
use crate::file_metadata::attributes;
use crate::file_rows::{is_history, BlockInfo, FileIndexRepository, Version};
use crate::file_versions::{VersionEntry, VersionRecord};
use crate::rows::views;
use crate::text::{bytes_eq, str_eq};
use crate::transaction_rows::{opt_bytes, opt_text};

verus! {

/// A digest, and the durable roots it was taken of. The digest is computed by
/// the domain that defines file versions.
#[derive(Debug, PartialEq, Eq)]
pub struct RootDigest {
    pub roots: Vec<VersionRecord>,
    pub digest: [u8; 32],
}

/// The model of a [`RootDigest`].
pub struct Digested {
    pub roots: Seq<VersionEntry>,
    pub digest: Seq<u8>,
}

impl View for RootDigest {
    type V = Digested;

    open spec fn view(&self) -> Digested {
        Digested { roots: views(self.roots@), digest: self.digest@ }
    }
}

/// Whether the roots a digest was taken of are those listed. The first listed
/// one that does not read fails the check.
pub open spec fn roots_stand(listed: Seq<Version>, mask: u32, taken: Digested) -> Result<
    bool,
    Failure,
> {
    match read_versions(listed, mask) {
        Err(failure) => Err(failure),
        Ok(entries) => Ok(entries == taken.roots),
    }
}

/// Whether the digest is of the roots listed and is the one expected.
pub open spec fn rechecked(
    listed: Seq<Version>,
    mask: u32,
    taken: Digested,
    expected: Seq<u8>,
) -> Result<bool, Failure> {
    match roots_stand(listed, mask, taken) {
        Err(failure) => Err(failure),
        Ok(stand) => Ok(stand && taken.digest == expected),
    }
}

/// A check answers so.
pub open spec fn answered(
    answer: Result<bool, Failure>,
    result: Result<bool, SyncSqliteError>,
) -> bool {
    match answer {
        Ok(holds) => result is Ok && result->Ok_0 == holds,
        Err(failure) => result is Err && result->Err_0@ == failure,
    }
}

/// A group's roots that read one way read that way only: of a well-formed
/// index a digest passes the recheck for one list of roots at most.
pub proof fn law_a_passed_recheck_names_the_roots(
    rows: Seq<Version>,
    group: Seq<char>,
    a: Seq<Version>,
    b: Seq<Version>,
    mask: u32,
    left: Digested,
    right: Digested,
    expected: Seq<u8>,
)
    requires
        is_history(rows),
        is_root_listing(a, rows, group),
        is_root_listing(b, rows, group),
        rechecked(a, mask, left, expected) == Ok::<bool, Failure>(true),
        rechecked(b, mask, right, expected) == Ok::<bool, Failure>(true),
    ensures
        left == right,
{
    law_durable_roots_have_one_listing(rows, group, a, b);
}

fn same_blocks(left: &Vec<BlockInfo>, right: &Vec<BlockInfo>) -> (same: bool)
    ensures
        same == (views(left@) == views(right@)),
{
    let ghost a = views(left@);
    let ghost b = views(right@);
    if left.len() != right.len() {
        assert(a.len() != b.len());
        return false;
    }
    let mut i: usize = 0;
    while i < left.len()
        invariant
            i <= left@.len(),
            left@.len() == right@.len(),
            a == views(left@),
            b == views(right@),
            forall|j: int| 0 <= j < i ==> #[trigger] a[j] == b[j],
        decreases left@.len() - i,
    {
        assert(a[i as int] == left@[i as int]@);
        assert(b[i as int] == right@[i as int]@);
        if !(bytes_eq(left[i].hash.as_slice(), right[i].hash.as_slice()) && left[i].offset
            == right[i].offset && left[i].size == right[i].size) {
            assert(a[i as int] != b[i as int]);
            return false;
        }
        i += 1;
    }
    assert(a =~= b);
    true
}

fn same_xattrs(left: &Vec<(String, Vec<u8>)>, right: &Vec<(String, Vec<u8>)>) -> (same: bool)
    ensures
        same == (attributes(left@) == attributes(right@)),
{
    let ghost a = attributes(left@);
    let ghost b = attributes(right@);
    if left.len() != right.len() {
        assert(a.len() != b.len());
        return false;
    }
    let mut i: usize = 0;
    while i < left.len()
        invariant
            i <= left@.len(),
            left@.len() == right@.len(),
            a == attributes(left@),
            b == attributes(right@),
            forall|j: int| 0 <= j < i ==> #[trigger] a[j] == b[j],
        decreases left@.len() - i,
    {
        assert(a[i as int] == (left@[i as int].0@, left@[i as int].1@));
        assert(b[i as int] == (right@[i as int].0@, right@[i as int].1@));
        if !(str_eq(left[i].0.as_str(), right[i].0.as_str()) && bytes_eq(
            left[i].1.as_slice(),
            right[i].1.as_slice(),
        )) {
            assert(a[i as int] != b[i as int]);
            return false;
        }
        i += 1;
    }
    assert(a =~= b);
    true
}

fn same_opt_text(left: &Option<String>, right: &Option<String>) -> (same: bool)
    ensures
        same == (opt_text(*left) == opt_text(*right)),
{
    match (left, right) {
        (Some(a), Some(b)) => str_eq(a.as_str(), b.as_str()),
        (None, None) => true,
        _ => false,
    }
}

fn same_opt_bytes(left: &Option<Vec<u8>>, right: &Option<Vec<u8>>) -> (same: bool)
    ensures
        same == (opt_bytes(*left) == opt_bytes(*right)),
{
    match (left, right) {
        (Some(a), Some(b)) => bytes_eq(a.as_slice(), b.as_slice()),
        (None, None) => true,
        _ => false,
    }
}

fn same_opt_mode(left: Option<u32>, right: Option<u32>) -> (same: bool)
    ensures
        same == (left == right),
{
    match (left, right) {
        (Some(a), Some(b)) => a == b,
        (None, None) => true,
        _ => false,
    }
}

fn same_version(left: &VersionRecord, right: &VersionRecord) -> (same: bool)
    ensures
        same == (left@ == right@),
{
    str_eq(left.path.as_str(), right.path.as_str()) && left.version_seq == right.version_seq
        && left.size == right.size && left.mtime_unix_nanos == right.mtime_unix_nanos
        && same_blocks(&left.blocks, &right.blocks) && left.deleted == right.deleted && left.state
        == right.state && same_opt_text(&left.origin_device_id, &right.origin_device_id)
        && left.record_kind == right.record_kind && same_opt_bytes(
        &left.symlink_target,
        &right.symlink_target,
    ) && same_opt_mode(left.unix_mode, right.unix_mode) && same_xattrs(&left.xattrs, &right.xattrs)
}

fn same_versions(left: &Vec<VersionRecord>, right: &Vec<VersionRecord>) -> (same: bool)
    ensures
        same == (views(left@) == views(right@)),
{
    let ghost a = views(left@);
    let ghost b = views(right@);
    if left.len() != right.len() {
        assert(a.len() != b.len());
        return false;
    }
    let mut i: usize = 0;
    while i < left.len()
        invariant
            i <= left@.len(),
            left@.len() == right@.len(),
            a == views(left@),
            b == views(right@),
            forall|j: int| 0 <= j < i ==> #[trigger] a[j] == b[j],
        decreases left@.len() - i,
    {
        assert(a[i as int] == left@[i as int]@);
        assert(b[i as int] == right@[i as int]@);
        if !same_version(&left[i], &right[i]) {
            assert(a[i as int] != b[i as int]);
            return false;
        }
        i += 1;
    }
    assert(a =~= b);
    true
}

impl FileIndexRepository {
    /// Whether the roots a digest was taken of are those the group has now.
    pub fn durability_roots_stand(&self, group_id: &str, mask: u32, taken: &RootDigest) -> (result:
        Result<bool, SyncSqliteError>)
        ensures
            exists|listed: Seq<Version>|
                is_root_listing(listed, self@.files, group_id@) && answered(
                    #[trigger] roots_stand(listed, mask, taken@),
                    result,
                ),
    {
        let read = enumerate_group_durability_roots_on_conn(self, group_id, mask);
        let ghost listed = choose|listed: Seq<Version>|
            is_root_listing(listed, self@.files, group_id@) && #[trigger] versions_read(
                read_versions(listed, mask),
                read,
            );
        let result = match read {
            Ok(roots) => Ok(same_versions(&roots, &taken.roots)),
            Err(error) => Err(error),
        };
        assert(answered(roots_stand(listed, mask, taken@), result));
        result
    }

    /// Whether a digest is of the roots the group has now and is the one
    /// expected.
    pub fn recheck_root_digest(
        &self,
        group_id: &str,
        mask: u32,
        taken: &RootDigest,
        expected_digest: [u8; 32],
    ) -> (result: Result<bool, SyncSqliteError>)
        ensures
            exists|listed: Seq<Version>|
                is_root_listing(listed, self@.files, group_id@) && answered(
                    #[trigger] rechecked(listed, mask, taken@, expected_digest@),
                    result,
                ),
    {
        let stand = self.durability_roots_stand(group_id, mask, taken);
        let ghost listed = choose|listed: Seq<Version>|
            is_root_listing(listed, self@.files, group_id@) && answered(
                #[trigger] roots_stand(listed, mask, taken@),
                stand,
            );
        let result = match stand {
            Ok(stand) => Ok(
                stand && bytes_eq(
                    vstd::array::array_as_slice(&taken.digest),
                    vstd::array::array_as_slice(&expected_digest),
                ),
            ),
            Err(error) => Err(error),
        };
        assert(answered(rechecked(listed, mask, taken@, expected_digest@), result));
        result
    }
}

} // verus!
