//! Choice of the tmpfs directory that backs the shared-memory files.

use vstd::prelude::*;
use crate::mounts::{FileSystemType, Mount, MountRecord, views_of_mounts};
use crate::text::same_chars;

verus! {

/// The conventional mount point of the shared-memory tmpfs.
pub const SHM_PATH: &'static str = "/dev/shm";

/// The fixed directory used where the mount table is not consulted.
pub const DEFAULT_SHM_DIR: &'static str = "/dev/shm/";

/// No mount in the table is a tmpfs.
#[derive(Debug, Clone, Copy, PartialEq, Eq, Structural)]
pub enum DiscoveryError {
    NoTmpfsFound,
}

pub open spec fn is_tmpfs(m: MountRecord) -> bool {
    m.kind is TmpFs
}

/// The mount point of the first tmpfs record.
pub open spec fn first_tmpfs(ms: Seq<MountRecord>) -> Option<Seq<char>>
    decreases ms.len(),
{
    if ms.len() == 0 {
        None
    } else if is_tmpfs(ms[0]) {
        Some(ms[0].mount_point)
    } else {
        first_tmpfs(ms.drop_first())
    }
}

pub open spec fn has_shm_tmpfs(ms: Seq<MountRecord>) -> bool {
    exists|i: int| 0 <= i < ms.len() && is_tmpfs(#[trigger] ms[i]) && ms[i].mount_point == SHM_PATH@
}

/// The directory chosen among the tmpfs mounts: the conventional path where
/// it is one of them, else the first in table order.
pub open spec fn tmpfs_dir(ms: Seq<MountRecord>) -> Option<Seq<char>> {
    if has_shm_tmpfs(ms) {
        Some(SHM_PATH@)
    } else {
        first_tmpfs(ms)
    }
}

/// The fixed shared-memory directory.
pub fn find_shm_dir() -> (r: String)
    ensures
        r@ == DEFAULT_SHM_DIR@,
{
    String::from_str(DEFAULT_SHM_DIR)
}

/// Discovery fails exactly when no mount is a tmpfs.
pub proof fn lemma_no_dir_iff_no_tmpfs(ms: Seq<MountRecord>)
    ensures
        tmpfs_dir(ms) is None <==> forall|i: int| 0 <= i < ms.len() ==> !is_tmpfs(#[trigger] ms[i]),
{
    lemma_first_tmpfs_none(ms);
}

pub proof fn lemma_first_tmpfs_none(ms: Seq<MountRecord>)
    ensures
        first_tmpfs(ms) is None <==> forall|i: int| 0 <= i < ms.len() ==> !is_tmpfs(#[trigger] ms[i]),
    decreases ms.len(),
{
    if ms.len() > 0 {
        lemma_first_tmpfs_none(ms.drop_first());
        if !is_tmpfs(ms[0]) && first_tmpfs(ms.drop_first()) is None {
            assert forall|i: int| 0 <= i < ms.len() implies !is_tmpfs(#[trigger] ms[i]) by {
                if i > 0 {
                    assert(ms[i] == ms.drop_first()[i - 1]);
                }
            }
        }
        if first_tmpfs(ms.drop_first()) is Some {
            let i = choose|i: int| 0 <= i < ms.drop_first().len() && is_tmpfs(#[trigger] ms.drop_first()[i]);
            assert(is_tmpfs(ms[i + 1]));
        }
    }
}

/// Finds the tmpfs directory among the parsed mounts.
pub fn find_tmpfs_dir(mounts: &Vec<Mount>) -> (r: Result<String, DiscoveryError>)
    ensures
        match r {
            Ok(p) => tmpfs_dir(views_of_mounts(mounts@)) == Some(p@),
            Err(_) => tmpfs_dir(views_of_mounts(mounts@)) is None,
        },
{
    let ghost ms = views_of_mounts(mounts@);
    let mut i: usize = 0;
    while i < mounts.len()
        invariant
            ms == views_of_mounts(mounts@),
            i <= mounts.len(),
            forall|j: int|
                0 <= j < i ==> !(is_tmpfs(#[trigger] ms[j]) && ms[j].mount_point == SHM_PATH@),
        decreases mounts.len() - i,
    {
        let m = &mounts[i];
        if let FileSystemType::TmpFs = m.file_system_type {
            if same_chars(m.mount_point.as_str(), SHM_PATH) {
                assert(is_tmpfs(ms[i as int]) && ms[i as int].mount_point == SHM_PATH@);
                return Ok(String::from_str(SHM_PATH));
            }
        }
        assert(!(is_tmpfs(ms[i as int]) && ms[i as int].mount_point == SHM_PATH@));
        i = i + 1;
    }
    assert(!has_shm_tmpfs(ms));
    let mut k: usize = 0;
    assert(ms.skip(0) =~= ms);
    while k < mounts.len()
        invariant
            ms == views_of_mounts(mounts@),
            k <= mounts.len(),
            !has_shm_tmpfs(ms),
            first_tmpfs(ms) == first_tmpfs(ms.skip(k as int)),
        decreases mounts.len() - k,
    {
        assert(ms.skip(k as int).drop_first() =~= ms.skip(k + 1));
        assert(ms.skip(k as int)[0] == ms[k as int]);
        if let FileSystemType::TmpFs = mounts[k].file_system_type {
            assert(is_tmpfs(ms[k as int]));
            assert(first_tmpfs(ms) == Some(ms[k as int].mount_point));
            let p = mounts[k].mount_point.clone();
            assert(p@ == ms[k as int].mount_point);
            return Ok(p);
        }
        k = k + 1;
    }
    assert(ms.skip(k as int) =~= Seq::<MountRecord>::empty());
    Err(DiscoveryError::NoTmpfsFound)
}

} // verus!
