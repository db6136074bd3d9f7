//! Choosing, among the mounted disks, the one that holds a scanned folder:
//! the disk whose mount point is the longest component-wise prefix of the
//! folder's path. Listing the disks is the caller's part.

use vstd::prelude::*;

use crate::models::DiskInfo;
use crate::winpath::{parse_spec, starts_with_spec, Comp, WinPath};

verus! {

/// Length in bytes of the mount point's text.
pub open spec fn mount_len(d: DiskInfo) -> usize {
    vstd::utf8::encode_utf8(d.mount@).len() as usize
}

/// Whether the disk's mount point is a component-wise prefix of the path.
pub open spec fn mounts(root: Seq<Comp>, d: DiskInfo) -> bool {
    starts_with_spec(root, parse_spec(d.mount@))
}

/// Index of the disk chosen among the first `n`: the last one holding `root`
/// whose mount point is at least as long as every earlier one's.
pub open spec fn best_disk(root: Seq<Comp>, ds: Seq<DiskInfo>, n: int) -> Option<int>
    decreases n,
{
    if n <= 0 {
        None
    } else {
        let prev = best_disk(root, ds, n - 1);
        let d = ds[n - 1];
        if mounts(root, d) && (match prev {
            None => true,
            Some(p) => mount_len(ds[p]) <= mount_len(d),
        }) {
            Some(n - 1)
        } else {
            prev
        }
    }
}

/// What `best_disk` picks is a disk holding the path, and no disk holding
/// the path has a longer mount point.
pub proof fn lemma_best_disk(root: Seq<Comp>, ds: Seq<DiskInfo>, n: int)
    requires
        0 <= n <= ds.len(),
    ensures
        match best_disk(root, ds, n) {
            None => forall|k: int| 0 <= k < n ==> !mounts(root, #[trigger] ds[k]),
            Some(b) => {
                &&& 0 <= b < n
                &&& mounts(root, ds[b])
                &&& forall|k: int|
                    0 <= k < n && mounts(root, #[trigger] ds[k]) ==> mount_len(ds[k]) <= mount_len(
                        ds[b],
                    )
            },
        },
    decreases n,
{
    if n > 0 {
        lemma_best_disk(root, ds, n - 1);
    }
}

/// The disk whose mount point holds `root`, preferring the longest mount
/// point and, among equally long ones, the later in the list.
pub fn pick_disk(root: &str, disks: &[DiskInfo]) -> (r: Option<DiskInfo>)
    ensures
        match best_disk(parse_spec(root@), disks@, disks@.len() as int) {
            None => r is None,
            Some(b) => r == Some(disks@[b]),
        },
        r is None <==> forall|k: int|
            0 <= k < disks@.len() ==> !mounts(parse_spec(root@), #[trigger] disks@[k]),
        match r {
            None => true,
            Some(d) => mounts(parse_spec(root@), d) && forall|k: int|
                0 <= k < disks@.len() && mounts(parse_spec(root@), #[trigger] disks@[k])
                    ==> mount_len(disks@[k]) <= mount_len(d),
        },
{
    proof {
        lemma_best_disk(parse_spec(root@), disks@, disks@.len() as int);
    }
    let rp = WinPath::parse(root);
    let mut best: Option<usize> = None;
    let mut best_len: usize = 0;
    let mut i: usize = 0;
    while i < disks.len()
        invariant
            i <= disks@.len(),
            rp@ == parse_spec(root@),
            best == (match best_disk(rp@, disks@, i as int) {
                None => None::<usize>,
                Some(b) => Some(b as usize),
            }),
            match best_disk(rp@, disks@, i as int) {
                None => best_len == 0,
                Some(b) => 0 <= b < i && best_len == mount_len(disks@[b]),
            },
        decreases disks.len() - i,
    {
        let d = &disks[i];
        let mp = WinPath::parse(d.mount.as_str());
        if rp.starts_with(&mp) {
            let len = d.mount.as_str().len();
            if len >= best_len {
                best_len = len;
                best = Some(i);
            }
        }
        i = i + 1;
    }
    match best {
        None => None,
        Some(b) => {
            let d = &disks[b];
            Some(DiskInfo { mount: d.mount.clone(), total: d.total, available: d.available })
        },
    }
}

} // verus!
