//! System metrics: the integer arithmetic and disk selection done on raw
//! readings, and the rendered figures that reports show.

use vstd::prelude::*;

use crate::text::views;

verus! {

/// How many one-second CPU samples are taken for an interval.
pub fn cpu_sample_count(interval_seconds: u64) -> (n: u64)
    ensures
        n == if interval_seconds < 1 { 1 } else { interval_seconds },
{
    if interval_seconds < 1 {
        1
    } else {
        interval_seconds
    }
}

/// Memory amounts in whole mebibytes.
#[derive(Debug, Clone, Copy)]
pub struct MemoryAmounts {
    pub total_mb: u64,
    pub used_mb: u64,
    pub available_mb: u64,
    pub swap_total_mb: u64,
    pub swap_used_mb: u64,
}

/// Converts byte counts to whole mebibytes (rounding down).
pub fn memory_amounts(total: u64, used: u64, available: u64, swap_total: u64, swap_used: u64) -> (m: MemoryAmounts)
    ensures
        m.total_mb == total / 1048576,
        m.used_mb == used / 1048576,
        m.available_mb == available / 1048576,
        m.swap_total_mb == swap_total / 1048576,
        m.swap_used_mb == swap_used / 1048576,
{
    MemoryAmounts {
        total_mb: total / 1024 / 1024,
        used_mb: used / 1024 / 1024,
        available_mb: available / 1024 / 1024,
        swap_total_mb: swap_total / 1024 / 1024,
        swap_used_mb: swap_used / 1024 / 1024,
    }
}

/// One mounted disk as the system reports it.
#[derive(Debug, Clone)]
pub struct DiskSpace {
    pub mount_point: String,
    pub total: u64,
    pub available: u64,
}

/// Space on a configured mount point, in bytes.
#[derive(Debug, Clone)]
pub struct DiskUsage {
    pub mount_point: String,
    pub total: u64,
    pub used: u64,
    pub available: u64,
}

/// The index of the first disk mounted at `m`, or `disks.len()`.
pub open spec fn first_disk_at(disks: Seq<DiskSpace>, m: Seq<char>, k: int) -> bool {
    &&& 0 <= k <= disks.len()
    &&& forall|j: int| 0 <= j < k ==> disks[j].mount_point@ != m
    &&& k < disks.len() ==> disks[k].mount_point@ == m
}

/// What is reported for mount point `m` given the disk found there.
pub open spec fn usage_of(m: Seq<char>, d: DiskSpace) -> (Seq<char>, u64, u64, u64) {
    (m, d.total, if d.total >= d.available { (d.total - d.available) as u64 } else { 0 }, d.available)
}

/// A usage record as plain values.
pub open spec fn usage_view(u: DiskUsage) -> (Seq<char>, u64, u64, u64) {
    (u.mount_point@, u.total, u.used, u.available)
}

/// The reports for the configured mount points, in their order: for each,
/// the first disk mounted there; mount points with no such disk are left out.
pub open spec fn matched_usage(mounts: Seq<Seq<char>>, disks: Seq<DiskSpace>) -> Seq<(Seq<char>, u64, u64, u64)>
    decreases mounts.len(),
{
    if mounts.len() == 0 {
        Seq::empty()
    } else {
        let rest = matched_usage(mounts.drop_last(), disks);
        let m = mounts.last();
        if exists|k: int| 0 <= k < disks.len() && disks[k].mount_point@ == m {
            let k = choose|k: int| first_disk_at(disks, m, k) && k < disks.len();
            rest.push(usage_of(m, disks[k]))
        } else {
            rest
        }
    }
}

/// The configured mount points with no disk mounted there.
pub open spec fn unmatched_mounts(mounts: Seq<Seq<char>>, disks: Seq<DiskSpace>) -> Seq<Seq<char>>
    decreases mounts.len(),
{
    if mounts.len() == 0 {
        Seq::empty()
    } else {
        let rest = unmatched_mounts(mounts.drop_last(), disks);
        let m = mounts.last();
        if exists|k: int| 0 <= k < disks.len() && disks[k].mount_point@ == m {
            rest
        } else {
            rest.push(m)
        }
    }
}

proof fn lemma_first_disk_unique(disks: Seq<DiskSpace>, m: Seq<char>, a: int, b: int)
    requires
        first_disk_at(disks, m, a),
        first_disk_at(disks, m, b),
    ensures
        a == b,
{
    if a < b {
        assert(disks[a].mount_point@ != m);
    } else if b < a {
        assert(disks[b].mount_point@ != m);
    }
}

/// Picks, for each configured mount point, the first disk mounted there,
/// with its used space (`total - available`, never below zero); also lists
/// the mount points that no disk matched.
pub fn match_disks(mount_points: &Vec<String>, disks: &Vec<DiskSpace>) -> (r: (Vec<DiskUsage>, Vec<String>))
    ensures
        r.0@.map_values(|u: DiskUsage| usage_view(u)) == matched_usage(views(mount_points@), disks@),
        views(r.1@) == unmatched_mounts(views(mount_points@), disks@),
{
    let mut found: Vec<DiskUsage> = Vec::new();
    let mut missing: Vec<String> = Vec::new();
    let mut i: usize = 0;
    while i < mount_points.len()
        invariant
            i <= mount_points.len(),
            found@.map_values(|u: DiskUsage| usage_view(u)) == matched_usage(views(mount_points@).take(i as int), disks@),
            views(missing@) == unmatched_mounts(views(mount_points@).take(i as int), disks@),
        decreases mount_points.len() - i,
    {
        let ghost pre = views(mount_points@).take(i as int);
        let ghost next = views(mount_points@).take(i + 1);
        let ghost m = mount_points@[i as int]@;
        proof {
            assert(next.drop_last() == pre);
            assert(next.last() == m);
        }
        let mut k: usize = 0;
        while k < disks.len() && disks[k].mount_point != mount_points[i]
            invariant
                k <= disks.len(),
                i < mount_points.len(),
                m == mount_points@[i as int]@,
                forall|j: int| 0 <= j < k ==> disks@[j].mount_point@ != m,
            decreases disks.len() - k,
        {
            k = k + 1;
        }
        assert(first_disk_at(disks@, m, k as int));
        if k < disks.len() {
            let d = &disks[k];
            let used = if d.total >= d.available { d.total - d.available } else { 0 };
            let ghost before = found@.map_values(|u: DiskUsage| usage_view(u));
            found.push(DiskUsage {
                mount_point: mount_points[i].clone(),
                total: d.total,
                used,
                available: d.available,
            });
            proof {
                assert(exists|k2: int| 0 <= k2 < disks@.len() && disks@[k2].mount_point@ == m);
                let k2 = choose|k2: int| first_disk_at(disks@, m, k2) && k2 < disks@.len();
                lemma_first_disk_unique(disks@, m, k as int, k2);
                assert(found@.map_values(|u: DiskUsage| usage_view(u)) =~= before.push(usage_of(m, disks@[k as int])));
            }
        } else {
            let ghost before = views(missing@);
            missing.push(mount_points[i].clone());
            proof {
                assert(!(exists|k2: int| 0 <= k2 < disks@.len() && disks@[k2].mount_point@ == m));
                assert(views(missing@) =~= before.push(m));
            }
        }
        i = i + 1;
    }
    proof {
        assert(views(mount_points@).take(mount_points.len() as int) == views(mount_points@));
    }
    (found, missing)
}

/// CPU figures: the average usage rendered as `{:.1}` renders the measured
/// percentage, and the sampling interval.
#[derive(Debug, Clone)]
pub struct CpuFigures {
    pub average_usage: String,
    pub interval_seconds: u64,
}

/// Memory figures in mebibytes; `usage_percent` is rendered as `{:.1}`.
#[derive(Debug, Clone)]
pub struct MemoryFigures {
    pub total_mb: u64,
    pub used_mb: u64,
    pub available_mb: u64,
    pub usage_percent: String,
    pub swap_total_mb: u64,
    pub swap_used_mb: u64,
}

/// Load averages, each rendered as `{:.2}`.
#[derive(Debug, Clone)]
pub struct LoadFigures {
    pub one: String,
    pub five: String,
    pub fifteen: String,
}

/// Disk figures in gibibytes and percent, each rendered as `{:.1}`.
#[derive(Debug, Clone)]
pub struct DiskFigures {
    pub mount_point: String,
    pub total_gb: String,
    pub used_gb: String,
    pub available_gb: String,
    pub usage_percent: String,
}

/// A metrics snapshot as reports show it.
#[derive(Debug, Clone)]
pub struct MetricsFigures {
    pub cpu: Option<CpuFigures>,
    pub memory: Option<MemoryFigures>,
    pub load_average: Option<LoadFigures>,
    pub disks: Vec<DiskFigures>,
    /// RFC 3339 time of collection.
    pub collected_at: String,
}

} // verus!
