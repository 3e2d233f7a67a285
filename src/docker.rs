//! The container runtime's disk-usage report (`docker system df`), read
//! into counts and byte sizes.
//!
//! Rows are matched by the prefix of their line (`Images`, `Containers`,
//! `Local Volumes`, `Build Cache`); after the label come the total count, the
//! active count, the size and the reclaimable size. A row with too few
//! columns is skipped, and a field that does not read as a number is zero.

use crate::text::{
    chars_of, decimal, decimal_text, has_prefix, lines, parse_plain_integer, plain_integer,
    split_lines, split_words, starts_with, string_views, text_of, views, words,
};
use crate::units::{token_bytes, token_size};
use vstd::prelude::*;

verus! {

/// What the container runtime reports of its disk usage.
#[derive(Debug, Clone, Copy, PartialEq, Eq, Structural)]
pub struct DockerUsage {
    pub image_count: u64,
    pub active_image_count: u64,
    pub image_bytes: u64,
    pub container_count: u64,
    pub running_container_count: u64,
    pub container_bytes: u64,
    pub volume_count: u64,
    pub active_volume_count: u64,
    pub volume_bytes: u64,
    pub build_cache_bytes: u64,
    pub reclaimable_bytes: u64,
}

pub open spec fn count_or_zero(t: Seq<char>) -> u64 {
    match plain_integer(t) {
        Some(v) => v as u64,
        None => 0,
    }
}

pub open spec fn bytes_or_zero(t: Seq<char>) -> u64 {
    match token_bytes(t) {
        Some(v) => v as u64,
        None => 0,
    }
}

pub open spec fn empty_usage() -> DockerUsage {
    DockerUsage {
        image_count: 0,
        active_image_count: 0,
        image_bytes: 0,
        container_count: 0,
        running_container_count: 0,
        container_bytes: 0,
        volume_count: 0,
        active_volume_count: 0,
        volume_bytes: 0,
        build_cache_bytes: 0,
        reclaimable_bytes: 0,
    }
}

/// `u` updated by one line of the report.
pub open spec fn apply_row(u: DockerUsage, line: Seq<char>) -> DockerUsage {
    let w = words(line);
    if has_prefix(line, "Images"@) && w.len() >= 5 {
        DockerUsage {
            image_count: count_or_zero(w[1]),
            active_image_count: count_or_zero(w[2]),
            image_bytes: bytes_or_zero(w[3]),
            reclaimable_bytes: bytes_or_zero(w[4]),
            ..u
        }
    } else if has_prefix(line, "Containers"@) && w.len() >= 4 {
        DockerUsage {
            container_count: count_or_zero(w[1]),
            running_container_count: count_or_zero(w[2]),
            container_bytes: bytes_or_zero(w[3]),
            ..u
        }
    } else if has_prefix(line, "Local Volumes"@) && w.len() >= 5 {
        DockerUsage {
            volume_count: count_or_zero(w[2]),
            active_volume_count: count_or_zero(w[3]),
            volume_bytes: bytes_or_zero(w[4]),
            ..u
        }
    } else if has_prefix(line, "Build Cache"@) && w.len() >= 5 {
        DockerUsage { build_cache_bytes: bytes_or_zero(w[4]), ..u }
    } else {
        u
    }
}

/// The usage that the lines `ls` report, read in order; a later row of the
/// same kind replaces an earlier one.
pub open spec fn usage_of_lines(ls: Seq<Seq<char>>) -> DockerUsage
    decreases ls.len(),
{
    if ls.len() == 0 {
        empty_usage()
    } else {
        apply_row(usage_of_lines(ls.drop_last()), ls.last())
    }
}

pub open spec fn usage_of_report(output: Seq<char>) -> DockerUsage {
    usage_of_lines(lines(output))
}

/// A line that the Images row is read from.
pub open spec fn images_row(line: Seq<char>) -> bool {
    has_prefix(line, "Images"@) && words(line).len() >= 5
}

/// A line that the Containers row is read from.
pub open spec fn containers_row(line: Seq<char>) -> bool {
    !images_row(line) && has_prefix(line, "Containers"@) && words(line).len() >= 4
}

pub open spec fn images_read(ls: Seq<Seq<char>>) -> bool {
    exists|i: int| 0 <= i < ls.len() && images_row(#[trigger] ls[i])
}

pub open spec fn containers_read(ls: Seq<Seq<char>>) -> bool {
    exists|i: int| 0 <= i < ls.len() && containers_row(#[trigger] ls[i])
}

fn count_field(t: &Vec<char>) -> (r: u64)
    ensures
        r == count_or_zero(t@),
{
    match parse_plain_integer(t) {
        Some(v) => v,
        None => 0,
    }
}

fn bytes_field(t: &Vec<char>) -> (r: u64)
    ensures
        r == bytes_or_zero(t@),
{
    match token_size(t) {
        Some(v) => v,
        None => 0,
    }
}

fn apply_line(u: &mut DockerUsage, line: &Vec<char>) -> (r: (bool, bool))
    ensures
        *final(u) == apply_row(*old(u), line@),
        r.0 == images_row(line@),
        r.1 == containers_row(line@),
{
    let w = split_words(line);
    proof {
        assert(views(w@) == words(line@));
        assert forall|i: int| 0 <= i < w@.len() implies #[trigger] w@[i]@ == words(line@)[i] by {
            assert(views(w@)[i] == w@[i]@);
        }
    }
    let images = starts_with(line, "Images") && w.len() >= 5;
    let containers = !images && starts_with(line, "Containers") && w.len() >= 4;
    if images {
        u.image_count = count_field(&w[1]);
        u.active_image_count = count_field(&w[2]);
        u.image_bytes = bytes_field(&w[3]);
        u.reclaimable_bytes = bytes_field(&w[4]);
    } else if containers {
        u.container_count = count_field(&w[1]);
        u.running_container_count = count_field(&w[2]);
        u.container_bytes = bytes_field(&w[3]);
    } else if starts_with(line, "Local Volumes") && w.len() >= 5 {
        u.volume_count = count_field(&w[2]);
        u.active_volume_count = count_field(&w[3]);
        u.volume_bytes = bytes_field(&w[4]);
    } else if starts_with(line, "Build Cache") && w.len() >= 5 {
        u.build_cache_bytes = bytes_field(&w[4]);
    }
    (images, containers)
}

/// Reads the report, and tells whether an Images row and a Containers row
/// with enough columns were read.
fn read_report(output: &str) -> (r: (DockerUsage, bool, bool))
    ensures
        r.0 == usage_of_report(output@),
        r.1 == images_read(lines(output@)),
        r.2 == containers_read(lines(output@)),
{
    let ls = split_lines(&chars_of(output));
    let ghost lv = views(ls@);
    let mut u = DockerUsage {
        image_count: 0,
        active_image_count: 0,
        image_bytes: 0,
        container_count: 0,
        running_container_count: 0,
        container_bytes: 0,
        volume_count: 0,
        active_volume_count: 0,
        volume_bytes: 0,
        build_cache_bytes: 0,
        reclaimable_bytes: 0,
    };
    let mut seen_images = false;
    let mut seen_containers = false;
    let mut i: usize = 0;
    while i < ls.len()
        invariant
            i <= ls.len(),
            lv == views(ls@),
            lv == lines(output@),
            u == usage_of_lines(lv.take(i as int)),
            seen_images == (exists|j: int| 0 <= j < i && images_row(#[trigger] lv[j])),
            seen_containers == (exists|j: int| 0 <= j < i && containers_row(#[trigger] lv[j])),
        decreases ls.len() - i,
    {
        assert(lv.take(i + 1).drop_last() =~= lv.take(i as int));
        assert(lv[i as int] == ls@[i as int]@);
        let (im, co) = apply_line(&mut u, &ls[i]);
        proof {
            if seen_images {
                let j = choose|j: int| 0 <= j < i && images_row(#[trigger] lv[j]);
                assert(0 <= j < i + 1 && images_row(lv[j]));
            }
            if seen_containers {
                let j = choose|j: int| 0 <= j < i && containers_row(#[trigger] lv[j]);
                assert(0 <= j < i + 1 && containers_row(lv[j]));
            }
        }
        seen_images = seen_images || im;
        seen_containers = seen_containers || co;
        i = i + 1;
    }
    assert(lv.take(ls.len() as int) =~= lv);
    (u, seen_images, seen_containers)
}

/// Reads the container runtime's disk-usage report. Never fails: rows that
/// are missing or short leave their fields at zero.
pub fn parse_docker_system_df(output: &str) -> (r: DockerUsage)
    ensures
        r == usage_of_report(output@),
{
    let (u, _, _) = read_report(output);
    u
}

/// A summary of the container runtime's disk usage for display.
#[derive(Debug)]
pub struct DockerInfo {
    /// `"<total> total, <active> active"` images; empty when the report has
    /// no Images row with enough columns.
    pub images: String,
    /// `"<total> total, <running> running"` containers; empty when the report
    /// has no Containers row with enough columns.
    pub containers: String,
    /// Bytes held by images.
    pub total_size: u64,
    /// Bytes that pruning unused images would free.
    pub reclaimable_size: u64,
}

fn count_pair(total: u64, sep: &str, active: u64, tail: &str) -> (r: String)
    ensures
        r@ == decimal(total as nat) + sep@ + decimal(active as nat) + tail@,
{
    let mut s = decimal_text(total);
    s.append(sep);
    let a = decimal_text(active);
    s.append(a.as_str());
    s.append(tail);
    s
}

/// Reads the disk-usage report into a display summary. Never fails.
pub fn parse_docker_output(output: &str) -> (r: DockerInfo)
    ensures
        ({
            let ls = lines(output@);
            let u = usage_of_report(output@);
            &&& r.images@ == if images_read(ls) {
                decimal(u.image_count as nat) + " total, "@ + decimal(u.active_image_count as nat)
                    + " active"@
            } else {
                Seq::<char>::empty()
            }
            &&& r.containers@ == if containers_read(ls) {
                decimal(u.container_count as nat) + " total, "@ + decimal(
                    u.running_container_count as nat,
                ) + " running"@
            } else {
                Seq::<char>::empty()
            }
            &&& r.total_size == u.image_bytes
            &&& r.reclaimable_size == u.reclaimable_bytes
        }),
{
    let (u, seen_images, seen_containers) = read_report(output);
    let images = if seen_images {
        count_pair(u.image_count, " total, ", u.active_image_count, " active")
    } else {
        String::new()
    };
    let containers = if seen_containers {
        count_pair(u.container_count, " total, ", u.running_container_count, " running")
    } else {
        String::new()
    };
    DockerInfo { images, containers, total_size: u.image_bytes, reclaimable_size: u.reclaimable_bytes }
}

/// One pruning command of the container runtime.
#[derive(Debug, Clone, Copy, PartialEq, Eq, Structural)]
pub enum PruneKind {
    /// Unused images, stopped containers, networks and build cache.
    Everything,
    StoppedContainers,
    UnusedImages,
    UnusedVolumes,
    BuildCache,
}

/// Which kinds of data the user chose to prune one by one.
#[derive(Debug, Clone, Copy, PartialEq, Eq, Structural)]
pub struct PruneSelection {
    pub images: bool,
    pub containers: bool,
    pub volumes: bool,
    pub build_cache: bool,
}

/// The arguments given to the container runtime for a pruning command.
pub open spec fn prune_args(k: PruneKind) -> Seq<Seq<char>> {
    match k {
        PruneKind::Everything => seq!["system"@, "prune"@, "-a"@, "-f"@],
        PruneKind::StoppedContainers => seq!["container"@, "prune"@, "-f"@],
        PruneKind::UnusedImages => seq!["image"@, "prune"@, "-a"@, "-f"@],
        PruneKind::UnusedVolumes => seq!["volume"@, "prune"@, "-f"@],
        PruneKind::BuildCache => seq!["builder"@, "prune"@, "-a"@, "-f"@],
    }
}

/// The chosen pruning commands, containers first, then images, volumes and
/// build cache.
pub open spec fn selected_prunes(sel: PruneSelection) -> Seq<PruneKind> {
    (if sel.containers {
        seq![PruneKind::StoppedContainers]
    } else {
        Seq::empty()
    }) + (if sel.images {
        seq![PruneKind::UnusedImages]
    } else {
        Seq::empty()
    }) + (if sel.volumes {
        seq![PruneKind::UnusedVolumes]
    } else {
        Seq::empty()
    }) + (if sel.build_cache {
        seq![PruneKind::BuildCache]
    } else {
        Seq::empty()
    })
}

/// The commands to run: none in a dry run; one that prunes everything when
/// the user authorized that; else the ones chosen one by one.
pub open spec fn prune_plan(dry_run: bool, prune_all: bool, sel: PruneSelection) -> Seq<PruneKind> {
    if dry_run {
        Seq::empty()
    } else if prune_all {
        seq![PruneKind::Everything]
    } else {
        selected_prunes(sel)
    }
}

fn push_arg(v: &mut Vec<String>, a: &str)
    ensures
        string_views(final(v)@) == string_views(old(v)@).push(a@),
{
    v.push(a.to_owned());
    assert(string_views(final(v)@) =~= string_views(old(v)@).push(a@));
}

/// The arguments for the container runtime's pruning command.
pub fn prune_arguments(k: PruneKind) -> (r: Vec<String>)
    ensures
        string_views(r@) == prune_args(k),
{
    let mut v: Vec<String> = Vec::new();
    assert(string_views(v@) =~= Seq::<Seq<char>>::empty());
    match k {
        PruneKind::Everything => {
            push_arg(&mut v, "system");
            push_arg(&mut v, "prune");
            push_arg(&mut v, "-a");
            push_arg(&mut v, "-f");
        },
        PruneKind::StoppedContainers => {
            push_arg(&mut v, "container");
            push_arg(&mut v, "prune");
            push_arg(&mut v, "-f");
        },
        PruneKind::UnusedImages => {
            push_arg(&mut v, "image");
            push_arg(&mut v, "prune");
            push_arg(&mut v, "-a");
            push_arg(&mut v, "-f");
        },
        PruneKind::UnusedVolumes => {
            push_arg(&mut v, "volume");
            push_arg(&mut v, "prune");
            push_arg(&mut v, "-f");
        },
        PruneKind::BuildCache => {
            push_arg(&mut v, "builder");
            push_arg(&mut v, "prune");
            push_arg(&mut v, "-a");
            push_arg(&mut v, "-f");
        },
    }
    assert(string_views(v@) =~= prune_args(k));
    v
}

/// The pruning commands to run for a cleanup of the container runtime.
pub fn plan_docker_cleanup(dry_run: bool, prune_all: bool, sel: PruneSelection) -> (r: Vec<
    PruneKind,
>)
    ensures
        r@ == prune_plan(dry_run, prune_all, sel),
{
    let mut v: Vec<PruneKind> = Vec::new();
    if dry_run {
        assert(v@ =~= prune_plan(dry_run, prune_all, sel));
        return v;
    }
    if prune_all {
        v.push(PruneKind::Everything);
        assert(v@ =~= prune_plan(dry_run, prune_all, sel));
        return v;
    }
    if sel.containers {
        v.push(PruneKind::StoppedContainers);
    }
    if sel.images {
        v.push(PruneKind::UnusedImages);
    }
    if sel.volumes {
        v.push(PruneKind::UnusedVolumes);
    }
    if sel.build_cache {
        v.push(PruneKind::BuildCache);
    }
    assert(v@ =~= prune_plan(dry_run, prune_all, sel));
    v
}

/// Whether a pruning command that fails fails the whole cleanup: only the
/// full prune does; a failed prune of one kind of data is passed over.
pub open spec fn prune_failure_fatal(k: PruneKind) -> bool {
    k == PruneKind::Everything
}

/// Whether a failure of the pruning command `k` ends the cleanup with an error.
pub fn failure_is_fatal(k: PruneKind) -> (r: bool)
    ensures
        r == prune_failure_fatal(k),
{
    match k {
        PruneKind::Everything => true,
        _ => false,
    }
}

/// What to show of a pruning command's output.
#[derive(Debug)]
pub struct PruneReport {
    /// The last line, when it states the total space reclaimed.
    pub reclaimed: Option<String>,
    /// The lines among the first five that name a deleted object.
    pub deleted: Vec<String>,
    /// The output has more than five lines.
    pub more: bool,
}

pub open spec fn reclaimed_line(ls: Seq<Seq<char>>) -> Option<Seq<char>> {
    if ls.len() > 0 && has_prefix(ls.last(), "Total reclaimed space:"@) {
        Some(ls.last())
    } else {
        None
    }
}

pub open spec fn is_deleted_line(l: Seq<char>) -> bool {
    has_prefix(l, "Deleted"@)
}

pub open spec fn shown_deleted(ls: Seq<Seq<char>>) -> Seq<Seq<char>> {
    ls.take(if ls.len() < 5 {
        ls.len() as int
    } else {
        5
    }).filter(|l: Seq<char>| is_deleted_line(l))
}

/// Picks out of a pruning command's output the total reclaimed and the first
/// deleted objects.
pub fn summarize_prune_output(stdout: &str) -> (r: PruneReport)
    ensures
        match reclaimed_line(lines(stdout@)) {
            Some(l) => r.reclaimed is Some && r.reclaimed->0@ == l,
            None => r.reclaimed is None,
        },
        string_views(r.deleted@) == shown_deleted(lines(stdout@)),
        r.more == (lines(stdout@).len() > 5),
{
    let ls = split_lines(&chars_of(stdout));
    let ghost lv = views(ls@);
    let n = ls.len();
    let reclaimed = if n > 0 && starts_with(&ls[n - 1], "Total reclaimed space:") {
        assert(lv.last() == ls@[n - 1]@);
        Some(text_of(&ls[n - 1]))
    } else {
        proof {
            if n > 0 {
                assert(lv.last() == ls@[n - 1]@);
            }
        }
        None
    };
    let shown: usize = if n < 5 {
        n
    } else {
        5
    };
    let mut deleted: Vec<String> = Vec::new();
    let mut i: usize = 0;
    while i < shown
        invariant
            lv == views(ls@),
            shown <= ls.len(),
            i <= shown,
            string_views(deleted@) == lv.take(i as int).filter(|l: Seq<char>| is_deleted_line(l)),
        decreases shown - i,
    {
        assert(lv.take(i + 1) =~= lv.take(i as int).push(ls@[i as int]@));
        proof {
            lv.take(i as int).lemma_filter_push(ls@[i as int]@, |l: Seq<char>| is_deleted_line(l));
        }
        if starts_with(&ls[i], "Deleted") {
            let t = text_of(&ls[i]);
            deleted.push(t);
            assert(string_views(deleted@) =~= lv.take(i + 1).filter(
                |l: Seq<char>| is_deleted_line(l),
            ));
        }
        i = i + 1;
    }
    PruneReport { reclaimed, deleted, more: n > 5 }
}

} // verus!
