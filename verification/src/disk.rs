//! The disks that are worth showing.

use vstd::prelude::*;

use crate::order;
use crate::text;
use crate::text_laws;

verus! {

/// A disk as the system reports it.
#[derive(Debug)]
pub struct RawDisk {
    pub name: String,
    pub mount_point: String,
    pub fs: String,
    pub total: u64,
    pub available: u64,
}

/// A disk as it is shown.
#[derive(Debug)]
pub struct DiskInfo {
    pub name: String,
    pub mount_point: String,
    /// The file system, in lower case.
    pub fs: String,
    pub total: u64,
    pub used: u64,
    pub available: u64,
}

/// What a disk as the system reports it holds.
pub struct Raw {
    pub name: Seq<char>,
    pub mount_point: Seq<char>,
    pub fs: Seq<char>,
    pub total: u64,
    pub available: u64,
}

/// What a disk as it is shown holds.
pub struct Info {
    pub name: Seq<char>,
    pub mount_point: Seq<char>,
    pub fs: Seq<char>,
    pub total: u64,
    pub used: u64,
    pub available: u64,
}

impl View for RawDisk {
    type V = Raw;

    open spec fn view(&self) -> Raw {
        Raw {
            name: self.name@,
            mount_point: self.mount_point@,
            fs: self.fs@,
            total: self.total,
            available: self.available,
        }
    }
}

impl View for DiskInfo {
    type V = Info;

    open spec fn view(&self) -> Info {
        Info {
            name: self.name@,
            mount_point: self.mount_point@,
            fs: self.fs@,
            total: self.total,
            used: self.used,
            available: self.available,
        }
    }
}

/// A text in lower case, as `str::to_lowercase` gives it.
pub uninterp spec fn lowercase(s: Seq<char>) -> Seq<char>;

/// `str::to_lowercase`: the text in lower case, by the properties that Unicode gives its
/// characters and by nothing else.
#[verifier::external_body]
fn to_lower(s: &str) -> (r: String)
    ensures
        r@ == lowercase(s@),
{
    s.to_lowercase()
}

/// What the disks hold as the system reports them.
pub open spec fn raws(disks: Seq<RawDisk>) -> Seq<Raw> {
    disks.map_values(|d: RawDisk| d@)
}

/// What the disks hold as they are shown.
pub open spec fn infos(disks: Seq<DiskInfo>) -> Seq<Info> {
    disks.map_values(|d: DiskInfo| d@)
}

/// Whether a disk is of no interest: without capacity, mounted for an application, or not a file
/// system on a device.
pub open spec fn skipped(mount_point: Seq<char>, fs: Seq<char>, total: u64) -> bool {
    ||| total == 0
    ||| text::has_prefix(mount_point, "/tmp/.mount_"@)
    ||| text::has_prefix(mount_point, "/snap"@)
    ||| text::has_text(fs, "squashfs"@)
    ||| text::has_text(fs, "fuse"@)
    ||| text::has_text(fs, "overlay"@)
}

/// Whether a disk is one of the mounts of a Btrfs device that are of interest.
pub open spec fn is_btrfs(disk: Raw) -> bool {
    let fs = lowercase(disk.fs);
    !skipped(disk.mount_point, fs, disk.total) && fs == "btrfs"@
}

/// Whether a Btrfs device is mounted by one of the disks.
pub open spec fn mounted(disks: Seq<Raw>, name: Seq<char>) -> bool {
    exists|i: int| 0 <= i < disks.len() && is_btrfs(#[trigger] disks[i]) && disks[i].name == name
}

/// Whether a disk that comes after others is shown: it is of interest, and it is not another mount
/// of a Btrfs device among those before it.
pub open spec fn shown_after(before: Seq<Raw>, disk: Raw) -> bool {
    &&& !skipped(disk.mount_point, lowercase(disk.fs), disk.total)
    &&& is_btrfs(disk) ==> !mounted(before, disk.name)
}

/// What is shown of a disk.
pub open spec fn info_of(disk: Raw) -> Info {
    Info {
        name: disk.name,
        mount_point: disk.mount_point,
        fs: lowercase(disk.fs),
        total: disk.total,
        used: if disk.available <= disk.total {
            (disk.total - disk.available) as u64
        } else {
            0
        },
        available: disk.available,
    }
}

/// The disks that are shown, in the order in which the system reports them.
pub open spec fn collected(disks: Seq<Raw>) -> Seq<Info>
    decreases disks.len(),
{
    if disks.len() == 0 {
        Seq::empty()
    } else if shown_after(disks.drop_last(), disks.last()) {
        collected(disks.drop_last()).push(info_of(disks.last()))
    } else {
        collected(disks.drop_last())
    }
}

/// No Btrfs device is shown twice.
pub proof fn law_btrfs_device_once(disks: Seq<Raw>, i: int, j: int)
    requires
        0 <= i < j < collected(disks).len(),
        collected(disks)[i].fs == "btrfs"@,
        collected(disks)[j].fs == "btrfs"@,
    ensures
        collected(disks)[i].name != collected(disks)[j].name,
    decreases disks.len(),
{
    let before = disks.drop_last();
    if disks.len() > 0 {
        if j < collected(before).len() {
            law_btrfs_device_once(before, i, j);
        } else {
            let k = lemma_shown_is_reported(before, i);
            assert(is_btrfs(before[k]));
        }
    }
}

/// Every Btrfs device that is mounted in a place of interest is shown.
pub proof fn law_btrfs_device_shown(disks: Seq<Raw>, i: int) -> (j: int)
    requires
        0 <= i < disks.len(),
        is_btrfs(disks[i]),
    ensures
        0 <= j < collected(disks).len(),
        collected(disks)[j].fs == "btrfs"@,
        collected(disks)[j].name == disks[i].name,
    decreases disks.len(),
{
    let before = disks.drop_last();
    if i < disks.len() - 1 {
        law_btrfs_device_shown(before, i)
    } else if mounted(before, disks[i].name) {
        let k = choose|k: int|
            0 <= k < before.len() && is_btrfs(#[trigger] before[k]) && before[k].name
                == disks[i].name;
        law_btrfs_device_shown(before, k)
    } else {
        collected(before).len() as int
    }
}

/// Of the mounts of a Btrfs device the first is the one that is shown.
pub proof fn law_btrfs_first_mount_is_shown(disks: Seq<Raw>, i: int)
    requires
        0 <= i < disks.len(),
        is_btrfs(disks[i]),
        !mounted(disks.take(i), disks[i].name),
    ensures
        collected(disks).contains(info_of(disks[i])),
    decreases disks.len(),
{
    let before = disks.drop_last();
    if i < disks.len() - 1 {
        assert(before.take(i) =~= disks.take(i));
        law_btrfs_first_mount_is_shown(before, i);
        if shown_after(before, disks.last()) {
            order::lemma_push_contains(
                collected(before),
                info_of(disks.last()),
                info_of(disks[i]),
            );
        }
    } else {
        assert(disks.take(i) =~= before);
        order::lemma_push_contains(collected(before), info_of(disks[i]), info_of(disks[i]));
    }
}

/// Every other disk of interest is shown.
pub proof fn law_other_disks_are_shown(disks: Seq<Raw>, i: int)
    requires
        0 <= i < disks.len(),
        !skipped(disks[i].mount_point, lowercase(disks[i].fs), disks[i].total),
        !is_btrfs(disks[i]),
    ensures
        collected(disks).contains(info_of(disks[i])),
    decreases disks.len(),
{
    let before = disks.drop_last();
    if i < disks.len() - 1 {
        law_other_disks_are_shown(before, i);
        if shown_after(before, disks.last()) {
            order::lemma_push_contains(
                collected(before),
                info_of(disks.last()),
                info_of(disks[i]),
            );
        }
    } else {
        order::lemma_push_contains(collected(before), info_of(disks[i]), info_of(disks[i]));
    }
}

/// Of a disk that is shown, the used and the available space make up the whole, where no more is
/// available than there is.
pub proof fn law_used_and_available(disks: Seq<Raw>, i: int)
    requires
        0 <= i < collected(disks).len(),
        collected(disks)[i].available <= collected(disks)[i].total,
    ensures
        collected(disks)[i].used + collected(disks)[i].available == collected(disks)[i].total,
{
    let k = lemma_shown_is_reported(disks, i);
}

/// A disk is of no interest if it has no capacity, if its mount point starts with one of the two
/// places for applications, or if the name of its file system holds one of three names.
pub proof fn law_skipped_disks(mount_point: Seq<char>, fs: Seq<char>, total: u64)
    ensures
        skipped(mount_point, fs, total) <==> {
            ||| total == 0
            ||| exists|rest: Seq<char>| mount_point == #[trigger] ("/tmp/.mount_"@ + rest)
            ||| exists|rest: Seq<char>| mount_point == #[trigger] ("/snap"@ + rest)
            ||| exists|a: Seq<char>, b: Seq<char>| fs == #[trigger] (a + "squashfs"@ + b)
            ||| exists|a: Seq<char>, b: Seq<char>| fs == #[trigger] (a + "fuse"@ + b)
            ||| exists|a: Seq<char>, b: Seq<char>| fs == #[trigger] (a + "overlay"@ + b)
        },
{
    text_laws::law_holding(mount_point, "/tmp/.mount_"@);
    text_laws::law_holding(mount_point, "/snap"@);
    text_laws::law_holding(fs, "squashfs"@);
    text_laws::law_holding(fs, "fuse"@);
    text_laws::law_holding(fs, "overlay"@);
}

/// A disk is shown under its name, with its mount point, its file system in lower case and its sizes;
/// what is not available is used, and nothing where more is available than there is.
pub proof fn law_info_of_a_disk(disk: Raw)
    ensures
        info_of(disk).name == disk.name,
        info_of(disk).mount_point == disk.mount_point,
        info_of(disk).fs == lowercase(disk.fs),
        info_of(disk).total == disk.total,
        info_of(disk).available == disk.available,
        disk.available <= disk.total ==> info_of(disk).used + disk.available == disk.total,
        disk.available > disk.total ==> info_of(disk).used == 0,
{
}

/// Disks are decided on one after the other: one more disk is shown behind the others, or left out.
/// It is left out if it is of no interest, or if it is one more mount of a Btrfs device that is
/// shown already.
pub proof fn law_disk_by_disk(disks: Seq<Raw>, disk: Raw)
    ensures
        collected(Seq::<Raw>::empty()) == Seq::<Info>::empty(),
        ({
            let fs = lowercase(disk.fs);
            let again = fs == "btrfs"@ && exists|k: int|
                0 <= k < collected(disks).len() && (#[trigger] collected(disks)[k]).fs == "btrfs"@
                    && collected(disks)[k].name == disk.name;
            collected(disks.push(disk)) == if skipped(disk.mount_point, fs, disk.total) || again {
                collected(disks)
            } else {
                collected(disks).push(info_of(disk))
            }
        }),
{
    let now = disks.push(disk);
    assert(now.drop_last() =~= disks);
    let shown = collected(disks);
    if mounted(disks, disk.name) {
        let i = choose|i: int|
            0 <= i < disks.len() && is_btrfs(#[trigger] disks[i]) && disks[i].name == disk.name;
        let j = law_btrfs_device_shown(disks, i);
        assert(shown[j].fs == "btrfs"@);
    }
    if exists|k: int|
        0 <= k < shown.len() && (#[trigger] shown[k]).fs == "btrfs"@ && shown[k].name == disk.name {
        let k = choose|k: int|
            0 <= k < shown.len() && (#[trigger] shown[k]).fs == "btrfs"@ && shown[k].name
                == disk.name;
        let i = lemma_shown_is_reported(disks, k);
        assert(is_btrfs(disks[i]));
    }
}

/// A disk holds what its fields say, and so do disks one by one.
pub proof fn law_disks_hold_their_fields(raw: Seq<RawDisk>, shown: Seq<DiskInfo>, i: int)
    ensures
        raws(raw).len() == raw.len() && infos(shown).len() == shown.len(),
        0 <= i < raw.len() ==> {
            let d = raws(raw)[i];
            &&& d.name == raw[i].name@ && d.mount_point == raw[i].mount_point@
            &&& d.fs == raw[i].fs@ && d.total == raw[i].total && d.available == raw[i].available
        },
        0 <= i < shown.len() ==> {
            let d = infos(shown)[i];
            &&& d.name == shown[i].name@ && d.mount_point == shown[i].mount_point@
            &&& d.fs == shown[i].fs@ && d.total == shown[i].total
            &&& d.used == shown[i].used && d.available == shown[i].available
        },
{
}

/// Every disk that is shown has capacity.
pub proof fn law_shown_has_capacity(disks: Seq<Raw>, i: int)
    requires
        0 <= i < collected(disks).len(),
    ensures
        collected(disks)[i].total > 0,
{
    let k = lemma_shown_is_reported(disks, i);
}

/// Every disk that is shown was reported and is of interest.
proof fn lemma_shown_is_reported(disks: Seq<Raw>, i: int) -> (k: int)
    requires
        0 <= i < collected(disks).len(),
    ensures
        0 <= k < disks.len(),
        collected(disks)[i] == info_of(disks[k]),
        !skipped(disks[k].mount_point, lowercase(disks[k].fs), disks[k].total),
    decreases disks.len(),
{
    let before = disks.drop_last();
    if disks.len() == 0 {
        0
    } else if i < collected(before).len() {
        lemma_shown_is_reported(before, i)
    } else {
        disks.len() - 1
    }
}

/// Tells whether a disk is of no interest.
pub fn should_skip(mount_point: &str, fs: &str, total: u64) -> (r: bool)
    ensures
        r == skipped(mount_point@, fs@, total),
{
    let mount: Vec<char> = text::chars_of(mount_point);
    let kind: Vec<char> = text::chars_of(fs);
    total == 0 || text::starts_with(mount.as_slice(), text::chars_of("/tmp/.mount_").as_slice())
        || text::starts_with(mount.as_slice(), text::chars_of("/snap").as_slice())
        || text::contains(kind.as_slice(), text::chars_of("squashfs").as_slice())
        || text::contains(kind.as_slice(), text::chars_of("fuse").as_slice())
        || text::contains(kind.as_slice(), text::chars_of("overlay").as_slice())
}

/// Tells whether a text is among others.
fn is_among(names: &Vec<String>, name: &str) -> (r: bool)
    ensures
        r == text::texts(names@).contains(name@),
{
    for i in 0..names.len()
        invariant
            forall|j: int| 0 <= j < i ==> (#[trigger] names@[j])@ != name@,
    {
        if text::same_text(names[i].as_str(), name) {
            assert(text::texts(names@)[i as int] == name@);
            return true;
        }
    }
    assert(!text::texts(names@).contains(name@)) by {
        if text::texts(names@).contains(name@) {
            let k = text::texts(names@).index_of(name@);
            assert(names@[k]@ == name@);
        }
    }
    false
}

/// Decides on a disk whose file system is given in lower case; `seen` holds the names of the Btrfs
/// devices that were shown before, none of them twice.
pub fn examine_disk(disk: &RawDisk, fs: String, seen: &mut Vec<String>) -> (r: Option<DiskInfo>)
    requires
        text::texts(old(seen)@).no_duplicates(),
    ensures
        text::texts(final(seen)@).no_duplicates(),
        r is Some <==> {
            &&& !skipped(disk.mount_point@, fs@, disk.total)
            &&& fs@ == "btrfs"@ ==> !text::texts(old(seen)@).contains(disk.name@)
        },
        r matches Some(info) ==> info@ == (Info { fs: fs@, ..info_of(disk@) }),
        text::texts(final(seen)@) == if r is Some && fs@ == "btrfs"@ {
            text::texts(old(seen)@).push(disk.name@)
        } else {
            text::texts(old(seen)@)
        },
{
    if should_skip(disk.mount_point.as_str(), fs.as_str(), disk.total) {
        return None;
    }
    if text::same_text(fs.as_str(), "btrfs") {
        if is_among(seen, disk.name.as_str()) {
            return None;
        }
        seen.push(disk.name.clone());
        assert(text::texts(seen@) =~= text::texts(old(seen)@).push(disk.name@));
    }
    Some(
        DiskInfo {
            name: disk.name.clone(),
            mount_point: disk.mount_point.clone(),
            fs,
            total: disk.total,
            used: if disk.available <= disk.total {
                disk.total - disk.available
            } else {
                0
            },
            available: disk.available,
        },
    )
}

/// Decides on a disk as the system reports it.
pub fn collect_disk(disk: &RawDisk, seen: &mut Vec<String>) -> (r: Option<DiskInfo>)
    requires
        text::texts(old(seen)@).no_duplicates(),
    ensures
        text::texts(final(seen)@).no_duplicates(),
        r is Some <==> {
            &&& !skipped(disk.mount_point@, lowercase(disk.fs@), disk.total)
            &&& lowercase(disk.fs@) == "btrfs"@ ==> !text::texts(old(seen)@).contains(disk.name@)
        },
        r matches Some(info) ==> info@ == info_of(disk@),
        text::texts(final(seen)@) == if r is Some && lowercase(disk.fs@) == "btrfs"@ {
            text::texts(old(seen)@).push(disk.name@)
        } else {
            text::texts(old(seen)@)
        },
{
    let fs: String = to_lower(disk.fs.as_str());
    examine_disk(disk, fs, seen)
}

/// Picks the disks that are worth showing: of a Btrfs device only the first mount.
pub fn collect_disks(disks: &Vec<RawDisk>) -> (shown: Vec<DiskInfo>)
    ensures
        infos(shown@) == collected(raws(disks@)),
{
    let mut seen: Vec<String> = Vec::new();
    let mut shown: Vec<DiskInfo> = Vec::new();
    let ghost all = raws(disks@);
    assert(infos(shown@) =~= collected(all.take(0)));
    for i in 0..disks.len()
        invariant
            all == raws(disks@),
            text::texts(seen@).no_duplicates(),
            infos(shown@) == collected(all.take(i as int)),
            forall|name: Seq<char>| #[trigger]
                text::texts(seen@).contains(name) <==> mounted(all.take(i as int), name),
    {
        let ghost before = all.take(i as int);
        let ghost now = all.take(i + 1);
        let ghost names = text::texts(seen@);
        let ghost out = infos(shown@);
        let ghost disk = disks@[i as int]@;
        assert(now.drop_last() == before);
        assert(now.last() == disk);
        let found: Option<DiskInfo> = collect_disk(&disks[i], &mut seen);
        assert(names.contains(disk.name) <==> mounted(before, disk.name));
        proof {
            assert(found is Some <==> shown_after(before, disk));
            assert forall|name: Seq<char>| #[trigger]
                text::texts(seen@).contains(name) <==> mounted(now, name) by {
                lemma_mounted_step(before, disk, name);
                assert(now == before.push(disk));
                assert(names.contains(name) <==> mounted(before, name));
                if is_btrfs(disk) && found is Some {
                    order::lemma_push_contains(names, disk.name, name);
                }
            }
        }
        if let Some(info) = found {
            shown.push(info);
            assert(infos(shown@) =~= out.push(info@));
        }
    }
    assert(all.take(all.len() as int) == all);
    shown
}

/// A device is mounted by one disk more if that disk mounts it.
proof fn lemma_mounted_step(before: Seq<Raw>, disk: Raw, name: Seq<char>)
    ensures
        mounted(before.push(disk), name) <==> mounted(before, name) || is_btrfs(disk) && disk.name
            == name,
{
    let now = before.push(disk);
    if mounted(before, name) {
        let k = choose|k: int|
            0 <= k < before.len() && is_btrfs(#[trigger] before[k]) && before[k].name == name;
        assert(now[k] == before[k]);
    }
    if is_btrfs(disk) && disk.name == name {
        assert(now[before.len() as int] == disk);
    }
    if mounted(now, name) {
        let k = choose|k: int|
            0 <= k < now.len() && is_btrfs(#[trigger] now[k]) && now[k].name == name;
        if k < before.len() {
            assert(now[k] == before[k]);
        }
    }
}

} // verus!
