//! Block devices from `/proc/diskstats`, and mounted filesystems from
//! `/proc/self/mounts`.

use vstd::prelude::*;

use crate::collector::{Collected, Collector};
use crate::collectors::counters::{counters_of, read_counters};
use crate::error::{Error, ErrorView};
use crate::number::all_digits;
use crate::sample::{
    option_view, views, DiskDevice, DiskDeviceView, DiskSample, DiskSampleView, MountPoint,
    MountPointView, Snapshot, SnapshotView,
};
use crate::sysfs::{
    is_all_digits, is_safe_component, quoted, safe_component, sanitize, sanitized, show,
    SysfsReader, DEFAULT_MAX_LINES,
};
use crate::text::{
    begins, chars_of, first_lines, first_of, is_text, lines_of, slices, starts_with, string_of,
    strings, strip_prefix, text2, trim, trim_of, without_prefix, words, words_of,
};
use crate::units::Bytes;

verus! {

pub const NAME: &'static str = "disk";

pub const PROC_DISKSTATS: &'static str = "proc/diskstats";

pub const PROC_MOUNTS: &'static str = "proc/self/mounts";

/// Every kernel writes at least this many counters behind a device's name.
pub const DISKSTATS_FIELDS: usize = 11;

/// Cap on a mount's texts: the longest path that Linux knows.
pub const MAX_MOUNT_FIELD_LEN: usize = 4096;

// ---------------------------------------------------------------------------
// Devices
// ---------------------------------------------------------------------------
/// The device that a line of `/proc/diskstats` describes, if it is not blank:
/// two numbers, a name, and counters.
pub open spec fn disk_line_of(path: Seq<char>, line_no: usize, line: Seq<char>) -> Result<
    Option<DiskDeviceView>,
    ErrorView,
> {
    let fields = words_of(line);
    if trim_of(line).len() == 0 {
        Ok(None)
    } else if fields.len() < 3 {
        Err(
            ErrorView::Parse { path, line: Some(line_no), reason: "line has no device name"@ },
        )
    } else if !safe_component(fields[2]) {
        Err(
            ErrorView::Parse {
                path,
                line: Some(line_no),
                reason: "unsafe device name "@ + quoted(sanitized(fields[2], 32)),
            },
        )
    } else {
        match counters_of(path, line_no, fields.skip(3), DISKSTATS_FIELDS as nat) {
            Err(e) => Err(e),
            Ok(v) => Ok(
                Some(
                    DiskDeviceView {
                        name: fields[2],
                        reads_completed: v[0],
                        sectors_read: v[2],
                        writes_completed: v[4],
                        sectors_written: v[6],
                        io_ticks_ms: v[9],
                    },
                ),
            ),
        }
    }
}

pub open spec fn device_view(r: Result<Option<DiskDevice>, Error>) -> Result<
    Option<DiskDeviceView>,
    ErrorView,
> {
    match r {
        Ok(d) => Ok(option_view(d)),
        Err(e) => Err(e@),
    }
}

fn parse_line(path: &str, line_no: usize, line: &[char]) -> (r: Result<Option<DiskDevice>, Error>)
    ensures
        device_view(r) == disk_line_of(path@, line_no, line@),
{
    if trim(line).len() == 0 {
        return Ok(None);
    }
    let fields = words(line);
    let ghost fs = slices(fields@);
    if fields.len() < 3 {
        return Err(Error::parse(path, Some(line_no), "line has no device name".to_owned()));
    }
    assert(fs[2] == fields@[2]@);
    let name = string_of(fields[2]);
    if !is_safe_component(name.as_str()) {
        let shown = show(fields[2], 32);
        return Err(
            Error::parse(path, Some(line_no), text2("unsafe device name ", shown.as_str())),
        );
    }
    let v = match read_counters(path, line_no, &fields, 3, DISKSTATS_FIELDS) {
        Err(e) => return Err(e),
        Ok(v) => v,
    };
    Ok(
        Some(
            DiskDevice {
                name,
                reads_completed: v[0],
                sectors_read: v[2],
                writes_completed: v[4],
                sectors_written: v[6],
                io_ticks_ms: v[9],
            },
        ),
    )
}

/// One line of `/proc/diskstats`. There is no header, so that a line which
/// makes no sense is an error.
pub fn parse_diskstats_line(path: &str, line_no: usize, line: &str) -> (r: Result<
    Option<DiskDevice>,
    Error,
>)
    ensures
        device_view(r) == disk_line_of(path@, line_no, line@),
{
    let cs = chars_of(line);
    parse_line(path, line_no, cs.as_slice())
}

/// A device that is no hardware.
pub open spec fn virtual_device(name: Seq<char>) -> bool {
    begins(name, "loop"@) || begins(name, "ram"@) || begins(name, "zram"@) || begins(name, "dm-"@)
        || begins(name, "md"@)
}

/// What stands behind a disk's name in the name of its partition: a number,
/// or `p` and a number.
pub open spec fn partition_suffix(s: Seq<char>) -> bool {
    s.len() > 0 && (all_digits(s, 10) || (s[0] == 'p' && s.len() > 1 && all_digits(
        s.drop_first(),
        10,
    )))
}

pub open spec fn partition_of(name: Seq<char>, other: Seq<char>) -> bool {
    other != name && match without_prefix(name, other) {
        Some(rest) => partition_suffix(rest),
        None => false,
    }
}

/// Worth showing: hardware, and no partition of another listed device, whose
/// traffic would count twice.
pub open spec fn interesting(name: Seq<char>, all_names: Seq<Seq<char>>) -> bool {
    &&& !virtual_device(name)
    &&& forall|i: int| 0 <= i < all_names.len() ==> !partition_of(name, #[trigger] all_names[i])
}

fn is_partition_suffix(s: &[char]) -> (r: bool)
    ensures
        r == partition_suffix(s@),
{
    if s.len() == 0 {
        return false;
    }
    if is_all_digits(s) {
        return true;
    }
    let rest: &[char] = &s[1..s.len()];
    assert(rest@ == s@.drop_first());
    s[0] == 'p' && s.len() > 1 && is_all_digits(rest)
}

/// Should this device be shown among those listed?
pub fn is_interesting_device(name: &str, all_names: &[String]) -> (r: bool)
    ensures
        r == interesting(name@, strings(all_names@)),
{
    let ghost names = strings(all_names@);
    let cs = chars_of(name);
    let cs = cs.as_slice();
    if starts_with(cs, "loop") || starts_with(cs, "ram") || starts_with(cs, "zram") || starts_with(
        cs,
        "dm-",
    ) || starts_with(cs, "md") {
        return false;
    }
    let mut i: usize = 0;
    while i < all_names.len()
        invariant
            i <= all_names.len(),
            cs@ == name@,
            names == strings(all_names@),
            forall|k: int| 0 <= k < i ==> !partition_of(name@, #[trigger] names[k]),
        decreases all_names.len() - i,
    {
        let other = all_names[i].as_str();
        assert(names[i as int] == other@);
        if !is_text(cs, other) {
            if let Some(rest) = strip_prefix(cs, other) {
                if is_partition_suffix(rest) {
                    assert(partition_of(name@, names[i as int]));
                    return false;
                }
            }
        }
        i = i + 1;
    }
    true
}

/// The devices that the lines describe, of which the first has the number
/// `line_no`.
pub open spec fn disk_lines(path: Seq<char>, line_no: nat, lines: Seq<Seq<char>>) -> Result<
    Seq<DiskDeviceView>,
    ErrorView,
>
    decreases lines.len(),
{
    if lines.len() == 0 {
        Ok(seq![])
    } else {
        match disk_line_of(path, line_no as usize, lines[0]) {
            Err(e) => Err(e),
            Ok(found) => match disk_lines(path, line_no + 1, lines.drop_first()) {
                Err(e) => Err(e),
                Ok(rest) => match found {
                    Some(d) => Ok(seq![d] + rest),
                    None => Ok(rest),
                },
            },
        }
    }
}

pub open spec fn device_names(devices: Seq<DiskDeviceView>) -> Seq<Seq<char>> {
    devices.map_values(|d: DiskDeviceView| d.name)
}

/// Those of `devices` that are worth showing among `names`.
pub open spec fn interesting_devices(devices: Seq<DiskDeviceView>, names: Seq<Seq<char>>) -> Seq<
    DiskDeviceView,
>
    decreases devices.len(),
{
    if devices.len() == 0 {
        seq![]
    } else {
        let before = interesting_devices(devices.drop_last(), names);
        if interesting(devices.last().name, names) {
            before.push(devices.last())
        } else {
            before
        }
    }
}

/// What `/proc/diskstats` holds: its devices without virtual ones and
/// partitions.
pub open spec fn diskstats_of(path: Seq<char>, contents: Seq<char>) -> Result<
    Seq<DiskDeviceView>,
    ErrorView,
> {
    match disk_lines(path, 1, first_of(lines_of(contents), DEFAULT_MAX_LINES as nat)) {
        Err(e) => Err(e),
        Ok(all) => Ok(interesting_devices(all, device_names(all))),
    }
}

pub open spec fn devices_view(r: Result<Vec<DiskDevice>, Error>) -> Result<
    Seq<DiskDeviceView>,
    ErrorView,
> {
    match r {
        Ok(v) => Ok(views(v@)),
        Err(e) => Err(e@),
    }
}

fn parse_lines(path: &str, contents: &str) -> (r: Result<Vec<DiskDevice>, Error>)
    ensures
        devices_view(r) == disk_lines(
            path@,
            1,
            first_of(lines_of(contents@), DEFAULT_MAX_LINES as nat),
        ),
{
    let cs = chars_of(contents);
    let all = first_lines(cs.as_slice(), DEFAULT_MAX_LINES);
    let ghost ls = slices(all@);
    let mut out: Vec<DiskDevice> = Vec::new();
    let mut i: usize = 0;
    assert(ls.skip(0) == ls);
    assert forall|rest: Seq<DiskDeviceView>| #[trigger] (views(out@) + rest) == rest by {}
    while i < all.len()
        invariant
            i <= all.len(),
            all.len() <= DEFAULT_MAX_LINES,
            ls == slices(all@),
            ls == first_of(lines_of(contents@), DEFAULT_MAX_LINES as nat),
            disk_lines(path@, 1, ls) == match disk_lines(
                path@,
                (i + 1) as nat,
                ls.skip(i as int),
            ) {
                Ok(rest) => Ok::<Seq<DiskDeviceView>, ErrorView>(views(out@) + rest),
                Err(e) => Err(e),
            },
        decreases all.len() - i,
    {
        assert(ls.skip(i as int)[0] == all@[i as int]@);
        assert(ls.skip(i as int).drop_first() == ls.skip(i + 1));
        match parse_line(path, i + 1, all[i]) {
            Err(e) => return Err(e),
            Ok(None) => {},
            Ok(Some(found)) => {
                let ghost before = views(out@);
                out.push(found);
                assert(views(out@) == before.push(found@));
                proof {
                    match disk_lines(path@, (i + 2) as nat, ls.skip(i + 1)) {
                        Ok(more) => {
                            assert(before.push(found@) + more == before + (seq![found@] + more));
                        },
                        Err(_) => {},
                    }
                }
            },
        }
        i = i + 1;
    }
    assert(ls.skip(i as int) == Seq::<Seq<char>>::empty());
    assert(views(out@) + Seq::<DiskDeviceView>::empty() == views(out@));
    Ok(out)
}

/// Parses `/proc/diskstats`.
pub fn parse_diskstats(path: &str, contents: &str) -> (r: Result<Vec<DiskDevice>, Error>)
    ensures
        devices_view(r) == diskstats_of(path@, contents@),
{
    let all = match parse_lines(path, contents) {
        Err(e) => return Err(e),
        Ok(all) => all,
    };
    let ghost ds = views(all@);
    let mut names: Vec<String> = Vec::new();
    let mut i: usize = 0;
    while i < all.len()
        invariant
            i <= all.len(),
            ds == views(all@),
            strings(names@) == device_names(ds.take(i as int)),
        decreases all.len() - i,
    {
        let ghost before = strings(names@);
        names.push(all[i].name.clone());
        assert(strings(names@) == before.push(all@[i as int].name@));
        assert(device_names(ds.take(i + 1)) == device_names(ds.take(i as int)).push(
            ds[i as int].name,
        ));
        i = i + 1;
    }
    assert(ds.take(i as int) == ds);
    let mut out: Vec<DiskDevice> = Vec::new();
    let mut k: usize = 0;
    assert(views(out@) == Seq::<DiskDeviceView>::empty());
    while k < all.len()
        invariant
            k <= all.len(),
            ds == views(all@),
            strings(names@) == device_names(ds),
            views(out@) == interesting_devices(ds.take(k as int), device_names(ds)),
        decreases all.len() - k,
    {
        assert(ds.take(k + 1).drop_last() == ds.take(k as int));
        assert(ds.take(k + 1).last() == all@[k as int]@);
        if is_interesting_device(all[k].name.as_str(), names.as_slice()) {
            let ghost before = views(out@);
            let d = all[k].duplicate();
            out.push(d);
            assert(views(out@) == before.push(d@));
        }
        k = k + 1;
    }
    assert(ds.take(k as int) == ds);
    Ok(out)
}

// ---------------------------------------------------------------------------
// Mounts
// ---------------------------------------------------------------------------
/// The character that the three digits behind a backslash at the head of `s`
/// stand for, if they are one of the kernel's four escapes.
pub open spec fn escape_at(s: Seq<char>) -> Option<char> {
    if s.len() < 4 || s[0] != '\\' {
        None
    } else if s[1] == '0' && s[2] == '4' && s[3] == '0' {
        Some(' ')
    } else if s[1] == '0' && s[2] == '1' && s[3] == '1' {
        Some('\t')
    } else if s[1] == '0' && s[2] == '1' && s[3] == '2' {
        Some('\n')
    } else if s[1] == '1' && s[2] == '3' && s[3] == '4' {
        Some('\\')
    } else {
        None
    }
}

/// `s` with the kernel's four escapes decoded, and every other backslash left
/// alone.
pub open spec fn unescaped(s: Seq<char>) -> Seq<char>
    decreases s.len(),
{
    if s.len() == 0 {
        seq![]
    } else {
        match escape_at(s) {
            Some(c) => seq![c] + unescaped(s.skip(4)),
            None => seq![s[0]] + unescaped(s.drop_first()),
        }
    }
}

/// How the kernel writes a character in a mount's fields.
pub open spec fn escaped_char(c: char) -> Seq<char> {
    if c == ' ' {
        seq!['\\', '0', '4', '0']
    } else if c == '\t' {
        seq!['\\', '0', '1', '1']
    } else if c == '\n' {
        seq!['\\', '0', '1', '2']
    } else if c == '\\' {
        seq!['\\', '1', '3', '4']
    } else {
        seq![c]
    }
}

/// How the kernel writes a text in a mount's fields.
pub open spec fn escaped(s: Seq<char>) -> Seq<char>
    decreases s.len(),
{
    if s.len() == 0 {
        seq![]
    } else {
        escaped_char(s[0]) + escaped(s.drop_first())
    }
}

/// Decoding gives back every path that the kernel escaped.
pub proof fn decoding_undoes_escaping(s: Seq<char>)
    ensures
        unescaped(escaped(s)) == s,
    decreases s.len(),
{
    if s.len() > 0 {
        let rest = escaped(s.drop_first());
        let all = escaped(s);
        decoding_undoes_escaping(s.drop_first());
        if escaped_char(s[0]).len() == 4 {
            assert(all.skip(4) == rest);
            assert(escape_at(all) == Some(s[0]));
        } else {
            assert(all.drop_first() == rest);
            assert(all[0] == s[0]);
            assert(escape_at(all) is None);
        }
        assert(unescaped(all) == seq![s[0]] + s.drop_first());
        assert(seq![s[0]] + s.drop_first() == s);
    }
}

fn unescape(raw: &[char]) -> (r: Vec<char>)
    ensures
        r@ == unescaped(raw@),
{
    let mut out: Vec<char> = Vec::new();
    let mut rest: &[char] = raw;
    while rest.len() > 0
        invariant
            out@ + unescaped(rest@) == unescaped(raw@),
        decreases rest.len(),
    {
        let decoded: Option<char> = if rest.len() < 4 || rest[0] != '\\' {
            None
        } else if rest[1] == '0' && rest[2] == '4' && rest[3] == '0' {
            Some(' ')
        } else if rest[1] == '0' && rest[2] == '1' && rest[3] == '1' {
            Some('\t')
        } else if rest[1] == '0' && rest[2] == '1' && rest[3] == '2' {
            Some('\n')
        } else if rest[1] == '1' && rest[2] == '3' && rest[3] == '4' {
            Some('\\')
        } else {
            None
        };
        let ghost before = out@;
        match decoded {
            Some(c) => {
                let next: &[char] = &rest[4..rest.len()];
                assert(next@ == rest@.skip(4));
                out.push(c);
                assert(before.push(c) + unescaped(next@) == before + unescaped(rest@));
                rest = next;
            },
            None => {
                let c: char = rest[0];
                let next: &[char] = &rest[1..rest.len()];
                assert(next@ == rest@.drop_first());
                out.push(c);
                assert(before.push(c) + unescaped(next@) == before + unescaped(rest@));
                rest = next;
            },
        }
    }
    out
}

/// Decodes the octal escapes of `/proc/*/mounts`: space, tab, newline and
/// backslash, which could else be taken for a separator. Any other backslash
/// stays.
pub fn unescape_mount_field(raw: &str) -> (r: String)
    ensures
        r@ == unescaped(raw@),
{
    let cs = chars_of(raw);
    let out = unescape(cs.as_slice());
    string_of(out.as_slice())
}

/// A filesystem that is no storage.
pub open spec fn pseudo_filesystem(t: Seq<char>) -> bool {
    ||| t == "proc"@
    ||| t == "sysfs"@
    ||| t == "devtmpfs"@
    ||| t == "devpts"@
    ||| t == "tmpfs"@
    ||| t == "cgroup"@
    ||| t == "cgroup2"@
    ||| t == "securityfs"@
    ||| t == "debugfs"@
    ||| t == "tracefs"@
    ||| t == "pstore"@
    ||| t == "bpf"@
    ||| t == "configfs"@
    ||| t == "fusectl"@
    ||| t == "mqueue"@
    ||| t == "hugetlbfs"@
    ||| t == "autofs"@
    ||| t == "overlay"@
    ||| t == "squashfs"@
    ||| t == "ramfs"@
    ||| t == "binfmt_misc"@
    ||| t == "efivarfs"@
    ||| t == "nsfs"@
}

fn is_pseudo_filesystem(t: &[char]) -> (r: bool)
    ensures
        r == pseudo_filesystem(t@),
{
    is_text(t, "proc") || is_text(t, "sysfs") || is_text(t, "devtmpfs") || is_text(t, "devpts")
        || is_text(t, "tmpfs") || is_text(t, "cgroup") || is_text(t, "cgroup2") || is_text(
        t,
        "securityfs",
    ) || is_text(t, "debugfs") || is_text(t, "tracefs") || is_text(t, "pstore") || is_text(t, "bpf")
        || is_text(t, "configfs") || is_text(t, "fusectl") || is_text(t, "mqueue") || is_text(
        t,
        "hugetlbfs",
    ) || is_text(t, "autofs") || is_text(t, "overlay") || is_text(t, "squashfs") || is_text(
        t,
        "ramfs",
    ) || is_text(t, "binfmt_misc") || is_text(t, "efivarfs") || is_text(t, "nsfs")
}

/// The filesystem that a line of the mount table describes, unless the line
/// is blank or the filesystem is no storage.
pub open spec fn mount_line_of(path: Seq<char>, line_no: usize, line: Seq<char>) -> Result<
    Option<MountPointView>,
    ErrorView,
> {
    let fields = words_of(line);
    if trim_of(line).len() == 0 {
        Ok(None)
    } else if fields.len() < 1 {
        Err(ErrorView::Parse { path, line: Some(line_no), reason: "line has no source field"@ })
    } else if fields.len() < 2 {
        Err(
            ErrorView::Parse {
                path,
                line: Some(line_no),
                reason: "line has no mount point field"@,
            },
        )
    } else if fields.len() < 3 {
        Err(
            ErrorView::Parse {
                path,
                line: Some(line_no),
                reason: "line has no filesystem type field"@,
            },
        )
    } else if pseudo_filesystem(fields[2]) {
        Ok(None)
    } else {
        Ok(
            Some(
                MountPointView {
                    source: sanitized(unescaped(fields[0]), MAX_MOUNT_FIELD_LEN as nat),
                    mount_point: sanitized(unescaped(fields[1]), MAX_MOUNT_FIELD_LEN as nat),
                    fs_type: sanitized(fields[2], MAX_MOUNT_FIELD_LEN as nat),
                    total: None,
                    available: None,
                },
            ),
        )
    }
}

pub open spec fn mount_lines(path: Seq<char>, line_no: nat, lines: Seq<Seq<char>>) -> Result<
    Seq<MountPointView>,
    ErrorView,
>
    decreases lines.len(),
{
    if lines.len() == 0 {
        Ok(seq![])
    } else {
        match mount_line_of(path, line_no as usize, lines[0]) {
            Err(e) => Err(e),
            Ok(found) => match mount_lines(path, line_no + 1, lines.drop_first()) {
                Err(e) => Err(e),
                Ok(rest) => match found {
                    Some(m) => Ok(seq![m] + rest),
                    None => Ok(rest),
                },
            },
        }
    }
}

/// What the mount table holds.
pub open spec fn mounts_of(path: Seq<char>, contents: Seq<char>) -> Result<
    Seq<MountPointView>,
    ErrorView,
> {
    mount_lines(path, 1, first_of(lines_of(contents), DEFAULT_MAX_LINES as nat))
}

pub open spec fn mount_view(r: Result<Option<MountPoint>, Error>) -> Result<
    Option<MountPointView>,
    ErrorView,
> {
    match r {
        Ok(m) => Ok(option_view(m)),
        Err(e) => Err(e@),
    }
}

pub open spec fn mounts_view(r: Result<Vec<MountPoint>, Error>) -> Result<
    Seq<MountPointView>,
    ErrorView,
> {
    match r {
        Ok(v) => Ok(views(v@)),
        Err(e) => Err(e@),
    }
}

fn parse_mount_line(path: &str, line_no: usize, line: &[char]) -> (r: Result<
    Option<MountPoint>,
    Error,
>)
    ensures
        mount_view(r) == mount_line_of(path@, line_no, line@),
{
    if trim(line).len() == 0 {
        return Ok(None);
    }
    let fields = words(line);
    let ghost fs = slices(fields@);
    if fields.len() < 1 {
        return Err(Error::parse(path, Some(line_no), "line has no source field".to_owned()));
    }
    if fields.len() < 2 {
        return Err(Error::parse(path, Some(line_no), "line has no mount point field".to_owned()));
    }
    if fields.len() < 3 {
        return Err(
            Error::parse(path, Some(line_no), "line has no filesystem type field".to_owned()),
        );
    }
    assert(fs[0] == fields@[0]@ && fs[1] == fields@[1]@ && fs[2] == fields@[2]@);
    if is_pseudo_filesystem(fields[2]) {
        return Ok(None);
    }
    let source = unescape(fields[0]);
    let mount_point = unescape(fields[1]);
    Ok(
        Some(
            MountPoint {
                source: sanitize(source.as_slice(), MAX_MOUNT_FIELD_LEN),
                mount_point: sanitize(mount_point.as_slice(), MAX_MOUNT_FIELD_LEN),
                fs_type: sanitize(fields[2], MAX_MOUNT_FIELD_LEN),
                total: None,
                available: None,
            },
        ),
    )
}

/// Parses the mount table.
pub fn parse_mounts(path: &str, contents: &str) -> (r: Result<Vec<MountPoint>, Error>)
    ensures
        mounts_view(r) == mounts_of(path@, contents@),
{
    let cs = chars_of(contents);
    let all = first_lines(cs.as_slice(), DEFAULT_MAX_LINES);
    let ghost ls = slices(all@);
    let mut out: Vec<MountPoint> = Vec::new();
    let mut i: usize = 0;
    assert(ls.skip(0) == ls);
    assert forall|rest: Seq<MountPointView>| #[trigger] (views(out@) + rest) == rest by {}
    while i < all.len()
        invariant
            i <= all.len(),
            all.len() <= DEFAULT_MAX_LINES,
            ls == slices(all@),
            ls == first_of(lines_of(contents@), DEFAULT_MAX_LINES as nat),
            mount_lines(path@, 1, ls) == match mount_lines(
                path@,
                (i + 1) as nat,
                ls.skip(i as int),
            ) {
                Ok(rest) => Ok::<Seq<MountPointView>, ErrorView>(views(out@) + rest),
                Err(e) => Err(e),
            },
        decreases all.len() - i,
    {
        assert(ls.skip(i as int)[0] == all@[i as int]@);
        assert(ls.skip(i as int).drop_first() == ls.skip(i + 1));
        match parse_mount_line(path, i + 1, all[i]) {
            Err(e) => return Err(e),
            Ok(None) => {},
            Ok(Some(found)) => {
                let ghost before = views(out@);
                out.push(found);
                assert(views(out@) == before.push(found@));
                proof {
                    match mount_lines(path@, (i + 2) as nat, ls.skip(i + 1)) {
                        Ok(more) => {
                            assert(before.push(found@) + more == before + (seq![found@] + more));
                        },
                        Err(_) => {},
                    }
                }
            },
        }
        i = i + 1;
    }
    assert(ls.skip(i as int) == Seq::<Seq<char>>::empty());
    assert(views(out@) + Seq::<MountPointView>::empty() == views(out@));
    Ok(out)
}

// ---------------------------------------------------------------------------
// Capacity
// ---------------------------------------------------------------------------
/// Total and available bytes, where both fit.
pub open spec fn capacity_of(fragment_size: u64, blocks: u64, blocks_available: u64) -> Option<
    (Bytes, Bytes),
> {
    if fragment_size * blocks <= u64::MAX && fragment_size * blocks_available <= u64::MAX {
        Some(
            (
                Bytes((fragment_size * blocks) as u64),
                Bytes((fragment_size * blocks_available) as u64),
            ),
        )
    } else {
        None
    }
}

/// Block counts times fragment size, unless a corrupted report overflows.
pub fn capacity_from_raw(fragment_size: u64, blocks: u64, blocks_available: u64) -> (r: Option<
    (Bytes, Bytes),
>)
    ensures
        r == capacity_of(fragment_size, blocks, blocks_available),
{
    match (fragment_size.checked_mul(blocks), fragment_size.checked_mul(blocks_available)) {
        (Some(total), Some(available)) => Some(
            (Bytes::from_bytes(total), Bytes::from_bytes(available)),
        ),
        _ => None,
    }
}

/// The capacity of the filesystem mounted at a place, where it was recorded.
pub open spec fn capacity_at(reader: &SysfsReader, mount_point: Seq<char>) -> Option<
    (Bytes, Bytes),
> {
    match reader.blocks_at(mount_point) {
        Some((size, blocks, available)) => capacity_of(size, blocks, available),
        None => None,
    }
}

/// The capacity of one mount. It decorates the listing: whatever keeps it
/// away, the mount is still shown.
pub fn read_capacity(reader: &SysfsReader, mount_point: &str) -> (r: Result<
    Option<(Bytes, Bytes)>,
    Error,
>)
    ensures
        r is Ok,
        r->Ok_0 == capacity_at(reader, mount_point@),
{
    match reader.blocks(mount_point) {
        Some((size, blocks, available)) => Ok(capacity_from_raw(size, blocks, available)),
        None => Ok(None),
    }
}

pub open spec fn sized_mount(reader: &SysfsReader, m: MountPointView) -> MountPointView {
    match capacity_at(reader, m.mount_point) {
        Some((total, available)) => MountPointView {
            total: Some(total),
            available: Some(available),
            ..m
        },
        None => MountPointView { total: None, available: None, ..m },
    }
}

/// Every mount with its capacity.
pub open spec fn sized(reader: &SysfsReader, mounts: Seq<MountPointView>) -> Seq<MountPointView> {
    mounts.map_values(|m: MountPointView| sized_mount(reader, m))
}

fn size_all(reader: &SysfsReader, mounts: &Vec<MountPoint>) -> (r: Result<Vec<MountPoint>, Error>)
    ensures
        r is Ok,
        views(r->Ok_0@) == sized(reader, views(mounts@)),
{
    let ghost all = views(mounts@);
    let mut out: Vec<MountPoint> = Vec::new();
    let mut i: usize = 0;
    while i < mounts.len()
        invariant
            i <= mounts.len(),
            all == views(mounts@),
            views(out@) == sized(reader, all.take(i as int)),
        decreases mounts.len() - i,
    {
        let m = &mounts[i];
        assert(all[i as int] == m@);
        let capacity = match read_capacity(reader, m.mount_point.as_str()) {
            Err(e) => return Err(e),
            Ok(capacity) => capacity,
        };
        let (total, available) = match capacity {
            Some((total, available)) => (Some(total), Some(available)),
            None => (None, None),
        };
        let ghost before = views(out@);
        let found = MountPoint {
            source: m.source.clone(),
            mount_point: m.mount_point.clone(),
            fs_type: m.fs_type.clone(),
            total,
            available,
        };
        out.push(found);
        assert(views(out@) == before.push(found@));
        assert(sized(reader, all.take(i + 1)) == sized(reader, all.take(i as int)).push(
            sized_mount(reader, all[i as int]),
        ));
        i = i + 1;
    }
    assert(all.take(i as int) == all);
    Ok(out)
}

// ---------------------------------------------------------------------------
// The collector
// ---------------------------------------------------------------------------
#[derive(Debug)]
pub struct DiskCollector {}

/// The sample of some devices and mounts; none where there are neither.
pub open spec fn disk_sample_of(devices: Seq<DiskDeviceView>, mounts: Seq<MountPointView>) -> Option<
    DiskSampleView,
> {
    if devices.len() == 0 && mounts.len() == 0 {
        None
    } else {
        Some(DiskSampleView { devices, mounts })
    }
}

/// What a collection does.
pub open spec fn disk_collected(reader: &SysfsReader, before: SnapshotView) -> Collected<()> {
    let devices = match reader.text_at(PROC_DISKSTATS@) {
        Err(e) => Err(e),
        Ok(Err(_)) => Ok(seq![]),
        Ok(Ok(text)) => diskstats_of(PROC_DISKSTATS@, text),
    };
    let mounts = match reader.text_at(PROC_MOUNTS@) {
        Err(e) => Err(e),
        Ok(Err(_)) => Ok(seq![]),
        Ok(Ok(text)) => mounts_of(PROC_MOUNTS@, text),
    };
    match devices {
        Err(e) => Collected { state: (), snapshot: before, outcome: Err(e) },
        Ok(devices) => match mounts {
            Err(e) => Collected { state: (), snapshot: before, outcome: Err(e) },
            Ok(mounts) => Collected {
                state: (),
                snapshot: SnapshotView {
                    disks: disk_sample_of(devices, sized(reader, mounts)),
                    ..before
                },
                outcome: Ok(()),
            },
        },
    }
}

impl DiskCollector {
    pub fn new() -> (r: DiskCollector)
        ensures
            r == (DiskCollector {  }),
    {
        DiskCollector {  }
    }
}

impl Collector for DiskCollector {
    type Model = ();

    open spec fn model(&self) -> () {
        ()
    }

    open spec fn named(state: ()) -> Seq<char> {
        NAME@
    }

    open spec fn usable(state: (), reader: &SysfsReader) -> bool {
        reader.present(PROC_DISKSTATS@)
    }

    open spec fn collected(state: (), reader: &SysfsReader, before: SnapshotView) -> Collected<()> {
        disk_collected(reader, before)
    }

    fn name(&self) -> (r: &'static str) {
        NAME
    }

    fn probe(&self, reader: &SysfsReader) -> (r: bool) {
        reader.is_present(PROC_DISKSTATS)
    }

    fn collect(&mut self, reader: &SysfsReader, snapshot: &mut Snapshot) -> (r: Result<(), Error>) {
        let devices = match reader.read_to_string(PROC_DISKSTATS) {
            Err(e) => return Err(e),
            Ok(Err(_)) => Vec::new(),
            Ok(Ok(contents)) => match parse_diskstats(PROC_DISKSTATS, contents.as_str()) {
                Err(e) => return Err(e),
                Ok(devices) => devices,
            },
        };
        assert(devices@.len() == 0 ==> views(devices@) == Seq::<DiskDeviceView>::empty());
        let mounts = match reader.read_to_string(PROC_MOUNTS) {
            Err(e) => return Err(e),
            Ok(Err(_)) => Vec::new(),
            Ok(Ok(contents)) => match parse_mounts(PROC_MOUNTS, contents.as_str()) {
                Err(e) => return Err(e),
                Ok(mounts) => mounts,
            },
        };
        assert(mounts@.len() == 0 ==> views(mounts@) == Seq::<MountPointView>::empty());
        let mounts = match size_all(reader, &mounts) {
            Err(e) => return Err(e),
            Ok(mounts) => mounts,
        };
        assert(views(devices@).len() == devices@.len());
        assert(views(mounts@).len() == mounts@.len());
        snapshot.disks =
        if devices.len() == 0 && mounts.len() == 0 {
            None
        } else {
            Some(DiskSample { devices, mounts })
        };
        Ok(())
    }
}

} // verus!
