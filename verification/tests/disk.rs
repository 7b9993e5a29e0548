//! Disks and mounted filesystems.

use rustmon::collectors::disk::{
    capacity_from_raw, is_interesting_device, parse_diskstats, parse_diskstats_line, parse_mounts,
    read_capacity, unescape_mount_field,
};
use rustmon::error::Error;
use rustmon::sysfs::{MountFacts, SysfsReader};

fn p() -> &'static str {
    "proc/diskstats"
}

const REAL_DISKSTATS: &str = "\
   7       0 loop0 173 0 12588 27 0 0 0 0 0 23 27 0 0 0 0 0 0
   8       0 sda 158 0 9120 52 0 0 0 0 0 35 52 0 0 0 0 0 0
   8       1 sda1 57 0 4416 30 0 0 0 0 0 25 30 0 0 0 0 0 0
   8      16 sdb 127 0 7112 336 0 0 0 0 0 304 336 0 0 0 0 0 0
   8      17 sdb1 53 0 4480 297 0 0 0 0 0 270 297 0 0 0 0 0 0
 259       0 nvme0n1 141322 50019 6128821 21898 7630 5355 218050 5487 0 11573 27682 0 0 0 0 466 296
 259       1 nvme0n1p1 576 1730 14634 213 2 0 2 3 0 25 216 0 0 0 0 0 0
 259       2 nvme0n1p2 144 22 8978 25 19 13 232 19 0 35 45 0 0 0 0 0 0
 259       3 nvme0n1p3 140501 48267 6100649 21637 7609 5342 217816 5464 0 12716 27102 0 0 0 0 0 0
 252       0 dm-0 188728 0 6099514 41211 12947 0 217816 37016 0 13140 78227 0 0 0 0 0 0
 252       1 dm-1 188666 0 6097530 41263 12284 0 217816 34703 0 13171 75966 0 0 0 0 0 0
";

#[test]
fn parses_a_real_diskstats_and_filters_down_to_real_disks() {
    let devices = parse_diskstats(p(), REAL_DISKSTATS).expect("real fixture parses");
    let names: Vec<&str> = devices.iter().map(|d| d.name.as_str()).collect();

    assert_eq!(names, vec!["sda", "sdb", "nvme0n1"]);
}

#[test]
fn diskstats_counters_use_the_right_field_offsets() {
    let devices = parse_diskstats(p(), REAL_DISKSTATS).expect("parses");
    let sda = devices.iter().find(|d| d.name == "sda").expect("sda present");

    assert_eq!(sda.reads_completed, 158);
    assert_eq!(sda.sectors_read, 9_120);
    assert_eq!(sda.writes_completed, 0);
    assert_eq!(sda.sectors_written, 0);
    assert_eq!(sda.io_ticks_ms, 35);
}

#[test]
fn is_interesting_device_recognises_both_partition_conventions() {
    let names: Vec<String> = ["sda", "sda1", "nvme0n1", "nvme0n1p1", "mmcblk0", "mmcblk0p1"]
        .iter()
        .map(|s| s.to_string())
        .collect();

    assert!(is_interesting_device("sda", &names));
    assert!(!is_interesting_device("sda1", &names), "bare-digit partition");
    assert!(is_interesting_device("nvme0n1", &names));
    assert!(!is_interesting_device("nvme0n1p1", &names), "p-then-digit partition");
    assert!(is_interesting_device("mmcblk0", &names));
    assert!(!is_interesting_device("mmcblk0p1", &names), "mmcblk uses the same convention");
}

#[test]
fn is_interesting_device_filters_every_virtual_prefix() {
    let names: Vec<String> = ["loop0", "ram0", "zram0", "dm-0", "md0"]
        .iter()
        .map(|s| s.to_string())
        .collect();

    for name in &names {
        assert!(!is_interesting_device(name, &names), "{name} should be filtered");
    }
}

#[test]
fn a_truncated_diskstats_line_is_a_parse_error_not_a_panic() {
    let stat = "   8       0 sda 158 0 9120\n";
    let err = parse_diskstats(p(), stat).expect_err("truncated line must fail");
    assert!(matches!(err, Error::Parse { line: Some(1), .. }), "got {err:?}");
}

#[test]
fn disk_a_non_numeric_counter_is_a_parse_error() {
    let stat = "   8       0 sda banana 0 9120 52 0 0 0 0 0 35 52\n";
    let err = parse_diskstats(p(), stat).expect_err("garbage counter must fail");
    assert!(matches!(err, Error::Parse { line: Some(1), .. }), "got {err:?}");
}

#[test]
fn an_unsafe_device_name_is_a_parse_error() {
    let stat = "   8       0 ../../etc 158 0 9120 52 0 0 0 0 0 35 52\n";
    let err = parse_diskstats(p(), stat).expect_err("unsafe name must fail");
    assert!(matches!(err, Error::Parse { .. }), "got {err:?}");
}

#[test]
fn disk_blank_lines_are_skipped() {
    let stat = "   8       0 sda 158 0 9120 52 0 0 0 0 0 35 52 0 0 0 0 0 0\n\n\n";
    let devices = parse_diskstats(p(), stat).expect("blank lines are fine");
    assert_eq!(devices.len(), 1);
}

fn mp() -> &'static str {
    "proc/self/mounts"
}

const REAL_MOUNTS: &str = "\
sysfs /sys sysfs rw,nosuid,nodev,noexec,relatime 0 0
proc /proc proc rw,nosuid,nodev,noexec,relatime 0 0
udev /dev devtmpfs rw,nosuid,relatime,size=29068628k,nr_inodes=7267157,mode=755,inode64 0 0
tmpfs /run tmpfs rw,nosuid,nodev,noexec,relatime,size=6331024k,mode=755,inode64 0 0
/dev/mapper/ubuntu--vg-ubuntu--lv / ext4 rw,relatime 0 0
cgroup2 /sys/fs/cgroup cgroup2 rw,nosuid,nodev,noexec,relatime,nsdelegate 0 0
";

#[test]
fn parses_real_mounts_and_filters_pseudo_filesystems() {
    let mounts = parse_mounts(mp(), REAL_MOUNTS).expect("real fixture parses");
    assert_eq!(mounts.len(), 1);
    assert_eq!(mounts[0].source, "/dev/mapper/ubuntu--vg-ubuntu--lv");
    assert_eq!(mounts[0].mount_point, "/");
    assert_eq!(mounts[0].fs_type, "ext4");
    assert_eq!(
        mounts[0].total, None,
        "parse_mounts is a pure string parser and never populates capacity \
             itself — that's read_capacity's job, called separately by collect()"
    );
}

#[test]
fn mount_fields_with_escaped_spaces_are_decoded() {
    let line = "/dev/sdb1 /mnt/My\\040Backup\\040Drive ext4 rw,relatime 0 0\n";
    let mounts = parse_mounts(mp(), line).expect("parses");
    assert_eq!(mounts[0].mount_point, "/mnt/My Backup Drive");
}

#[test]
fn a_hostile_mount_source_is_sanitised() {
    let line = "\u{1b}[2Jevil-fuse /mnt/x fuse.evil rw 0 0\n";
    let mounts = parse_mounts(mp(), line).expect("parses");
    assert!(!mounts[0].source.contains('\u{1b}'), "{:?}", mounts[0].source);
    assert!(mounts[0].source.contains("evil-fuse"), "{:?}", mounts[0].source);
}

#[test]
fn capacity_from_raw_multiplies_blocks_by_fragment_size() {
    let (total, available) = capacity_from_raw(4096, 1_000_000, 400_000).expect("no overflow");
    assert_eq!(total.as_u64(), 4096 * 1_000_000);
    assert_eq!(available.as_u64(), 4096 * 400_000);
}

#[test]
fn capacity_from_raw_overflow_is_none_not_a_panic() {
    assert_eq!(capacity_from_raw(u64::MAX, 2, 1), None);
    assert_eq!(capacity_from_raw(4096, u64::MAX, 1), None);
}

#[test]
fn capacity_from_raw_zero_fragment_size_is_zero_not_a_panic() {
    assert_eq!(
        capacity_from_raw(0, 1_000, 500).map(|(t, a)| (t.as_u64(), a.as_u64())),
        Some((0, 0))
    );
}

#[test]
fn read_capacity_against_root_returns_plausible_numbers() {
    let mut reader = SysfsReader::new();
    reader.record_mount(MountFacts {
        mount_point: "/".to_string(),
        fragment_size: 4096,
        blocks: 1_000_000,
        blocks_available: 400_000,
    });
    let (total, available) = read_capacity(&reader, "/")
        .expect("statvfs on / must not error")
        .expect("/ must report capacity");
    assert!(total.as_u64() > 0, "root filesystem reporting 0 total bytes");
    assert!(
        available.as_u64() <= total.as_u64(),
        "available ({}) exceeds total ({})",
        available.as_u64(),
        total.as_u64()
    );
}

#[test]
fn read_capacity_on_a_nonexistent_path_is_fail_soft() {
    let result = read_capacity(&SysfsReader::new(), "/this/path/almost-certainly-does-not-exist/rustmon-test")
        .expect("must not return an Err — capacity failures are fail-soft");
    assert_eq!(result, None);
}

#[test]
fn unescape_handles_all_four_documented_sequences() {
    assert_eq!(unescape_mount_field("a\\040b"), "a b");
    assert_eq!(unescape_mount_field("a\\011b"), "a\tb");
    assert_eq!(unescape_mount_field("a\\012b"), "a\nb");
    assert_eq!(unescape_mount_field("a\\134b"), "a\\b");
    assert_eq!(unescape_mount_field("plain"), "plain");
}

#[test]
fn unescape_passes_through_an_unrecognised_backslash() {
    assert_eq!(unescape_mount_field("a\\999b"), "a\\999b");
    assert_eq!(unescape_mount_field("trailing\\"), "trailing\\");
    assert_eq!(unescape_mount_field("a\\0b"), "a\\0b");
}

#[test]
fn unescape_does_not_corrupt_multi_byte_utf8() {
    assert_eq!(unescape_mount_field("caf\u{e9}"), "caf\u{e9}");
    assert_eq!(unescape_mount_field("日本語\\040ラベル"), "日本語 ラベル");
}

#[test]
fn a_line_with_too_few_fields_is_a_parse_error() {
    let err = parse_mounts(mp(), "onlyonefield\n").expect_err("must fail");
    assert!(matches!(err, Error::Parse { line: Some(1), .. }), "got {err:?}");
}

#[test]
fn blank_lines_in_mounts_are_skipped() {
    let mounts = parse_mounts(mp(), "\n\n").expect("blank lines are fine");
    assert!(mounts.is_empty());
}

#[test]
fn one_diskstats_line_names_one_device() {
    let line = " 259       1 nvme0n1p1 576 1730 14634 213 2 0 2 3 0 25 216";
    let device = parse_diskstats_line(p(), 1, line).expect("a full line").expect("a device");
    assert_eq!(device.name, "nvme0n1p1");
    assert_eq!(device.reads_completed, 576);
    assert_eq!(device.sectors_read, 14_634);
    assert_eq!(device.writes_completed, 2);
    assert_eq!(device.sectors_written, 2);
    assert_eq!(device.io_ticks_ms, 25);

    assert!(parse_diskstats_line(p(), 1, "   ").expect("a blank line").is_none());
    let err = parse_diskstats_line(p(), 7, "8 0").expect_err("a short line");
    assert!(matches!(err, Error::Parse { line: Some(7), .. }), "got {err:?}");
}
