use hdu::backend::{platform_from_os, Platform};
use hdu::system::{disk_usage_from_stats, mount_points};

#[test]
fn mount_points_keeps_device_mounts_once() {
    let table = "/dev/sda1 / ext4 rw 0 0\nproc /proc proc rw 0 0\n/dev/sda2 /home ext4 rw 0 0\n/dev/sda1 / ext4 rw 0 0\n  /dev/sdb1\t/mnt/data  vfat rw 0 0\r\n\n/dev/x\n";
    assert_eq!(mount_points(table), ["/", "/home", "/mnt/data"]);
    assert!(mount_points("").is_empty());
}

#[test]
fn mount_points_splits_on_unicode_whitespace() {
    let table = "/dev/a\u{3000}/m1 x\n/dev/b\u{a0}/m2\n";
    assert_eq!(mount_points(table), ["/m1", "/m2"]);
}

#[test]
fn disk_usage_from_block_counts() {
    let d = disk_usage_from_stats("/home", 1000, 250, 4096).unwrap();
    assert_eq!(d.total_bytes, 4_096_000);
    assert_eq!(d.available_bytes, 1_024_000);
    assert_eq!(d.used_bytes, 3_072_000);
    assert_eq!(d.mount_point, "/home");
    assert_eq!(d.name, "/home");
    assert!(disk_usage_from_stats("/", u64::MAX, 0, 2).is_none());
    assert!(disk_usage_from_stats("/", 1, 2, 4096).is_none());
}

#[test]
fn platform_names() {
    assert_eq!(platform_from_os("freebsd"), Platform::Unknown);
    assert_eq!(Platform::MacOS.name(), "macOS");
    assert_eq!(Platform::MacOS.variant(), "MacOS");
    assert_eq!(Platform::Linux.name(), "Linux");
    assert_eq!(Platform::Unknown.name(), "Unknown");
}
