use shm_bridge::discovery::{find_shm_dir, find_tmpfs_dir, DiscoveryError};
use shm_bridge::mounts::{parse_mount_lines, Mount};

fn mounts(lines: &[&str]) -> Vec<Mount> {
    let lines: Vec<String> = lines.iter().map(|l| l.to_string()).collect();
    parse_mount_lines(&lines).mounts
}

#[test]
fn finds_dev_shm_among_other_mounts() {
    let ms = mounts(&[
        "proc /proc proc rw 0 0",
        "sysfs /sys sysfs rw 0 0",
        "tmpfs /dev/shm tmpfs rw 0 0",
        "/dev/sda1 / ext4 rw 0 1",
    ]);
    assert_eq!(find_tmpfs_dir(&ms), Ok("/dev/shm".to_string()));
}

#[test]
fn prefers_dev_shm_over_earlier_tmpfs() {
    let ms = mounts(&["tmpfs /run tmpfs rw 0 0", "tmpfs /dev/shm tmpfs rw 0 0"]);
    assert_eq!(find_tmpfs_dir(&ms), Ok("/dev/shm".to_string()));
}

#[test]
fn falls_back_to_first_tmpfs() {
    let ms = mounts(&["proc /proc proc rw 0 0", "tmpfs /run tmpfs rw 0 0", "tmpfs /tmp tmpfs rw 0 0"]);
    assert_eq!(find_tmpfs_dir(&ms), Ok("/run".to_string()));
}

#[test]
fn no_tmpfs_is_an_error() {
    let ms = mounts(&["proc /proc proc rw 0 0", "/dev/shm /dev/shm ext4 rw 0 0"]);
    assert_eq!(find_tmpfs_dir(&ms), Err(DiscoveryError::NoTmpfsFound));
    assert_eq!(find_tmpfs_dir(&Vec::new()), Err(DiscoveryError::NoTmpfsFound));
}

#[test]
fn fixed_shm_dir() {
    assert_eq!(find_shm_dir(), "/dev/shm/");
}
