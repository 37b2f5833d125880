use std::str::FromStr;

use shm_bridge::mounts::{parse_mount_lines, FileSystemType, Mount, ParseError};
use shm_bridge::scan::{escape_field, from_digit, is_digit, split_options, unescape_field};

#[test]
fn parse_line() {
    const LINE: &str = "proc /proc proc rw,nosuid,nodev,noexec,relatime 0 0";

    let mount = Mount::from_str(&LINE).expect("We should be able to parse the /proc mount line");

    println!("{mount:?}");
}

#[test]
fn parse_line_fields() {
    let mount = Mount::parse("proc /proc proc rw,nosuid,nodev,noexec,relatime 0 0").unwrap();
    assert_eq!(mount.device, "proc");
    assert_eq!(mount.mount_point, "/proc");
    assert!(matches!(&mount.file_system_type, FileSystemType::Unknown(t) if t == "proc"));
    assert_eq!(mount.options, vec!["rw", "nosuid", "nodev", "noexec", "relatime"]);
    assert_eq!(mount.file_system_frequency, 0);
    assert_eq!(mount.file_system_pass_number, 0);
}

#[test]
fn parse_tmpfs_line() {
    let mount = Mount::parse("tmpfs /dev/shm tmpfs rw,nosuid,nodev 0 0").unwrap();
    assert!(matches!(mount.file_system_type, FileSystemType::TmpFs));
    assert_eq!(mount.mount_point, "/dev/shm");
}

#[test]
fn parse_line_with_escaped_device() {
    let line = "my\\040disk\\\\x /mnt/a\\040b ext4 rw 1 2";
    let mount = Mount::parse(line).unwrap();
    assert_eq!(mount.device, "my disk\\x");
    assert_eq!(mount.mount_point, "/mnt/a b");
    assert_eq!(escape_field(&mount.device), "my\\040disk\\\\x");
    assert_eq!(mount.file_system_pass_number, 2);
    assert_eq!(mount.file_system_frequency, 1);
}

#[test]
fn escape_round_trip() {
    let plain = "a b\\c  d";
    let encoded = escape_field(plain);
    assert_eq!(encoded, "a\\040b\\\\c\\040\\040d");
    assert_eq!(unescape_field(&encoded), Some(plain.to_string()));
}

#[test]
fn unescape_other_escapes_and_trailing_backslash() {
    assert_eq!(unescape_field("a\\xb"), Some("axb".to_string()));
    assert_eq!(unescape_field("a\\04"), Some("a04".to_string()));
    assert_eq!(unescape_field("abc\\"), None);
    assert_eq!(unescape_field(""), Some(String::new()));
}

#[test]
fn pass_number_must_be_zero_one_or_two() {
    for c in ['0', '1', '2'] {
        let line = format!("dev /mnt ext4 rw 0 {c}");
        let mount = Mount::parse(&line).unwrap();
        assert_eq!(mount.file_system_pass_number, c as u8 - b'0');
    }
    for c in ['3', '9', 'a', '-', '+', 'x'] {
        let line = format!("dev /mnt ext4 rw 0 {c}");
        assert_eq!(Mount::parse(&line).unwrap_err(), ParseError::Malformed);
    }
    assert!(Mount::parse("dev /mnt ext4 rw 0 00").is_err());
    assert!(Mount::parse("dev /mnt ext4 rw 0 10").is_err());
}

#[test]
fn frequency_must_fit_a_byte() {
    assert_eq!(from_digit("255"), Some(255));
    assert_eq!(from_digit("0007"), Some(7));
    assert_eq!(from_digit("256"), None);
    assert_eq!(from_digit(""), None);
    assert_eq!(from_digit("1a"), None);
    assert!(Mount::parse("dev /mnt ext4 rw 255 0").is_ok());
    assert!(Mount::parse("dev /mnt ext4 rw 256 0").is_err());
    assert!(is_digit('7'));
    assert!(!is_digit('x'));
}

#[test]
fn strict_field_count_and_blanks() {
    assert!(Mount::parse("  dev\t/mnt  ext4 rw 0 1  ").is_ok());
    assert!(Mount::parse("dev /mnt ext4 rw 0").is_err());
    assert!(Mount::parse("dev /mnt ext4 rw 0 1 extra").is_err());
    assert!(Mount::parse("dev /mnt ext4 rw 0 1\n").is_err());
    assert!(Mount::parse("").is_err());
}

#[test]
fn options_keep_order_and_empty_pieces() {
    assert_eq!(split_options("a,,b"), vec!["a", "", "b"]);
    assert_eq!(split_options(","), vec!["", ""]);
    assert_eq!(split_options("rw"), vec!["rw"]);
}

#[test]
fn table_skips_one_malformed_line() {
    let lines: Vec<String> = vec![
        "proc /proc proc rw 0 0".to_string(),
        "tmpfs /dev/shm tmpfs rw 0 0".to_string(),
        "broken line".to_string(),
        "sysfs /sys sysfs rw 0 0".to_string(),
    ];
    let table = parse_mount_lines(&lines);
    assert_eq!(table.mounts.len(), 3);
    assert_eq!(table.skipped, vec![2]);
    assert_eq!(table.mounts[2].mount_point, "/sys");
}

#[test]
fn table_malformed_line_first_or_last() {
    let good = "proc /proc proc rw 0 0".to_string();
    let bad = "proc /proc proc rw 0 7".to_string();
    let table = parse_mount_lines(&vec![bad.clone(), good.clone(), good.clone()]);
    assert_eq!(table.mounts.len(), 2);
    assert_eq!(table.skipped, vec![0]);
    let table = parse_mount_lines(&vec![good.clone(), good.clone(), bad]);
    assert_eq!(table.mounts.len(), 2);
    assert_eq!(table.skipped, vec![2]);
    let table = parse_mount_lines(&vec![]);
    assert!(table.mounts.is_empty() && table.skipped.is_empty());
}

#[test]
fn from_str_gives_proc_record() {
    let mount = Mount::from_str("proc /proc proc rw,nosuid,nodev,noexec,relatime 0 0").unwrap();
    assert_eq!(mount.device, "proc");
    assert_eq!(mount.mount_point, "/proc");
    assert!(matches!(&mount.file_system_type, FileSystemType::Unknown(t) if t == "proc"));
    assert_eq!(mount.options, vec!["rw", "nosuid", "nodev", "noexec", "relatime"]);
    assert_eq!((mount.file_system_frequency, mount.file_system_pass_number), (0, 0));
    assert_eq!(Mount::from_str("proc /proc proc rw 0 3").unwrap_err(), ParseError::Malformed);
}
