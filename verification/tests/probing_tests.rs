use lib::probing::{fstab_references_any, status_is_root, text_mentions_any};
use lib::probing::{fstab_references, is_full_disk_type, parse_size_output, split_lines, str_contains, text_mentions};
use lib::text::{is_whitespace_char, trim_str};

#[test]
fn lines_follow_str_lines() {
    assert_eq!(split_lines("a\nb\r\nc"), vec!["a", "b", "c"]);
    assert_eq!(split_lines("a\n"), vec!["a"]);
    assert!(split_lines("").is_empty());
    assert_eq!(split_lines("\n"), vec![""]);
    assert_eq!(split_lines("x\r"), vec!["x\r"]);
    assert_eq!(split_lines("a\r\r\n"), vec!["a\r"]);
}

#[test]
fn substring_search() {
    assert!(str_contains("/dev/sdb1 /mnt xfs", "/dev/sdb"));
    assert!(str_contains("abc", ""));
    assert!(!str_contains("ab", "abc"));
    assert!(str_contains("abc", "bc"));
    assert!(!str_contains("abc", "cb"));
}

#[test]
fn fstab_matching() {
    let fstab = "# /dev/sdb /old xfs defaults 0 2\nUUID=1234-abcd /data xfs defaults 0 2\n/dev/sdc none swap sw 0 0\n";
    // Commented lines do not count.
    assert!(!fstab_references(fstab, "/dev/sdb", "", ""));
    // The device path itself.
    assert!(fstab_references(fstab, "/dev/sdc", "", ""));
    // The UUID printed by blkid, trimmed.
    assert!(fstab_references(fstab, "/dev/sdd", "", "1234-abcd\n"));
    assert!(!fstab_references(fstab, "/dev/sdd", "", "  \n"));
    // The mount point, unless empty or "none".
    assert!(fstab_references(fstab, "/dev/sdd", "/data", ""));
    assert!(!fstab_references("/dev/sdz none swap sw 0 0", "/dev/sdd", "none", ""));
}

#[test]
fn mounts_and_swaps() {
    let mounts = "/dev/sdb1 /mnt ext4 rw 0 0\nproc /proc proc rw 0 0\n";
    assert!(text_mentions(mounts, "/dev/sdb"));
    assert!(!text_mentions(mounts, "/dev/sdc"));
    assert!(!text_mentions("", "/dev/sdb"));
}

#[test]
fn lsblk_outputs() {
    assert_eq!(parse_size_output("  1073741824\n"), Ok(1073741824));
    assert_eq!(parse_size_output("+5"), Ok(5));
    assert_eq!(parse_size_output("18446744073709551615"), Ok(u64::MAX));
    assert_eq!(parse_size_output("18446744073709551616").unwrap_err(), "Failed to parse size: 18446744073709551616");
    assert_eq!(parse_size_output(" 12a \n").unwrap_err(), "Failed to parse size: 12a");
    assert_eq!(parse_size_output("\n").unwrap_err(), "Failed to parse size: ");
    assert_eq!(parse_size_output("+").unwrap_err(), "Failed to parse size: +");
    assert!(is_full_disk_type("disk\n"));
    assert!(!is_full_disk_type("part\n"));
    assert!(!is_full_disk_type("   "));
}

#[test]
fn whitespace_and_trim() {
    assert_eq!(trim_str("\t Y \r\n"), "Y");
    assert_eq!(trim_str("\u{3000}a b\u{2028}"), "a b");
    for c in ['\t', '\n', '\u{b}', '\u{c}', '\r', ' ', '\u{85}', '\u{a0}', '\u{1680}', '\u{2000}', '\u{200a}', '\u{2028}', '\u{2029}', '\u{202f}', '\u{205f}', '\u{3000}'] {
        assert!(is_whitespace_char(c), "{:?}", c);
        assert_eq!(is_whitespace_char(c), c.is_whitespace());
    }
    for c in ['a', '\u{200b}', '\u{180e}', '\u{feff}', '0', '\u{1f}'] {
        assert_eq!(is_whitespace_char(c), c.is_whitespace(), "{:?}", c);
    }
}

#[test]
fn root_check_reads_the_uid_line() {
    assert!(status_is_root("Name:\tlvq\nUid:\t0\t0\t0\t0\nGid:\t0\t0\t0\t0\n"));
    assert!(!status_is_root("Name:\tlvq\nUid:\t1000\t1000\t1000\t1000\n"));
    assert!(!status_is_root("Name:\tlvq\n"));
    assert!(!status_is_root(""));
    // Only the first Uid: line counts.
    assert!(!status_is_root("Uid:\t5\t0\t0\t0\nUid:\t0\t0\t0\t0\n"));
}

#[test]
fn several_names_for_one_path() {
    let names = vec!["/dev/vg/a".to_string(), "/dev/dm-3".to_string()];
    assert!(text_mentions_any("/dev/dm-3 /mnt xfs rw 0 0\n", &names));
    assert!(!text_mentions_any("/dev/sda1 / ext4 rw 0 0\n", &names));
    assert!(fstab_references_any("/dev/dm-3 /x xfs defaults 0 2\n", &names, "", ""));
    assert!(!fstab_references_any("# /dev/dm-3\n", &names, "", ""));
    assert!(!fstab_references_any("/dev/dm-3 /x xfs defaults 0 2\n", &vec![], "", ""));
}
