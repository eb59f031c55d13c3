use rust_fuse::config::acl;
use rust_fuse::config::line_allows_other;
use rust_fuse::config::lines_allow_other;
use rust_fuse::config::log_level;
use rust_fuse::config::mount_options;
use rust_fuse::config::valid_bitmap_size;
use rust_fuse::config::valid_block_size;
use rust_fuse::config::Acl;
use rust_fuse::config::LogLevel;
use rust_fuse::config::MountOption;

#[test]
fn sizes_are_numbers() {
    assert_eq!(valid_block_size("4096"), Ok(4096));
    assert_eq!(valid_block_size("+1024"), Ok(1024));
    assert_eq!(valid_block_size("0001024"), Ok(1024));
    assert_eq!(valid_block_size("0"), Ok(0));
    assert_eq!(valid_bitmap_size("32768"), Ok(32768));
}

#[test]
fn sizes_that_are_no_numbers() {
    for s in ["", "+", "-0", "-1024", " 1024", "1024 ", "1_024", "0x400", "12a", "1024.0", "++1"] {
        assert_eq!(valid_block_size(s), Err(format!("`{s}` is not a number")));
        assert_eq!(valid_bitmap_size(s), Err(format!("`{s}` is not a number")));
    }
}

#[test]
fn sizes_that_are_too_large_are_no_numbers() {
    let s = "99999999999999999999999999";
    assert_eq!(valid_bitmap_size(s), Err(format!("`{s}` is not a number")));
    let max = usize::MAX.to_string();
    assert_eq!(valid_bitmap_size(&max), Err(format!("`{max}` must be a multiple of 1024")));
}

#[test]
fn sizes_that_are_no_multiples() {
    assert_eq!(valid_block_size("1000"), Err("`1000` must be a multiple of 1024".to_string()));
    assert_eq!(valid_bitmap_size("1025"), Err("`1025` must be a multiple of 1024".to_string()));
}

#[test]
fn block_sizes_have_32_bits() {
    assert_eq!(valid_block_size("4294968320"), Ok(1024));
    assert_eq!(valid_bitmap_size("4294968320"), Ok(4294968320));
}

#[test]
fn configuration_lines() {
    assert!(line_allows_other("user_allow_other"));
    assert!(line_allows_other("  \t user_allow_other # yes"));
    assert!(line_allows_other("\u{a0}\u{3000}user_allow_otherwise"));
    assert!(!line_allows_other("#user_allow_other"));
    assert!(!line_allows_other("user_allow_othe"));
    assert!(!line_allows_other("user_allow_ather"));
    assert!(!line_allows_other("mount_max = 1000"));
    assert!(!line_allows_other("   "));
    assert!(!line_allows_other(""));
}

#[test]
fn any_configuration_line_counts() {
    let lines = |text: &str| -> Vec<String> { text.lines().map(|l| l.to_string()).collect() };
    assert!(lines_allow_other(&lines("# comment\nmount_max = 3\n user_allow_other\n")));
    assert!(lines_allow_other(&lines("user_allow_other\nmount_max = 3")));
    assert!(!lines_allow_other(&lines("#user_allow_other\nmount_max = 3")));
    assert!(!lines_allow_other(&Vec::new()));
}

#[test]
fn every_white_space_is_trimmed() {
    for n in 0..0x11_0000u32 {
        if let Some(c) = char::from_u32(n) {
            let listed = matches!(n, 0x9..=0xd | 0x20 | 0x85 | 0xa0 | 0x1680 | 0x2000..=0x200a
                | 0x2028 | 0x2029 | 0x202f | 0x205f | 0x3000);
            assert_eq!(c.is_whitespace(), listed, "{n:x}");
        }
    }
    for c in ['\u{9}', '\u{b}', '\u{85}', '\u{1680}', '\u{2003}', '\u{2029}', '\u{205f}'] {
        assert!(line_allows_other(&format!("{c}user_allow_other")));
    }
    assert!(!line_allows_other("\u{200b}user_allow_other"));
}

#[test]
fn verbosity() {
    assert_eq!(log_level(0), LogLevel::Error);
    assert_eq!(log_level(1), LogLevel::Warn);
    assert_eq!(log_level(2), LogLevel::Info);
    assert_eq!(log_level(3), LogLevel::Debug);
    assert_eq!(log_level(4), LogLevel::Trace);
    assert_eq!(log_level(255), LogLevel::Trace);
}

#[test]
fn options_for_mounting() {
    assert_eq!(mount_options(false, false), vec![MountOption::FsName]);
    assert_eq!(mount_options(true, false), vec![MountOption::FsName, MountOption::Suid]);
    assert_eq!(mount_options(false, true), vec![MountOption::FsName, MountOption::AutoUnmount]);
    assert_eq!(
        mount_options(true, true),
        vec![MountOption::FsName, MountOption::Suid, MountOption::AutoUnmount]
    );
}

#[test]
fn who_may_use_the_file_system() {
    assert_eq!(acl(Some(true), false), Acl::All);
    assert_eq!(acl(Some(false), false), Acl::Owner);
    assert_eq!(acl(None, false), Acl::Owner);
    assert_eq!(acl(Some(false), true), Acl::All);
    assert_eq!(acl(None, true), Acl::All);
}
