//! The lister's formatting: sizes, permissions, times, colors, lines and
//! hidden-name filtering.

use wrm::fsmodel::FileKind;
use wrm::lister::{
    color_for, format_line, format_path, format_permissions, format_timestamp, is_executable,
    parse_char_to_usize, permissions_styled, size, size_styled, time, Color,
};
use wrm::strutil::{base_name, is_hidden, join_path, u64_to_dec};
use wrm::lister::filter_visible;

#[test]
fn sizes_scale_by_powers_of_1024() {
    assert_eq!(size(0), "0");
    assert_eq!(size(2048), "2K");
    assert_eq!(size(1_073_741_824), "1G");
    assert_eq!(size(1023), "1023");
    assert_eq!(size(1024), "1K");
    assert_eq!(size(1_048_575), "1023K");
    assert_eq!(size(5 * 1_048_576), "5M");
    assert_eq!(size(3 * 1_099_511_627_776), "3T");
    assert_eq!(size(2 * 1_125_899_906_842_624), "2P");
    assert_eq!(size(2 * 1_152_921_504_606_846_976), "2E");
}

#[test]
fn styled_sizes_are_right_aligned() {
    assert_eq!(size_styled(0), "   0");
    assert_eq!(size_styled(2048), "  2K");
    assert_eq!(size_styled(1_073_741_824), "  1G");
    assert_eq!(size_styled(999), " 999");
    assert_eq!(size_styled(1023), "1023");
    assert_eq!(size_styled(204800), "200K");
}

#[test]
fn permission_triplets() {
    assert_eq!(permissions_styled(0o644), "u: rw- g: r-- o: r--");
    assert_eq!(permissions_styled(0o100644), "u: rw- g: r-- o: r--");
    assert_eq!(permissions_styled(0o755), "u: rwx g: r-x o: r-x");
    assert_eq!(permissions_styled(0o000), "u: --- g: --- o: ---");
}

#[test]
fn permission_digit_characters() {
    assert_eq!(format_permissions('1'), "--x");
    assert_eq!(format_permissions('2'), "-w-");
    assert_eq!(format_permissions('3'), "-wx");
    assert_eq!(format_permissions('4'), "r--");
    assert_eq!(format_permissions('5'), "r-x");
    assert_eq!(format_permissions('6'), "rw-");
    assert_eq!(format_permissions('7'), "rwx");
    assert_eq!(format_permissions('0'), "---");
    assert_eq!(format_permissions('x'), "---");
}

#[test]
fn executability_checks_the_odd_bits() {
    assert!(!is_executable(0o644));
    assert!(is_executable(0o755));
    assert!(is_executable(0o100755));
    assert!(is_executable(0o001));
    assert!(!is_executable(0o666));
}

#[test]
fn digit_characters_parse() {
    assert_eq!(parse_char_to_usize('0'), Some(0));
    assert_eq!(parse_char_to_usize('7'), Some(7));
    assert_eq!(parse_char_to_usize('9'), Some(9));
    assert_eq!(parse_char_to_usize('x'), None);
    assert_eq!(parse_char_to_usize(' '), None);
}

#[test]
fn timestamps_are_zero_padded() {
    assert_eq!(format_timestamp(1, 2, 3, 4), "01/02 03:04");
    assert_eq!(format_timestamp(12, 31, 23, 59), "12/31 23:59");
}

#[test]
fn local_time_has_the_stamp_shape() {
    let t = time(0);
    let chars: Vec<char> = t.chars().collect();
    assert_eq!(chars.len(), 11);
    assert_eq!(chars[2], '/');
    assert_eq!(chars[5], ' ');
    assert_eq!(chars[8], ':');
    assert!(chars[0].is_ascii_digit() && chars[1].is_ascii_digit());
    assert!(chars[3].is_ascii_digit() && chars[4].is_ascii_digit());
    assert!(chars[6].is_ascii_digit() && chars[7].is_ascii_digit());
    assert!(chars[9].is_ascii_digit() && chars[10].is_ascii_digit());
}

#[test]
fn colors_follow_kind_and_executability() {
    assert_eq!(color_for(FileKind::Directory, false), Color::Blue);
    assert_eq!(color_for(FileKind::Symlink, false), Color::Cyan);
    assert_eq!(color_for(FileKind::File, true), Color::Green);
    assert_eq!(color_for(FileKind::File, false), Color::Plain);
}

#[test]
fn trash_lines_show_name_origin_and_kind() {
    let line = format_line(
        &String::from("/home/u/.config/wrm/trash/notes.txt"),
        &String::from("/home/u/notes.txt"),
        FileKind::File,
    );
    assert_eq!(line, "notes.txt (/home/u/notes.txt) file");
    let line = format_line(&String::from("/t/d"), &String::from("/x/d"), FileKind::Directory);
    assert_eq!(line, "d (/x/d) directory");
    let line = format_line(&String::from("/t/l"), &String::from("/x/l"), FileKind::Symlink);
    assert_eq!(line, "l (/x/l) symlink");
}

#[test]
fn paths_trim_for_display() {
    assert_eq!(
        format_path(String::from("/home/u/docs/f.txt"), String::from("/home/u")),
        "docs/f.txt"
    );
    assert_eq!(format_path(String::from("plain"), String::from("zzz")), "plain");
    assert_eq!(format_path(String::from("/a/b"), String::from("/a/b")), "");
}

#[test]
fn base_names_and_hidden_paths() {
    assert_eq!(base_name("/a/b/c"), "c");
    assert_eq!(base_name("name"), "name");
    assert_eq!(base_name("/x/"), "");
    assert!(is_hidden("/home/u/.git"));
    assert!(is_hidden(".profile"));
    assert!(!is_hidden("/home/u/code"));
    assert!(!is_hidden("/home/u/.config/visible"));
}

#[test]
fn filtering_keeps_visible_paths_in_order() {
    let files = vec![
        String::from("/d/a"),
        String::from("/d/.hidden"),
        String::from("/d/b"),
        String::from("/d/.also"),
    ];
    let kept = filter_visible(&files);
    assert_eq!(kept, vec![String::from("/d/a"), String::from("/d/b")]);
}

#[test]
fn decimal_renderings() {
    assert_eq!(u64_to_dec(0), "0");
    assert_eq!(u64_to_dec(1024), "1024");
    assert_eq!(u64_to_dec(18_446_744_073_709_551_615), "18446744073709551615");
    assert_eq!(join_path("/a", "b"), "/a/b");
}
