use ctxsnap::clean_path;
use ctxsnap::order::str_le;
use ctxsnap::paths::{extension_of, file_name_of, path_extension_of, relative_to};
use ctxsnap::text::{
    chars_of, ends_with, push_decimal, push_fixed2, push_megabytes, starts_with, str_eq,
    string_of,
};
use ctxsnap::timestamp::Timestamp;

fn decimal(n: u128) -> String {
    let mut s = String::from("x");
    push_decimal(&mut s, n);
    s
}

fn megabytes(size: u64) -> String {
    let mut s = String::new();
    push_megabytes(&mut s, size);
    s
}

#[test]
fn clean_path_strips_marker_and_turns_slashes() {
    assert_eq!(clean_path(r"\\?\C:\work\a.txt"), "C:/work/a.txt");
    assert_eq!(clean_path(r"\\?\\\?\C:\x"), "C:/x");
    assert_eq!(clean_path("a/b\\c"), "a/b/c");
    assert_eq!(clean_path(""), "");
    assert_eq!(clean_path(r"\\?"), "//?");
    assert_eq!(clean_path(r"x\\?\y"), "x//?/y");
    assert_eq!(clean_path("/plain/path"), "/plain/path");
}

#[test]
fn relative_paths() {
    assert_eq!(relative_to("/a/b/c.txt", "/a/b"), "c.txt");
    assert_eq!(relative_to("/a/b/c.txt", "/a/b/"), "c.txt");
    assert_eq!(relative_to("/a/b//c/d.txt", "/a/b"), "c/d.txt");
    assert_eq!(relative_to("/a/bc/d.txt", "/a/b"), "/a/bc/d.txt");
    assert_eq!(relative_to("/a/b", "/a/b"), "");
    assert_eq!(relative_to("/x/y", "/a/b"), "/x/y");
    assert_eq!(relative_to("/a", "/a/b"), "/a");
    assert_eq!(relative_to("rel/p", ""), "rel/p");
    assert_eq!(relative_to(r"C:\w\src\m.rs", r"C:\w"), r"src\m.rs");
}

#[test]
fn file_names_and_extensions() {
    assert_eq!(file_name_of("/a/b/c.txt"), "c.txt");
    assert_eq!(file_name_of("c.txt"), "c.txt");
    assert_eq!(file_name_of("a\\b"), "b");
    assert_eq!(file_name_of("a/"), "");
    assert_eq!(extension_of("a.txt"), Some("txt".to_string()));
    assert_eq!(extension_of("a.tar.gz"), Some("gz".to_string()));
    assert_eq!(extension_of(".bashrc"), None);
    assert_eq!(extension_of("Makefile"), None);
    assert_eq!(extension_of(".."), None);
    assert_eq!(extension_of("a."), Some(String::new()));
    assert_eq!(extension_of("..a"), Some("a".to_string()));
    assert_eq!(extension_of(".env.example"), Some("example".to_string()));
    assert_eq!(extension_of(""), None);
    assert_eq!(path_extension_of("/x.d/file"), None);
    assert_eq!(path_extension_of("/x.d/file.RS"), Some("RS".to_string()));
}

#[test]
fn extensions_agree_with_the_standard_library() {
    for name in ["a.txt", "a.tar.gz", ".bashrc", "Makefile", "a.", "..a", "x.y.z", ".a.b", "caf\u{e9}.t\u{e9}"] {
        let std_ext = std::path::Path::new(name)
            .extension()
            .and_then(|e| e.to_str())
            .map(|e| e.to_string());
        assert_eq!(extension_of(name), std_ext, "{}", name);
    }
}

#[test]
fn decimal_notation() {
    assert_eq!(decimal(0), "x0");
    assert_eq!(decimal(7), "x7");
    assert_eq!(decimal(10), "x10");
    assert_eq!(decimal(1234567890), "x1234567890");
    assert_eq!(decimal(u64::MAX as u128), "x18446744073709551615");
    assert_eq!(decimal(u128::MAX), format!("x{}", u128::MAX));
}

#[test]
fn megabytes_have_two_places() {
    assert_eq!(megabytes(0), "0.00");
    assert_eq!(megabytes(1048576), "1.00");
    assert_eq!(megabytes(1572864), "1.50");
    assert_eq!(megabytes(5), "0.00");
    assert_eq!(megabytes(10 * 1048576 + 104858), "10.10");
    assert_eq!(megabytes(u64::MAX), "17592186044416.00");
}

#[test]
fn megabytes_round_ties_to_the_even_neighbour() {
    // 0.125 MiB and 0.375 MiB lie exactly between two hundredths.
    assert_eq!(megabytes(131072), "0.12");
    assert_eq!(megabytes(393216), "0.38");
    assert_eq!(megabytes(131073), "0.13");
}

#[test]
fn megabytes_agree_with_float_formatting() {
    let mut sizes: Vec<u64> = vec![0, 1, 5242, 5243, 10485, 10486, 131072, 393216, 655360, 1 << 20, (1 << 30) + 12345];
    let mut x: u64 = 12345;
    for _ in 0..2000 {
        x = x.wrapping_mul(6364136223846793005).wrapping_add(1442695040888963407);
        sizes.push(x >> 24);
        sizes.push((x >> 40) << 17);
    }
    for size in sizes {
        let expected = format!("{:.2}", (size as f64) / 1024.0 / 1024.0);
        assert_eq!(megabytes(size), expected, "size {}", size);
    }
}

#[test]
fn fixed_point_ratio() {
    let mut s = String::new();
    push_fixed2(&mut s, 1, 3);
    assert_eq!(s, "0.33");
    let mut s = String::new();
    push_fixed2(&mut s, 2, 3);
    assert_eq!(s, "0.67");
    let mut s = String::new();
    push_fixed2(&mut s, 250, 100);
    assert_eq!(s, "2.50");
    let mut s = String::new();
    push_fixed2(&mut s, 1005, 1000);
    assert_eq!(s, "1.00");
    let mut s = String::new();
    push_fixed2(&mut s, 1015, 1000);
    assert_eq!(s, "1.02");
}

#[test]
fn string_helpers() {
    assert!(str_eq("abc", "abc"));
    assert!(!str_eq("abc", "abd"));
    assert!(!str_eq("abc", "ab"));
    assert!(str_eq("", ""));
    assert!(str_eq("h\u{e9}", "h\u{e9}"));
    let chars = chars_of("h\u{e9}llo");
    assert_eq!(chars, vec!['h', '\u{e9}', 'l', 'l', 'o']);
    assert_eq!(string_of(&chars), "h\u{e9}llo");
    assert!(starts_with(&chars, "h\u{e9}"));
    assert!(starts_with(&chars, ""));
    assert!(!starts_with(&chars, "he"));
    assert!(!starts_with(&chars, "h\u{e9}llo!"));
    assert!(ends_with(&chars, "llo"));
    assert!(ends_with(&chars, ""));
    assert!(!ends_with(&chars, "xh\u{e9}llo"));
    assert!(!ends_with(&chars, "ll"));
}

#[test]
fn strings_are_ordered_by_their_bytes() {
    assert!(str_le("a.txt", "subdir/m.txt"));
    assert!(str_le("subdir/m.txt", "z.txt"));
    assert!(!str_le("z.txt", "a.txt"));
    assert!(str_le("a", "a"));
    assert!(str_le("", "a"));
    assert!(!str_le("a", ""));
    assert!(str_le("a", "ab"));
    assert!(!str_le("ab", "a"));
    assert!(str_le("B", "a"));
    assert!(str_le("z", "\u{e9}"));
    for (a, b) in [("a", "b"), ("ab", "a"), ("x/y", "x.y"), ("\u{e9}", "z"), ("", "")] {
        assert_eq!(str_le(a, b), a <= b, "{:?} {:?}", a, b);
    }
}

#[test]
fn the_clock_gives_both_notations() {
    let t = Timestamp::now();
    assert!((2024..=9999).contains(&t.year));
    let digits = |s: &str| s.chars().all(|c| c.is_ascii_digit());
    let d = &t.display;
    assert_eq!(d.len(), 19);
    assert!(digits(&d[0..4]) && digits(&d[5..7]) && digits(&d[8..10]));
    assert!(digits(&d[11..13]) && digits(&d[14..16]) && digits(&d[17..19]));
    assert_eq!(
        (&d[4..5], &d[7..8], &d[10..11], &d[13..14], &d[16..17]),
        ("-", "-", " ", ":", ":")
    );
    let f = &t.file_stamp;
    assert_eq!(f.len(), 15);
    assert!(digits(&f[0..8]) && digits(&f[9..15]));
    assert_eq!(&f[8..9], "_");
    assert_eq!(&d[0..4], t.year.to_string());
    // Both notations show one and the same moment.
    let plain: String = d.chars().filter(|c| c.is_ascii_digit()).collect();
    assert_eq!(plain, f.replace('_', ""));
}
