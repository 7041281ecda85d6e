use ctxsnap::budget::{has_room, metadata_failure, BudgetGate};
use ctxsnap::comments::{comment_style, remove_comments, strip_comments, style_for, CommentStyle};
use ctxsnap::matcher::MatchSpan;
use ctxsnap::config::AppConfig;
use ctxsnap::processing::{
    bytes_of_megabytes, count_noise, fallback_rejection, fence_for, is_mostly_text, needs_read,
    process_file, read_limit, unreadable, FileStatus, ReadFailure,
};

fn config_with_limit(mb: u64) -> AppConfig {
    let mut c = AppConfig::default();
    c.max_file_mb = mb;
    c
}

fn included(status: &FileStatus) -> (&str, &str, u64) {
    match status {
        FileStatus::Included { path, content, size } => (path, content, *size),
        FileStatus::Omitted { reason, .. } => panic!("omitted: {}", reason),
    }
}

fn omitted(status: &FileStatus) -> (&str, &str, u64) {
    match status {
        FileStatus::Omitted { path, reason, size } => (path, reason, *size),
        FileStatus::Included { .. } => panic!("included"),
    }
}

fn process(path: &str, bytes: &[u8], config: &AppConfig) -> FileStatus {
    process_file(path.to_string(), bytes.len() as u64, bytes, config)
}

#[test]
fn fence_is_one_longer_than_the_longest_run() {
    assert_eq!(fence_for(""), "```");
    assert_eq!(fence_for("no ticks"), "```");
    assert_eq!(fence_for("a ` b"), "```");
    assert_eq!(fence_for("a `` b"), "```");
    assert_eq!(fence_for("a ``` b"), "````");
    assert_eq!(fence_for("```` and ``"), "`````");
    assert_eq!(fence_for("`` and ````"), "`````");
    assert_eq!(fence_for(&"`".repeat(10)), "`".repeat(11));
    assert_eq!(fence_for(&"`".repeat(110)), "`".repeat(111));
    assert_eq!(fence_for("`\u{e9}``\u{1f600}```"), "````");
}

#[test]
fn sniffing_text_and_binary_samples() {
    assert!(is_mostly_text(b""));
    assert!(is_mostly_text(b"plain text\nwith lines\r\n\tand tabs"));
    assert!(!is_mostly_text(&[0u8]));
    assert!(!is_mostly_text(b"text with a \0 inside"));
    assert!(is_mostly_text("caf\u{e9} \u{1f600}".as_bytes()));
}

#[test]
fn sniffing_counts_control_characters_in_valid_text() {
    // One control character in fifty is 2%: that is binary. One in fifty-one is text.
    let mut sample = vec![b'a'; 49];
    sample.push(0x01);
    assert!(!is_mostly_text(&sample));
    sample.push(b'a');
    assert!(is_mostly_text(&sample));
    // Escape counts in valid text.
    let mut sample = vec![b'a'; 49];
    sample.push(0x1b);
    assert!(!is_mostly_text(&sample));
    // C1 controls count as one character each.
    let mut text = "a".repeat(49);
    text.push('\u{85}');
    assert!(!is_mostly_text(text.as_bytes()));
    text.push('a');
    assert!(is_mostly_text(text.as_bytes()));
}

#[test]
fn sniffing_counts_bytes_where_the_sample_is_no_utf8() {
    // 0xff makes the sample invalid; then the control bytes are counted.
    for control in [0x01u8, 0x08, 0x0b, 0x0c, 0x0e, 0x1b, 0x1f, 0x7f] {
        let mut sample = vec![b'a'; 48];
        sample.push(0xff);
        sample.push(control);
        assert!(!is_mostly_text(&sample), "{:#x}", control);
        sample.push(b'a');
        assert!(is_mostly_text(&sample), "{:#x}", control);
    }
    // Tab, line feed and carriage return never count, nor do bytes from 0x80 on.
    for harmless in [0x09u8, 0x0a, 0x0d, 0x20, 0x80, 0x9f] {
        let mut sample = vec![b'a'; 10];
        sample.push(0xff);
        sample.extend_from_slice(&[harmless; 30]);
        assert!(is_mostly_text(&sample), "{:#x}", harmless);
    }
}

#[test]
fn escapes_in_a_sample_that_is_no_utf8_mean_binary() {
    let mut sample = vec![0xffu8];
    sample.extend_from_slice(&[0x1b; 10]);
    sample.extend_from_slice(&[b'a'; 39]);
    assert!(!is_mostly_text(&sample));
    let mut valid = vec![0x1bu8; 10];
    valid.extend_from_slice(&[b'a'; 40]);
    assert!(!is_mostly_text(&valid));
}

#[test]
fn noise_is_counted_by_character() {
    assert_eq!(count_noise(""), (0, 0));
    assert_eq!(count_noise("abc\n\r\t"), (6, 0));
    assert_eq!(count_noise("a\u{1}b\u{7f}c\u{9f}\u{a0}"), (7, 3));
    assert_eq!(count_noise("\u{e9}\u{1f600}\u{1b}"), (3, 1));
}

#[test]
fn file_over_the_limit_is_omitted_unread() {
    let config = config_with_limit(1);
    let status = process_file("/r/big.bin".to_string(), 1048577, b"", &config);
    assert_eq!(omitted(&status), ("/r/big.bin", "Size 1 MB exceeds limit of 1 MB", 1048577));
    let status = process_file("/r/big.bin".to_string(), 5 * 1048576 + 7, b"text", &config);
    assert_eq!(omitted(&status), ("/r/big.bin", "Size 5 MB exceeds limit of 1 MB", 5 * 1048576 + 7));
    let mut generous = config_with_limit(1);
    generous.max_total_mb = u64::MAX;
    assert!(matches!(
        process_file("x".to_string(), 1048577, b"", &generous),
        FileStatus::Omitted { .. }
    ));
}

#[test]
fn file_at_the_limit_is_read() {
    let config = config_with_limit(1);
    let bytes = vec![b'x'; 1048576];
    let status = process(&"/r/full.txt".to_string(), &bytes, &config);
    let (_, content, size) = included(&status);
    assert_eq!(size, 1048576);
    assert_eq!(content.len(), 1048576);
}

#[test]
fn empty_file_is_included_with_no_content() {
    let status = process_file("/r/empty.txt".to_string(), 0, b"", &AppConfig::default());
    assert_eq!(included(&status), ("/r/empty.txt", "", 0));
    let zero_limit = config_with_limit(0);
    let status = process_file("/r/empty.txt".to_string(), 0, b"", &zero_limit);
    assert_eq!(included(&status), ("/r/empty.txt", "", 0));
}

#[test]
fn file_that_grew_while_it_was_read_is_omitted() {
    let config = config_with_limit(1);
    let bytes = vec![b'x'; 1048577];
    let status = process_file("/r/log.txt".to_string(), 10, &bytes, &config);
    assert_eq!(
        omitted(&status),
        ("/r/log.txt", "File content exceeded limit of 1 MB (detected during read)", 1048577)
    );
}

#[test]
fn size_read_counts_not_size_on_disk() {
    let status = process_file("/r/a.txt".to_string(), 100, b"short", &AppConfig::default());
    assert_eq!(included(&status), ("/r/a.txt", "short", 5));
}

#[test]
fn zero_byte_in_the_sample_means_binary() {
    let config = AppConfig::default();
    let status = process("/r/b.bin", &[0u8, 1, 2, 3, 4], &config);
    assert_eq!(omitted(&status), ("/r/b.bin", "Binary detected", 5));
    let mut bytes = vec![b'a'; 8191];
    bytes.push(0);
    bytes.extend_from_slice(b"tail");
    let status = process("/r/b.bin", &bytes, &config);
    assert_eq!(omitted(&status), ("/r/b.bin", "Binary detected", 8196));
}

#[test]
fn zero_byte_behind_the_sample_is_not_seen() {
    let mut bytes = vec![b'a'; 8192];
    bytes.push(0);
    let status = process("/r/late.txt", &bytes, &AppConfig::default());
    let (_, content, size) = included(&status);
    assert_eq!(size, 8193);
    assert!(content.ends_with('\0'));
}

#[test]
fn valid_utf8_is_taken_as_it_is() {
    let text = "gr\u{fc}\u{df}e \u{1f600}\n";
    let status = process("/r/u.txt", text.as_bytes(), &AppConfig::default());
    assert_eq!(included(&status), ("/r/u.txt", text, text.len() as u64));
}

#[test]
fn byte_order_mark_is_removed() {
    let status = process("/r/bom.txt", b"\xEF\xBB\xBFHello World", &AppConfig::default());
    assert_eq!(included(&status), ("/r/bom.txt", "Hello World", 14));
}

#[test]
fn invalid_utf8_falls_back_to_windows_1252() {
    let status = process("/r/w.txt", b"na\xEFve caf\xE9 \x80", &AppConfig::default());
    assert_eq!(included(&status), ("/r/w.txt", "na\u{ef}ve caf\u{e9} \u{20ac}", 12));
}

#[test]
fn noisy_fallback_text_is_omitted() {
    // 0x81 is invalid UTF-8 and decodes to the control character U+0081.
    let mut bytes = vec![b'a'; 99];
    bytes.push(0x81);
    let status = process("/r/n.txt", &bytes, &AppConfig::default());
    assert_eq!(omitted(&status), ("/r/n.txt", "Too many control chars: 1.00%", 100));

    let mut bytes = vec![b'a'; 100];
    bytes.push(0x81);
    let status = process("/r/n.txt", &bytes, &AppConfig::default());
    let (_, content, size) = included(&status);
    assert_eq!(size, 101);
    assert!(content.ends_with('\u{81}'));
}

#[test]
fn fallback_judgement() {
    assert_eq!(fallback_rejection(""), None);
    assert_eq!(fallback_rejection("clean text\n"), None);
    assert_eq!(fallback_rejection("\u{1}"), Some("Too many control chars: 100.00%".to_string()));
    assert_eq!(fallback_rejection("ab\u{1}"), Some("Too many control chars: 33.33%".to_string()));
    assert_eq!(fallback_rejection("a\u{1}\u{2}"), Some("Too many control chars: 66.67%".to_string()));
    let mut text = "a".repeat(31);
    text.push('\u{1}');
    assert_eq!(fallback_rejection(&text), Some("Too many control chars: 3.12%".to_string()));
    let mut text = "a".repeat(199);
    text.push('\u{1}');
    assert_eq!(fallback_rejection(&text), None);
}

#[test]
fn comments_are_stripped_only_when_asked_for() {
    let code = b"let x = 1; // note\n";
    let mut config = AppConfig::default();
    let status = process("/r/a.rs", code, &config);
    assert_eq!(included(&status).1, "let x = 1; // note\n");
    config.remove_comments = true;
    let status = process("/r/a.rs", code, &config);
    assert_eq!(included(&status), ("/r/a.rs", "let x = 1; \n", 19));
    let status = process("/r/a.txt", code, &config);
    assert_eq!(included(&status).1, "let x = 1; // note\n");
    let status = process("/r/noext", code, &config);
    assert_eq!(included(&status).1, "let x = 1; // note\n");
}

#[test]
fn large_content_is_not_stripped() {
    let mut config = AppConfig::default();
    config.remove_comments = true;
    let mut code = b"// head\n".to_vec();
    code.resize(1048575, b'x');
    let status = process("/r/a.rs", &code, &config);
    assert!(!included(&status).1.contains("head"));
    code.push(b'x');
    let status = process("/r/a.rs", &code, &config);
    assert!(included(&status).1.starts_with("// head\n"));
}

#[test]
fn styles_by_extension() {
    for ext in ["rs", "c", "cpp", "h", "hpp", "js", "ts", "java", "go", "kt", "swift", "css", "cs", "php", "RS", "Cpp"] {
        assert_eq!(comment_style(ext), CommentStyle::CLike, "{}", ext);
    }
    for ext in ["py", "sh", "rb", "yaml", "yml", "toml", "dockerfile", "pl", "ps1", "PY"] {
        assert_eq!(comment_style(ext), CommentStyle::Hash, "{}", ext);
    }
    for ext in ["sql", "lua", "hs", "SQL"] {
        assert_eq!(comment_style(ext), CommentStyle::Dash, "{}", ext);
    }
    for ext in ["html", "xml", "vue", "svelte", "HTML"] {
        assert_eq!(comment_style(ext), CommentStyle::Xml, "{}", ext);
    }
    for ext in ["", "txt", "md", "rss", "r", "htm"] {
        assert_eq!(comment_style(ext), CommentStyle::Plain, "{}", ext);
    }
}

#[test]
fn styles_for_lower_case_extensions() {
    assert_eq!(style_for("rs"), CommentStyle::CLike);
    assert_eq!(style_for("RS"), CommentStyle::Plain);
    assert_eq!(style_for("py"), CommentStyle::Hash);
    assert_eq!(style_for("sql"), CommentStyle::Dash);
    assert_eq!(style_for("xml"), CommentStyle::Xml);
    assert_eq!(style_for(""), CommentStyle::Plain);
}

fn span(start: usize, end: usize, groups: &[bool]) -> MatchSpan {
    MatchSpan { start, end, groups: groups.to_vec() }
}

#[test]
fn comment_matches_are_cut_out() {
    let string = [true, true, false, false, false];
    let block = [true, false, false, true, false];
    let line = [true, false, false, false, true];
    let text = "ab\"cd\"ef/*gh*/ij//kl";
    let spans = vec![span(2, 6, &string), span(8, 14, &block), span(16, 20, &line)];
    assert_eq!(remove_comments(text, CommentStyle::CLike, &spans), "ab\"cd\"efij");
    assert_eq!(remove_comments(text, CommentStyle::Hash, &spans), "ab\"cd\"efij//kl");
    assert_eq!(remove_comments(text, CommentStyle::Xml, &spans), "abefij");
    assert_eq!(remove_comments(text, CommentStyle::Plain, &spans), text);
    assert_eq!(remove_comments(text, CommentStyle::CLike, &Vec::new()), text);
}

#[test]
fn matches_at_the_edges_and_empty_ones() {
    let all = [true];
    let text = "0123456789";
    assert_eq!(remove_comments(text, CommentStyle::Xml, &vec![span(0, 10, &all)]), "");
    assert_eq!(remove_comments(text, CommentStyle::Xml, &vec![span(0, 3, &all), span(3, 3, &all), span(8, 10, &all)]), "34567");
    assert_eq!(remove_comments(text, CommentStyle::Xml, &vec![span(4, 4, &all)]), text);
    assert_eq!(remove_comments(text, CommentStyle::CLike, &vec![span(0, 5, &[true, false, false])]), text);
    assert_eq!(remove_comments("a\u{e9}b", CommentStyle::Xml, &vec![span(1, 3, &all)]), "ab");
    assert_eq!(remove_comments("a\u{e9}b", CommentStyle::Xml, &vec![span(0, 1, &all), span(3, 4, &all)]), "\u{e9}");
}

#[test]
fn c_like_comments() {
    assert_eq!(strip_comments("a // b\nc", "rs"), "a \nc");
    assert_eq!(strip_comments("a /* b\n c */ d", "c"), "a  d");
    assert_eq!(strip_comments("s = \"// not a comment\"; // real", "js"), "s = \"// not a comment\"; ");
    assert_eq!(strip_comments("c = '/* no */'; /* yes */", "ts"), "c = '/* no */'; ");
    assert_eq!(strip_comments("s = \"a \\\" // b\"; // c", "go"), "s = \"a \\\" // b\"; ");
    assert_eq!(strip_comments("#[derive(Debug)]\n# not stripped", "rs"), "#[derive(Debug)]\n# not stripped");
    assert_eq!(strip_comments("x -- y", "rs"), "x -- y");
    assert_eq!(strip_comments("caf\u{e9} // \u{1f600}\n\u{e9}", "rs"), "caf\u{e9} \n\u{e9}");
    assert_eq!(strip_comments("", "rs"), "");
}

#[test]
fn hash_comments() {
    assert_eq!(strip_comments("# Python comment\nval = 10 // 2\n", "py"), "\nval = 10 // 2\n");
    assert_eq!(strip_comments("s = '# no' # yes", "rb"), "s = '# no' ");
    assert_eq!(strip_comments("key: \"a # b\" # c", "yaml"), "key: \"a # b\" ");
    assert_eq!(strip_comments("a /* b */", "sh"), "a /* b */");
}

#[test]
fn dash_comments() {
    assert_eq!(strip_comments("SELECT 1 -- one\nFROM t", "sql"), "SELECT 1 \nFROM t");
    assert_eq!(strip_comments("x = '-- no' -- yes", "lua"), "x = '-- no' ");
    assert_eq!(strip_comments("a # b // c", "hs"), "a # b // c");
}

#[test]
fn markup_comments() {
    assert_eq!(strip_comments("<a><!-- x --></a>", "html"), "<a></a>");
    assert_eq!(strip_comments("<!-- a\nb -->c<!-- d -->e", "xml"), "ce");
    assert_eq!(strip_comments("\"<!-- in quotes -->\"", "vue"), "\"\"");
    assert_eq!(strip_comments("a // b", "svelte"), "a // b");
}

#[test]
fn unknown_types_are_left_alone() {
    assert_eq!(strip_comments("a // b # c -- d <!-- e -->", "txt"), "a // b # c -- d <!-- e -->");
    assert_eq!(strip_comments("a // b", ""), "a // b");
}

#[test]
fn limits_in_bytes() {
    assert_eq!(bytes_of_megabytes(0), 0);
    assert_eq!(bytes_of_megabytes(1), 1048576);
    assert_eq!(bytes_of_megabytes(10), 10485760);
    assert_eq!(bytes_of_megabytes(u64::MAX), u64::MAX);
    assert_eq!(bytes_of_megabytes(1 << 44), u64::MAX);
    assert_eq!(bytes_of_megabytes((1 << 44) - 1), u64::MAX - 1048575);
    let c = config_with_limit(2);
    assert_eq!(read_limit(&c), 2097153);
    assert_eq!(read_limit(&config_with_limit(u64::MAX)), u64::MAX);
    assert!(needs_read(1, &c));
    assert!(needs_read(2097152, &c));
    assert!(!needs_read(2097153, &c));
    assert!(!needs_read(0, &c));
}

#[test]
fn results_for_files_that_could_not_be_read() {
    let s = unreadable("/r/a".to_string(), ReadFailure::Metadata, "gone", 77);
    assert_eq!(omitted(&s), ("/r/a", "Failed to read metadata: gone", 0));
    let s = unreadable("/r/a".to_string(), ReadFailure::Open, "denied", 77);
    assert_eq!(omitted(&s), ("/r/a", "Failed to open file: denied", 77));
    let s = unreadable("/r/a".to_string(), ReadFailure::Read, "broken", 77);
    assert_eq!(omitted(&s), ("/r/a", "Failed to read file: broken", 77));
    let s = metadata_failure("/r/a".to_string(), "gone");
    assert_eq!(omitted(&s), ("/r/a", "Metadata error: gone", 0));
}

#[test]
fn budget_admits_up_to_the_total() {
    assert!(has_room(0, 0, 0));
    assert!(has_room(10, 0, 10));
    assert!(!has_room(11, 0, 10));
    assert!(has_room(4, 6, 10));
    assert!(!has_room(5, 6, 10));
    assert!(!has_room(u64::MAX, 1, u64::MAX - 1));
    assert!(has_room(u64::MAX, 1, u64::MAX));
}

#[test]
fn budget_counts_included_bytes_only() {
    let mut config = AppConfig::default();
    config.max_total_mb = 1;
    let mut budget = BudgetGate::new(&config);
    assert_eq!((budget.used, budget.limit, budget.limit_mb), (0, 1048576, 1));
    assert!(budget.check(1048576));
    assert!(!budget.check(1048577));

    budget.record(&FileStatus::Omitted { path: "a".into(), reason: "r".into(), size: 999 });
    assert_eq!(budget.used, 0);
    budget.record(&FileStatus::Included { path: "a".into(), content: "c".into(), size: 1000000 });
    assert_eq!(budget.used, 1000000);
    assert!(budget.check(48576));
    assert!(!budget.check(48577));

    let rejected = budget.reject("/r/big2.txt".to_string(), 48577);
    assert_eq!(omitted(&rejected), ("/r/big2.txt", "Budget exceeded (limit=1 MB)", 48577));
    budget.record(&rejected);
    assert_eq!(budget.used, 1000000);

    budget.record(&FileStatus::Included { path: "a".into(), content: "c".into(), size: u64::MAX });
    assert_eq!(budget.used, u64::MAX);
}
