use ctxsnap::args::Args;
use ctxsnap::output::{
    extension_or_default, join_path, push_escaped_pipes, render_section, scan_lines, show_path,
    SnapshotWriter,
};
use ctxsnap::processing::FileStatus;
use ctxsnap::ranking::rank_desc;
use ctxsnap::timestamp::Timestamp;

fn args(dry_run: bool, output: Option<&str>) -> Args {
    Args {
        root: "/r".to_string(),
        run: !dry_run,
        output: output.map(|s| s.to_string()),
        force: false,
        dry_run,
        max_file_mb: None,
        max_total_mb: None,
        no_gitignore: false,
        include_lockfiles: false,
        exclude_ext: Vec::new(),
        exclude_dir: Vec::new(),
        exclude_file: Vec::new(),
        remove_comments: false,
        depth: None,
        init: false,
    }
}

fn writer() -> SnapshotWriter {
    SnapshotWriter::at(
        "/r".to_string(),
        Timestamp {
        year: 2024,
        display: "2024-01-31 09:05:00".to_string(),
        file_stamp: "20240131_090500".to_string(),
    },
    )
}

fn inc(path: &str, content: &str, size: u64) -> FileStatus {
    FileStatus::Included { path: path.to_string(), content: content.to_string(), size }
}

fn om(path: &str, reason: &str, size: u64) -> FileStatus {
    FileStatus::Omitted { path: path.to_string(), reason: reason.to_string(), size }
}

#[test]
fn lines_are_counted_as_the_standard_library_counts_them() {
    for text in ["", "a", "a\n", "a\nb", "a\nb\n", "\n", "\n\n", "a\r\nb", "a\r", "a\n\nb", "\u{e9}\n\u{1f600}"] {
        let (lines, ends) = scan_lines(text);
        assert_eq!(lines, text.lines().count(), "{:?}", text);
        assert_eq!(ends, text.ends_with('\n'), "{:?}", text);
    }
}

#[test]
fn paths_are_shown_relative_with_forward_slashes() {
    assert_eq!(show_path("/r/a/b.txt", "/r"), "a/b.txt");
    assert_eq!(show_path(r"C:\w\a\b.txt", r"C:\w"), "a/b.txt");
    assert_eq!(show_path("/elsewhere/b.txt", "/r"), "/elsewhere/b.txt");
    assert_eq!(show_path(r"\\?\C:\w\b.txt", r"\\?\C:\w"), "b.txt");
}

#[test]
fn extension_with_a_default() {
    assert_eq!(extension_or_default("/r/a.rs", "(no-ext)"), "rs");
    assert_eq!(extension_or_default("/r/Makefile", "(no-ext)"), "(no-ext)");
    assert_eq!(extension_or_default("/r/.gitignore", ""), "");
}

#[test]
fn section_of_an_included_file() {
    assert_eq!(
        render_section("/r", "/r/src/a.rs", "fn a() {}\n"),
        "## src/a.rs\n\n```rs\nfn a() {}\n```\n\n"
    );
    assert_eq!(
        render_section("/r", "/r/notes", "no newline"),
        "## notes\n\n```\nno newline\n```\n\n"
    );
    assert_eq!(render_section("/r", "/r/e.txt", ""), "## e.txt\n\n```txt\n\n```\n\n");
    assert_eq!(
        render_section("/r", "/r/d.md", "```rust\nx\n```"),
        "## d.md\n\n````md\n```rust\nx\n```\n````\n\n"
    );
}

#[test]
fn pipes_are_escaped() {
    let mut s = String::from(">");
    push_escaped_pipes(&mut s, "a|b||c");
    assert_eq!(s, ">a\\|b\\|\\|c");
    let mut s = String::new();
    push_escaped_pipes(&mut s, "no pipes \\ here");
    assert_eq!(s, "no pipes \\ here");
}

#[test]
fn joining_a_directory_and_a_name() {
    assert_eq!(join_path("/r", "x.md"), "/r/x.md");
    assert_eq!(join_path("/r/", "x.md"), "/r/x.md");
    assert_eq!(join_path("C:\\w\\", "x.md"), "C:\\w\\x.md");
    assert_eq!(join_path("", "x.md"), "x.md");
    assert_eq!(join_path("/", "x.md"), "/x.md");
}

#[test]
fn ranking_by_size() {
    assert_eq!(rank_desc(&vec![], 5), Vec::<usize>::new());
    assert_eq!(rank_desc(&vec![5, 9, 1], 5), vec![1, 0, 2]);
    assert_eq!(rank_desc(&vec![5, 9, 1], 2), vec![1, 0]);
    assert_eq!(rank_desc(&vec![5, 9, 1], 0), Vec::<usize>::new());
    assert_eq!(rank_desc(&vec![3, 3, 3, 3], 3), vec![0, 1, 2]);
    assert_eq!(rank_desc(&vec![1, 2, 2, 1, 2, 3, 0], 5), vec![5, 1, 2, 4, 0]);
    assert_eq!(rank_desc(&vec![1, 2, 3, 4, 5, 6, 7], 5), vec![6, 5, 4, 3, 2]);
    assert_eq!(rank_desc(&vec![7, 6, 5, 4, 3, 2, 1], 5), vec![0, 1, 2, 3, 4]);
}

#[test]
fn ranking_agrees_with_a_stable_sort() {
    let mut x: u64 = 7;
    let mut sizes = Vec::new();
    for _ in 0..3000 {
        x = x.wrapping_mul(6364136223846793005).wrapping_add(1442695040888963407);
        sizes.push((x >> 40) % 50);
    }
    let mut expected: Vec<usize> = (0..sizes.len()).collect();
    expected.sort_by(|a, b| sizes[*b].cmp(&sizes[*a]));
    assert_eq!(rank_desc(&sizes, sizes.len()), expected);
    assert_eq!(rank_desc(&sizes, 5), expected[..5].to_vec());
    assert_eq!(rank_desc(&sizes, 10000), expected);
}

#[test]
fn omitted_results_add_nothing_to_the_body() {
    let mut w = writer();
    assert_eq!(w.process_status(om("/r/b.bin", "Binary detected", 5)), "");
    let done = w.finalize(&args(true, None), &Vec::new());
    assert_eq!(done.stats.total_files, 0);
    assert_eq!(done.stats.omitted_count, 1);
    assert!(!done.head.contains("b.bin"));
    assert!(done.tail.contains("| b.bin | 0.00 | Binary detected |\n"));
}

#[test]
fn empty_run() {
    let done = writer().finalize(&args(true, None), &Vec::new());
    assert_eq!(
        done.head,
        "# Project Snapshot\n\n**Base path:** `/r`\n**Timestamp:** 2024-01-31 09:05:00\n\n## Table of Contents\n\n\n"
    );
    assert_eq!(
        done.tail,
        "## Omitted\n\n_None._\n\n---\n\n## Summary\n\n- **Files included:** 0\n- **Files omitted:** 0\n- **Total size included:** 0.00 MB\n- **Total lines:** 0\n\n### Composition\n\n| Extension | Files | Size (MB) |\n|---|---:|---:|\n"
    );
    assert_eq!(done.stats.output_path, None);
    assert_eq!(done.stats.total_bytes, 0);
    assert!(done.stats.stats_by_extension.is_empty());
    assert!(done.stats.top_offenders.is_empty());
}

#[test]
fn errors_and_omissions_are_listed() {
    let mut w = writer();
    w.process_status(om("/r/a|b.txt", "odd | reason", 1572864));
    w.process_status(om("/r/sub/c.bin", "Binary detected", 0));
    let errors = vec!["/r/locked: Permission denied".to_string(), "second".to_string()];
    let done = w.finalize(&args(true, None), &errors);
    assert_eq!(
        done.tail,
        "## Discovery Errors\n\n- /r/locked: Permission denied\n- second\n\n## Omitted\n\n| Path | Size (MB) | Reason |\n|---|---:|---|\n| a|b.txt | 1.50 | odd \\| reason |\n| sub/c.bin | 0.00 | Binary detected |\n\n---\n\n## Summary\n\n- **Files included:** 0\n- **Files omitted:** 2\n- **Total size included:** 0.00 MB\n- **Total lines:** 0\n\n### Composition\n\n| Extension | Files | Size (MB) |\n|---|---:|---:|\n"
    );
}

#[test]
fn statistics_of_a_run() {
    let mut w = writer();
    let mb = 1048576;
    w.process_status(inc("/r/a.rs", "1\n2\n", 2 * mb));
    w.process_status(inc("/r/b.py", "x", mb));
    w.process_status(inc("/r/Makefile", "all:\n\techo\n", 3 * mb));
    w.process_status(inc("/r/c.rs", "", mb));
    w.process_status(om("/r/d.bin", "Binary detected", 9 * mb));
    w.process_status(inc("/r/e.py", "a\nb\nc", 4 * mb));
    w.process_status(inc("/r/f.txt", "t\n", 3 * mb));
    w.process_status(inc("/r/g.txt", "t\n", 0));
    let done = w.finalize(&args(false, Some("/out/snap.md")), &Vec::new());

    assert_eq!(done.stats.output_path, Some("/out/snap.md".to_string()));
    assert_eq!(done.stats.total_files, 7);
    assert_eq!(done.stats.omitted_count, 1);
    assert_eq!(done.stats.total_bytes, 14 * mb);
    assert_eq!(done.stats.total_lines, 2 + 1 + 2 + 0 + 3 + 1 + 1);
    assert_eq!(
        done.stats.stats_by_extension,
        vec![
            ("rs".to_string(), 2, 3 * mb),
            ("py".to_string(), 2, 5 * mb),
            ("(no-ext)".to_string(), 1, 3 * mb),
            ("txt".to_string(), 2, 3 * mb),
        ]
    );
    assert_eq!(
        done.stats.top_offenders,
        vec![
            ("/r/e.py".to_string(), 4 * mb),
            ("/r/Makefile".to_string(), 3 * mb),
            ("/r/f.txt".to_string(), 3 * mb),
            ("/r/a.rs".to_string(), 2 * mb),
            ("/r/b.py".to_string(), mb),
        ]
    );
    assert!(done.head.ends_with(
        "## Table of Contents\n\n- a.rs\n- b.py\n- Makefile\n- c.rs\n- e.py\n- f.txt\n- g.txt\n\n"
    ));
    assert!(done.tail.ends_with(
        "- **Files included:** 7\n- **Files omitted:** 1\n- **Total size included:** 14.00 MB\n- **Total lines:** 10\n\n### Composition\n\n| Extension | Files | Size (MB) |\n|---|---:|---:|\n| .py | 2 | 5.00 |\n| .rs | 2 | 3.00 |\n| .(no-ext) | 1 | 3.00 |\n| .txt | 2 | 3.00 |\n"
    ));
}

#[test]
fn default_destination_is_named_after_the_moment() {
    let done = writer().finalize(&args(false, None), &Vec::new());
    assert_eq!(done.stats.output_path, Some("/r/merged_20240131_090500.md".to_string()));
    let done = writer().finalize(&args(true, Some("/out/x.md")), &Vec::new());
    assert_eq!(done.stats.output_path, None);
}

#[test]
fn default_destination_is_recognised_as_a_snapshot() {
    let done = writer().finalize(&args(false, None), &Vec::new());
    let path = done.stats.output_path.unwrap();
    let name = ctxsnap::paths::file_name_of(&path);
    assert!(ctxsnap::discovery::is_snapshot_name(&name));
}

#[test]
fn base_path_is_shown_in_normal_form() {
    let w = SnapshotWriter::at(
        r"\\?\C:\work\proj".to_string(),
        Timestamp {
        year: 2024,
        display: "2024-01-31 09:05:00".to_string(),
        file_stamp: "20240131_090500".to_string(),
    },
    );
    let done = w.finalize(&args(true, None), &Vec::new());
    assert!(done.head.contains("**Base path:** `C:/work/proj`\n"));
}

#[test]
fn a_new_assembler_starts_now_and_empty() {
    let w = SnapshotWriter::new("/r".to_string());
    let done = w.finalize(&args(false, None), &Vec::new());
    let path = done.stats.output_path.unwrap();
    assert!(path.starts_with("/r/merged_20"));
    assert!(path.ends_with(".md"));
    assert_eq!(path.len(), "/r/merged_20240131_090500.md".len());
    assert_eq!(done.stats.total_files, 0);
}

#[test]
fn room_in_the_totals() {
    let mut w = writer();
    assert!(w.has_room_for(&inc("/r/a", "x", u64::MAX)));
    w.process_status(inc("/r/a", "x", u64::MAX - 1));
    assert!(w.has_room_for(&inc("/r/b", "x", 1)));
    assert!(!w.has_room_for(&inc("/r/b", "x", 2)));
    assert!(w.has_room_for(&om("/r/b", "r", u64::MAX)));
}
