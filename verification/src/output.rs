//! The snapshot assembler: takes the per-file results in the order in which
//! they come, keeps the statistics, and renders the document.
//!
//! The bodies of the included files are handed out section by section as
//! they are made, so that the caller can put them aside; the assembler keeps
//! only what the opening and the closing part of the document need.

use crate::args::Args;
use crate::paths::{
    clean_path, cleaned, file_name, forward_slashes, is_separator, lemma_file_name_behind,
    path_extension, path_extension_of, relative, relative_to,
};
use crate::processing::{backticks, fence_for, fence_len, FileStatus, StatusView};
use crate::ranking::{rank_desc, ranking, top_ranked};
use crate::text::{
    chars_of, decimal, joined, megabytes, note_char_count_fits, push_char, push_decimal,
    push_megabytes, str_eq, views,
};
use crate::timestamp::{
    default_output_name, display_shaped, file_stamp_shaped, lemma_default_name_is_snapshot_shaped,
    snapshot_shaped, Timestamp,
};
use vstd::prelude::*;
use vstd::std_specs::iter::IteratorSpec;
use vstd::string::StringExecFns;

verus! {

/// Number of largest files that the statistics name.
pub const TOP_OFFENDERS: usize = 5;

/// The label under which files without an extension are counted.
pub open spec fn no_extension_label() -> Seq<char> {
    "(no-ext)"@
}

/// Number of line-feed characters in `s`.
pub open spec fn newline_count(s: Seq<char>) -> nat
    decreases s.len(),
{
    if s.len() == 0 {
        0
    } else {
        newline_count(s.drop_last()) + if s.last() == '\n' {
            1nat
        } else {
            0nat
        }
    }
}

/// Whether `s` ends with a line feed.
pub open spec fn ends_with_newline(s: Seq<char>) -> bool {
    s.len() > 0 && s.last() == '\n'
}

/// Number of lines in `s`: each line feed ends a line, and what follows the
/// last line feed is a line where it is not empty.
pub open spec fn line_count(s: Seq<char>) -> nat {
    newline_count(s) + if s.len() > 0 && !ends_with_newline(s) {
        1nat
    } else {
        0nat
    }
}

pub proof fn lemma_newline_count_bounded(s: Seq<char>)
    ensures
        newline_count(s) <= s.len(),
    decreases s.len(),
{
    if s.len() > 0 {
        lemma_newline_count_bounded(s.drop_last());
    }
}

/// Counts the lines of `text`, and says whether it ends with a line feed.
pub fn scan_lines(text: &str) -> (found: (usize, bool))
    ensures
        found.1 == ends_with_newline(text@),
        found.0 == line_count(text@),
{
    broadcast use vstd::string::group_string_axioms;

    note_char_count_fits(text);
    let mut newlines: usize = 0;
    let mut last_is_newline = false;
    let mut any = false;
    for ch in it: text.chars()
        invariant
            it.seq() == text@,
            text@.len() <= usize::MAX,
            newlines == newline_count(it.seq().take(it.index())),
            last_is_newline == ends_with_newline(it.seq().take(it.index())),
            any == (it.index() > 0),
    {
        proof {
            let seen = it.seq().take(it.index() + 1);
            assert(seen.drop_last() =~= it.seq().take(it.index()));
            assert(seen.last() == ch);
            lemma_newline_count_bounded(it.seq().take(it.index()));
        }
        last_is_newline = ch == '\n';
        if last_is_newline {
            newlines += 1;
        }
        any = true;
    }
    assert(text@.take(text@.len() as int) =~= text@);
    proof {
        if text@.len() > 0 {
            lemma_newline_count_bounded(text@.drop_last());
        }
    }
    let lines = if any && !last_is_newline {
        newlines + 1
    } else {
        newlines
    };
    (lines, last_is_newline)
}

/// A path as the document shows it: relative to the root, with forward
/// slashes.
pub open spec fn shown_path(path: Seq<char>, root: Seq<char>) -> Seq<char> {
    forward_slashes(relative(path, root))
}

/// A path as the document shows it.
pub fn show_path(path: &str, root: &str) -> (shown: String)
    ensures
        shown@ == shown_path(path@, root@),
{
    let rel = relative_to(path, root);
    let chars = chars_of(rel.as_str());
    let mut shown = String::new();
    let mut i: usize = 0;
    while i < chars.len()
        invariant
            i <= chars@.len(),
            shown@ == forward_slashes(chars@.take(i as int)),
        decreases chars@.len() - i,
    {
        let c = chars[i];
        proof {
            assert(forward_slashes(chars@.take(i + 1)) =~= forward_slashes(
                chars@.take(i as int),
            ).push(
                if c == '\\' {
                    '/'
                } else {
                    c
                },
            ));
        }
        if c == '\\' {
            push_char(&mut shown, '/');
        } else {
            push_char(&mut shown, c);
        }
        i += 1;
    }
    assert(chars@.take(chars@.len() as int) =~= chars@);
    shown
}

/// The extension of a path, or `default` where it has none.
pub open spec fn extension_or(path: Seq<char>, default: Seq<char>) -> Seq<char> {
    match path_extension(path) {
        Some(ext) => ext,
        None => default,
    }
}

/// The extension of a path, or `default` where it has none.
pub fn extension_or_default(path: &str, default: &str) -> (ext: String)
    ensures
        ext@ == extension_or(path@, default@),
{
    match path_extension_of(path) {
        Some(ext) => ext,
        None => String::from_str(default),
    }
}

/// The section of the document for one included file: a heading with the
/// path, then the content inside a fence that is tagged with the file's
/// extension. The content is followed by a line feed where it does not end
/// with one.
pub open spec fn section(root: Seq<char>, path: Seq<char>, content: Seq<char>) -> Seq<char> {
    "## "@ + shown_path(path, root) + "\n\n"@ + backticks(fence_len(content)) + extension_or(
        path,
        Seq::empty(),
    ) + "\n"@ + content + (if ends_with_newline(content) {
        Seq::empty()
    } else {
        "\n"@
    }) + backticks(fence_len(content)) + "\n\n"@
}

/// Renders the section of the document for one included file.
pub fn render_section(root: &str, path: &str, content: &str) -> (text: String)
    ensures
        text@ == section(root@, path@, content@),
{
    let shown = show_path(path, root);
    let ext = extension_or_default(path, "");
    let fence = fence_for(content);
    let (_, ends) = scan_lines(content);
    let mut text = String::from_str("## ");
    text.append(shown.as_str());
    text.append("\n\n");
    text.append(fence.as_str());
    text.append(ext.as_str());
    text.append("\n");
    text.append(content);
    if !ends {
        text.append("\n");
    }
    text.append(fence.as_str());
    text.append("\n\n");
    proof {
        reveal_strlit("");
        assert(""@ =~= Seq::<char>::empty());
        assert(text@ =~= section(root@, path@, content@));
    }
    text
}

/// What the assembler holds, as plain values.
pub struct WriterView {
    /// The root that paths are shown relative to.
    pub root: Seq<char>,
    /// The year of the run.
    pub year: i32,
    /// The moment of the run, as the document shows it.
    pub timestamp: Seq<char>,
    /// The moment of the run, as a file name carries it.
    pub file_stamp: Seq<char>,
    /// The paths of the included files, in the order in which they came.
    pub included: Seq<Seq<char>>,
    /// The omitted files, in the order in which they came: path, reason and
    /// size.
    pub omitted: Seq<(Seq<char>, Seq<char>, u64)>,
    /// Sum of the sizes of the included files.
    pub total_bytes: u64,
    /// Sum of the line counts of the included files.
    pub total_lines: usize,
    /// For each extension, in the order in which it first came: the number
    /// of included files and the sum of their sizes.
    pub by_extension: Seq<(Seq<char>, usize, u64)>,
    /// The sizes of the included files, in the order in which they came.
    pub sizes: Seq<u64>,
}

/// The index of the first entry for `label`, or the length of the list
/// where there is none.
pub open spec fn position_of(list: Seq<(Seq<char>, usize, u64)>, label: Seq<char>) -> int
    decreases list.len(),
{
    if list.len() == 0 {
        0
    } else if list[0].0 == label {
        0
    } else {
        1 + position_of(list.drop_first(), label)
    }
}

/// The per-extension statistics after one more file of `size` bytes with
/// the extension `label`.
pub open spec fn bumped(list: Seq<(Seq<char>, usize, u64)>, label: Seq<char>, size: u64) -> Seq<
    (Seq<char>, usize, u64),
> {
    let at = position_of(list, label);
    if at < list.len() {
        list.update(at, (label, (list[at].1 + 1) as usize, (list[at].2 + size) as u64))
    } else {
        list.push((label, 1usize, size))
    }
}

/// Whether no extension is listed twice.
pub open spec fn labels_distinct(list: Seq<(Seq<char>, usize, u64)>) -> bool {
    forall|i: int, j: int| 0 <= i < j < list.len() ==> list[i].0 != list[j].0
}

/// Whether no entry counts more than `files` files or `bytes` bytes.
pub open spec fn stats_within(list: Seq<(Seq<char>, usize, u64)>, files: int, bytes: int) -> bool {
    forall|i: int| 0 <= i < list.len() ==> (#[trigger] list[i]).1 <= files && list[i].2 <= bytes
}

impl WriterView {
    /// What the assembler maintains: the extensions listed are distinct, no
    /// extension counts more files or bytes than were included in all, and
    /// a size is kept for each included file.
    pub open spec fn wf(self) -> bool {
        &&& labels_distinct(self.by_extension)
        &&& stats_within(self.by_extension, self.included.len() as int, self.total_bytes as int)
        &&& self.sizes.len() == self.included.len()
    }

    /// Whether the totals have room for the result.
    pub open spec fn can_record(self, status: StatusView) -> bool {
        match status {
            StatusView::Included { content, size, .. } => self.total_bytes + size <= u64::MAX
                && self.total_lines + line_count(content) <= usize::MAX,
            StatusView::Omitted { .. } => true,
        }
    }

    /// The state after taking a result in.
    pub open spec fn record(self, status: StatusView) -> WriterView {
        match status {
            StatusView::Included { path, content, size } => WriterView {
                included: self.included.push(path),
                total_bytes: (self.total_bytes + size) as u64,
                total_lines: (self.total_lines + line_count(content)) as usize,
                by_extension: bumped(
                    self.by_extension,
                    extension_or(path, no_extension_label()),
                    size,
                ),
                sizes: self.sizes.push(size),
                ..self
            },
            StatusView::Omitted { path, reason, size } => WriterView {
                omitted: self.omitted.push((path, reason, size)),
                ..self
            },
        }
    }

    /// The text that a result adds to the body of the document: a section
    /// for an included file, nothing for an omitted one.
    pub open spec fn body_part(self, status: StatusView) -> Seq<char> {
        match status {
            StatusView::Included { path, content, .. } => section(self.root, path, content),
            StatusView::Omitted { .. } => Seq::empty(),
        }
    }
}

/// `s` with a backslash put in front of every `|`, so that the text can
/// stand in a cell of a Markdown table.
pub open spec fn escaped_pipes(s: Seq<char>) -> Seq<char>
    decreases s.len(),
{
    if s.len() == 0 {
        Seq::empty()
    } else if s.last() == '|' {
        escaped_pipes(s.drop_last()) + seq!['\\', '|']
    } else {
        escaped_pipes(s.drop_last()).push(s.last())
    }
}

/// `name` inside the directory `dir`: joined by `/`, unless `dir` is empty
/// or ends with a separator.
pub open spec fn joined_path(dir: Seq<char>, name: Seq<char>) -> Seq<char> {
    if dir.len() == 0 {
        name
    } else if is_separator(dir.last()) {
        dir + name
    } else {
        dir + seq!['/'] + name
    }
}

/// The line of the table of contents for a path.
pub open spec fn toc_line(path: Seq<char>, root: Seq<char>) -> Seq<char> {
    "- "@ + shown_path(path, root) + "\n"@
}

/// The line of the list of errors for an error.
pub open spec fn error_line(error: Seq<char>) -> Seq<char> {
    "- "@ + error + "\n"@
}

/// The part of the document that lists the access errors of the walk;
/// nothing where there were none.
pub open spec fn errors_part(errors: Seq<Seq<char>>) -> Seq<char> {
    if errors.len() == 0 {
        Seq::empty()
    } else {
        "## Discovery Errors\n\n"@ + joined(Seq::new(errors.len(), |i: int| error_line(errors[i])))
            + "\n"@
    }
}

/// The row of the table of omitted files for one of them.
pub open spec fn omitted_row(entry: (Seq<char>, Seq<char>, u64), root: Seq<char>) -> Seq<char> {
    "| "@ + shown_path(entry.0, root) + " | "@ + megabytes(entry.2 as nat) + " | "@
        + escaped_pipes(entry.1) + " |\n"@
}

/// The row of the composition table for one extension.
pub open spec fn composition_row(stat: (Seq<char>, usize, u64)) -> Seq<char> {
    "| ."@ + stat.0 + " | "@ + decimal(stat.1 as nat) + " | "@ + megabytes(stat.2 as nat)
        + " |\n"@
}

/// The byte counts of the per-extension statistics.
pub open spec fn stat_sizes(list: Seq<(Seq<char>, usize, u64)>) -> Seq<u64> {
    Seq::new(list.len(), |i: int| list[i].2)
}

impl WriterView {
    /// Where the document goes: nowhere for a preview, else the path that
    /// was asked for, else a file in the root that is named after the
    /// moment of the run.
    pub open spec fn output_path(self, args: Args) -> Option<Seq<char>> {
        if args.dry_run {
            None
        } else if args.output is Some {
            Some(args.output->0@)
        } else {
            Some(joined_path(self.root, default_output_name(self.file_stamp)))
        }
    }

    /// The lines of the table of contents: one for each included file, in
    /// the order in which the files came.
    pub open spec fn toc_lines(self) -> Seq<Seq<char>> {
        Seq::new(self.included.len(), |i: int| toc_line(self.included[i], self.root))
    }

    /// The opening part of the document: title, base path, timestamp and
    /// table of contents.
    pub open spec fn head(self) -> Seq<char> {
        "# Project Snapshot\n\n"@ + "**Base path:** `"@ + cleaned(self.root) + "`\n"@
            + "**Timestamp:** "@ + self.timestamp + "\n\n"@ + "## Table of Contents\n\n"@
            + joined(self.toc_lines()) + "\n"@
    }

    /// The rows of the table of omitted files, in the order in which the
    /// files came.
    pub open spec fn omitted_rows(self) -> Seq<Seq<char>> {
        Seq::new(self.omitted.len(), |i: int| omitted_row(self.omitted[i], self.root))
    }

    /// The part of the document that lists the omitted files.
    pub open spec fn omitted_part(self) -> Seq<char> {
        "## Omitted\n\n"@ + (if self.omitted.len() == 0 {
            "_None._\n\n"@
        } else {
            "| Path | Size (MB) | Reason |\n"@ + "|---|---:|---|\n"@ + joined(self.omitted_rows())
                + "\n"@
        })
    }

    /// The extensions in the order of the composition table: by bytes, the
    /// most first, and among equals the one that came first.
    pub open spec fn composition_order(self) -> Seq<int> {
        ranking(stat_sizes(self.by_extension), self.by_extension.len())
    }

    /// The rows of the composition table.
    pub open spec fn composition_rows(self) -> Seq<Seq<char>> {
        Seq::new(
            self.by_extension.len(),
            |k: int| composition_row(self.by_extension[self.composition_order()[k]]),
        )
    }

    /// The part of the document that sums up the run.
    pub open spec fn summary_part(self) -> Seq<char> {
        "---\n\n"@ + "## Summary\n\n"@ + "- **Files included:** "@ + decimal(self.included.len())
            + "\n"@ + "- **Files omitted:** "@ + decimal(self.omitted.len()) + "\n"@
            + "- **Total size included:** "@ + megabytes(self.total_bytes as nat) + " MB\n"@
            + "- **Total lines:** "@ + decimal(self.total_lines as nat) + "\n"@
            + "\n### Composition\n\n"@ + "| Extension | Files | Size (MB) |\n"@
            + "|---|---:|---:|\n"@ + joined(self.composition_rows())
    }

    /// The closing part of the document: access errors, omitted files and
    /// summary.
    pub open spec fn tail(self, errors: Seq<Seq<char>>) -> Seq<char> {
        errors_part(errors) + self.omitted_part() + self.summary_part()
    }

    /// The whole document, in its fixed order: the opening part, the body,
    /// and the closing part.
    pub open spec fn document(self, body: Seq<char>, errors: Seq<Seq<char>>) -> Seq<char> {
        self.head() + body + self.tail(errors)
    }

    /// The largest included files, at most five, as path and size: the
    /// largest first, and among equals the one that came first.
    pub open spec fn top_offenders(self) -> Seq<(Seq<char>, u64)> {
        let order = top_ranked(self.sizes, TOP_OFFENDERS as nat);
        Seq::new(order.len(), |k: int| (self.included[order[k]], self.sizes[order[k]]))
    }
}

/// The default destination carries the name of a snapshot: where no path
/// is asked for and the run is no preview, the document goes to a file
/// whose name is `merged_`, the file stamp and `.md`; and that name has the
/// shape of a snapshot's name where the file stamp is eight digits, `_` and
/// six digits, as it is for the years 0 to 9999. So the first exclusion
/// rule finds the file in a later run.
pub proof fn lemma_default_destination(writer: WriterView, args: Args)
    requires
        !args.dry_run,
        args.output is None,
        file_stamp_shaped(writer.file_stamp),
    ensures
        writer.output_path(args) is Some,
        file_name(writer.output_path(args)->0) == default_output_name(writer.file_stamp),
        snapshot_shaped(default_output_name(writer.file_stamp)),
{
    reveal_strlit("merged_");
    reveal_strlit(".md");
    let name = default_output_name(writer.file_stamp);
    lemma_default_name_is_snapshot_shaped(writer.file_stamp);
    assert forall|i: int| 0 <= i < name.len() implies !is_separator(name[i]) by {
        if i < 7 {
            assert(name[i] == "merged_"@[i]);
        } else if i < 22 {
            assert(name[i] == writer.file_stamp[i - 7]);
        } else {
            assert(name[i] == ".md"@[i - 22]);
        }
    }
    if writer.root.len() == 0 {
        lemma_file_name_behind(Seq::empty(), name);
        assert(Seq::<char>::empty() + name =~= name);
    } else if is_separator(writer.root.last()) {
        lemma_file_name_behind(writer.root, name);
    } else {
        lemma_file_name_behind(writer.root + seq!['/'], name);
    }
}

/// The paths of the included results among `statuses`, in order.
pub open spec fn included_paths(statuses: Seq<StatusView>) -> Seq<Seq<char>>
    decreases statuses.len(),
{
    if statuses.len() == 0 {
        Seq::empty()
    } else {
        let before = included_paths(statuses.drop_last());
        match statuses.last() {
            StatusView::Included { path, .. } => before.push(path),
            StatusView::Omitted { .. } => before,
        }
    }
}

/// The body of the document for the given results: the sections of the
/// included ones, in order.
pub open spec fn body_of(root: Seq<char>, statuses: Seq<StatusView>) -> Seq<char>
    decreases statuses.len(),
{
    if statuses.len() == 0 {
        Seq::empty()
    } else {
        body_of(root, statuses.drop_last()) + match statuses.last() {
            StatusView::Included { path, content, .. } => section(root, path, content),
            StatusView::Omitted { .. } => Seq::empty(),
        }
    }
}

impl WriterView {
    /// The state after taking the given results in, one after the other.
    pub open spec fn record_all(self, statuses: Seq<StatusView>) -> WriterView
        decreases statuses.len(),
    {
        if statuses.len() == 0 {
            self
        } else {
            self.record_all(statuses.drop_last()).record(statuses.last())
        }
    }

    /// The text that the given results add to the body of the document, one
    /// after the other.
    pub open spec fn body_parts(self, statuses: Seq<StatusView>) -> Seq<char>
        decreases statuses.len(),
    {
        if statuses.len() == 0 {
            Seq::empty()
        } else {
            self.body_parts(statuses.drop_last()) + self.record_all(
                statuses.drop_last(),
            ).body_part(statuses.last())
        }
    }
}

/// The document follows the order in which the results come: the table of
/// contents lists the included files in that order, the body holds their
/// sections in that order, and nothing else changes root or timestamp. The
/// sizes of the files play no part in it.
pub proof fn lemma_arrival_order(start: WriterView, statuses: Seq<StatusView>)
    ensures
        start.record_all(statuses).included == start.included + included_paths(statuses),
        start.record_all(statuses).root == start.root,
        start.record_all(statuses).timestamp == start.timestamp,
        start.record_all(statuses).file_stamp == start.file_stamp,
        start.body_parts(statuses) == body_of(start.root, statuses),
    decreases statuses.len(),
{
    if statuses.len() == 0 {
        assert(start.included + included_paths(statuses) =~= start.included);
    } else {
        lemma_arrival_order(start, statuses.drop_last());
        let before = start.record_all(statuses.drop_last());
        assert(before.record(statuses.last()).included =~= start.included + included_paths(
            statuses,
        ));
    }
}

proof fn lemma_position_of(list: Seq<(Seq<char>, usize, u64)>, label: Seq<char>, at: int)
    requires
        0 <= at <= list.len(),
        forall|k: int| 0 <= k < at ==> list[k].0 != label,
        at == list.len() || list[at].0 == label,
    ensures
        position_of(list, label) == at,
    decreases list.len(),
{
    if list.len() > 0 && at > 0 {
        let rest = list.drop_first();
        assert forall|k: int| 0 <= k < at - 1 implies rest[k].0 != label by {
            assert(rest[k] == list[k + 1]);
        }
        lemma_position_of(rest, label, at - 1);
    }
}

/// The snapshot assembler.
#[derive(Debug)]
pub struct SnapshotWriter {
    included_paths: Vec<String>,
    omitted: Vec<(String, String, u64)>,
    total_bytes: u64,
    total_lines: usize,
    stats_by_extension: Vec<(String, usize, u64)>,
    sizes: Vec<u64>,
    root: String,
    timestamp: Timestamp,
}

/// The omissions as plain values.
pub open spec fn omission_views(list: Seq<(String, String, u64)>) -> Seq<
    (Seq<char>, Seq<char>, u64),
> {
    Seq::new(list.len(), |i: int| (list[i].0@, list[i].1@, list[i].2))
}

/// The per-extension statistics as plain values.
pub open spec fn stat_views(list: Seq<(String, usize, u64)>) -> Seq<(Seq<char>, usize, u64)> {
    Seq::new(list.len(), |i: int| (list[i].0@, list[i].1, list[i].2))
}

impl View for SnapshotWriter {
    type V = WriterView;

    closed spec fn view(&self) -> WriterView {
        WriterView {
            root: self.root@,
            year: self.timestamp.year,
            timestamp: self.timestamp.display@,
            file_stamp: self.timestamp.file_stamp@,
            included: views(self.included_paths@),
            omitted: omission_views(self.omitted@),
            total_bytes: self.total_bytes,
            total_lines: self.total_lines,
            by_extension: stat_views(self.stats_by_extension@),
            sizes: self.sizes@,
        }
    }
}

impl SnapshotWriter {
    /// An assembler for a run under `root` at the moment `now`, with nothing
    /// taken in yet.
    pub fn at(root: String, now: Timestamp) -> (writer: SnapshotWriter)
        ensures
            writer@ == (WriterView {
                root: root@,
                year: now.year,
                timestamp: now.display@,
                file_stamp: now.file_stamp@,
                included: Seq::empty(),
                omitted: Seq::empty(),
                total_bytes: 0,
                total_lines: 0,
                by_extension: Seq::empty(),
                sizes: Seq::empty(),
            }),
            writer@.wf(),
    {
        let writer = SnapshotWriter {
            included_paths: Vec::new(),
            omitted: Vec::new(),
            total_bytes: 0,
            total_lines: 0,
            stats_by_extension: Vec::new(),
            sizes: Vec::new(),
            root,
            timestamp: now,
        };
        proof {
            assert(writer@.included =~= Seq::empty());
            assert(writer@.omitted =~= Seq::empty());
            assert(writer@.by_extension =~= Seq::empty());
        }
        writer
    }

    /// An assembler for a run under `root` that starts now.
    pub fn new(root: String) -> (writer: SnapshotWriter)
        ensures
            writer@.root == root@,
            0 <= writer@.year <= 9999 ==> display_shaped(writer@.timestamp) && file_stamp_shaped(
                writer@.file_stamp,
            ),
            writer@.included.len() == 0,
            writer@.omitted.len() == 0,
            writer@.total_bytes == 0,
            writer@.total_lines == 0,
            writer@.by_extension.len() == 0,
            writer@.sizes.len() == 0,
            writer@.wf(),
    {
        SnapshotWriter::at(root, Timestamp::now())
    }

    /// Whether the totals have room for the result, so that it can be taken
    /// in.
    pub fn has_room_for(&self, status: &FileStatus) -> (room: bool)
        ensures
            room == self@.can_record(status@),
    {
        match status {
            FileStatus::Included { content, size, .. } => {
                let (lines, _) = scan_lines(content.as_str());
                self.total_bytes.checked_add(*size).is_some() && self.total_lines.checked_add(
                    lines,
                ).is_some()
            },
            FileStatus::Omitted { .. } => true,
        }
    }

    /// Counts one more file of `size` bytes under the extension `label`.
    /// The file's path is listed already.
    fn bump_extension(&mut self, label: String, size: u64)
        requires
            old(self)@.total_bytes + size <= u64::MAX,
            old(self)@.included.len() >= 1,
            labels_distinct(old(self)@.by_extension),
            stats_within(
                old(self)@.by_extension,
                old(self)@.included.len() - 1,
                old(self)@.total_bytes as int,
            ),
        ensures
            final(self)@ == (WriterView {
                by_extension: bumped(old(self)@.by_extension, label@, size),
                ..old(self)@
            }),
            labels_distinct(final(self)@.by_extension),
            stats_within(
                final(self)@.by_extension,
                old(self)@.included.len() as int,
                old(self)@.total_bytes + size,
            ),
    {
        let ghost list = stat_views(self.stats_by_extension@);
        let listed = self.included_paths.len();
        let mut at: usize = 0;
        while at < self.stats_by_extension.len() && !str_eq(
            self.stats_by_extension[at].0.as_str(),
            label.as_str(),
        )
            invariant
                at <= self.stats_by_extension@.len(),
                list == stat_views(self.stats_by_extension@),
                *self == *old(self),
                forall|k: int| 0 <= k < at ==> list[k].0 != label@,
            decreases self.stats_by_extension@.len() - at,
        {
            assert(list[at as int].0 == self.stats_by_extension@[at as int].0@);
            at += 1;
        }
        proof {
            if at < list.len() {
                assert(list[at as int].0 == self.stats_by_extension@[at as int].0@);
            }
            lemma_position_of(list, label@, at as int);
        }
        if at < self.stats_by_extension.len() {
            let files = self.stats_by_extension[at].1;
            let bytes = self.stats_by_extension[at].2;
            assert(list[at as int] == (self.stats_by_extension@[at as int].0@, files, bytes));
            self.stats_by_extension.set(at, (label, files + 1, bytes + size));
        } else {
            self.stats_by_extension.push((label, 1, size));
        }
        proof {
            let after = stat_views(self.stats_by_extension@);
            assert(after =~= bumped(list, label@, size));
            assert forall|i: int, j: int| 0 <= i < j < after.len() implies after[i].0
                != after[j].0 by {
                if at < list.len() {
                    assert(after[i].0 == list[i].0 && after[j].0 == list[j].0);
                } else if j < list.len() {
                    assert(after[i] == list[i] && after[j] == list[j]);
                } else {
                    assert(after[i] == list[i]);
                }
            }
            assert forall|i: int| 0 <= i < after.len() implies (#[trigger] after[i]).1 <= listed
                && after[i].2 <= old(self)@.total_bytes + size by {
                if i < list.len() && i != at {
                    assert(after[i] == list[i]);
                }
            }
        }
    }

    /// Takes in the result for one file and gives the text that it adds to
    /// the body of the document. An included file is counted in the
    /// statistics and gives its section; an omitted one is noted and gives
    /// nothing.
    pub fn process_status(&mut self, status: FileStatus) -> (body: String)
        requires
            old(self)@.wf(),
            old(self)@.can_record(status@),
        ensures
            final(self)@ == old(self)@.record(status@),
            final(self)@.wf(),
            body@ == old(self)@.body_part(status@),
    {
        let ghost before = self@;
        match status {
            FileStatus::Included { path, content, size } => {
                let label = extension_or_default(path.as_str(), "(no-ext)");
                let body = render_section(self.root.as_str(), path.as_str(), content.as_str());
                let (lines, _) = scan_lines(content.as_str());
                let ghost shown = path@;
                self.included_paths.push(path);
                self.sizes.push(size);
                self.total_lines = self.total_lines + lines;
                proof {
                    assert(self@.included =~= before.included.push(shown));
                    assert(self@.by_extension == before.by_extension);
                }
                self.bump_extension(label, size);
                self.total_bytes = self.total_bytes + size;
                body
            },
            FileStatus::Omitted { path, reason, size } => {
                let ghost entry = (path@, reason@, size);
                self.omitted.push((path, reason, size));
                proof {
                    assert(self@.omitted =~= before.omitted.push(entry));
                }
                String::new()
            },
        }
    }
}

/// The statistics of a finished run.
#[derive(Debug, Clone)]
pub struct SnapshotStats {
    /// Where the document goes; nothing for a preview.
    pub output_path: Option<String>,
    /// Number of included files.
    pub total_files: usize,
    /// Sum of the sizes of the included files.
    pub total_bytes: u64,
    /// Sum of the line counts of the included files.
    pub total_lines: usize,
    /// Number of omitted files.
    pub omitted_count: usize,
    /// For each extension, in the order in which it first came: the number
    /// of included files and the sum of their sizes.
    pub stats_by_extension: Vec<(String, usize, u64)>,
    /// The largest included files, at most five, largest first.
    pub top_offenders: Vec<(String, u64)>,
}

/// A finished document without its body, and the statistics of the run.
/// The whole document is the opening part, the bodies in the order in which
/// they were handed out, and the closing part.
#[derive(Debug, Clone)]
pub struct FinalDocument {
    /// Title, base path, timestamp and table of contents.
    pub head: String,
    /// Access errors, omitted files and summary.
    pub tail: String,
    /// The statistics of the run.
    pub stats: SnapshotStats,
}

impl FinalDocument {
    /// The whole document around the given body.
    pub fn assemble(&self, body: &str) -> (document: String)
        ensures
            document@ == self.head@ + body@ + self.tail@,
    {
        let mut document = self.head.clone();
        document.append(body);
        document.append(self.tail.as_str());
        document
    }
}

/// Paths with their sizes as plain values.
pub open spec fn offender_views(list: Seq<(String, u64)>) -> Seq<(Seq<char>, u64)> {
    Seq::new(list.len(), |i: int| (list[i].0@, list[i].1))
}

/// Appends `text` to `out`, with a backslash in front of every `|`.
pub fn push_escaped_pipes(out: &mut String, text: &str)
    ensures
        final(out)@ == old(out)@ + escaped_pipes(text@),
{
    broadcast use vstd::string::group_string_axioms;

    assert(out@ =~= old(out)@ + escaped_pipes(text@.take(0)));
    for ch in it: text.chars()
        invariant
            it.seq() == text@,
            out@ == old(out)@ + escaped_pipes(it.seq().take(it.index())),
    {
        proof {
            let seen = it.seq().take(it.index() + 1);
            assert(seen.drop_last() =~= it.seq().take(it.index()));
            assert(seen.last() == ch);
        }
        let ghost before = out@;
        if ch == '|' {
            push_char(out, '\\');
            push_char(out, '|');
            assert(out@ =~= before + seq!['\\', '|']);
        } else {
            push_char(out, ch);
        }
        assert(out@ =~= old(out)@ + escaped_pipes(it.seq().take(it.index() + 1)));
    }
    assert(text@.take(text@.len() as int) =~= text@);
}

/// `name` inside the directory `dir`.
pub fn join_path(dir: &str, name: &str) -> (path: String)
    ensures
        path@ == joined_path(dir@, name@),
{
    let chars = chars_of(dir);
    let mut path = String::from_str(dir);
    if chars.len() == 0 {
        path.append(name);
        assert(path@ =~= name@);
    } else {
        let last = chars[chars.len() - 1];
        if !(last == '/' || last == '\\') {
            push_char(&mut path, '/');
        }
        path.append(name);
        assert(path@ =~= joined_path(dir@, name@));
    }
    path
}

impl SnapshotWriter {
    /// Where the document goes.
    fn output_path(&self, args: &Args) -> (path: Option<String>)
        ensures
            match self@.output_path(*args) {
                Some(p) => path is Some && path->0@ == p,
                None => path is None,
            },
    {
        if args.dry_run {
            return None;
        }
        match &args.output {
            Some(path) => Some(path.clone()),
            None => {
                let mut name = String::from_str("merged_");
                name.append(self.timestamp.file_stamp.as_str());
                name.append(".md");
                Some(join_path(self.root.as_str(), name.as_str()))
            },
        }
    }

    /// The opening part of the document.
    fn render_head(&self) -> (head: String)
        ensures
            head@ == self@.head(),
    {
        let mut head = String::from_str("# Project Snapshot\n\n");
        head.append("**Base path:** `");
        head.append(clean_path(self.root.as_str()).as_str());
        head.append("`\n");
        head.append("**Timestamp:** ");
        head.append(self.timestamp.display.as_str());
        head.append("\n\n");
        head.append("## Table of Contents\n\n");
        let ghost start = head@;
        let ghost lines = self@.toc_lines();
        let mut i: usize = 0;
        assert(head@ =~= start + joined(lines.take(0)));
        while i < self.included_paths.len()
            invariant
                i <= self.included_paths@.len(),
                lines == self@.toc_lines(),
                head@ == start + joined(lines.take(i as int)),
            decreases self.included_paths@.len() - i,
        {
            let ghost before = head@;
            head.append("- ");
            head.append(show_path(self.included_paths[i].as_str(), self.root.as_str()).as_str());
            head.append("\n");
            proof {
                assert(lines.take(i + 1).drop_last() =~= lines.take(i as int));
                assert(lines.take(i + 1).last() == toc_line(
                    self.included_paths@[i as int]@,
                    self.root@,
                ));
                assert(head@ =~= before + toc_line(self.included_paths@[i as int]@, self.root@));
            }
            i += 1;
        }
        assert(lines.take(lines.len() as int) =~= lines);
        head.append("\n");
        assert(head@ =~= self@.head());
        head
    }

    /// Appends the list of access errors to `out`.
    fn push_errors(out: &mut String, errors: &Vec<String>)
        ensures
            final(out)@ == old(out)@ + errors_part(views(errors@)),
    {
        if errors.len() == 0 {
            assert(out@ =~= old(out)@ + errors_part(views(errors@)));
            return ;
        }
        out.append("## Discovery Errors\n\n");
        let ghost start = out@;
        let ghost lines = Seq::new(views(errors@).len(), |i: int| error_line(views(errors@)[i]));
        let mut i: usize = 0;
        assert(out@ =~= start + joined(lines.take(0)));
        while i < errors.len()
            invariant
                i <= errors@.len(),
                lines == Seq::new(views(errors@).len(), |i: int| error_line(views(errors@)[i])),
                out@ == start + joined(lines.take(i as int)),
            decreases errors@.len() - i,
        {
            let ghost before = out@;
            out.append("- ");
            out.append(errors[i].as_str());
            out.append("\n");
            proof {
                assert(lines.take(i + 1).drop_last() =~= lines.take(i as int));
                assert(lines.take(i + 1).last() == error_line(errors@[i as int]@));
                assert(out@ =~= before + error_line(errors@[i as int]@));
            }
            i += 1;
        }
        assert(lines.take(lines.len() as int) =~= lines);
        out.append("\n");
        assert(out@ =~= old(out)@ + errors_part(views(errors@)));
    }

    /// Appends the part on the omitted files to `out`.
    fn push_omitted(&self, out: &mut String)
        ensures
            final(out)@ == old(out)@ + self@.omitted_part(),
    {
        out.append("## Omitted\n\n");
        if self.omitted.len() == 0 {
            out.append("_None._\n\n");
            assert(out@ =~= old(out)@ + self@.omitted_part());
            return ;
        }
        out.append("| Path | Size (MB) | Reason |\n");
        out.append("|---|---:|---|\n");
        let ghost start = out@;
        let ghost rows = self@.omitted_rows();
        let mut i: usize = 0;
        assert(out@ =~= start + joined(rows.take(0)));
        while i < self.omitted.len()
            invariant
                i <= self.omitted@.len(),
                rows == self@.omitted_rows(),
                out@ == start + joined(rows.take(i as int)),
            decreases self.omitted@.len() - i,
        {
            let ghost before = out@;
            let entry = &self.omitted[i];
            out.append("| ");
            out.append(show_path(entry.0.as_str(), self.root.as_str()).as_str());
            out.append(" | ");
            push_megabytes(out, entry.2);
            out.append(" | ");
            push_escaped_pipes(out, entry.1.as_str());
            out.append(" |\n");
            proof {
                assert(rows.take(i + 1).drop_last() =~= rows.take(i as int));
                assert(self@.omitted[i as int] == (entry.0@, entry.1@, entry.2));
                assert(rows.take(i + 1).last() == omitted_row(
                    (entry.0@, entry.1@, entry.2),
                    self.root@,
                ));
                assert(out@ =~= before + omitted_row((entry.0@, entry.1@, entry.2), self.root@));
            }
            i += 1;
        }
        assert(rows.take(rows.len() as int) =~= rows);
        out.append("\n");
        assert(out@ =~= old(out)@ + self@.omitted_part());
    }

    /// Appends the summary to `out`.
    fn push_summary(&self, out: &mut String)
        ensures
            final(out)@ == old(out)@ + self@.summary_part(),
    {
        out.append("---\n\n");
        out.append("## Summary\n\n");
        out.append("- **Files included:** ");
        push_decimal(out, self.included_paths.len() as u128);
        out.append("\n");
        out.append("- **Files omitted:** ");
        push_decimal(out, self.omitted.len() as u128);
        out.append("\n");
        out.append("- **Total size included:** ");
        push_megabytes(out, self.total_bytes);
        out.append(" MB\n");
        out.append("- **Total lines:** ");
        push_decimal(out, self.total_lines as u128);
        out.append("\n");
        out.append("\n### Composition\n\n");
        out.append("| Extension | Files | Size (MB) |\n");
        out.append("|---|---:|---:|\n");
        let ghost start = out@;
        let ghost rows = self@.composition_rows();
        let ghost stats = self@.by_extension;
        let n = self.stats_by_extension.len();
        let mut sizes: Vec<u64> = Vec::new();
        let mut i: usize = 0;
        while i < n
            invariant
                i <= n == self.stats_by_extension@.len(),
                sizes@.len() == i,
                forall|k: int| 0 <= k < i ==> sizes@[k] == self.stats_by_extension@[k].2,
            decreases n - i,
        {
            sizes.push(self.stats_by_extension[i].2);
            i += 1;
        }
        assert(sizes@ =~= stat_sizes(stats));
        let order = rank_desc(&sizes, n);
        proof {
            crate::ranking::lemma_ranking(sizes@, n as nat);
        }
        let mut k: usize = 0;
        assert(out@ =~= start + joined(rows.take(0)));
        while k < order.len()
            invariant
                k <= order@.len() == n == self.stats_by_extension@.len(),
                rows == self@.composition_rows(),
                stats == self@.by_extension,
                sizes@ == stat_sizes(stats),
                forall|j: int| 0 <= j < n ==> order@[j] as int == ranking(sizes@, n as nat)[j],
                forall|j: int| 0 <= j < n ==> order@[j] < n,
                out@ == start + joined(rows.take(k as int)),
            decreases order@.len() - k,
        {
            let ghost before = out@;
            let stat = &self.stats_by_extension[order[k]];
            out.append("| .");
            out.append(stat.0.as_str());
            out.append(" | ");
            push_decimal(out, stat.1 as u128);
            out.append(" | ");
            push_megabytes(out, stat.2);
            out.append(" |\n");
            proof {
                assert(rows.take(k + 1).drop_last() =~= rows.take(k as int));
                assert(stats[order@[k as int] as int] == (stat.0@, stat.1, stat.2));
                assert(rows.take(k + 1).last() == composition_row((stat.0@, stat.1, stat.2)));
                assert(out@ =~= before + composition_row((stat.0@, stat.1, stat.2)));
            }
            k += 1;
        }
        assert(rows.take(rows.len() as int) =~= rows);
        assert(out@ =~= old(out)@ + self@.summary_part());
    }

    /// The largest included files, at most five.
    fn largest(&self) -> (top: Vec<(String, u64)>)
        requires
            self@.wf(),
        ensures
            offender_views(top@) == self@.top_offenders(),
    {
        let order = rank_desc(&self.sizes, TOP_OFFENDERS);
        let mut top: Vec<(String, u64)> = Vec::new();
        let mut k: usize = 0;
        while k < order.len()
            invariant
                k <= order@.len(),
                self@.wf(),
                order@.len() == top_ranked(self@.sizes, TOP_OFFENDERS as nat).len(),
                forall|j: int|
                    0 <= j < order@.len() ==> order@[j] as int == top_ranked(
                        self@.sizes,
                        TOP_OFFENDERS as nat,
                    )[j],
                forall|j: int| 0 <= j < order@.len() ==> order@[j] < self@.sizes.len(),
                top@.len() == k,
                forall|j: int|
                    0 <= j < k ==> (#[trigger] top@[j]).0@ == self@.included[order@[j] as int]
                        && top@[j].1 == self@.sizes[order@[j] as int],
            decreases order@.len() - k,
        {
            let at = order[k];
            top.push((self.included_paths[at].clone(), self.sizes[at]));
            k += 1;
        }
        assert(offender_views(top@) =~= self@.top_offenders());
        top
    }

    /// Ends the run: renders the parts of the document around the body, and
    /// gives the statistics. `discovery_errors` are the access errors of the
    /// walk.
    pub fn finalize(self, args: &Args, discovery_errors: &Vec<String>) -> (done: FinalDocument)
        requires
            self@.wf(),
        ensures
            done.head@ == self@.head(),
            done.tail@ == self@.tail(views(discovery_errors@)),
            match self@.output_path(*args) {
                Some(p) => done.stats.output_path is Some && done.stats.output_path->0@ == p,
                None => done.stats.output_path is None,
            },
            done.stats.total_files == self@.included.len(),
            done.stats.total_bytes == self@.total_bytes,
            done.stats.total_lines == self@.total_lines,
            done.stats.omitted_count == self@.omitted.len(),
            stat_views(done.stats.stats_by_extension@) == self@.by_extension,
            offender_views(done.stats.top_offenders@) == self@.top_offenders(),
    {
        let head = self.render_head();
        let mut tail = String::new();
        SnapshotWriter::push_errors(&mut tail, discovery_errors);
        self.push_omitted(&mut tail);
        self.push_summary(&mut tail);
        assert(tail@ =~= self@.tail(views(discovery_errors@)));
        let output_path = self.output_path(args);
        let top_offenders = self.largest();
        let stats = SnapshotStats {
            output_path,
            total_files: self.included_paths.len(),
            total_bytes: self.total_bytes,
            total_lines: self.total_lines,
            omitted_count: self.omitted.len(),
            stats_by_extension: self.stats_by_extension,
            top_offenders,
        };
        FinalDocument { head, tail, stats }
    }
}

} // verus!
