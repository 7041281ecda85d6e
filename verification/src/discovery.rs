//! Deciding which entries of a directory walk become candidates, and in
//! which order.

use crate::config::{config_file_name, AppConfig};
use crate::matcher::{is_match, regex_is_match};
use crate::order::{
    ascending, candidate_views, keys_identify, lemma_sorted_by_key, lemma_sorted_whatever_the_order,
    sort_candidates, sorted_by_key, Candidate,
};
use crate::paths::{clean_path, cleaned, extension, extension_of, relative, relative_to};
use crate::text::{chars_of, ends_with, has_prefix, has_suffix, lowercase, starts_with, str_eq,
    to_lowercase, views};
use vstd::prelude::*;

verus! {

/// The expression that recognises the name of a snapshot written earlier:
/// `merged_`, a date of eight digits, `_`, a time of six digits, `.md`.
pub open spec fn snapshot_name_pattern() -> Seq<char> {
    r"^merged_\d{8}_\d{6}\.md$"@
}

/// Whether `name` is that of a snapshot written earlier: it starts with
/// `merged_`, ends with `.md`, and the expression matches it.
pub open spec fn snapshot_name(name: Seq<char>) -> bool {
    has_prefix(name, "merged_"@) && has_suffix(name, ".md"@) && regex_is_match(
        snapshot_name_pattern(),
        name,
    ) == Some(true)
}

/// Whether `name` is that of a snapshot written earlier. The expression is
/// only tried on names that start and end as such a name does.
pub fn is_snapshot_name(name: &str) -> (own: bool)
    ensures
        own == snapshot_name(name@),
{
    let chars = chars_of(name);
    if !(starts_with(&chars, "merged_") && ends_with(&chars, ".md")) {
        return false;
    }
    match is_match(r"^merged_\d{8}_\d{6}\.md$", name) {
        Some(found) => found,
        None => false,
    }
}

/// Why a file is no candidate. The rules are tried in the order of the
/// variants, and the first that applies is given.
#[derive(Debug, Clone, Copy, PartialEq, Eq, Structural)]
pub enum Exclusion {
    /// The file is a snapshot written earlier, or the tool's own
    /// configuration file.
    OwnFile,
    /// The file is a dependency lock file, and such files are not asked for.
    LockFile,
    /// The file's name is among the configured names.
    ExcludedName,
    /// The file's name marks it as an environment file that may hold secrets.
    Secret,
    /// The file's extension is among the configured extensions.
    ExcludedExtension,
}

/// Whether `name` is one of the well-known dependency lock files.
pub open spec fn lockfile_name(name: Seq<char>) -> bool {
    name == "Cargo.lock"@ || name == "package-lock.json"@ || name == "yarn.lock"@ || name
        == "pnpm-lock.yaml"@ || name == "Gemfile.lock"@ || name == "poetry.lock"@
}

/// Whether `name` is one of the well-known dependency lock files.
pub fn is_lockfile(name: &str) -> (lock: bool)
    ensures
        lock == lockfile_name(name@),
{
    str_eq(name, "Cargo.lock") || str_eq(name, "package-lock.json") || str_eq(name, "yarn.lock")
        || str_eq(name, "pnpm-lock.yaml") || str_eq(name, "Gemfile.lock") || str_eq(
        name,
        "poetry.lock",
    )
}

/// Whether a directory of this lower-case name is never descended into,
/// whatever the configuration says: version-control metadata, credentials
/// and package-manager caches.
pub open spec fn sensitive_dir(lower: Seq<char>) -> bool {
    lower == ".git"@ || lower == ".ssh"@ || lower == ".aws"@ || lower == ".gnupg"@ || lower
        == ".kube"@ || lower == ".cargo"@ || lower == ".rustup"@
}

/// Whether a file of this lower-case name is an environment file that may
/// hold secrets: it starts with `.env`, does not end in `.example`,
/// `.sample` or `.template`, and is not `.envrc`.
pub open spec fn secret_name(lower: Seq<char>) -> bool {
    &&& has_prefix(lower, ".env"@)
    &&& !has_suffix(lower, ".example"@)
    &&& !has_suffix(lower, ".sample"@)
    &&& !has_suffix(lower, ".template"@)
    &&& lower != ".envrc"@
}

/// The lower-case form of an ASCII letter; any other character as it is.
pub open spec fn ascii_lower(c: char) -> char {
    if 'A' <= c <= 'Z' {
        ((c as u8) + 32) as char
    } else {
        c
    }
}

/// Whether two strings are equal but for the case of their ASCII letters.
pub open spec fn eq_ignoring_ascii_case(a: Seq<char>, b: Seq<char>) -> bool {
    a.len() == b.len() && forall|i: int| 0 <= i < a.len() ==> ascii_lower(a[i]) == ascii_lower(b[i])
}

/// Whether some entry of `list` equals `ext` but for the case of ASCII
/// letters.
pub open spec fn extension_listed(list: Seq<Seq<char>>, ext: Seq<char>) -> bool {
    exists|i: int| 0 <= i < list.len() && eq_ignoring_ascii_case(ext, #[trigger] list[i])
}

/// The entries of `list` in lower case.
pub open spec fn lowered(list: Seq<Seq<char>>) -> Seq<Seq<char>> {
    Seq::new(list.len(), |i: int| lowercase(list[i]))
}

/// The views of a sequence of character vectors.
pub open spec fn char_views(list: Seq<Vec<char>>) -> Seq<Seq<char>> {
    Seq::new(list.len(), |i: int| list[i]@)
}

/// The exclusion lists of a configuration, in lower case, ready to be
/// matched against the entries of a walk.
#[derive(Debug, Clone)]
pub struct Filters {
    /// Directory names that are pruned.
    pub dirs: Vec<String>,
    /// File names that are skipped.
    pub files: Vec<String>,
    /// Extensions that are skipped.
    pub exts: Vec<Vec<char>>,
    /// Whether dependency lock files are kept.
    pub include_lockfiles: bool,
}

/// The exclusion lists as sequences of names.
pub struct FilterLists {
    /// Directory names that are pruned, in lower case.
    pub dirs: Seq<Seq<char>>,
    /// File names that are skipped, in lower case.
    pub files: Seq<Seq<char>>,
    /// Extensions that are skipped, in lower case.
    pub exts: Seq<Seq<char>>,
    /// Whether dependency lock files are kept.
    pub include_lockfiles: bool,
}

impl View for Filters {
    type V = FilterLists;

    open spec fn view(&self) -> FilterLists {
        FilterLists {
            dirs: views(self.dirs@),
            files: views(self.files@),
            exts: char_views(self.exts@),
            include_lockfiles: self.include_lockfiles,
        }
    }
}

/// The filters that a configuration asks for.
pub open spec fn filters_of(config: AppConfig) -> FilterLists {
    FilterLists {
        dirs: lowered(views(config.exclude_dir@)),
        files: lowered(views(config.exclude_file@)),
        exts: lowered(views(config.exclude_ext@)),
        include_lockfiles: config.include_lockfiles,
    }
}

impl FilterLists {
    /// Whether a walk passes over the entry: a directory below the root
    /// whose name, in lower case, is configured or sensitive. The root
    /// itself, at depth 0, is never pruned.
    pub open spec fn prunes(self, depth: usize, is_dir: bool, name: Seq<char>) -> bool {
        self.prunes_lower(depth, is_dir, lowercase(name))
    }

    /// Whether a walk passes over an entry whose name is `lower` in lower
    /// case.
    pub open spec fn prunes_lower(self, depth: usize, is_dir: bool, lower: Seq<char>) -> bool {
        depth > 0 && is_dir && (self.dirs.contains(lower) || sensitive_dir(lower))
    }

    /// The first rule that keeps a file of this name out, if any.
    /// `own_output` says whether the name is that of a snapshot written
    /// earlier.
    pub open spec fn rule_for(self, name: Seq<char>, own_output: bool) -> Option<Exclusion> {
        self.rule_lower(name, lowercase(name), own_output)
    }

    /// The first rule that keeps a file out, if any, given its name, its
    /// name in lower case, and whether the name is that of a snapshot
    /// written earlier.
    pub open spec fn rule_lower(
        self,
        name: Seq<char>,
        lower: Seq<char>,
        own_output: bool,
    ) -> Option<Exclusion> {
        if own_output || lower == config_file_name() {
            Some(Exclusion::OwnFile)
        } else if !self.include_lockfiles && lockfile_name(name) {
            Some(Exclusion::LockFile)
        } else if self.files.contains(lower) {
            Some(Exclusion::ExcludedName)
        } else if secret_name(lower) {
            Some(Exclusion::Secret)
        } else if extension(name) is Some && extension_listed(self.exts, extension(name)->0) {
            Some(Exclusion::ExcludedExtension)
        } else {
            None
        }
    }

    /// The first rule that keeps a file of this name out, if any.
    pub open spec fn excluded(self, name: Seq<char>) -> Option<Exclusion> {
        self.rule_for(name, snapshot_name(name))
    }
}

/// The lower-case forms of the strings in `list`.
fn lowercase_all(list: &Vec<String>) -> (out: Vec<String>)
    ensures
        views(out@) == lowered(views(list@)),
{
    let mut out: Vec<String> = Vec::new();
    let mut i: usize = 0;
    while i < list.len()
        invariant
            i <= list@.len(),
            out@.len() == i,
            forall|k: int| 0 <= k < i ==> out@[k]@ == lowercase(list@[k]@),
        decreases list@.len() - i,
    {
        out.push(to_lowercase(list[i].as_str()));
        i += 1;
    }
    assert(views(out@) =~= lowered(views(list@)));
    out
}

/// Whether `list` holds a string equal to `s`.
fn list_contains(list: &Vec<String>, s: &str) -> (found: bool)
    ensures
        found == views(list@).contains(s@),
{
    let mut i: usize = 0;
    while i < list.len()
        invariant
            i <= list@.len(),
            forall|k: int| 0 <= k < i ==> list@[k]@ != s@,
        decreases list@.len() - i,
    {
        if str_eq(list[i].as_str(), s) {
            assert(views(list@)[i as int] == s@);
            return true;
        }
        i += 1;
    }
    assert forall|k: int| 0 <= k < views(list@).len() implies views(list@)[k] != s@ by {}
    false
}

/// The lower-case form of an ASCII letter; any other character as it is.
fn to_ascii_lower(c: char) -> (lower: char)
    ensures
        lower == ascii_lower(c),
{
    if 'A' <= c && c <= 'Z' {
        ((c as u8) + 32) as char
    } else {
        c
    }
}

/// Whether two strings are equal but for the case of their ASCII letters.
fn eq_ignore_ascii_case(a: &Vec<char>, b: &Vec<char>) -> (eq: bool)
    ensures
        eq == eq_ignoring_ascii_case(a@, b@),
{
    if a.len() != b.len() {
        return false;
    }
    let mut i: usize = 0;
    while i < a.len()
        invariant
            i <= a@.len() == b@.len(),
            forall|k: int| 0 <= k < i ==> ascii_lower(a@[k]) == ascii_lower(b@[k]),
        decreases a@.len() - i,
    {
        if to_ascii_lower(a[i]) != to_ascii_lower(b[i]) {
            return false;
        }
        i += 1;
    }
    true
}

impl Filters {
    /// The filters for a configuration.
    pub fn new(config: &AppConfig) -> (filters: Filters)
        ensures
            filters@ == filters_of(*config),
    {
        let lower_exts = lowercase_all(&config.exclude_ext);
        let mut exts: Vec<Vec<char>> = Vec::new();
        let mut i: usize = 0;
        while i < lower_exts.len()
            invariant
                i <= lower_exts@.len(),
                exts@.len() == i,
                forall|k: int| 0 <= k < i ==> exts@[k]@ == lower_exts@[k]@,
            decreases lower_exts@.len() - i,
        {
            exts.push(chars_of(lower_exts[i].as_str()));
            i += 1;
        }
        assert(char_views(exts@) =~= views(lower_exts@));
        Filters {
            dirs: lowercase_all(&config.exclude_dir),
            files: lowercase_all(&config.exclude_file),
            exts,
            include_lockfiles: config.include_lockfiles,
        }
    }

    /// Whether a walk goes on with the entry, and into it where it is a
    /// directory.
    pub fn keeps_entry(&self, depth: usize, is_dir: bool, name: &str) -> (keep: bool)
        ensures
            keep == !self@.prunes(depth, is_dir, name@),
    {
        if depth > 0 && is_dir {
            self.keeps_lower(depth, is_dir, to_lowercase(name).as_str())
        } else {
            true
        }
    }

    /// Whether a walk goes on with an entry whose name is `lower` in lower
    /// case.
    pub fn keeps_lower(&self, depth: usize, is_dir: bool, lower: &str) -> (keep: bool)
        ensures
            keep == !self@.prunes_lower(depth, is_dir, lower@),
    {
        if !(depth > 0 && is_dir) {
            return true;
        }
        let sensitive = str_eq(lower, ".git") || str_eq(lower, ".ssh") || str_eq(lower, ".aws")
            || str_eq(lower, ".gnupg") || str_eq(lower, ".kube") || str_eq(lower, ".cargo")
            || str_eq(lower, ".rustup");
        !(sensitive || list_contains(&self.dirs, lower))
    }

    /// The first rule that keeps a file out, if any, given its name, its
    /// name in lower case, and whether the name is that of a snapshot
    /// written earlier.
    pub fn rule(&self, name: &str, lower: &str, own_output: bool) -> (rule: Option<Exclusion>)
        ensures
            rule == self@.rule_lower(name@, lower@, own_output),
    {
        if own_output || str_eq(lower, "ctxsnap.toml") {
            return Some(Exclusion::OwnFile);
        }
        if !self.include_lockfiles && is_lockfile(name) {
            return Some(Exclusion::LockFile);
        }
        if list_contains(&self.files, lower) {
            return Some(Exclusion::ExcludedName);
        }
        let lower_chars = chars_of(lower);
        if starts_with(&lower_chars, ".env") && !ends_with(&lower_chars, ".example") && !ends_with(
            &lower_chars,
            ".sample",
        ) && !ends_with(&lower_chars, ".template") && !str_eq(lower, ".envrc") {
            return Some(Exclusion::Secret);
        }
        match extension_of(name) {
            Some(ext) => if self.lists_extension(ext.as_str()) {
                Some(Exclusion::ExcludedExtension)
            } else {
                None
            },
            None => None,
        }
    }

    /// Whether `ext` is among the excluded extensions, whatever the case of
    /// its ASCII letters.
    pub fn lists_extension(&self, ext: &str) -> (listed: bool)
        ensures
            listed == extension_listed(char_views(self.exts@), ext@),
    {
        let ext_chars = chars_of(ext);
        let mut i: usize = 0;
        while i < self.exts.len()
            invariant
                i <= self.exts@.len(),
                ext_chars@ == ext@,
                forall|k: int|
                    0 <= k < i ==> !eq_ignoring_ascii_case(
                        ext_chars@,
                        #[trigger] char_views(self.exts@)[k],
                    ),
            decreases self.exts@.len() - i,
        {
            assert(char_views(self.exts@)[i as int] == self.exts@[i as int]@);
            if eq_ignore_ascii_case(&ext_chars, &self.exts[i]) {
                return true;
            }
            i += 1;
        }
        false
    }

    /// The first rule that keeps a file of this name out, if any.
    pub fn exclusion(&self, name: &str) -> (rule: Option<Exclusion>)
        ensures
            rule == self@.excluded(name@),
    {
        self.rule(name, to_lowercase(name).as_str(), is_snapshot_name(name))
    }
}

/// What kind of entry a walk came upon.
#[derive(Debug, Clone, Copy, PartialEq, Eq, Structural)]
pub enum EntryKind {
    /// A regular file, or an entry whose kind is not known.
    File,
    /// A directory.
    Directory,
    /// A symbolic link: never followed, never read.
    Symlink,
}

/// One entry that a walk came upon.
#[derive(Debug, Clone)]
pub struct WalkEntry {
    /// The entry's path.
    pub path: String,
    /// The entry's file name.
    pub name: String,
    /// The kind of entry.
    pub kind: EntryKind,
}

/// One step of a walk: an entry, or an error that kept the walk from a
/// path.
#[derive(Debug, Clone)]
pub enum WalkItem {
    /// An entry.
    Entry(WalkEntry),
    /// The text of an access error.
    Error(String),
}

/// What discovery found.
#[derive(Debug, Clone)]
pub struct DiscoveryResult {
    /// The paths of the candidates, in their final order.
    pub files: Vec<String>,
    /// The access errors, in the order in which the walk met them.
    pub errors: Vec<String>,
}

/// The key by which a candidate is ordered: its path relative to the root,
/// in normal form.
pub open spec fn sort_key(path: Seq<char>, root: Seq<char>) -> Seq<char> {
    cleaned(relative(path, root))
}

/// Whether the entry becomes a candidate: it is a file, and no rule keeps
/// its name out.
pub open spec fn is_candidate(filters: FilterLists, entry: WalkEntry) -> bool {
    entry.kind == EntryKind::File && filters.excluded(entry.name@) is None
}

/// The candidates among `items`, each as its key and its path, in the
/// order of the walk.
pub open spec fn candidates_of(items: Seq<WalkItem>, root: Seq<char>, filters: FilterLists) -> Seq<
    (Seq<char>, Seq<char>),
>
    decreases items.len(),
{
    if items.len() == 0 {
        Seq::empty()
    } else {
        let before = candidates_of(items.drop_last(), root, filters);
        match items.last() {
            WalkItem::Entry(entry) => if is_candidate(filters, entry) {
                before.push((sort_key(entry.path@, root), entry.path@))
            } else {
                before
            },
            WalkItem::Error(_) => before,
        }
    }
}

/// The texts of the access errors among `items`, in the order of the walk.
pub open spec fn errors_of(items: Seq<WalkItem>) -> Seq<Seq<char>>
    decreases items.len(),
{
    if items.len() == 0 {
        Seq::empty()
    } else {
        let before = errors_of(items.drop_last());
        match items.last() {
            WalkItem::Entry(_) => before,
            WalkItem::Error(text) => before.push(text@),
        }
    }
}

/// The paths of a list of candidates.
pub open spec fn paths_of(list: Seq<(Seq<char>, Seq<char>)>) -> Seq<Seq<char>> {
    Seq::new(list.len(), |i: int| list[i].1)
}

/// The candidates that a walk under `root` gives with `config`, in their
/// final order.
pub open spec fn discovered(items: Seq<WalkItem>, root: Seq<char>, config: AppConfig) -> Seq<
    (Seq<char>, Seq<char>),
> {
    sorted_by_key(candidates_of(items, root, filters_of(config)))
}

/// Picks the candidates from the entries of a walk under `root` and puts
/// them in order. Symbolic links and directories are no candidates; the
/// access errors are collected as they come.
pub fn find_files(root: &str, items: &Vec<WalkItem>, config: &AppConfig) -> (found: DiscoveryResult)
    ensures
        views(found.files@) == paths_of(discovered(items@, root@, *config)),
        views(found.errors@) == errors_of(items@),
{
    let filters = Filters::new(config);
    let mut candidates: Vec<Candidate> = Vec::new();
    let mut errors: Vec<String> = Vec::new();
    let mut i: usize = 0;
    while i < items.len()
        invariant
            i <= items@.len(),
            filters@ == filters_of(*config),
            candidate_views(candidates@) == candidates_of(items@.take(i as int), root@, filters@),
            views(errors@) == errors_of(items@.take(i as int)),
        decreases items@.len() - i,
    {
        proof {
            assert(items@.take(i + 1).drop_last() =~= items@.take(i as int));
            assert(items@.take(i + 1).last() == items@[i as int]);
        }
        let ghost had = candidate_views(candidates@);
        let ghost had_errors = views(errors@);
        match &items[i] {
            WalkItem::Entry(entry) => {
                let is_file = match entry.kind {
                    EntryKind::File => true,
                    _ => false,
                };
                if is_file && filters.exclusion(entry.name.as_str()).is_none() {
                    let rel = relative_to(entry.path.as_str(), root);
                    let key = clean_path(rel.as_str());
                    candidates.push(Candidate { key, path: entry.path.clone() });
                    assert(candidate_views(candidates@) =~= had.push(
                        (sort_key(entry.path@, root@), entry.path@),
                    ));
                }
            },
            WalkItem::Error(text) => {
                errors.push(text.clone());
                assert(views(errors@) =~= had_errors.push(text@));
            },
        }
        i += 1;
    }
    assert(items@.take(items@.len() as int) =~= items@);
    let sorted = sort_candidates(candidates);
    let mut files: Vec<String> = Vec::new();
    let mut k: usize = 0;
    while k < sorted.len()
        invariant
            k <= sorted@.len(),
            files@.len() == k,
            forall|j: int| 0 <= j < k ==> files@[j]@ == sorted@[j].path@,
        decreases sorted@.len() - k,
    {
        files.push(sorted[k].path.clone());
        k += 1;
    }
    assert(views(files@) =~= paths_of(candidate_views(sorted@)));
    DiscoveryResult { files, errors }
}

/// Whether the candidate `found` is what the walk item `item` gives: the
/// item is a file that no rule keeps out, and `found` is its key and path.
pub open spec fn stems_from(
    found: (Seq<char>, Seq<char>),
    item: WalkItem,
    root: Seq<char>,
    filters: FilterLists,
) -> bool {
    match item {
        WalkItem::Entry(entry) => is_candidate(filters, entry) && found == (
            sort_key(entry.path@, root),
            entry.path@,
        ),
        WalkItem::Error(_) => false,
    }
}

proof fn lemma_candidates_stem_from_files(
    items: Seq<WalkItem>,
    root: Seq<char>,
    filters: FilterLists,
    k: int,
) -> (i: int)
    requires
        0 <= k < candidates_of(items, root, filters).len(),
    ensures
        0 <= i < items.len(),
        stems_from(candidates_of(items, root, filters)[k], items[i], root, filters),
    decreases items.len(),
{
    let before = candidates_of(items.drop_last(), root, filters);
    if k < before.len() {
        let i = lemma_candidates_stem_from_files(items.drop_last(), root, filters, k);
        assert(items.drop_last()[i] == items[i]);
        i
    } else {
        items.len() - 1
    }
}

/// Symbolic links and directories never become candidates: every
/// discovered file stems from an entry of the walk that is a file and that
/// no rule keeps out, and its key is its normalised relative path.
pub proof fn lemma_discovered_are_files(
    items: Seq<WalkItem>,
    root: Seq<char>,
    config: AppConfig,
    k: int,
) -> (i: int)
    requires
        0 <= k < discovered(items, root, config).len(),
    ensures
        0 <= i < items.len(),
        stems_from(discovered(items, root, config)[k], items[i], root, filters_of(config)),
        items[i] is Entry,
        items[i]->Entry_0.kind == EntryKind::File,
        discovered(items, root, config)[k].0 == sort_key(
            discovered(items, root, config)[k].1,
            root,
        ),
{
    broadcast use vstd::seq_lib::group_to_multiset_ensures;

    let all = candidates_of(items, root, filters_of(config));
    let sorted = discovered(items, root, config);
    lemma_sorted_by_key(all);
    assert(sorted.contains(sorted[k]));
    assert(all.to_multiset().count(sorted[k]) > 0);
    assert(all.contains(sorted[k]));
    let m = choose|m: int| 0 <= m < all.len() && all[m] == sorted[k];
    lemma_candidates_stem_from_files(items, root, filters_of(config), m)
}

/// What is no file leaves no trace: without an entry of the walk that is a
/// symbolic link or a directory, or without an error, the candidates are
/// the same.
pub proof fn lemma_links_leave_no_trace(
    items: Seq<WalkItem>,
    root: Seq<char>,
    filters: FilterLists,
    i: int,
)
    requires
        0 <= i < items.len(),
        items[i] is Entry ==> items[i]->Entry_0.kind != EntryKind::File,
    ensures
        candidates_of(items, root, filters) == candidates_of(items.remove(i), root, filters),
    decreases items.len(),
{
    if i == items.len() - 1 {
        assert(items.remove(i) =~= items.drop_last());
    } else {
        lemma_links_leave_no_trace(items.drop_last(), root, filters, i);
        assert(items.remove(i).drop_last() =~= items.drop_last().remove(i));
        assert(items.remove(i).last() == items.last());
    }
}

/// Whether the walk gives no path twice as a file.
pub open spec fn file_paths_distinct(items: Seq<WalkItem>) -> bool {
    forall|i: int, j: int|
        0 <= i < j < items.len() && items[i] is Entry && items[j] is Entry
            && items[i]->Entry_0.kind == EntryKind::File && items[j]->Entry_0.kind
            == EntryKind::File ==> items[i]->Entry_0.path@ != items[j]->Entry_0.path@
}

proof fn lemma_candidates_without_duplicates(
    items: Seq<WalkItem>,
    root: Seq<char>,
    filters: FilterLists,
)
    requires
        file_paths_distinct(items),
    ensures
        candidates_of(items, root, filters).no_duplicates(),
    decreases items.len(),
{
    if items.len() > 0 {
        let earlier = items.drop_last();
        assert forall|i: int, j: int|
            0 <= i < j < earlier.len() && earlier[i] is Entry && earlier[j] is Entry
                && earlier[i]->Entry_0.kind == EntryKind::File && earlier[j]->Entry_0.kind
                == EntryKind::File implies earlier[i]->Entry_0.path@
            != earlier[j]->Entry_0.path@ by {
            assert(earlier[i] == items[i] && earlier[j] == items[j]);
        }
        lemma_candidates_without_duplicates(earlier, root, filters);
        let before = candidates_of(earlier, root, filters);
        let all = candidates_of(items, root, filters);
        if all.len() > before.len() {
            let found = all.last();
            assert forall|k: int| 0 <= k < before.len() implies before[k] != found by {
                let i = lemma_candidates_stem_from_files(earlier, root, filters, k);
                assert(earlier[i] == items[i]);
                assert(items.last() == items[items.len() - 1]);
            }
            assert forall|a: int, b: int|
                0 <= a < all.len() && 0 <= b < all.len() && a != b implies all[a] != all[b] by {
                if a < before.len() {
                    assert(all[a] == before[a]);
                }
                if b < before.len() {
                    assert(all[b] == before[b]);
                }
            }
        }
    }
}

/// No file is discovered twice, where the walk gives no path twice as a
/// file: the content of a file can be included once at most.
pub proof fn lemma_discovered_without_duplicates(
    items: Seq<WalkItem>,
    root: Seq<char>,
    config: AppConfig,
)
    requires
        file_paths_distinct(items),
    ensures
        discovered(items, root, config).no_duplicates(),
{
    let all = candidates_of(items, root, filters_of(config));
    lemma_candidates_without_duplicates(items, root, filters_of(config));
    lemma_sorted_by_key(all);
    all.lemma_multiset_has_no_duplicates();
    discovered(items, root, config).lemma_multiset_has_no_duplicates_conv();
}

/// Sort order: the discovered files are in ascending order of their
/// normalised relative paths, and they are the candidates of the walk, each
/// as often as the walk gave it.
pub proof fn lemma_discovered_in_order(items: Seq<WalkItem>, root: Seq<char>, config: AppConfig)
    ensures
        ascending(discovered(items, root, config)),
        discovered(items, root, config).to_multiset() == candidates_of(
            items,
            root,
            filters_of(config),
        ).to_multiset(),
{
    lemma_sorted_by_key(candidates_of(items, root, filters_of(config)));
}

/// Determinism: two walks that give the same candidates, in whatever
/// order, give the same list of discovered files, where no two candidates
/// with different paths share a normalised relative path.
pub proof fn lemma_discovery_whatever_the_walk_order(
    first: Seq<WalkItem>,
    second: Seq<WalkItem>,
    root: Seq<char>,
    config: AppConfig,
)
    requires
        candidates_of(first, root, filters_of(config)).to_multiset() == candidates_of(
            second,
            root,
            filters_of(config),
        ).to_multiset(),
        keys_identify(candidates_of(first, root, filters_of(config))),
    ensures
        discovered(first, root, config) == discovered(second, root, config),
{
    lemma_sorted_whatever_the_order(
        candidates_of(first, root, filters_of(config)),
        candidates_of(second, root, filters_of(config)),
    );
}

/// Pruning: the root, at depth 0, is never passed over, whatever its name;
/// below it a directory with a sensitive name always is, whatever the
/// configuration lists; and what is no directory never is.
pub proof fn lemma_pruning(filters: FilterLists, depth: usize, is_dir: bool, name: Seq<char>)
    ensures
        !filters.prunes(0, is_dir, name),
        !filters.prunes(depth, false, name),
        depth > 0 && sensitive_dir(lowercase(name)) ==> filters.prunes(depth, true, name),
{
}

/// Secret-prefix exclusion: a file whose lower-case name starts with `.env`
/// is kept out, unless the name ends in `.example`, `.sample` or
/// `.template` or is `.envrc`; such a name is kept out by another rule or
/// not at all.
pub proof fn lemma_secret_names(filters: FilterLists, name: Seq<char>)
    ensures
        secret_name(lowercase(name)) ==> filters.excluded(name) is Some,
        has_prefix(lowercase(name), ".env"@) && (has_suffix(lowercase(name), ".example"@)
            || has_suffix(lowercase(name), ".sample"@) || has_suffix(
            lowercase(name),
            ".template"@,
        ) || lowercase(name) == ".envrc"@) ==> filters.excluded(name) != Some(Exclusion::Secret),
{
}

} // verus!
