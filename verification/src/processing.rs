//! Per-file classification: is the content text, and what text is it.

use crate::comments::{strip_comments, stripped};
use crate::config::AppConfig;
use crate::decoding::{
    decodable_len, decode_utf8_lossy, decode_windows_1252, utf8_decode, windows_1252_decode,
};
use crate::paths::{path_extension, path_extension_of};
use crate::text::{decimal, fixed2, note_char_count_fits, push_char, push_decimal, push_fixed2,
    rounded_hundredths};
use vstd::prelude::*;
use vstd::slice::slice_subrange;
use vstd::std_specs::iter::IteratorSpec;
use vstd::string::StringExecFns;
use vstd::utf8::{decode_utf8, valid_utf8};

verus! {

/// Number of leading bytes inspected when sniffing for binary content.
pub const SAMPLE_SIZE: usize = 8192;

/// Number of bytes in one MiB.
pub const MIB: u64 = 1048576;

/// Content of this many bytes or more is never stripped of comments.
pub const MAX_STRIP_SIZE: u64 = 1048576;

/// What became of one candidate file.
#[derive(Debug, Clone)]
pub enum FileStatus {
    /// The file is part of the document.
    Included {
        /// The file's path.
        path: String,
        /// The extracted text.
        content: String,
        /// Number of bytes read from the file.
        size: u64,
    },
    /// The file was left out.
    Omitted {
        /// The file's path.
        path: String,
        /// Why it was left out.
        reason: String,
        /// The file's size as far as known, else 0.
        size: u64,
    },
}

/// A [`FileStatus`] with its texts as character sequences.
pub enum StatusView {
    Included { path: Seq<char>, content: Seq<char>, size: u64 },
    Omitted { path: Seq<char>, reason: Seq<char>, size: u64 },
}

impl View for FileStatus {
    type V = StatusView;

    open spec fn view(&self) -> StatusView {
        match *self {
            FileStatus::Included { path, content, size } => StatusView::Included {
                path: path@,
                content: content@,
                size,
            },
            FileStatus::Omitted { path, reason, size } => StatusView::Omitted {
                path: path@,
                reason: reason@,
                size,
            },
        }
    }
}

/// Length of the run of backticks that `s` ends with.
pub open spec fn trailing_backticks(s: Seq<char>) -> nat
    decreases s.len(),
{
    if s.len() == 0 || s.last() != '`' {
        0
    } else {
        trailing_backticks(s.drop_last()) + 1
    }
}

/// Length of the longest run of consecutive backticks in `s`.
pub open spec fn longest_backtick_run(s: Seq<char>) -> nat
    decreases s.len(),
{
    if s.len() == 0 {
        0
    } else {
        let before = longest_backtick_run(s.drop_last());
        let here = trailing_backticks(s);
        if here > before {
            here
        } else {
            before
        }
    }
}

/// Number of backticks in the fence that wraps `content`: one more than the
/// longest run inside, and never fewer than three.
pub open spec fn fence_len(content: Seq<char>) -> nat {
    let needed = longest_backtick_run(content) + 1;
    if needed > 3 {
        needed
    } else {
        3
    }
}

/// `n` backticks.
pub open spec fn backticks(n: nat) -> Seq<char> {
    Seq::new(n, |i: int| '`')
}

/// Whether `s[from..to]` holds backticks only.
pub open spec fn all_backticks(s: Seq<char>, from: int, to: int) -> bool {
    forall|i: int| from <= i < to ==> s[i] == '`'
}

proof fn lemma_runs_bounded(s: Seq<char>)
    ensures
        trailing_backticks(s) <= s.len(),
        longest_backtick_run(s) <= s.len(),
        trailing_backticks(s) <= longest_backtick_run(s),
        all_backticks(s, s.len() - trailing_backticks(s), s.len() as int),
    decreases s.len(),
{
    if s.len() > 0 {
        let front = s.drop_last();
        lemma_runs_bounded(front);
        assert forall|i: int| s.len() - trailing_backticks(s) <= i < s.len() implies s[i]
            == '`' by {
            if i < front.len() {
                assert(front[i] == s[i]);
            }
        }
    }
}

/// The fence is longer than every run of backticks in the content: no run of
/// `fence_len(content)` backticks occurs in it.
pub proof fn lemma_fence_exceeds_every_run(content: Seq<char>, from: int, to: int)
    requires
        0 <= from <= to <= content.len(),
        all_backticks(content, from, to),
    ensures
        to - from <= longest_backtick_run(content),
        to - from < fence_len(content),
    decreases content.len(),
{
    if content.len() > 0 {
        let front = content.drop_last();
        if to < content.len() {
            assert forall|i: int| from <= i < to implies front[i] == '`' by {
                assert(front[i] == content[i]);
            }
            lemma_fence_exceeds_every_run(front, from, to);
        } else {
            lemma_run_within_trailing(content, from);
        }
    }
}

proof fn lemma_run_within_trailing(s: Seq<char>, from: int)
    requires
        0 <= from <= s.len(),
        all_backticks(s, from, s.len() as int),
    ensures
        s.len() - from <= trailing_backticks(s),
    decreases s.len(),
{
    if from < s.len() {
        let front = s.drop_last();
        assert(s.last() == '`');
        assert forall|i: int| from <= i < front.len() implies front[i] == '`' by {
            assert(front[i] == s[i]);
        }
        lemma_run_within_trailing(front, from);
    }
}

/// Where the content holds a backtick at all, a run of the longest length
/// occurs in it: the fence is exactly one backtick longer than that run.
pub proof fn lemma_longest_run_occurs(content: Seq<char>) -> (at: int)
    ensures
        0 <= at,
        at + longest_backtick_run(content) <= content.len(),
        all_backticks(content, at, at + longest_backtick_run(content)),
    decreases content.len(),
{
    if content.len() == 0 {
        0
    } else {
        let front = content.drop_last();
        lemma_runs_bounded(content);
        if trailing_backticks(content) > longest_backtick_run(front) {
            content.len() - trailing_backticks(content)
        } else {
            let at = lemma_longest_run_occurs(front);
            assert forall|i: int| at <= i < at + longest_backtick_run(content) implies content[i]
                == '`' by {
                assert(front[i] == content[i]);
            }
            at
        }
    }
}

/// The fence for `content`: a run of backticks one longer than the longest
/// run in the content, and at least three.
pub fn fence_for(content: &str) -> (fence: String)
    ensures
        fence@ == backticks(fence_len(content@)),
{
    broadcast use vstd::string::group_string_axioms;

    note_char_count_fits(content);
    let mut max_run: usize = 0;
    let mut run: usize = 0;
    for ch in it: content.chars()
        invariant
            it.seq() == content@,
            content@.len() <= usize::MAX,
            run == trailing_backticks(it.seq().take(it.index())),
            max_run == longest_backtick_run(it.seq().take(it.index())),
    {
        proof {
            let seen = it.seq().take(it.index() + 1);
            assert(seen.drop_last() =~= it.seq().take(it.index()));
            assert(seen.last() == ch);
            lemma_runs_bounded(it.seq().take(it.index()));
        }
        if ch == '`' {
            run += 1;
            if run > max_run {
                max_run = run;
            }
        } else {
            run = 0;
        }
    }
    assert(content@.take(content@.len() as int) =~= content@);
    // One backtick, then as many more as the longest run, and two at least.
    let more: usize = if max_run > 2 {
        max_run
    } else {
        2
    };
    let mut fence = String::new();
    push_char(&mut fence, '`');
    let mut i: usize = 0;
    while i < more
        invariant
            i <= more,
            fence@ == backticks((i + 1) as nat),
        decreases more - i,
    {
        push_char(&mut fence, '`');
        i += 1;
        assert(fence@ =~= backticks((i + 1) as nat));
    }
    fence
}

/// Whether `c` is a control code: U+0000 to U+001F, or U+007F to U+009F.
pub open spec fn is_control(c: char) -> bool {
    c as u32 <= 0x1f || 0x7f <= c as u32 <= 0x9f
}

/// Whether `c` counts against a text: a control code other than line feed,
/// carriage return and tab.
pub open spec fn is_noise(c: char) -> bool {
    is_control(c) && c != '\n' && c != '\r' && c != '\t'
}

/// Number of noise characters in `s`.
pub open spec fn noise_count(s: Seq<char>) -> nat
    decreases s.len(),
{
    if s.len() == 0 {
        0
    } else {
        noise_count(s.drop_last()) + if is_noise(s.last()) {
            1nat
        } else {
            0nat
        }
    }
}

/// Whether the byte `b` counts against a sample that is no valid UTF-8: a
/// control byte, below 0x20 or 0x7F, other than tab, line feed and carriage
/// return.
pub open spec fn is_noise_byte(b: u8) -> bool {
    (b < 0x20 && b != 0x09 && b != 0x0a && b != 0x0d) || b == 0x7f
}

/// Number of noise bytes in `s`.
pub open spec fn noise_byte_count(s: Seq<u8>) -> nat
    decreases s.len(),
{
    if s.len() == 0 {
        0
    } else {
        noise_byte_count(s.drop_last()) + if is_noise_byte(s.last()) {
            1nat
        } else {
            0nat
        }
    }
}

/// Whether a sample looks like text: it is empty, or it holds no zero byte
/// and less than 2% of it is noise, counted in characters where the sample
/// is valid UTF-8 and in bytes where it is not.
pub open spec fn mostly_text(sample: Seq<u8>) -> bool {
    sample.len() == 0 || (!sample.contains(0u8) && if valid_utf8(sample) {
        noise_count(decode_utf8(sample)) * 50 < decode_utf8(sample).len()
    } else {
        noise_byte_count(sample) * 50 < sample.len()
    })
}

pub proof fn lemma_noise_count_bounded(s: Seq<char>)
    ensures
        noise_count(s) <= s.len(),
    decreases s.len(),
{
    if s.len() > 0 {
        lemma_noise_count_bounded(s.drop_last());
    }
}

pub proof fn lemma_noise_byte_count_bounded(s: Seq<u8>)
    ensures
        noise_byte_count(s) <= s.len(),
    decreases s.len(),
{
    if s.len() > 0 {
        lemma_noise_byte_count_bounded(s.drop_last());
    }
}

/// Reads a byte slice as text.
///
/// Trusted: `core::str::from_utf8`, which gives the string slice made of the
/// same bytes where they are valid UTF-8, and an error where they are not.
#[verifier::external_body]
pub(crate) fn utf8_text<'a>(bytes: &'a [u8]) -> (text: Option<&'a str>)
    ensures
        text is Some <==> valid_utf8(bytes@),
        text is Some ==> text->0@ == decode_utf8(bytes@),
{
    core::str::from_utf8(bytes).ok()
}

/// Whether `c` counts against a text.
pub fn is_noise_char(c: char) -> (noise: bool)
    ensures
        noise == is_noise(c),
{
    let code = c as u32;
    (code <= 0x1f || (0x7f <= code && code <= 0x9f)) && c != '\n' && c != '\r' && c != '\t'
}

/// Counts the characters of `text` and the noise among them.
pub fn count_noise(text: &str) -> (counts: (usize, usize))
    ensures
        counts.0 == text@.len(),
        counts.1 == noise_count(text@),
{
    broadcast use vstd::string::group_string_axioms;

    note_char_count_fits(text);
    let mut total: usize = 0;
    let mut noise: usize = 0;
    for ch in it: text.chars()
        invariant
            it.seq() == text@,
            text@.len() <= usize::MAX,
            total == it.index(),
            noise == noise_count(it.seq().take(it.index())),
    {
        proof {
            let seen = it.seq().take(it.index() + 1);
            assert(seen.drop_last() =~= it.seq().take(it.index()));
            assert(seen.last() == ch);
            lemma_noise_count_bounded(it.seq().take(it.index()));
        }
        total += 1;
        if is_noise_char(ch) {
            noise += 1;
        }
    }
    assert(text@.take(text@.len() as int) =~= text@);
    (total, noise)
}

/// Whether a sample of a file's leading bytes looks like text.
pub fn is_mostly_text(sample: &[u8]) -> (text: bool)
    ensures
        text == mostly_text(sample@),
{
    let n = sample.len();
    if n == 0 {
        return true;
    }
    let mut noise: usize = 0;
    let mut i: usize = 0;
    while i < n
        invariant
            i <= n == sample@.len(),
            !sample@.take(i as int).contains(0u8),
            noise == noise_byte_count(sample@.take(i as int)),
        decreases n - i,
    {
        let b = sample[i];
        proof {
            let seen = sample@.take(i + 1);
            assert(seen.drop_last() =~= sample@.take(i as int));
            assert(seen.last() == b);
            lemma_noise_byte_count_bounded(sample@.take(i as int));
        }
        if b == 0 {
            assert(sample@[i as int] == 0u8);
            return false;
        }
        if (b < 0x20 && b != 0x09 && b != 0x0a && b != 0x0d) || b == 0x7f {
            noise += 1;
        }
        proof {
            let seen = sample@.take(i + 1);
            assert forall|k: int| 0 <= k < seen.len() implies seen[k] != 0u8 by {
                if k < i {
                    assert(sample@.take(i as int)[k] == seen[k]);
                }
            }
        }
        i += 1;
    }
    assert(sample@.take(n as int) =~= sample@);
    match utf8_text(sample) {
        Some(s) => {
            let (total, noise_chars) = count_noise(s);
            (noise_chars as u128) * 50 < total as u128
        },
        None => (noise as u128) * 50 < n as u128,
    }
}

/// `mb` MiB in bytes, or the largest byte count where that does not fit.
pub open spec fn megabytes_to_bytes(mb: u64) -> u64 {
    if mb * MIB > u64::MAX {
        u64::MAX
    } else {
        (mb * MIB) as u64
    }
}

/// `mb` MiB in bytes, or the largest byte count where that does not fit.
pub fn bytes_of_megabytes(mb: u64) -> (bytes: u64)
    ensures
        bytes == megabytes_to_bytes(mb),
{
    match mb.checked_mul(MIB) {
        Some(bytes) => bytes,
        None => u64::MAX,
    }
}

/// The leading bytes of a file that are sniffed: the first 8 KiB, or all of
/// it where it is shorter.
pub open spec fn sample_of(bytes: Seq<u8>) -> Seq<u8> {
    if bytes.len() > SAMPLE_SIZE {
        bytes.take(SAMPLE_SIZE as int)
    } else {
        bytes
    }
}

/// The reason given for a file whose size is over the per-file limit.
pub open spec fn too_large_reason(size: u64, limit_mb: u64) -> Seq<char> {
    "Size "@ + decimal((size / MIB) as nat) + " MB exceeds limit of "@ + decimal(limit_mb as nat)
        + " MB"@
}

/// The reason given for a file that turned out longer than the per-file
/// limit while it was read.
pub open spec fn grew_reason(limit_mb: u64) -> Seq<char> {
    "File content exceeded limit of "@ + decimal(limit_mb as nat) + " MB (detected during read)"@
}

/// The reason given for a file whose leading bytes do not look like text.
pub open spec fn binary_reason() -> Seq<char> {
    "Binary detected"@
}

/// Whether text that came out of the fallback decoding is too noisy to
/// keep: 1% of its characters or more are noise.
pub open spec fn too_noisy(text: Seq<char>) -> bool {
    noise_count(text) * 100 >= (if text.len() == 0 {
        1
    } else {
        text.len()
    })
}

/// The reason given for text that is too noisy: the share of noise in
/// percent, with two decimal places.
pub open spec fn noisy_reason(text: Seq<char>) -> Seq<char> {
    "Too many control chars: "@ + fixed2(
        rounded_hundredths(
            noise_count(text) * 100,
            if text.len() == 0 {
                1
            } else {
                text.len()
            },
        ),
    ) + "%"@
}

/// Judges text that came out of the fallback decoding: the reason to leave
/// the file out where the text is too noisy, and nothing where it can stay.
pub fn fallback_rejection(text: &str) -> (reason: Option<String>)
    ensures
        too_noisy(text@) <==> reason is Some,
        reason is Some ==> reason->0@ == noisy_reason(text@),
{
    let (total, noise) = count_noise(text);
    let chars: usize = if total == 0 {
        1
    } else {
        total
    };
    if (noise as u128) * 100 >= chars as u128 {
        let mut reason = String::from_str("Too many control chars: ");
        push_fixed2(&mut reason, (noise as u128) * 100, chars as u128);
        reason.append("%");
        Some(reason)
    } else {
        None
    }
}

/// The text of an included file: the decoded text, stripped of comments
/// where that is asked for and fewer than 1 MiB were read.
pub open spec fn final_content(
    text: Seq<char>,
    path: Seq<char>,
    read: u64,
    remove_comments: bool,
) -> Seq<char> {
    if remove_comments && read < MAX_STRIP_SIZE {
        stripped(
            text,
            match path_extension(path) {
                Some(ext) => ext,
                None => Seq::empty(),
            },
        )
    } else {
        text
    }
}

/// Includes a file whose decoded text is `text` and of which `read` bytes
/// were read.
pub fn include_text(path: String, text: String, read: u64, config: &AppConfig) -> (status:
    FileStatus)
    ensures
        status@ == (StatusView::Included {
            path: path@,
            content: final_content(text@, path@, read, config.remove_comments),
            size: read,
        }),
{
    let content = if config.remove_comments && read < MAX_STRIP_SIZE {
        match path_extension_of(path.as_str()) {
            Some(ext) => strip_comments(text.as_str(), ext.as_str()),
            None => strip_comments(text.as_str(), ""),
        }
    } else {
        text
    };
    proof {
        reveal_strlit("");
        assert(""@ =~= Seq::<char>::empty());
    }
    FileStatus::Included { path, content, size: read }
}

/// What becomes of text that was decoded from `read` bytes: `primary` is the
/// UTF-8 decoding, and `fallback` the legacy single-byte decoding, which
/// counts where the first had errors.
pub open spec fn decoded_status(
    path: Seq<char>,
    read: u64,
    primary: (Seq<char>, bool),
    fallback: Seq<char>,
    remove_comments: bool,
) -> StatusView {
    if !primary.1 {
        StatusView::Included {
            path,
            content: final_content(primary.0, path, read, remove_comments),
            size: read,
        }
    } else if too_noisy(fallback) {
        StatusView::Omitted { path, reason: noisy_reason(fallback), size: read }
    } else {
        StatusView::Included {
            path,
            content: final_content(fallback, path, read, remove_comments),
            size: read,
        }
    }
}

/// What becomes of a file of `size` bytes by its metadata, of which `bytes`
/// were read.
pub open spec fn extracted(
    path: Seq<char>,
    size: u64,
    bytes: Seq<u8>,
    config: AppConfig,
) -> StatusView {
    let limit = megabytes_to_bytes(config.max_file_mb);
    if size > limit {
        StatusView::Omitted { path, reason: too_large_reason(size, config.max_file_mb), size }
    } else if size == 0 {
        StatusView::Included { path, content: Seq::empty(), size: 0 }
    } else if bytes.len() > limit {
        StatusView::Omitted {
            path,
            reason: grew_reason(config.max_file_mb),
            size: bytes.len() as u64,
        }
    } else if !mostly_text(sample_of(bytes)) {
        StatusView::Omitted { path, reason: binary_reason(), size: bytes.len() as u64 }
    } else {
        decoded_status(
            path,
            bytes.len() as u64,
            utf8_decode(bytes),
            windows_1252_decode(bytes),
            config.remove_comments,
        )
    }
}

/// Whether a file of `size` bytes by its metadata has to be read at all: not
/// where it is over the per-file limit, and not where it is empty.
pub fn needs_read(size: u64, config: &AppConfig) -> (read: bool)
    ensures
        read == (0 < size <= megabytes_to_bytes(config.max_file_mb)),
{
    size != 0 && size <= bytes_of_megabytes(config.max_file_mb)
}

/// Number of bytes to ask for when reading a file: one more than the
/// per-file limit, so that a file that outgrew its metadata shows.
pub fn read_limit(config: &AppConfig) -> (limit: u64)
    ensures
        limit == (if megabytes_to_bytes(config.max_file_mb) == u64::MAX {
            u64::MAX
        } else {
            (megabytes_to_bytes(config.max_file_mb) + 1) as u64
        }),
{
    bytes_of_megabytes(config.max_file_mb).saturating_add(1)
}

/// Classifies one file. `size` is the size that its metadata gave, and
/// `bytes` what was read of it: at most `read_limit(config)` bytes, and
/// nothing where `needs_read` said so.
pub fn process_file(path: String, size: u64, bytes: &[u8], config: &AppConfig) -> (status:
    FileStatus)
    requires
        bytes@.len() <= decodable_len(),
    ensures
        status@ == extracted(path@, size, bytes@, *config),
        size > megabytes_to_bytes(config.max_file_mb) ==> status is Omitted,
        size == 0 ==> status is Included,
{
    let limit = bytes_of_megabytes(config.max_file_mb);
    if size > limit {
        let mut reason = String::from_str("Size ");
        push_decimal(&mut reason, (size / MIB) as u128);
        reason.append(" MB exceeds limit of ");
        push_decimal(&mut reason, config.max_file_mb as u128);
        reason.append(" MB");
        return FileStatus::Omitted { path, reason, size };
    }
    if size == 0 {
        return FileStatus::Included { path, content: String::new(), size: 0 };
    }
    let read = bytes.len() as u64;
    if read > limit {
        let mut reason = String::from_str("File content exceeded limit of ");
        push_decimal(&mut reason, config.max_file_mb as u128);
        reason.append(" MB (detected during read)");
        return FileStatus::Omitted { path, reason, size: read };
    }
    let sample = if bytes.len() > SAMPLE_SIZE {
        slice_subrange(bytes, 0, SAMPLE_SIZE)
    } else {
        bytes
    };
    assert(sample@ =~= sample_of(bytes@));
    if !is_mostly_text(sample) {
        let reason = String::from_str("Binary detected");
        return FileStatus::Omitted { path, reason, size: read };
    }
    let (primary, had_errors) = decode_utf8_lossy(bytes);
    if !had_errors {
        return include_text(path, primary, read, config);
    }
    let fallback = decode_windows_1252(bytes);
    match fallback_rejection(fallback.as_str()) {
        Some(reason) => FileStatus::Omitted { path, reason, size: read },
        None => include_text(path, fallback, read, config),
    }
}

/// Where reading a file failed.
#[derive(Debug, Clone, Copy, PartialEq, Eq, Structural)]
pub enum ReadFailure {
    /// The metadata could not be read.
    Metadata,
    /// The file could not be opened.
    Open,
    /// The content could not be read.
    Read,
}

/// The reason given for a file that could not be read; `cause` is what the
/// system said.
pub open spec fn failure_reason(failure: ReadFailure, cause: Seq<char>) -> Seq<char> {
    match failure {
        ReadFailure::Metadata => "Failed to read metadata: "@ + cause,
        ReadFailure::Open => "Failed to open file: "@ + cause,
        ReadFailure::Read => "Failed to read file: "@ + cause,
    }
}

/// The result for a file that could not be read: it is left out, with the
/// size that its metadata gave, or 0 where there is no metadata.
pub fn unreadable(path: String, failure: ReadFailure, cause: &str, size: u64) -> (status:
    FileStatus)
    ensures
        status@ == (StatusView::Omitted {
            path: path@,
            reason: failure_reason(failure, cause@),
            size: if failure == ReadFailure::Metadata {
                0
            } else {
                size
            },
        }),
{
    match failure {
        ReadFailure::Metadata => FileStatus::Omitted {
            path,
            reason: String::from_str("Failed to read metadata: ").concat(cause),
            size: 0,
        },
        ReadFailure::Open => FileStatus::Omitted {
            path,
            reason: String::from_str("Failed to open file: ").concat(cause),
            size,
        },
        ReadFailure::Read => FileStatus::Omitted {
            path,
            reason: String::from_str("Failed to read file: ").concat(cause),
            size,
        },
    }
}

/// Per-file budget: a file whose size is over the per-file limit is
/// omitted, whatever was read of it and whatever else the configuration
/// says, and so is one of which more than the limit was read.
pub proof fn lemma_over_limit_is_omitted(
    path: Seq<char>,
    size: u64,
    bytes: Seq<u8>,
    config: AppConfig,
)
    requires
        size > megabytes_to_bytes(config.max_file_mb) || (size > 0 && bytes.len()
            > megabytes_to_bytes(config.max_file_mb)),
    ensures
        extracted(path, size, bytes, config) is Omitted,
{
}

/// An included file carries the number of bytes that were read of it, or
/// 0 where it is empty by its metadata, and neither its size on disk nor
/// what was read of it is over the per-file limit. This holds of any
/// bytes, however many.
pub proof fn lemma_included_within_limit(
    path: Seq<char>,
    size: u64,
    bytes: Seq<u8>,
    config: AppConfig,
)
    ensures
        match extracted(path, size, bytes, config) {
            StatusView::Included { size: read, .. } => {
                &&& size <= megabytes_to_bytes(config.max_file_mb)
                &&& read <= megabytes_to_bytes(config.max_file_mb)
                &&& size > 0 ==> read == bytes.len()
                &&& size == 0 ==> read == 0
            },
            StatusView::Omitted { .. } => true,
        },
{
}

/// Binary detection: a file that is not empty by its metadata and whose
/// leading sample holds a zero byte is omitted; where it is within the
/// per-file limit, the reason is that it is binary.
pub proof fn lemma_zero_byte_is_binary(
    path: Seq<char>,
    size: u64,
    bytes: Seq<u8>,
    config: AppConfig,
)
    requires
        size > 0,
        sample_of(bytes).contains(0u8),
    ensures
        extracted(path, size, bytes, config) is Omitted,
        size <= megabytes_to_bytes(config.max_file_mb) && bytes.len() <= megabytes_to_bytes(
            config.max_file_mb,
        ) ==> extracted(path, size, bytes, config) == (StatusView::Omitted {
            path,
            reason: binary_reason(),
            size: bytes.len() as u64,
        }),
{
    assert(sample_of(bytes).len() > 0);
}

} // verus!
