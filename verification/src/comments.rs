//! Comment stripping, dispatched by file extension.
//!
//! Each style is one regular expression that matches either a quoted string
//! literal or a comment. Only the matches that are comments are removed, so
//! what looks like a comment inside a string literal stays.

use crate::matcher::{find_matches, regex_matches, span_views, spans_fit, MatchSpan};
use crate::text::{lowercase, str_eq, string_from_utf8, to_lowercase};
use vstd::prelude::*;
use vstd::string::StringSliceAdditionalSpecFns;
use vstd::utf8::{decode_utf8, encode_utf8, is_char_boundary, valid_utf8};

verus! {

/// How a language writes its comments.
#[derive(Debug, Clone, Copy, PartialEq, Eq, Structural)]
pub enum CommentStyle {
    /// `/* ... */` and `// ...`.
    CLike,
    /// `# ...`.
    Hash,
    /// `-- ...`.
    Dash,
    /// `<!-- ... -->`.
    Xml,
    /// No comments are recognised.
    Plain,
}

/// The style for a lower-case extension.
pub open spec fn style_of(ext: Seq<char>) -> CommentStyle {
    if ext == "rs"@ || ext == "c"@ || ext == "cpp"@ || ext == "h"@ || ext == "hpp"@ || ext
        == "js"@ || ext == "ts"@ || ext == "java"@ || ext == "go"@ || ext == "kt"@ || ext
        == "swift"@ || ext == "css"@ || ext == "cs"@ || ext == "php"@ {
        CommentStyle::CLike
    } else if ext == "py"@ || ext == "sh"@ || ext == "rb"@ || ext == "yaml"@ || ext == "yml"@
        || ext == "toml"@ || ext == "dockerfile"@ || ext == "pl"@ || ext == "ps1"@ {
        CommentStyle::Hash
    } else if ext == "sql"@ || ext == "lua"@ || ext == "hs"@ {
        CommentStyle::Dash
    } else if ext == "html"@ || ext == "xml"@ || ext == "vue"@ || ext == "svelte"@ {
        CommentStyle::Xml
    } else {
        CommentStyle::Plain
    }
}

/// The style for a lower-case extension.
pub fn style_for(e: &str) -> (style: CommentStyle)
    ensures
        style == style_of(e@),
{
    if str_eq(e, "rs") || str_eq(e, "c") || str_eq(e, "cpp") || str_eq(e, "h") || str_eq(e, "hpp")
        || str_eq(e, "js") || str_eq(e, "ts") || str_eq(e, "java") || str_eq(e, "go") || str_eq(
        e,
        "kt",
    ) || str_eq(e, "swift") || str_eq(e, "css") || str_eq(e, "cs") || str_eq(e, "php") {
        CommentStyle::CLike
    } else if str_eq(e, "py") || str_eq(e, "sh") || str_eq(e, "rb") || str_eq(e, "yaml") || str_eq(
        e,
        "yml",
    ) || str_eq(e, "toml") || str_eq(e, "dockerfile") || str_eq(e, "pl") || str_eq(e, "ps1") {
        CommentStyle::Hash
    } else if str_eq(e, "sql") || str_eq(e, "lua") || str_eq(e, "hs") {
        CommentStyle::Dash
    } else if str_eq(e, "html") || str_eq(e, "xml") || str_eq(e, "vue") || str_eq(e, "svelte") {
        CommentStyle::Xml
    } else {
        CommentStyle::Plain
    }
}

/// The style for a file extension, whatever its case.
pub fn comment_style(ext: &str) -> (style: CommentStyle)
    ensures
        style == style_of(lowercase(ext@)),
{
    let lower = to_lowercase(ext);
    style_for(lower.as_str())
}

impl CommentStyle {
    /// The expression that finds the style's string literals and comments.
    /// Groups 1 and 2 belong to the string literals; the comments are the
    /// groups from 3 on, or the whole match for markup.
    pub open spec fn spec_pattern(self) -> Seq<char> {
        match self {
            CommentStyle::CLike => r#"(?m)"(\\.|[^"\\])*"|'(\\.|[^'\\])*'|(/\*[\s\S]*?\*/)|(//.*)$"#@,
            CommentStyle::Hash => r#"(?m)"(\\.|[^"\\])*"|'(\\.|[^'\\])*'|(#.*)$"#@,
            CommentStyle::Dash => r#"(?m)"(\\.|[^"\\])*"|'(\\.|[^'\\])*'|(--.*)$"#@,
            CommentStyle::Xml => r#"(?s)<!--.*?-->"#@,
            CommentStyle::Plain => ""@,
        }
    }

    /// The expression that finds the style's string literals and comments.
    pub fn pattern(self) -> (p: &'static str)
        ensures
            p@ == self.spec_pattern(),
    {
        match self {
            CommentStyle::CLike => r#"(?m)"(\\.|[^"\\])*"|'(\\.|[^'\\])*'|(/\*[\s\S]*?\*/)|(//.*)$"#,
            CommentStyle::Hash => r#"(?m)"(\\.|[^"\\])*"|'(\\.|[^'\\])*'|(#.*)$"#,
            CommentStyle::Dash => r#"(?m)"(\\.|[^"\\])*"|'(\\.|[^'\\])*'|(--.*)$"#,
            CommentStyle::Xml => r#"(?s)<!--.*?-->"#,
            CommentStyle::Plain => "",
        }
    }

    /// Whether a match in which the given groups took part is a comment.
    pub open spec fn is_comment(self, groups: Seq<bool>) -> bool {
        match self {
            CommentStyle::CLike => (groups.len() > 3 && groups[3]) || (groups.len() > 4
                && groups[4]),
            CommentStyle::Hash | CommentStyle::Dash => groups.len() > 3 && groups[3],
            CommentStyle::Xml => true,
            CommentStyle::Plain => false,
        }
    }

    /// Whether a match in which the given groups took part is a comment.
    pub fn comment_match(self, groups: &Vec<bool>) -> (comment: bool)
        ensures
            comment == self.is_comment(groups@),
    {
        match self {
            CommentStyle::CLike => (groups.len() > 3 && groups[3]) || (groups.len() > 4
                && groups[4]),
            CommentStyle::Hash | CommentStyle::Dash => groups.len() > 3 && groups[3],
            CommentStyle::Xml => true,
            CommentStyle::Plain => false,
        }
    }
}

/// Whether the byte at offset `i` lies inside a match that is a comment.
pub open spec fn in_comment(style: CommentStyle, spans: Seq<(int, int, Seq<bool>)>, i: int) -> bool
    decreases spans.len(),
{
    spans.len() > 0 && (in_comment(style, spans.drop_last(), i) || (style.is_comment(
        spans.last().2,
    ) && spans.last().0 <= i < spans.last().1))
}

/// The first `n` bytes of `bytes` without those that lie inside a comment.
pub open spec fn kept_bytes(
    bytes: Seq<u8>,
    style: CommentStyle,
    spans: Seq<(int, int, Seq<bool>)>,
    n: nat,
) -> Seq<u8>
    decreases n,
{
    if n == 0 {
        Seq::empty()
    } else {
        let before = kept_bytes(bytes, style, spans, (n - 1) as nat);
        if in_comment(style, spans, n - 1) {
            before
        } else {
            before.push(bytes[n - 1])
        }
    }
}

/// `content` without the bytes of the matches that are comments.
pub open spec fn without_comments(
    content: Seq<char>,
    style: CommentStyle,
    spans: Seq<(int, int, Seq<bool>)>,
) -> Seq<char> {
    let bytes = encode_utf8(content);
    decode_utf8(kept_bytes(bytes, style, spans, bytes.len()))
}

proof fn lemma_kept_alike(
    bytes: Seq<u8>,
    style: CommentStyle,
    first: Seq<(int, int, Seq<bool>)>,
    second: Seq<(int, int, Seq<bool>)>,
    n: nat,
)
    requires
        forall|i: int| 0 <= i < n ==> in_comment(style, first, i) == in_comment(style, second, i),
    ensures
        kept_bytes(bytes, style, first, n) == kept_bytes(bytes, style, second, n),
    decreases n,
{
    if n > 0 {
        lemma_kept_alike(bytes, style, first, second, (n - 1) as nat);
    }
}

proof fn lemma_kept_stretch(
    bytes: Seq<u8>,
    style: CommentStyle,
    spans: Seq<(int, int, Seq<bool>)>,
    from: nat,
    to: nat,
)
    requires
        from <= to <= bytes.len(),
    ensures
        (forall|i: int| from <= i < to ==> !in_comment(style, spans, i)) ==> kept_bytes(
            bytes,
            style,
            spans,
            to,
        ) == kept_bytes(bytes, style, spans, from) + bytes.subrange(from as int, to as int),
        (forall|i: int| from <= i < to ==> in_comment(style, spans, i)) ==> kept_bytes(
            bytes,
            style,
            spans,
            to,
        ) == kept_bytes(bytes, style, spans, from),
    decreases to - from,
{
    if from == to {
        assert(kept_bytes(bytes, style, spans, from) + bytes.subrange(from as int, to as int)
            =~= kept_bytes(bytes, style, spans, from));
    } else {
        lemma_kept_stretch(bytes, style, spans, from, (to - 1) as nat);
        if forall|i: int| from <= i < to ==> !in_comment(style, spans, i) {
            assert(bytes.subrange(from as int, to as int) =~= bytes.subrange(
                from as int,
                to - 1,
            ).push(bytes[to - 1]));
            assert(kept_bytes(bytes, style, spans, to) =~= kept_bytes(bytes, style, spans, from)
                + bytes.subrange(from as int, to as int));
        }
    }
}

proof fn lemma_behind_all(style: CommentStyle, spans: Seq<(int, int, Seq<bool>)>, i: int)
    requires
        forall|k: int| 0 <= k < spans.len() ==> (#[trigger] spans[k]).1 <= i,
    ensures
        !in_comment(style, spans, i),
    decreases spans.len(),
{
    if spans.len() > 0 {
        let front = spans.drop_last();
        assert forall|k: int| 0 <= k < front.len() implies (#[trigger] front[k]).1 <= i by {
            assert(front[k] == spans[k]);
        }
        lemma_behind_all(style, front, i);
        assert(spans.last() == spans[spans.len() - 1]);
    }
}

proof fn lemma_stretch_is_text(bytes: Seq<u8>, from: int, to: int)
    requires
        valid_utf8(bytes),
        0 <= from <= to <= bytes.len(),
        is_char_boundary(bytes, from),
        is_char_boundary(bytes, to),
    ensures
        valid_utf8(bytes.subrange(from, to)),
{
    vstd::utf8::valid_utf8_split(bytes, from);
    let rest = bytes.subrange(from, bytes.len() as int);
    if to == bytes.len() {
        assert(bytes.subrange(from, to) =~= rest);
    } else {
        vstd::utf8::is_char_boundary_iff_not_is_continuation_byte(bytes, to);
        assert(rest[to - from] == bytes[to]);
        vstd::utf8::is_char_boundary_iff_not_is_continuation_byte(rest, to - from);
        vstd::utf8::valid_utf8_split(rest, to - from);
        assert(rest.subrange(0, to - from) =~= bytes.subrange(from, to));
    }
}

/// What is left of a text, when matches that fit it are cut out, is text:
/// up to any character boundary behind the first `m` matches, the bytes
/// kept from those matches are valid UTF-8.
proof fn lemma_kept_is_text(
    bytes: Seq<u8>,
    style: CommentStyle,
    spans: Seq<(int, int, Seq<bool>)>,
    m: nat,
    n: nat,
)
    requires
        valid_utf8(bytes),
        spans_fit(bytes, spans),
        m <= spans.len(),
        n <= bytes.len(),
        is_char_boundary(bytes, n as int),
        m > 0 ==> spans[m - 1].1 <= n,
    ensures
        valid_utf8(kept_bytes(bytes, style, spans.take(m as int), n)),
    decreases m,
{
    let now = spans.take(m as int);
    if m == 0 {
        assert forall|i: int| 0 <= i < n implies !in_comment(style, now, i) by {}
        lemma_kept_stretch(bytes, style, now, 0, n);
        assert(kept_bytes(bytes, style, now, 0) + bytes.subrange(0, n as int) =~= bytes.subrange(
            0,
            n as int,
        ));
        vstd::utf8::valid_utf8_split(bytes, n as int);
    } else {
        let before = spans.take(m - 1);
        let span = spans[m - 1];
        assert(now.drop_last() =~= before);
        assert(now.last() == span);
        if m > 1 {
            assert(spans[m - 2].1 <= span.0);
        }
        if !style.is_comment(span.2) {
            lemma_kept_alike(bytes, style, now, before, n);
            lemma_kept_is_text(bytes, style, spans, (m - 1) as nat, n);
        } else {
            let s = span.0 as nat;
            let e = span.1 as nat;
            lemma_kept_is_text(bytes, style, spans, (m - 1) as nat, s);
            lemma_kept_alike(bytes, style, now, before, s);
            lemma_kept_stretch(bytes, style, now, s, e);
            assert forall|i: int| e <= i < n implies !in_comment(style, now, i) by {
                assert forall|k: int| 0 <= k < before.len() implies (#[trigger] before[k]).1
                    <= i by {
                    assert(before[k] == spans[k]);
                    assert(spans[k].1 <= span.0);
                }
                lemma_behind_all(style, before, i);
            }
            lemma_kept_stretch(bytes, style, now, e, n);
            lemma_stretch_is_text(bytes, e as int, n as int);
            vstd::utf8::valid_utf8_concat(
                kept_bytes(bytes, style, before, s),
                bytes.subrange(e as int, n as int),
            );
        }
    }
}

/// Removes from `content` the matches that are comments in `style`.
/// `spans` are the matches of the style's expression in `content`.
pub fn remove_comments(content: &str, style: CommentStyle, spans: &Vec<MatchSpan>) -> (out: String)
    requires
        spans_fit(encode_utf8(content@), span_views(spans@)),
    ensures
        out@ == without_comments(content@, style, span_views(spans@)),
{
    let bytes = content.as_bytes();
    let n = bytes.len();
    let ghost views = span_views(spans@);
    // Mark, byte by byte, what no comment covers.
    let mut keep: Vec<bool> = Vec::new();
    let mut i: usize = 0;
    while i < n
        invariant
            i <= n,
            keep@.len() == i,
            forall|j: int| 0 <= j < i ==> keep@[j],
        decreases n - i,
    {
        keep.push(true);
        i += 1;
    }
    let mut k: usize = 0;
    assert(views.take(0).len() == 0);
    while k < spans.len()
        invariant
            k <= spans@.len(),
            views == span_views(spans@),
            keep@.len() == n,
            forall|j: int| 0 <= j < n ==> keep@[j] == !in_comment(style, views.take(k as int), j),
        decreases spans@.len() - k,
    {
        let span = &spans[k];
        let ghost before = views.take(k as int);
        let ghost after = views.take(k + 1);
        proof {
            assert(after.drop_last() =~= before);
            assert(after.last() == views[k as int]);
        }
        if style.comment_match(&span.groups) {
            let end = if span.end < n {
                span.end
            } else {
                n
            };
            let mut j: usize = span.start;
            while j < end
                invariant
                    span.start <= j,
                    j <= end || j == span.start,
                    end <= n,
                    keep@.len() == n,
                    forall|m: int|
                        0 <= m < n ==> keep@[m] == (!in_comment(style, before, m) && !(span.start
                            <= m < j)),
                decreases end - j,
            {
                keep.set(j, false);
                j += 1;
            }
        }
        proof {
            assert(views[k as int] == (span.start as int, span.end as int, span.groups@));
            assert forall|m: int| 0 <= m < n implies keep@[m] == !in_comment(style, after, m) by {
                assert(in_comment(style, after, m) == (in_comment(style, before, m) || (
                style.is_comment(span.groups@) && span.start <= m < span.end)));
            }
        }
        k += 1;
    }
    assert(views.take(spans@.len() as int) =~= views);
    let mut kept: Vec<u8> = Vec::new();
    let mut i: usize = 0;
    while i < n
        invariant
            i <= n == bytes@.len() == keep@.len(),
            forall|j: int| 0 <= j < n ==> keep@[j] == !in_comment(style, views, j),
            kept@ == kept_bytes(bytes@, style, views, i as nat),
        decreases n - i,
    {
        if keep[i] {
            kept.push(bytes[i]);
        }
        i += 1;
    }
    proof {
        vstd::utf8::encode_utf8_valid_utf8(content@);
        vstd::utf8::is_char_boundary_start_end_of_seq(bytes@);
        if views.len() > 0 {
            assert(views[views.len() - 1].1 <= n);
        }
        lemma_kept_is_text(bytes@, style, views, views.len(), n as nat);
    }
    match string_from_utf8(kept) {
        Some(text) => text,
        None => vstd::pervasive::unreached(),
    }
}

/// Comment stripping never leaves broken text behind: what is kept of the
/// bytes of a text, when matches that fit it are cut out, is valid UTF-8.
pub proof fn lemma_stripped_is_text(
    content: Seq<char>,
    style: CommentStyle,
    spans: Seq<(int, int, Seq<bool>)>,
)
    requires
        spans_fit(encode_utf8(content), spans),
    ensures
        valid_utf8(kept_bytes(encode_utf8(content), style, spans, encode_utf8(content).len())),
{
    let bytes = encode_utf8(content);
    vstd::utf8::encode_utf8_valid_utf8(content);
    vstd::utf8::is_char_boundary_start_end_of_seq(bytes);
    if spans.len() > 0 {
        assert(spans[spans.len() - 1].1 <= bytes.len());
    }
    lemma_kept_is_text(bytes, style, spans, spans.len(), bytes.len());
    assert(spans.take(spans.len() as int) =~= spans);
}

/// `content` as it is after comment stripping for a file with extension
/// `ext`.
pub open spec fn stripped(content: Seq<char>, ext: Seq<char>) -> Seq<char> {
    let style = style_of(lowercase(ext));
    if style == CommentStyle::Plain {
        content
    } else {
        match regex_matches(style.spec_pattern(), content) {
            Some(spans) => without_comments(content, style, spans),
            None => content,
        }
    }
}

/// Removes the comments from `content`, going by the file extension `ext`.
/// Content of a file type that is not known stays as it is.
pub fn strip_comments(content: &str, ext: &str) -> (out: String)
    ensures
        out@ == stripped(content@, ext@),
{
    let style = comment_style(ext);
    match style {
        CommentStyle::Plain => content.to_owned(),
        _ => match find_matches(style.pattern(), content) {
            Some(spans) => remove_comments(content, style, &spans),
            None => content.to_owned(),
        },
    }
}

} // verus!
