//! Character-level helpers shared by the rest of the crate.

use vstd::prelude::*;
use vstd::std_specs::iter::IteratorSpec;
use vstd::string::{StringExecFns, StringSliceAdditionalSpecFns};
use vstd::utf8::{decode_utf8, encode_utf8, valid_utf8};

verus! {

/// Appends one character to a string.
///
/// Trusted: `String::push`, which appends the given character to the end of
/// the string.
#[verifier::external_body]
pub(crate) fn push_char(s: &mut String, c: char)
    ensures
        final(s)@ == old(s)@.push(c),
{
    s.push(c)
}

/// A string never has more characters than its UTF-8 encoding has bytes.
pub proof fn lemma_chars_within_bytes(chars: Seq<char>)
    ensures
        chars.len() <= encode_utf8(chars).len(),
    decreases chars.len(),
{
    if chars.len() > 0 {
        lemma_chars_within_bytes(chars.drop_first());
    }
}

/// Learns that the number of characters of `s` fits in a `usize`.
pub(crate) fn note_char_count_fits(s: &str)
    ensures
        s@.len() <= usize::MAX,
{
    let bytes = s.as_bytes();
    let n = bytes.len();
    proof {
        lemma_chars_within_bytes(s@);
    }
}

/// Whether two strings hold the same characters.
pub fn str_eq(a: &str, b: &str) -> (eq: bool)
    ensures
        eq == (a@ == b@),
{
    broadcast use vstd::utf8::encode_utf8_decode_utf8;

    let x = a.as_bytes();
    let y = b.as_bytes();
    if x.len() != y.len() {
        return false;
    }
    let mut i: usize = 0;
    while i < x.len()
        invariant
            i <= x@.len() == y@.len(),
            x@ == encode_utf8(a@),
            y@ == encode_utf8(b@),
            x@.take(i as int) == y@.take(i as int),
        decreases x@.len() - i,
    {
        if x[i] != y[i] {
            return false;
        }
        assert(x@.take(i + 1) =~= x@.take(i as int).push(x@[i as int]));
        assert(y@.take(i + 1) =~= y@.take(i as int).push(y@[i as int]));
        i += 1;
    }
    proof {
        assert(x@.take(x@.len() as int) =~= x@);
        assert(y@.take(y@.len() as int) =~= y@);
        assert(decode_utf8(encode_utf8(a@)) == a@);
        assert(decode_utf8(encode_utf8(b@)) == b@);
    }
    true
}

/// The lower-case form of a string under Unicode's case mapping, as
/// `str::to_lowercase` gives it.
pub uninterp spec fn lowercase(s: Seq<char>) -> Seq<char>;

/// The lower-case form of a string.
///
/// Trusted: `str::to_lowercase`, which maps each character by Unicode's
/// lower-case mapping; the result depends on the characters alone.
#[verifier::external_body]
pub(crate) fn to_lowercase(s: &str) -> (out: String)
    ensures
        out@ == lowercase(s@),
{
    s.to_lowercase()
}

/// Reads a byte vector as text.
///
/// Trusted: `String::from_utf8`, which gives the string made of the same
/// bytes where they are valid UTF-8, and an error where they are not.
#[verifier::external_body]
pub(crate) fn string_from_utf8(bytes: Vec<u8>) -> (text: Option<String>)
    ensures
        text is Some <==> valid_utf8(bytes@),
        text is Some ==> text->0@ == decode_utf8(bytes@),
{
    String::from_utf8(bytes).ok()
}

/// The given parts, one after the other.
pub open spec fn joined(parts: Seq<Seq<char>>) -> Seq<char>
    decreases parts.len(),
{
    if parts.len() == 0 {
        Seq::empty()
    } else {
        joined(parts.drop_last()) + parts.last()
    }
}

/// Whether `s` begins with `prefix`.
pub open spec fn has_prefix(s: Seq<char>, prefix: Seq<char>) -> bool {
    prefix.len() <= s.len() && s.subrange(0, prefix.len() as int) == prefix
}

/// Whether `s` ends with `suffix`.
pub open spec fn has_suffix(s: Seq<char>, suffix: Seq<char>) -> bool {
    suffix.len() <= s.len() && s.subrange(s.len() - suffix.len(), s.len() as int) == suffix
}

/// Whether `s[at..]` begins with `part`.
pub fn matches_at(s: &Vec<char>, at: usize, part: &Vec<char>) -> (found: bool)
    requires
        at <= s@.len(),
    ensures
        found == (at + part@.len() <= s@.len() && s@.subrange(at as int, at + part@.len())
            == part@),
{
    let n = s.len();
    if part.len() > n - at {
        return false;
    }
    let mut i: usize = 0;
    while i < part.len()
        invariant
            i <= part@.len(),
            at + part@.len() <= s@.len() == n,
            s@.subrange(at as int, at + i) == part@.take(i as int),
        decreases part@.len() - i,
    {
        if s[at + i] != part[i] {
            assert(s@.subrange(at as int, at + part@.len())[i as int] == s@[at + i]);
            return false;
        }
        assert(s@.subrange(at as int, at + i + 1) =~= s@.subrange(at as int, at + i).push(
            s@[at + i],
        ));
        assert(part@.take(i + 1) =~= part@.take(i as int).push(part@[i as int]));
        i += 1;
    }
    assert(part@.take(part@.len() as int) =~= part@);
    true
}

/// Whether `s` begins with `prefix`.
pub fn starts_with(s: &Vec<char>, prefix: &str) -> (found: bool)
    ensures
        found == has_prefix(s@, prefix@),
{
    let part = chars_of(prefix);
    matches_at(s, 0, &part)
}

/// Whether `s` ends with `suffix`.
pub fn ends_with(s: &Vec<char>, suffix: &str) -> (found: bool)
    ensures
        found == has_suffix(s@, suffix@),
{
    let part = chars_of(suffix);
    if part.len() > s.len() {
        return false;
    }
    matches_at(s, s.len() - part.len(), &part)
}

/// The characters of a string, in order.
pub fn chars_of(s: &str) -> (out: Vec<char>)
    ensures
        out@ == s@,
{
    broadcast use vstd::string::group_string_axioms;

    let mut out: Vec<char> = Vec::new();
    for c in it: s.chars()
        invariant
            it.seq() == s@,
            out@ == it.seq().take(it.index()),
    {
        assert(it.seq().take(it.index() + 1) =~= it.seq().take(it.index()).push(c));
        out.push(c);
    }
    assert(s@.take(s@.len() as int) =~= s@);
    out
}

/// Appends the characters `chars[from..to]` to `out`.
pub fn push_chars(out: &mut String, chars: &Vec<char>, from: usize, to: usize)
    requires
        from <= to <= chars@.len(),
    ensures
        final(out)@ == old(out)@ + chars@.subrange(from as int, to as int),
{
    let mut i: usize = from;
    while i < to
        invariant
            from <= i <= to <= chars@.len(),
            out@ == old(out)@ + chars@.subrange(from as int, i as int),
        decreases to - i,
    {
        assert(chars@.subrange(from as int, i + 1) =~= chars@.subrange(from as int, i as int).push(
            chars@[i as int],
        ));
        push_char(out, chars[i]);
        i += 1;
    }
}

/// The string made of the characters `chars[from..to]`.
pub fn substring_of(chars: &Vec<char>, from: usize, to: usize) -> (out: String)
    requires
        from <= to <= chars@.len(),
    ensures
        out@ == chars@.subrange(from as int, to as int),
{
    let mut out = String::new();
    push_chars(&mut out, chars, from, to);
    assert(Seq::<char>::empty() + chars@.subrange(from as int, to as int) =~= chars@.subrange(
        from as int,
        to as int,
    ));
    out
}

/// The string made of the given characters.
pub fn string_of(chars: &Vec<char>) -> (out: String)
    ensures
        out@ == chars@,
{
    assert(chars@.subrange(0, chars@.len() as int) =~= chars@);
    substring_of(chars, 0, chars.len())
}

/// The views of a sequence of strings, in order.
pub open spec fn views(v: Seq<String>) -> Seq<Seq<char>> {
    Seq::new(v.len(), |i: int| v[i]@)
}

/// The views of a sequence of string slices, in order.
pub open spec fn slice_views(v: Seq<&str>) -> Seq<Seq<char>> {
    Seq::new(v.len(), |i: int| v[i]@)
}

/// Owned copies of the given string slices, in order.
pub fn strings_of(items: Vec<&str>) -> (out: Vec<String>)
    ensures
        views(out@) == slice_views(items@),
{
    let mut out: Vec<String> = Vec::new();
    let mut i: usize = 0;
    while i < items.len()
        invariant
            i <= items@.len(),
            out@.len() == i,
            forall|k: int| 0 <= k < i ==> out@[k]@ == items@[k]@,
        decreases items@.len() - i,
    {
        out.push(String::from_str(items[i]));
        i += 1;
    }
    assert(views(out@) =~= slice_views(items@));
    out
}

/// Appends owned copies of `extra` to `list`, keeping the order.
pub fn extend_strings(list: &mut Vec<String>, extra: &Vec<String>)
    ensures
        views(final(list)@) == views(old(list)@) + views(extra@),
{
    let mut i: usize = 0;
    while i < extra.len()
        invariant
            i <= extra@.len(),
            views(list@) == views(old(list)@) + views(extra@).take(i as int),
        decreases extra@.len() - i,
    {
        let ghost before = list@;
        list.push(extra[i].clone());
        assert(views(list@) =~= views(before).push(extra@[i as int]@));
        assert(views(extra@).take(i + 1) =~= views(extra@).take(i as int).push(extra@[i as int]@));
        i += 1;
    }
    assert(views(extra@).take(extra@.len() as int) =~= views(extra@));
}

/// The decimal digit `d` as a character.
pub open spec fn digit_char(d: nat) -> char
    recommends
        d < 10,
{
    (48 + d) as char
}

/// The decimal notation of `n`, without leading zeros.
pub open spec fn decimal(n: nat) -> Seq<char>
    decreases n,
{
    if n < 10 {
        seq![digit_char(n)]
    } else {
        decimal(n / 10).push(digit_char(n % 10))
    }
}

/// Appends the decimal notation of `n` to `out`.
pub fn push_decimal(out: &mut String, n: u128)
    ensures
        final(out)@ == old(out)@ + decimal(n as nat),
{
    let mut digits: Vec<char> = Vec::new();
    let mut rest: u128 = n;
    // `digits` holds the low-order digits of `n`, least significant first.
    while rest >= 10
        invariant
            forall|tail: Seq<char>| #[trigger]
                (decimal(n as nat) + tail) == decimal(rest as nat) + digits@.reverse() + tail,
        decreases rest,
    {
        let d: u8 = (rest % 10) as u8;
        let c: char = (48u8 + d) as char;
        let ghost before = digits@;
        digits.push(c);
        proof {
            assert(c == digit_char((rest % 10) as nat));
            assert(digits@.reverse() =~= seq![c] + before.reverse());
            assert forall|tail: Seq<char>| #[trigger]
                (decimal(n as nat) + tail) == decimal((rest / 10) as nat) + digits@.reverse()
                    + tail by {
                assert(decimal(rest as nat) + before.reverse() + tail =~= decimal(
                    (rest / 10) as nat,
                ) + digits@.reverse() + tail);
            }
        }
        rest = rest / 10;
    }
    let first: char = (48u8 + (rest as u8)) as char;
    push_char(out, first);
    let mut i: usize = digits.len();
    proof {
        assert(decimal(n as nat) + Seq::<char>::empty() =~= decimal(n as nat));
        assert(decimal(rest as nat) =~= seq![first]);
    }
    while i > 0
        invariant
            i <= digits@.len(),
            old(out)@ + decimal(n as nat) == out@ + digits@.reverse().subrange(
                digits@.len() - i,
                digits@.len() as int,
            ),
        decreases i,
    {
        i -= 1;
        proof {
            let r = digits@.reverse();
            let from = digits@.len() - (i + 1);
            assert(r.subrange(from, r.len() as int) =~= seq![r[from]] + r.subrange(
                from + 1,
                r.len() as int,
            ));
            assert(r[from] == digits@[i as int]);
            assert(out@ + r.subrange(from, r.len() as int) =~= out@.push(digits@[i as int])
                + r.subrange(from + 1, r.len() as int));
        }
        push_char(out, digits[i]);
    }
    assert(out@ + digits@.reverse().subrange(digits@.len() as int, digits@.len() as int) =~= out@);
}

/// `100 * num / den`, rounded to the nearest whole number, a tie going to
/// the even neighbour.
pub open spec fn rounded_hundredths(num: nat, den: nat) -> nat
    recommends
        den > 0,
{
    let whole = (num * 100) / den;
    let rest = (num * 100) % den;
    if 2 * rest > den || (2 * rest == den && whole % 2 == 1) {
        whole + 1
    } else {
        whole
    }
}

/// A number of hundredths in decimal notation with two places: 1234 is
/// `12.34`.
pub open spec fn fixed2(hundredths: nat) -> Seq<char> {
    decimal(hundredths / 100) + seq![
        '.',
        digit_char((hundredths / 10) % 10),
        digit_char(hundredths % 10),
    ]
}

/// A byte count in MiB, with two decimal places.
pub open spec fn megabytes(size: nat) -> Seq<char> {
    fixed2(rounded_hundredths(size, 1048576))
}

/// Appends `num / den` to `out`, in decimal notation with two places.
pub fn push_fixed2(out: &mut String, num: u128, den: u128)
    requires
        0 < den <= u64::MAX,
        num <= 100 * u64::MAX,
    ensures
        final(out)@ == old(out)@ + fixed2(rounded_hundredths(num as nat, den as nat)),
{
    let scaled: u128 = num * 100;
    let whole: u128 = scaled / den;
    let rest: u128 = scaled % den;
    let hundredths: u128 = if 2 * rest > den || (2 * rest == den && whole % 2 == 1) {
        whole + 1
    } else {
        whole
    };
    push_decimal(out, hundredths / 100);
    push_char(out, '.');
    push_char(out, (48u8 + ((hundredths / 10) % 10) as u8) as char);
    push_char(out, (48u8 + (hundredths % 10) as u8) as char);
    proof {
        let h = rounded_hundredths(num as nat, den as nat);
        assert(h == hundredths);
        assert(out@ =~= old(out)@ + fixed2(h));
    }
}

/// Appends a byte count in MiB, with two decimal places, to `out`.
pub fn push_megabytes(out: &mut String, size: u64)
    ensures
        final(out)@ == old(out)@ + megabytes(size as nat),
{
    push_fixed2(out, size as u128, 1048576);
}

} // verus!
