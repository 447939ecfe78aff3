//! HTML to plain text: tags dropped, the bodies of non-prose elements skipped, comments
//! removed, character references resolved, and whitespace collapsed.
//!
//! Every delimiter searched for is ASCII, so scanning characters finds the same boundaries a
//! byte scan would.

use vstd::prelude::*;
use crate::text::{
    ascii_lower, chars_of, equals_any, find_from, is_ascii_alnum, is_ascii_alphanumeric,
    is_space, is_whitespace, occurs_at, matches_at, push_char, push_str, str_eq, string_of,
    to_ascii_lowercase, utf8_len, utf8_len_of,
};
use crate::evidence::{in_list, trim_end_char, trim_start_char};
use crate::tailoring::joined;
use crate::search::{first_where, lemma_first_where, lemma_first_where_at};

verus! {

broadcast use vstd::seq_lib::group_seq_properties;

/// Tags whose bodies are not prose: scripts, styles, inline SVG and the like.
pub const SKIP_BODY_TAGS: [&'static str; 7] = [
    "script", "style", "noscript", "svg", "template", "iframe", "head",
];

/// Tags that end a line of prose; every other tag sits inside a sentence.
pub const BLOCK_TAGS: [&'static str; 33] = [
    "p", "div", "br", "li", "ul", "ol", "tr", "td", "th", "table", "section", "article",
    "header", "footer", "nav", "aside", "main", "h1", "h2", "h3", "h4", "h5", "h6",
    "blockquote", "pre", "hr", "dl", "dt", "dd", "form", "fieldset", "figure", "figcaption",
];

// ------------------------------------------------------------------------ search

/// The first index at or after `from` where `needle` occurs.
pub open spec fn first_at(hay: Seq<char>, needle: Seq<char>, from: int) -> Option<int>
    decreases hay.len() + 1 - from,
{
    if from < 0 || from > hay.len() {
        None
    } else if occurs_at(hay, needle, from) {
        Some(from)
    } else {
        first_at(hay, needle, from + 1)
    }
}

pub proof fn lemma_first_at_found(hay: Seq<char>, needle: Seq<char>, from: int, at: int)
    requires
        0 <= from <= at,
        occurs_at(hay, needle, at),
        forall|j: int| from <= j < at ==> !occurs_at(hay, needle, j),
    ensures
        first_at(hay, needle, from) == Some(at),
    decreases at - from,
{
    if from < at {
        lemma_first_at_found(hay, needle, from + 1, at);
    }
}

pub proof fn lemma_first_at_absent(hay: Seq<char>, needle: Seq<char>, from: int)
    requires
        0 <= from,
        forall|j: int| from <= j ==> !occurs_at(hay, needle, j),
    ensures
        first_at(hay, needle, from) is None,
    decreases hay.len() + 1 - from,
{
    if from <= hay.len() {
        lemma_first_at_absent(hay, needle, from + 1);
    }
}

pub proof fn lemma_first_at_bounds(hay: Seq<char>, needle: Seq<char>, from: int)
    ensures
        first_at(hay, needle, from) matches Some(at) ==> from <= at && occurs_at(hay, needle, at),
    decreases hay.len() + 1 - from,
{
    if 0 <= from <= hay.len() && !occurs_at(hay, needle, from) {
        lemma_first_at_bounds(hay, needle, from + 1);
    }
}

pub fn find_first(hay: &[char], needle: &[char], from: usize) -> (r: Option<usize>)
    ensures
        match r {
            Some(at) => first_at(hay@, needle@, from as int) == Some(at as int),
            None => first_at(hay@, needle@, from as int) is None,
        },
{
    let r = find_from(hay, needle, from);
    proof {
        match r {
            Some(at) => lemma_first_at_found(hay@, needle@, from as int, at as int),
            None => lemma_first_at_absent(hay@, needle@, from as int),
        }
    }
    r
}

// -------------------------------------------------------------------- references

/// The named and numeric references with a fixed meaning.
pub open spec fn named_entity(name: Seq<char>) -> Seq<char> {
    if name == "amp"@ {
        "&"@
    } else if name == "lt"@ {
        "<"@
    } else if name == "gt"@ {
        ">"@
    } else if name == "quot"@ {
        "\""@
    } else if name == "apos"@ || name == "#39"@ {
        "'"@
    } else if name == "nbsp"@ || name == "#160"@ {
        " "@
    } else if name == "rsquo"@ || name == "#8217"@ {
        "\u{2019}"@
    } else if name == "lsquo"@ || name == "#8216"@ {
        "\u{2018}"@
    } else if name == "ldquo"@ || name == "#8220"@ {
        "\u{201C}"@
    } else if name == "rdquo"@ || name == "#8221"@ {
        "\u{201D}"@
    } else if name == "hellip"@ || name == "#8230"@ {
        "\u{2026}"@
    } else if name == "ndash"@ || name == "#8211"@ {
        "\u{2013}"@
    } else if name == "mdash"@ || name == "#8212"@ {
        "\u{2014}"@
    } else if name == "eacute"@ {
        "\u{e9}"@
    } else if name == "egrave"@ {
        "\u{e8}"@
    } else if name == "agrave"@ {
        "\u{e0}"@
    } else if name == "ccedil"@ {
        "\u{e7}"@
    } else if name == "ocirc"@ {
        "\u{f4}"@
    } else if name == "icirc"@ {
        "\u{ee}"@
    } else if name == "ecirc"@ {
        "\u{ea}"@
    } else if name == "ugrave"@ {
        "\u{f9}"@
    } else {
        ""@
    }
}

pub fn decode_entity(name: &str) -> (r: &'static str)
    ensures
        r@ == named_entity(name@),
{
    if str_eq(name, "amp") {
        "&"
    } else if str_eq(name, "lt") {
        "<"
    } else if str_eq(name, "gt") {
        ">"
    } else if str_eq(name, "quot") {
        "\""
    } else if str_eq(name, "apos") || str_eq(name, "#39") {
        "'"
    } else if str_eq(name, "nbsp") || str_eq(name, "#160") {
        " "
    } else if str_eq(name, "rsquo") || str_eq(name, "#8217") {
        "\u{2019}"
    } else if str_eq(name, "lsquo") || str_eq(name, "#8216") {
        "\u{2018}"
    } else if str_eq(name, "ldquo") || str_eq(name, "#8220") {
        "\u{201C}"
    } else if str_eq(name, "rdquo") || str_eq(name, "#8221") {
        "\u{201D}"
    } else if str_eq(name, "hellip") || str_eq(name, "#8230") {
        "\u{2026}"
    } else if str_eq(name, "ndash") || str_eq(name, "#8211") {
        "\u{2013}"
    } else if str_eq(name, "mdash") || str_eq(name, "#8212") {
        "\u{2014}"
    } else if str_eq(name, "eacute") {
        "\u{e9}"
    } else if str_eq(name, "egrave") {
        "\u{e8}"
    } else if str_eq(name, "agrave") {
        "\u{e0}"
    } else if str_eq(name, "ccedil") {
        "\u{e7}"
    } else if str_eq(name, "ocirc") {
        "\u{f4}"
    } else if str_eq(name, "icirc") {
        "\u{ee}"
    } else if str_eq(name, "ecirc") {
        "\u{ea}"
    } else if str_eq(name, "ugrave") {
        "\u{f9}"
    } else {
        ""
    }
}

/// The value of digit `c` in `radix` (10 or 16), if it is one.
pub open spec fn digit_value(c: char, radix: nat) -> Option<nat> {
    if '0' <= c && c <= '9' {
        Some((c as u32 - 48) as nat)
    } else if radix == 16 && 'a' <= c && c <= 'f' {
        Some((c as u32 - 87) as nat)
    } else if radix == 16 && 'A' <= c && c <= 'F' {
        Some((c as u32 - 55) as nat)
    } else {
        None
    }
}

/// The value of a run of digits, if every character is a digit.
pub open spec fn digits_value(s: Seq<char>, radix: nat) -> Option<nat>
    decreases s.len(),
{
    if s.len() == 0 {
        Some(0)
    } else {
        match (digits_value(s.drop_last(), radix), digit_value(s.last(), radix)) {
            (Some(v), Some(d)) => Some(v * radix + d),
            _ => None,
        }
    }
}

/// `u32` parsing: an optional `+`, at least one digit, and a value that fits.
pub open spec fn parse_u32(s: Seq<char>, radix: nat) -> Option<nat> {
    let digits = if s.len() > 0 && s[0] == '+' {
        s.drop_first()
    } else {
        s
    };
    if digits.len() == 0 {
        None
    } else {
        match digits_value(digits, radix) {
            Some(v) => if v <= u32::MAX {
                Some(v)
            } else {
                None
            },
            None => None,
        }
    }
}

/// A Unicode scalar value.
pub open spec fn is_scalar(code: nat) -> bool {
    code < 0xD800 || (0xE000 <= code && code <= 0x10FFFF)
}

/// Calls `char::from_u32`, which gives the character of a Unicode scalar value and nothing
/// for surrogates or values past U+10FFFF, as its documentation states.
#[verifier::external_body]
fn char_from_u32(code: u32) -> (r: Option<char>)
    ensures
        match r {
            Some(c) => is_scalar(code as nat) && c == (code as nat) as char,
            None => !is_scalar(code as nat),
        },
{
    char::from_u32(code)
}

/// What a reference name decodes to: the fixed table first, then `#123` and `#x7B` numeric
/// references to any Unicode scalar value.
pub open spec fn entity_text(name: Seq<char>) -> Option<Seq<char>> {
    let known = named_entity(name);
    if known.len() > 0 {
        Some(known)
    } else if name.len() > 0 && name[0] == '#' {
        let digits = name.drop_first();
        let code = if digits.len() > 0 && (digits[0] == 'x' || digits[0] == 'X') {
            parse_u32(digits.drop_first(), 16)
        } else {
            parse_u32(digits, 10)
        };
        match code {
            Some(c) => if is_scalar(c) {
                Some(seq![c as char])
            } else {
                None
            },
            None => None,
        }
    } else {
        None
    }
}

fn digit_of(c: char, radix: u32) -> (r: Option<u32>)
    requires
        radix == 10 || radix == 16,
    ensures
        match r {
            Some(d) => digit_value(c, radix as nat) == Some(d as nat) && d < 16,
            None => digit_value(c, radix as nat) is None,
        },
{
    if '0' <= c && c <= '9' {
        Some((c as u32) - 48)
    } else if radix == 16 && 'a' <= c && c <= 'f' {
        Some((c as u32) - 87)
    } else if radix == 16 && 'A' <= c && c <= 'F' {
        Some((c as u32) - 55)
    } else {
        None
    }
}

pub proof fn lemma_digits_value_mono(s: Seq<char>, radix: nat, k: int)
    requires
        0 <= k <= s.len(),
        radix == 10 || radix == 16,
        digits_value(s, radix) is Some,
    ensures
        digits_value(s.take(k), radix) is Some,
        digits_value(s.take(k), radix).unwrap() <= digits_value(s, radix).unwrap(),
    decreases s.len() - k,
{
    if k < s.len() {
        assert(s.drop_last().take(k) =~= s.take(k));
        lemma_digits_value_mono(s.drop_last(), radix, k);
        assert(digits_value(s.drop_last(), radix).unwrap() <= digits_value(s, radix).unwrap()) by (nonlinear_arith)
            requires
                digits_value(s, radix).unwrap() == digits_value(s.drop_last(), radix).unwrap() * radix
                    + digit_value(s.last(), radix).unwrap(),
                radix >= 1,
        ;
    } else {
        assert(s.take(k) =~= s);
    }
}

fn parse_number(s: &[char], radix: u32) -> (r: Option<u32>)
    requires
        radix == 10 || radix == 16,
    ensures
        match r {
            Some(v) => parse_u32(s@, radix as nat) == Some(v as nat),
            None => parse_u32(s@, radix as nat) is None,
        },
{
    let start: usize = if s.len() > 0 && s[0] == '+' {
        1
    } else {
        0
    };
    let ghost digits = if s@.len() > 0 && s@[0] == '+' {
        s@.drop_first()
    } else {
        s@
    };
    assert(digits =~= s@.subrange(start as int, s@.len() as int));
    if start == s.len() {
        return None;
    }
    let mut value: u64 = 0;
    let mut i: usize = start;
    while i < s.len()
        invariant
            start <= i <= s@.len(),
            digits == s@.subrange(start as int, s@.len() as int),
            digits == (if s@.len() > 0 && s@[0] == '+' {
                s@.drop_first()
            } else {
                s@
            }),
            digits.len() > 0,
            digits_value(digits.take(i - start), radix as nat) == Some(value as nat),
            value <= u32::MAX,
            radix == 10 || radix == 16,
        decreases s@.len() - i,
    {
        assert(digits.take(i + 1 - start).drop_last() =~= digits.take(i - start));
        assert(digits.take(i + 1 - start).last() == s@[i as int]);
        match digit_of(s[i], radix) {
            Some(d) => {
                assert((value as nat) * (radix as nat) + (d as nat) <= 0xffff_ffff * 16 + 16) by (nonlinear_arith)
                    requires
                        value <= 0xffff_ffff,
                        radix <= 16,
                        d < 16,
                ;
                let next: u64 = value * (radix as u64) + (d as u64);
                assert(digits_value(digits.take(i + 1 - start), radix as nat) == Some(next as nat));
                if next > 0xffff_ffff {
                    proof {
                        if digits_value(digits, radix as nat) is Some {
                            lemma_digits_value_mono(digits, radix as nat, i + 1 - start);
                            assert(digits_value(digits, radix as nat).unwrap() > u32::MAX);
                        }
                    }
                    assert(parse_u32(s@, radix as nat) is None);
                    return None;
                }
                value = next;
            },
            None => {
                assert(digits_value(digits.take(i + 1 - start), radix as nat) is None);
                proof {
                    if digits_value(digits, radix as nat) is Some {
                        lemma_digits_value_mono(digits, radix as nat, i + 1 - start);
                    }
                }
                assert(parse_u32(s@, radix as nat) is None);
                return None;
            },
        }
        i += 1;
    }
    assert(digits.take(i - start) =~= digits);
    Some(value as u32)
}

/// Decodes a reference name, or says it cannot.
pub fn decode_entity_owned(name: &str) -> (r: Option<String>)
    ensures
        match r {
            Some(t) => entity_text(name@) == Some(t@),
            None => entity_text(name@) is None,
        },
{
    let known = decode_entity(name);
    if chars_of(known).len() > 0 {
        return Some(known.to_owned());
    }
    let cs = chars_of(name);
    if cs.len() == 0 || cs[0] != '#' {
        return None;
    }
    let digits: Vec<char> = crate::text::chars_from(&cs, 1);
    let code = if digits.len() > 0 && (digits[0] == 'x' || digits[0] == 'X') {
        parse_number(&crate::text::chars_from(&digits, 1), 16)
    } else {
        parse_number(&digits, 10)
    };
    match code {
        Some(c) => match char_from_u32(c) {
            Some(ch) => {
                let mut s = String::new();
                push_char(&mut s, ch);
                Some(s)
            },
            None => None,
        },
        None => None,
    }
}

// ------------------------------------------------------------------ text decoding

/// One character of markup-free text: `&` opens a reference (flushing a stray earlier one),
/// `;` closes an open one, and a name grown past eleven bytes was a stray ampersand.
pub open spec fn decode_step(st: (Seq<char>, Option<Seq<char>>), c: char) -> (
    Seq<char>,
    Option<Seq<char>>,
) {
    let out = st.0;
    if c == '&' {
        (
            match st.1 {
                Some(n) => out.push('&') + n,
                None => out,
            },
            Some(seq![]),
        )
    } else if c == ';' && st.1 is Some {
        let n = st.1.unwrap();
        (
            match entity_text(n) {
                Some(d) => out + d,
                None => out.push('&') + n.push(';'),
            },
            None,
        )
    } else {
        match st.1 {
            Some(n) => if utf8_len(n) < 12 {
                (out, Some(n.push(c)))
            } else {
                (out.push('&') + n.push(c), None)
            },
            None => (out.push(c), None),
        }
    }
}

pub open spec fn decode_run(s: Seq<char>) -> (Seq<char>, Option<Seq<char>>)
    decreases s.len(),
{
    if s.len() == 0 {
        (seq![], None)
    } else {
        decode_step(decode_run(s.drop_last()), s.last())
    }
}

/// A run of text with its character references resolved; an unfinished one is kept as typed.
pub open spec fn decoded(s: Seq<char>) -> Seq<char> {
    let st = decode_run(s);
    match st.1 {
        Some(n) => st.0.push('&') + n,
        None => st.0,
    }
}

fn push_chars(out: &mut String, cs: &Vec<char>)
    ensures
        final(out)@ == old(out)@ + cs@,
{
    let ghost start = out@;
    let mut i: usize = 0;
    while i < cs.len()
        invariant
            i <= cs@.len(),
            out@ == start + cs@.take(i as int),
        decreases cs@.len() - i,
    {
        push_char(out, cs[i]);
        assert(cs@.take(i + 1) =~= cs@.take(i as int).push(cs@[i as int]));
        i += 1;
    }
    assert(cs@.take(i as int) =~= cs@);
}

/// Appends `raw[from..to]` with its references resolved.
pub fn push_decoded(text: &mut String, raw: &[char], from: usize, to: usize)
    requires
        from <= to <= raw@.len(),
    ensures
        final(text)@ == old(text)@ + decoded(raw@.subrange(from as int, to as int)),
{
    let ghost seg = raw@.subrange(from as int, to as int);
    let ghost start = text@;
    let mut out: Vec<char> = Vec::new();
    let mut entity: Option<Vec<char>> = None;
    let mut i: usize = from;
    while i < to
        invariant
            from <= i <= to,
            to <= raw@.len(),
            seg == raw@.subrange(from as int, to as int),
            decode_run(seg.take(i - from)) == (out@, match entity {
                Some(n) => Some(n@),
                None => None,
            }),
        decreases to - i,
    {
        assert(seg.take(i + 1 - from).drop_last() =~= seg.take(i - from));
        assert(seg.take(i + 1 - from).last() == raw@[i as int]);
        let c = raw[i];
        let ghost before = out@;
        if c == '&' {
            match entity {
                Some(n) => {
                    out.push('&');
                    let mut k: usize = 0;
                    while k < n.len()
                        invariant
                            k <= n@.len(),
                            out@ == before.push('&') + n@.take(k as int),
                        decreases n@.len() - k,
                    {
                        out.push(n[k]);
                        assert(n@.take(k + 1) =~= n@.take(k as int).push(n@[k as int]));
                        k += 1;
                    }
                    assert(n@.take(k as int) =~= n@);
                },
                None => {},
            }
            entity = Some(Vec::new());
        } else if c == ';' && entity.is_some() {
            let n = entity.unwrap();
            let name = string_of(&n);
            match decode_entity_owned(name.as_str()) {
                Some(d) => {
                    let dc = chars_of(d.as_str());
                    let mut k: usize = 0;
                    while k < dc.len()
                        invariant
                            k <= dc@.len(),
                            out@ == before + dc@.take(k as int),
                        decreases dc@.len() - k,
                    {
                        out.push(dc[k]);
                        assert(dc@.take(k + 1) =~= dc@.take(k as int).push(dc@[k as int]));
                        k += 1;
                    }
                    assert(dc@.take(k as int) =~= dc@);
                },
                None => {
                    out.push('&');
                    let mut k: usize = 0;
                    while k < n.len()
                        invariant
                            k <= n@.len(),
                            out@ == before.push('&') + n@.take(k as int),
                        decreases n@.len() - k,
                    {
                        out.push(n[k]);
                        assert(n@.take(k + 1) =~= n@.take(k as int).push(n@[k as int]));
                        k += 1;
                    }
                    assert(n@.take(k as int) =~= n@);
                    out.push(';');
                    assert(out@ =~= before.push('&') + n@.push(';'));
                },
            }
            entity = None;
        } else {
            match entity {
                Some(mut n) => {
                    if utf8_len_of(&n) < 12 {
                        n.push(c);
                        entity = Some(n);
                    } else {
                        out.push('&');
                        let mut k: usize = 0;
                        while k < n.len()
                            invariant
                                k <= n@.len(),
                                out@ == before.push('&') + n@.take(k as int),
                            decreases n@.len() - k,
                        {
                            out.push(n[k]);
                            assert(n@.take(k + 1) =~= n@.take(k as int).push(n@[k as int]));
                            k += 1;
                        }
                        assert(n@.take(k as int) =~= n@);
                        out.push(c);
                        assert(out@ =~= before.push('&') + n@.push(c));
                        entity = None;
                    }
                },
                None => {
                    out.push(c);
                },
            }
        }
        i += 1;
    }
    assert(seg.take(i - from) =~= seg);
    match entity {
        Some(n) => {
            out.push('&');
            let ghost before = out@;
            let mut k: usize = 0;
            while k < n.len()
                invariant
                    k <= n@.len(),
                    out@ == before + n@.take(k as int),
                decreases n@.len() - k,
            {
                out.push(n[k]);
                assert(n@.take(k + 1) =~= n@.take(k as int).push(n@[k as int]));
                k += 1;
            }
            assert(n@.take(k as int) =~= n@);
        },
        None => {},
    }
    push_chars(text, &out);
}

// -------------------------------------------------------------------------- tags

pub open spec fn not_alnum() -> spec_fn(char) -> bool {
    |c: char| !is_ascii_alnum(c)
}

/// The leading ASCII letters and digits of `s`.
pub open spec fn alnum_prefix(s: Seq<char>) -> Seq<char> {
    s.take(first_where(s, not_alnum()))
}

/// The element name in `<p class="x">` or `</p>`; empty for `<!doctype>`.
pub open spec fn tag_name_of(tag: Seq<char>) -> Seq<char> {
    alnum_prefix(trim_start_char(trim_start_char(tag, '<'), '/'))
}

fn skip_leading(s: &[char], from: usize, c: char) -> (r: usize)
    requires
        from <= s@.len(),
    ensures
        from <= r <= s@.len(),
        trim_start_char(s@.skip(from as int), c) == s@.skip(r as int),
{
    let mut i: usize = from;
    while i < s.len() && s[i] == c
        invariant
            from <= i <= s@.len(),
            trim_start_char(s@.skip(from as int), c) == trim_start_char(s@.skip(i as int), c),
        decreases s@.len() - i,
    {
        assert(s@.skip(i as int).drop_first() =~= s@.skip(i + 1));
        i += 1;
    }
    i
}

#[verifier::spinoff_prover]
#[verifier::rlimit(60)]
pub fn tag_name(tag: &[char]) -> (r: Vec<char>)
    ensures
        r@ == tag_name_of(tag@),
{
    assert(tag@.skip(0) =~= tag@);
    let i = skip_leading(tag, 0, '<');
    let j = skip_leading(tag, i, '/');
    let ghost rest = tag@.skip(j as int);
    let ghost p = not_alnum();
    let mut k: usize = j;
    while k < tag.len() && is_ascii_alphanumeric(tag[k])
        invariant
            j <= k <= tag@.len(),
            rest == tag@.skip(j as int),
            p == not_alnum(),
            forall|m: int| 0 <= m < k - j ==> !p(#[trigger] rest[m]),
        decreases tag@.len() - k,
    {
        assert(rest[k - j] == tag@[k as int]);
        k += 1;
    }
    proof {
        if k < tag@.len() {
            assert(rest[k - j] == tag@[k as int]);
        }
        lemma_first_where_at(rest, p, k - j);
    }
    let out = sub_chars(tag, j, k);
    assert(out@ =~= rest.take(k - j));
    out
}

// ------------------------------------------------------------------------- strip

pub open spec fn lowered(s: Seq<char>) -> Seq<char> {
    s.map_values(|c: char| ascii_lower(c))
}

pub open spec fn clamp(x: int, n: int) -> int {
    if x <= n {
        x
    } else {
        n
    }
}

/// Where scanning resumes after a comment opened at `open`: past its `-->`, or the end.
pub open spec fn comment_next(h: Seq<char>, l: Seq<char>, open: int) -> int {
    match first_at(l, seq!['-', '-', '>'], open + 4) {
        Some(e) => clamp(e + 3, h.len() as int),
        None => h.len() as int,
    }
}

/// Just past the `>` of the tag opened at `open`, or the end.
pub open spec fn tag_end_of(h: Seq<char>, open: int) -> int {
    match first_at(h, seq!['>'], open) {
        Some(e) => clamp(e + 1, h.len() as int),
        None => h.len() as int,
    }
}

pub open spec fn self_closing(h: Seq<char>, open: int, tag_end: int) -> bool {
    let t = trim_end_char(h.subrange(open, tag_end), '>');
    t.len() > 0 && t.last() == '/'
}

/// What the tag opened at `open` contributes, and where scanning resumes: an opening tag of a
/// skipped element becomes `sep` and its body is passed over (a self-closing one has none); a
/// block tag becomes `sep`; any other tag a space.
pub open spec fn tag_step(h: Seq<char>, l: Seq<char>, open: int, sep: Seq<char>) -> (Seq<char>, int) {
    let tag_end = tag_end_of(h, open);
    let name = tag_name_of(l.subrange(open, tag_end));
    if !occurs_at(l, seq!['<', '/'], open) && in_list(name, SKIP_BODY_TAGS) {
        (sep, if self_closing(h, open, tag_end) {
            tag_end
        } else {
            match first_at(l, seq!['<', '/'] + name, tag_end) {
                Some(p) => clamp(p, h.len() as int),
                None => h.len() as int,
            }
        })
    } else {
        (if in_list(name, BLOCK_TAGS) {
            sep
        } else {
            seq![' ']
        }, tag_end)
    }
}

pub proof fn lemma_steps_advance(h: Seq<char>, l: Seq<char>, cursor: int, open: int, sep: Seq<char>)
    requires
        0 <= cursor <= open < h.len(),
    ensures
        cursor < comment_next(h, l, open) <= h.len(),
        cursor < tag_step(h, l, open, sep).1 <= h.len(),
        open < tag_end_of(h, open) <= h.len(),
{
    lemma_first_at_bounds(l, seq!['-', '-', '>'], open + 4);
    lemma_first_at_bounds(h, seq!['>'], open);
    let tag_end = tag_end_of(h, open);
    let name = tag_name_of(l.subrange(open, tag_end));
    lemma_first_at_bounds(l, seq!['<', '/'] + name, tag_end);
}

/// The text of `h` from `cursor` on, with `l` its ASCII-lowercased copy: text runs decoded,
/// comments dropped, tags replaced as `tag_step` says.
#[verifier::opaque]
pub open spec fn strip_from(h: Seq<char>, l: Seq<char>, cursor: int, sep: Seq<char>) -> Seq<char>
    decreases h.len() - cursor,
{
    if cursor < 0 || cursor >= h.len() {
        seq![]
    } else {
        match first_at(h, seq!['<'], cursor) {
            None => decoded(h.subrange(cursor, h.len() as int)),
            Some(open) => {
                proof {
                    lemma_first_at_bounds(h, seq!['<'], cursor);
                    lemma_steps_advance(h, l, cursor, open, sep);
                }
                let pre = decoded(h.subrange(cursor, open));
                if occurs_at(l, seq!['<', '!', '-', '-'], open) {
                    pre + strip_from(h, l, comment_next(h, l, open), sep)
                } else {
                    let st = tag_step(h, l, open, sep);
                    pre + st.0 + strip_from(h, l, st.1, sep)
                }
            },
        }
    }
}

proof fn lemma_strip_end(h: Seq<char>, l: Seq<char>, cursor: int, sep: Seq<char>)
    requires
        cursor >= h.len(),
    ensures
        strip_from(h, l, cursor, sep) == Seq::<char>::empty(),
{
    reveal(strip_from);
}

proof fn lemma_strip_plain(h: Seq<char>, l: Seq<char>, cursor: int, sep: Seq<char>)
    requires
        0 <= cursor < h.len(),
        first_at(h, seq!['<'], cursor) is None,
    ensures
        strip_from(h, l, cursor, sep) == decoded(h.subrange(cursor, h.len() as int)),
{
    reveal(strip_from);
}

proof fn lemma_strip_comment(h: Seq<char>, l: Seq<char>, cursor: int, open: int, sep: Seq<char>)
    requires
        0 <= cursor < h.len(),
        first_at(h, seq!['<'], cursor) == Some(open),
        occurs_at(l, seq!['<', '!', '-', '-'], open),
    ensures
        strip_from(h, l, cursor, sep) == decoded(h.subrange(cursor, open)) + strip_from(
            h,
            l,
            comment_next(h, l, open),
            sep,
        ),
{
    reveal(strip_from);
}

proof fn lemma_strip_tag(h: Seq<char>, l: Seq<char>, cursor: int, open: int, sep: Seq<char>)
    requires
        0 <= cursor < h.len(),
        first_at(h, seq!['<'], cursor) == Some(open),
        !occurs_at(l, seq!['<', '!', '-', '-'], open),
    ensures
        strip_from(h, l, cursor, sep) == decoded(h.subrange(cursor, open)) + tag_step(
            h,
            l,
            open,
            sep,
        ).0 + strip_from(h, l, tag_step(h, l, open, sep).1, sep),
{
    reveal(strip_from);
}

/// HTML as text; `sep` is what a block boundary becomes.
pub open spec fn stripped_html(html: Seq<char>, sep: Seq<char>) -> Seq<char> {
    strip_from(html, lowered(html), 0, sep)
}

fn listed_in(name: &Vec<char>, list: &[&str]) -> (r: bool)
    ensures
        r == exists|i: int| 0 <= i < list@.len() && name@ == list@[i]@,
{
    equals_any(name, list)
}

fn trailing_slash(h: &Vec<char>, open: usize, tag_end: usize) -> (r: bool)
    requires
        open <= tag_end <= h@.len(),
    ensures
        r == self_closing(h@, open as int, tag_end as int),
{
    let mut e = tag_end;
    while e > open && h[e - 1] == '>'
        invariant
            open <= e <= tag_end,
            tag_end <= h@.len(),
            trim_end_char(h@.subrange(open as int, tag_end as int), '>') == trim_end_char(
                h@.subrange(open as int, e as int),
                '>',
            ),
        decreases e - open,
    {
        assert(h@.subrange(open as int, e as int).drop_last() =~= h@.subrange(open as int, e - 1));
        e -= 1;
    }
    assert(trim_end_char(h@.subrange(open as int, e as int), '>') == h@.subrange(open as int, e as int));
    e > open && h[e - 1] == '/'
}

fn sub_chars(s: &[char], from: usize, to: usize) -> (r: Vec<char>)
    requires
        from <= to <= s@.len(),
    ensures
        r@ == s@.subrange(from as int, to as int),
{
    let mut out: Vec<char> = Vec::new();
    let mut i = from;
    while i < to
        invariant
            from <= i <= to,
            to <= s@.len(),
            out@ == s@.subrange(from as int, i as int),
        decreases to - i,
    {
        out.push(s[i]);
        assert(s@.subrange(from as int, i + 1) =~= s@.subrange(from as int, i as int).push(s@[i as int]));
        i += 1;
    }
    out
}

fn find_comment_next(h: &Vec<char>, l: &Vec<char>, open: usize) -> (r: usize)
    requires
        open < h@.len(),
        l@.len() == h@.len(),
    ensures
        r as int == comment_next(h@, l@, open as int),
{
    let close: Vec<char> = vec!['-', '-', '>'];
    assert(close@ =~= seq!['-', '-', '>']);
    proof {
        lemma_first_at_bounds(l@, seq!['-', '-', '>'], open + 4);
    }
    if h.len() - open < 4 {
        assert(first_at(l@, seq!['-', '-', '>'], open + 4) is None);
        return h.len();
    }
    match find_first(l, &close, open + 4) {
        Some(e) => {
            assert(occurs_at(l@, seq!['-', '-', '>'], e as int));
            if e <= h.len() - 3 {
                e + 3
            } else {
                h.len()
            }
        },
        None => h.len(),
    }
}

fn find_tag_end(h: &Vec<char>, open: usize) -> (r: usize)
    requires
        open < h@.len(),
    ensures
        r as int == tag_end_of(h@, open as int),
        open < r <= h@.len(),
{
    let gt: Vec<char> = vec!['>'];
    assert(gt@ =~= seq!['>']);
    proof {
        lemma_first_at_bounds(h@, seq!['>'], open as int);
    }
    match find_first(h, &gt, open) {
        Some(e) => {
            assert(occurs_at(h@, seq!['>'], e as int));
            if e < h.len() {
                e + 1
            } else {
                h.len()
            }
        },
        None => h.len(),
    }
}

fn apply_tag(text: &mut String, h: &Vec<char>, l: &Vec<char>, open: usize, sep: &str) -> (r: usize)
    requires
        open < h@.len(),
        l@.len() == h@.len(),
    ensures
        final(text)@ == old(text)@ + tag_step(h@, l@, open as int, sep@).0,
        r as int == tag_step(h@, l@, open as int, sep@).1,
{
    let tag_end = find_tag_end(h, open);
    let name = tag_name(&sub_chars(l, open, tag_end));
    let close_lead: Vec<char> = vec!['<', '/'];
    assert(close_lead@ =~= seq!['<', '/']);
    let closing = matches_at(l, &close_lead, open);
    if !closing && listed_in(&name, SKIP_BODY_TAGS.as_slice()) {
        push_str(text, sep);
        if trailing_slash(h, open, tag_end) {
            tag_end
        } else {
            let mut close = close_lead.clone();
            let mut k: usize = 0;
            while k < name.len()
                invariant
                    k <= name@.len(),
                    close@ == seq!['<', '/'] + name@.take(k as int),
                decreases name@.len() - k,
            {
                close.push(name[k]);
                assert(name@.take(k + 1) =~= name@.take(k as int).push(name@[k as int]));
                k += 1;
            }
            assert(name@.take(k as int) =~= name@);
            proof {
                lemma_first_at_bounds(l@, seq!['<', '/'] + name@, tag_end as int);
            }
            match find_first(l, &close, tag_end) {
                Some(p) => {
                    if p <= h.len() {
                        p
                    } else {
                        h.len()
                    }
                },
                None => h.len(),
            }
        }
    } else {
        if listed_in(&name, BLOCK_TAGS.as_slice()) {
            push_str(text, sep);
        } else {
            push_char(text, ' ');
        }
        tag_end
    }
}

/// Converts HTML to plain text; a block boundary becomes `block_separator`.
pub fn strip_html(html: &str, block_separator: &str) -> (r: String)
    ensures
        r@ == stripped_html(html@, block_separator@),
{
    let h = chars_of(html);
    let mut l: Vec<char> = Vec::new();
    let mut i: usize = 0;
    while i < h.len()
        invariant
            i <= h@.len(),
            l@ == lowered(h@.take(i as int)),
        decreases h@.len() - i,
    {
        l.push(to_ascii_lowercase(h[i]));
        assert(lowered(h@.take(i + 1)) =~= lowered(h@.take(i as int)).push(ascii_lower(h@[i as int])));
        i += 1;
    }
    assert(h@.take(i as int) =~= h@);
    let ghost hv = h@;
    let ghost lv = l@;
    let ghost sep = block_separator@;
    let lt: Vec<char> = vec!['<'];
    let comment_open: Vec<char> = vec!['<', '!', '-', '-'];
    assert(lt@ =~= seq!['<']);
    assert(comment_open@ =~= seq!['<', '!', '-', '-']);
    let mut text = String::new();
    let mut cursor: usize = 0;
    assert(text@ + strip_from(hv, lv, 0, sep) =~= strip_from(hv, lv, 0, sep));
    while cursor < h.len()
        invariant
            hv == h@,
            lv == l@,
            lv == lowered(hv),
            lv.len() == hv.len(),
            sep == block_separator@,
            cursor <= hv.len(),
            lt@ == seq!['<'],
            comment_open@ == seq!['<', '!', '-', '-'],
            text@ + strip_from(hv, lv, cursor as int, sep) == strip_from(hv, lv, 0, sep),
        decreases hv.len() - cursor,
    {
        let ghost before = text@;
        let ghost c0 = cursor as int;
        match find_first(&h, &lt, cursor) {
            None => {
                proof {
                    lemma_strip_plain(hv, lv, c0, sep);
                    lemma_strip_end(hv, lv, hv.len() as int, sep);
                }
                push_decoded(&mut text, &h, cursor, h.len());
                cursor = h.len();
                assert(text@ + strip_from(hv, lv, cursor as int, sep) =~= before + strip_from(hv, lv, c0, sep));
            },
            Some(open) => {
                proof {
                    lemma_first_at_bounds(hv, seq!['<'], cursor as int);
                    lemma_steps_advance(hv, lv, cursor as int, open as int, sep);
                }
                push_decoded(&mut text, &h, cursor, open);
                if matches_at(&l, &comment_open, open) {
                    proof {
                        lemma_strip_comment(hv, lv, c0, open as int, sep);
                    }
                    cursor = find_comment_next(&h, &l, open);
                    assert(text@ + strip_from(hv, lv, cursor as int, sep) =~= before + strip_from(hv, lv, c0, sep));
                } else {
                    proof {
                        lemma_strip_tag(hv, lv, c0, open as int, sep);
                    }
                    cursor = apply_tag(&mut text, &h, &l, open, block_separator);
                    assert(text@ + strip_from(hv, lv, cursor as int, sep) =~= before + strip_from(hv, lv, c0, sep));
                }
            },
        }
    }
    proof {
        lemma_strip_end(hv, lv, cursor as int, sep);
    }
    assert(text@ =~= text@ + strip_from(hv, lv, cursor as int, sep));
    text
}

// -------------------------------------------------------------------- whitespace

/// The whitespace-separated words of `s`, as `split_whitespace` yields them.
pub open spec fn ws_words(s: Seq<char>) -> Seq<Seq<char>>
    decreases s.len(),
{
    if s.len() == 0 {
        seq![]
    } else {
        let p = ws_words(s.drop_last());
        let c = s.last();
        if is_space(c) {
            p
        } else if s.len() == 1 || is_space(s[s.len() - 2]) {
            p.push(seq![c])
        } else {
            p.update(p.len() - 1, p.last().push(c))
        }
    }
}

pub proof fn lemma_ws_words_nonempty(s: Seq<char>)
    requires
        s.len() > 0,
        !is_space(s.last()),
    ensures
        ws_words(s).len() > 0,
    decreases s.len(),
{
    if s.len() > 1 && !is_space(s[s.len() - 2]) {
        assert(s.drop_last().last() == s[s.len() - 2]);
        lemma_ws_words_nonempty(s.drop_last());
    }
}

/// A word of collapsed text: non-empty, with no whitespace in it.
pub open spec fn clean_word(w: Seq<char>) -> bool {
    w.len() > 0 && forall|i: int| 0 <= i < w.len() ==> !is_space(#[trigger] w[i])
}

proof fn lemma_ws_words_clean(s: Seq<char>)
    ensures
        forall|k: int| 0 <= k < ws_words(s).len() ==> clean_word(#[trigger] ws_words(s)[k]),
    decreases s.len(),
{
    if s.len() > 0 {
        let p = ws_words(s.drop_last());
        lemma_ws_words_clean(s.drop_last());
        let c = s.last();
        let r = ws_words(s);
        if !is_space(c) && !(s.len() == 1 || is_space(s[s.len() - 2])) {
            assert(s.drop_last().last() == s[s.len() - 2]);
            lemma_ws_words_nonempty(s.drop_last());
            let w = p.last().push(c);
            assert(clean_word(p[p.len() - 1]));
            assert forall|i: int| 0 <= i < w.len() implies !is_space(#[trigger] w[i]) by {
                if i < p.last().len() {
                    assert(w[i] == p.last()[i]);
                }
            }
            assert forall|k: int| 0 <= k < r.len() implies clean_word(#[trigger] r[k]) by {
                if k < p.len() - 1 {
                    assert(r[k] == p[k]);
                }
            }
        } else if !is_space(c) {
            assert forall|k: int| 0 <= k < r.len() implies clean_word(#[trigger] r[k]) by {
                if k < p.len() {
                    assert(r[k] == p[k]);
                } else {
                    assert(r[k] == seq![c]);
                }
            }
        }
    }
}

/// Text whose every whitespace character is a single space between two other characters.
pub open spec fn single_spaced(t: Seq<char>) -> bool {
    forall|i: int|
        0 <= i < t.len() && is_space(#[trigger] t[i]) ==> t[i] == ' ' && 0 < i < t.len() - 1
            && !is_space(t[i - 1]) && !is_space(t[i + 1])
}

proof fn lemma_joined_single_spaced(ws: Seq<Seq<char>>)
    requires
        forall|k: int| 0 <= k < ws.len() ==> clean_word(#[trigger] ws[k]),
    ensures
        single_spaced(joined(ws, seq![' '])),
        ws.len() > 0 ==> joined(ws, seq![' ']).len() > 0 && !is_space(joined(ws, seq![' '])[0])
            && !is_space(joined(ws, seq![' ']).last()),
    decreases ws.len(),
{
    if ws.len() == 1 {
        assert(clean_word(ws[0]));
    } else if ws.len() > 1 {
        let p = ws.drop_last();
        assert forall|k: int| 0 <= k < p.len() implies clean_word(#[trigger] p[k]) by {
            assert(p[k] == ws[k]);
        }
        lemma_joined_single_spaced(p);
        let jp = joined(p, seq![' ']);
        let w = ws.last();
        assert(clean_word(ws[ws.len() - 1]));
        let r = joined(ws, seq![' ']);
        assert(r == jp + seq![' '] + w);
        assert forall|i: int| 0 <= i < r.len() && is_space(#[trigger] r[i]) implies r[i] == ' ' && 0
            < i < r.len() - 1 && !is_space(r[i - 1]) && !is_space(r[i + 1]) by {
            if i < jp.len() {
                assert(r[i] == jp[i]);
                assert(is_space(jp[i]));
                assert(i < jp.len() - 1);
                assert(r[i - 1] == jp[i - 1] && r[i + 1] == jp[i + 1]);
            } else if i == jp.len() {
                assert(r[i - 1] == jp.last());
                assert(r[i + 1] == w[0]);
            } else {
                assert(r[i] == w[i - jp.len() - 1]);
            }
        }
        assert(r[0] == jp[0]);
        assert(r.last() == w.last());
    }
}

/// Collapsed text never holds two whitespace characters in a row, nor one at either end, and
/// every whitespace character left is a plain space.
pub proof fn lemma_collapsed_is_single_spaced(s: Seq<char>)
    ensures
        single_spaced(collapse_spaces(s)),
{
    lemma_ws_words_clean(s);
    lemma_joined_single_spaced(ws_words(s));
}

/// The text `html_to_text` gives is single spaced: no run of whitespace, none at either end.
pub proof fn lemma_html_text_single_spaced(html: Seq<char>)
    ensures
        single_spaced(html_text(html)),
{
    lemma_collapsed_is_single_spaced(stripped_html(html, " "@));
}

/// `s` with every run of whitespace made one space and none at either end.
pub open spec fn collapse_spaces(s: Seq<char>) -> Seq<char> {
    joined(ws_words(s), seq![' '])
}

pub fn collapse_whitespace(s: &[char]) -> (r: Vec<char>)
    ensures
        r@ == collapse_spaces(s@),
{
    let mut words: Vec<Vec<char>> = Vec::new();
    let mut i: usize = 0;
    while i < s.len()
        invariant
            i <= s@.len(),
            crate::tokens::tv(words@) == ws_words(s@.take(i as int)),
        decreases s@.len() - i,
    {
        let ghost t = s@.take(i + 1);
        assert(t.drop_last() =~= s@.take(i as int));
        assert(t.last() == s@[i as int]);
        let ghost before = crate::tokens::tv(words@);
        let c = s[i];
        if is_whitespace(c) {
        } else if i == 0 || is_whitespace(s[i - 1]) {
            let mut nw: Vec<char> = Vec::new();
            nw.push(c);
            words.push(nw);
            assert(crate::tokens::tv(words@) =~= before.push(seq![c]));
        } else {
            proof {
                assert(s@.take(i as int).last() == s@[i - 1]);
                lemma_ws_words_nonempty(s@.take(i as int));
            }
            let last = words.len() - 1;
            let mut w = words.pop().unwrap();
            w.push(c);
            words.push(w);
            assert(crate::tokens::tv(words@) =~= before.update(last as int, before.last().push(c)));
        }
        i += 1;
    }
    assert(s@.take(i as int) =~= s@);
    let ghost ws = crate::tokens::tv(words@);
    let mut out: Vec<char> = Vec::new();
    let mut k: usize = 0;
    while k < words.len()
        invariant
            k <= words@.len(),
            ws == crate::tokens::tv(words@),
            out@ == joined(ws.take(k as int), seq![' ']),
        decreases words@.len() - k,
    {
        assert(ws.take(k + 1).drop_last() =~= ws.take(k as int));
        let ghost before = out@;
        if k > 0 {
            out.push(' ');
        }
        let w = &words[k];
        let mut m: usize = 0;
        let ghost mid = out@;
        while m < w.len()
            invariant
                m <= w@.len(),
                out@ == mid + w@.take(m as int),
            decreases w@.len() - m,
        {
            out.push(w[m]);
            assert(w@.take(m + 1) =~= w@.take(m as int).push(w@[m as int]));
            m += 1;
        }
        assert(w@.take(m as int) =~= w@);
        proof {
            if k == 0 {
                assert(ws.take(1) =~= seq![ws[0]]);
            }
        }
        assert(out@ =~= joined(ws.take(k + 1), seq![' ']));
        k += 1;
    }
    assert(ws.take(k as int) =~= ws);
    out
}

/// HTML as one run of prose: tags stripped, whitespace collapsed to single spaces.
pub open spec fn html_text(html: Seq<char>) -> Seq<char> {
    collapse_spaces(stripped_html(html, " "@))
}

pub fn html_to_text(html: &str) -> (r: String)
    ensures
        r@ == html_text(html@),
{
    let stripped = strip_html(html, " ");
    string_of(&collapse_whitespace(&chars_of(stripped.as_str())))
}

/// The pieces of `s` between newlines.
pub open spec fn newline_pieces(s: Seq<char>) -> Seq<Seq<char>>
    decreases s.len(),
{
    if s.len() == 0 {
        seq![seq![]]
    } else {
        let p = newline_pieces(s.drop_last());
        if s.last() == '\n' {
            p.push(seq![])
        } else {
            p.update(p.len() - 1, p.last().push(s.last()))
        }
    }
}

pub proof fn lemma_newline_pieces_nonempty(s: Seq<char>)
    ensures
        newline_pieces(s).len() >= 1,
    decreases s.len(),
{
    if s.len() > 0 {
        lemma_newline_pieces_nonempty(s.drop_last());
    }
}

/// Each line collapsed, blank ones dropped.
pub open spec fn kept_lines(ls: Seq<Seq<char>>) -> Seq<Seq<char>>
    decreases ls.len(),
{
    if ls.len() == 0 {
        seq![]
    } else if collapse_spaces(ls.last()).len() > 0 {
        kept_lines(ls.drop_last()).push(collapse_spaces(ls.last()))
    } else {
        kept_lines(ls.drop_last())
    }
}

/// A whole page as text: one line per block, whitespace collapsed within each, blank lines
/// dropped.
pub open spec fn html_block_text(html: Seq<char>) -> Seq<char> {
    joined(kept_lines(newline_pieces(stripped_html(html, "\n"@))), seq!['\n'])
}

fn split_lines(stripped: &Vec<char>) -> (r: Vec<Vec<char>>)
    ensures
        crate::tokens::tv(r@) == newline_pieces(stripped@),
{
    let mut lines: Vec<Vec<char>> = Vec::new();
    lines.push(Vec::new());
    assert(crate::tokens::tv(lines@) =~= newline_pieces(stripped@.take(0)));
    let mut i: usize = 0;
    while i < stripped.len()
        invariant
            i <= stripped@.len(),
            lines@.len() >= 1,
            crate::tokens::tv(lines@) == newline_pieces(stripped@.take(i as int)),
        decreases stripped@.len() - i,
    {
        assert(stripped@.take(i + 1).drop_last() =~= stripped@.take(i as int));
        let ghost before = crate::tokens::tv(lines@);
        if stripped[i] == '\n' {
            lines.push(Vec::new());
            assert(crate::tokens::tv(lines@) =~= before.push(seq![]));
        } else {
            let last = lines.len() - 1;
            let mut w = lines.pop().unwrap();
            w.push(stripped[i]);
            lines.push(w);
            assert(crate::tokens::tv(lines@) =~= before.update(last as int, before.last().push(
                stripped@[i as int],
            )));
        }
        i += 1;
    }
    assert(stripped@.take(i as int) =~= stripped@);
    lines
}

fn keep_lines(lines: &Vec<Vec<char>>) -> (r: Vec<Vec<char>>)
    ensures
        crate::tokens::tv(r@) == kept_lines(crate::tokens::tv(lines@)),
{
    let ghost ls = crate::tokens::tv(lines@);
    let mut kept: Vec<Vec<char>> = Vec::new();
    let mut k: usize = 0;
    while k < lines.len()
        invariant
            k <= lines@.len(),
            ls == crate::tokens::tv(lines@),
            crate::tokens::tv(kept@) == kept_lines(ls.take(k as int)),
        decreases lines@.len() - k,
    {
        assert(ls.take(k + 1).drop_last() =~= ls.take(k as int));
        let c = collapse_whitespace(&lines[k]);
        if c.len() > 0 {
            let ghost before = crate::tokens::tv(kept@);
            kept.push(c);
            assert(crate::tokens::tv(kept@) =~= before.push(collapse_spaces(ls[k as int])));
        }
        k += 1;
    }
    assert(ls.take(k as int) =~= ls);
    kept
}

fn join_lines(kept: &Vec<Vec<char>>) -> (r: String)
    ensures
        r@ == joined(crate::tokens::tv(kept@), seq!['\n']),
{
    let ghost ks = crate::tokens::tv(kept@);
    let mut out = String::new();
    let mut m: usize = 0;
    while m < kept.len()
        invariant
            m <= kept@.len(),
            ks == crate::tokens::tv(kept@),
            out@ == joined(ks.take(m as int), seq!['\n']),
        decreases kept@.len() - m,
    {
        assert(ks.take(m + 1).drop_last() =~= ks.take(m as int));
        if m > 0 {
            push_char(&mut out, '\n');
        }
        let line = string_of(&kept[m]);
        push_str(&mut out, line.as_str());
        proof {
            if m == 0 {
                assert(ks.take(1) =~= seq![ks[0]]);
            }
        }
        assert(out@ =~= joined(ks.take(m + 1), seq!['\n']));
        m += 1;
    }
    assert(ks.take(m as int) =~= ks);
    out
}

pub fn html_to_block_text(html: &str) -> (r: String)
    ensures
        r@ == html_block_text(html@),
{
    let stripped = chars_of(strip_html(html, "\n").as_str());
    let lines = split_lines(&stripped);
    let kept = keep_lines(&lines);
    join_lines(&kept)
}

} // verus!
