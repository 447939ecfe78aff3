//! Usage receipts: which run an API call served, what its prompt was, and what it cost.

use vstd::prelude::*;
use vstd::string::StringSliceAdditionalSpecFns;
use crate::text::{chars_of, count_words, trim_str, trimmed, is_ascii_alnum, is_ascii_alphanumeric, push_char, str_eq, string_of};
use crate::json::{elements_of, field, opt_str_view, lemma_views_of, text_of, views_of, Json, JsonView};
use crate::html::{digits_value, find_first, first_at, lemma_first_at_bounds};
use crate::search::{first_where, lemma_first_where_at};
use vstd::utf8::encode_utf8;
use crate::commands::{ascii_case_eq, eq_ignore_ascii_case};
use crate::evidence::{trim_end_char, trim_start_char, trim_end_in_place, trim_start_copy};

verus! {

broadcast use vstd::seq_lib::group_seq_properties;

/// Whether a value of the prompt-debug setting turns fingerprints on: anything but blank, `0`
/// or `false` (in any ASCII case), surrounding whitespace ignored.
pub open spec fn debug_switch_on(value: Seq<char>) -> bool {
    let t = trimmed(value);
    t.len() > 0 && t != "0"@ && !ascii_case_eq(t, "false"@)
}

/// `debug_switch_on(value)`.
pub fn prompt_debug_switch(value: &str) -> (r: bool)
    ensures
        r == debug_switch_on(value@),
{
    let t = trim_str(value);
    if t.len() == 0 {
        return false;
    }
    let off = chars_of("false");
    proof {
        reveal_strlit("0");
    }
    let is_zero = t.len() == 1 && t[0] == '0';
    assert(is_zero == (t@ == "0"@)) by {
        if t@.len() == 1 && t@[0] == '0' {
            assert(t@ =~= "0"@);
        }
    }
    !is_zero && !eq_ignore_ascii_case(t.as_slice(), off.as_slice())
}

/// Token counts the provider reported for one response.
#[derive(Clone, Debug, PartialEq, Eq)]
pub struct ApiTokenUsage {
    pub input_tokens: u64,
    pub output_tokens: u64,
    pub total_tokens: u64,
    pub cached_input_tokens: Option<u64>,
    pub reasoning_output_tokens: Option<u64>,
}

/// Hashes of what a request sent: the part meant to stay constant across a run's attempts,
/// its length in characters, and the whole body.
#[derive(Clone, Copy, Debug, Default, PartialEq, Eq)]
pub struct PromptFingerprint {
    pub prefix_hash: u64,
    pub prefix_chars: u32,
    pub body_hash: u64,
}

/// Which run a receipt belongs to.
#[derive(Clone, Copy, Debug, Default)]
pub struct UsageContext {
    pub capture_id: Option<u64>,
    pub attempt: Option<u32>,
    pub prompt: Option<PromptFingerprint>,
}

impl UsageContext {
    /// The context of one attempt of a run.
    pub fn attempt(capture_id: Option<u64>, attempt: u32) -> (r: Self)
        ensures
            r.capture_id == capture_id,
            r.attempt == Some(attempt),
            r.prompt is None,
    {
        UsageContext { capture_id, attempt: Some(attempt), prompt: None }
    }

    /// The same context carrying a prompt fingerprint.
    pub fn with_prompt(self, prompt: Option<PromptFingerprint>) -> (r: Self)
        ensures
            r.capture_id == self.capture_id,
            r.attempt == self.attempt,
            r.prompt == prompt,
    {
        UsageContext { capture_id: self.capture_id, attempt: self.attempt, prompt }
    }
}

/// FNV-1a over bytes, 64-bit: stable across builds, unlike `DefaultHasher`.
pub open spec fn fnv1a64(bytes: Seq<u8>) -> u64
    decreases bytes.len(),
{
    if bytes.len() == 0 {
        0xcbf2_9ce4_8422_2325
    } else {
        (fnv1a64(bytes.drop_last()) ^ (bytes.last() as u64)).wrapping_mul(0x0000_0100_0000_01b3)
    }
}

/// FNV-1a of the UTF-8 bytes of `value`.
pub fn fnv1a(value: &str) -> (r: u64)
    ensures
        r == fnv1a64(value.spec_bytes()),
{
    let bytes = value.as_bytes();
    let mut hash: u64 = 0xcbf2_9ce4_8422_2325;
    let mut i: usize = 0;
    while i < bytes.len()
        invariant
            i <= bytes@.len(),
            bytes@ == value.spec_bytes(),
            hash == fnv1a64(bytes@.take(i as int)),
        decreases bytes@.len() - i,
    {
        assert(bytes@.take(i + 1).drop_last() =~= bytes@.take(i as int));
        hash = (hash ^ (bytes[i] as u64)).wrapping_mul(0x0000_0100_0000_01b3);
        i += 1;
    }
    assert(bytes@.take(i as int) =~= bytes@);
    hash
}

/// A character kept in a file name: ASCII letters, digits, `-` and `_`.
pub open spec fn safe_char(c: char) -> char {
    if is_ascii_alnum(c) || c == '-' || c == '_' {
        c
    } else {
        '-'
    }
}

/// A string made safe for a file name: every other character a dash, dashes trimmed from both
/// ends, at most 80 characters.
pub open spec fn safe_component_of(value: Seq<char>) -> Seq<char> {
    let mapped = value.map_values(|c: char| safe_char(c));
    let t = trim_start_char(trim_end_char(mapped, '-'), '-');
    if t.len() <= 80 {
        t
    } else {
        t.take(80)
    }
}

pub fn safe_component(value: &str) -> (r: String)
    ensures
        r@ == safe_component_of(value@),
{
    let cs = chars_of(value);
    let mut mapped: Vec<char> = Vec::new();
    let mut i: usize = 0;
    while i < cs.len()
        invariant
            i <= cs@.len(),
            cs@ == value@,
            mapped@ == cs@.take(i as int).map_values(|c: char| safe_char(c)),
        decreases cs@.len() - i,
    {
        let c = cs[i];
        let kept = if is_ascii_alphanumeric(c) || c == '-' || c == '_' {
            c
        } else {
            '-'
        };
        mapped.push(kept);
        assert(cs@.take(i + 1).map_values(|c: char| safe_char(c)) =~= cs@.take(i as int).map_values(
            |c: char| safe_char(c),
        ).push(safe_char(c)));
        i += 1;
    }
    assert(cs@.take(i as int) =~= cs@);
    trim_end_in_place(&mut mapped, '-');
    let t = trim_start_copy(&mapped, '-');
    let n: usize = if t.len() <= 80 {
        t.len()
    } else {
        80
    };
    let mut out = String::new();
    let mut k: usize = 0;
    while k < n
        invariant
            k <= n,
            n <= t@.len(),
            out@ == t@.take(k as int),
        decreases n - k,
    {
        push_char(&mut out, t[k]);
        assert(t@.take(k + 1) =~= t@.take(k as int).push(t@[k as int]));
        k += 1;
    }
    assert(t@.len() <= 80 ==> t@.take(k as int) =~= t@);
    out
}

/// A JSON number that is a non-negative integer fitting `u64`, as `serde_json`'s `as_u64`
/// reads it. Numbers are held as the text `serde_json` prints them in, so an integer is a run
/// of digits and anything else (a sign, a point, an exponent) is not one.
pub open spec fn number_u64(v: JsonView) -> Option<u64> {
    match v {
        JsonView::Number(t) => if t.len() > 0 {
            match digits_value(t, 10) {
                Some(n) => if n <= u64::MAX {
                    Some(n as u64)
                } else {
                    None
                },
                None => None,
            }
        } else {
            None
        },
        _ => None,
    }
}

pub open spec fn opt_field(v: Option<JsonView>, key: Seq<char>) -> Option<JsonView> {
    match v {
        Some(j) => field(j, key),
        None => None,
    }
}

pub open spec fn opt_u64(v: Option<JsonView>) -> Option<u64> {
    match v {
        Some(j) => number_u64(j),
        None => None,
    }
}

/// The usage block of a response, when it reports the three totals.
pub open spec fn usage_of(response: JsonView) -> Option<ApiTokenUsage> {
    match field(response, "usage"@) {
        None => None,
        Some(u) => match (
            opt_u64(field(u, "input_tokens"@)),
            opt_u64(field(u, "output_tokens"@)),
            opt_u64(field(u, "total_tokens"@)),
        ) {
            (Some(i), Some(o), Some(t)) => Some(
                ApiTokenUsage {
                    input_tokens: i,
                    output_tokens: o,
                    total_tokens: t,
                    cached_input_tokens: opt_u64(
                        opt_field(field(u, "input_tokens_details"@), "cached_tokens"@),
                    ),
                    reasoning_output_tokens: opt_u64(
                        opt_field(field(u, "output_tokens_details"@), "reasoning_tokens"@),
                    ),
                },
            ),
            _ => None,
        },
    }
}

pub fn as_u64(v: Option<&Json>) -> (r: Option<u64>)
    ensures
        r == opt_u64(
            match v {
                Some(j) => Some(j@),
                None => None,
            },
        ),
{
    let t = match v {
        Some(Json::Number(t)) => t,
        _ => {
            return None;
        },
    };
    let cs = chars_of(t.as_str());
    if cs.len() == 0 {
        return None;
    }
    let mut value: u128 = 0;
    let mut i: usize = 0;
    while i < cs.len()
        invariant
            i <= cs@.len(),
            cs@ == t@,
            cs@.len() > 0,
            opt_u64(
                match v {
                    Some(j) => Some(j@),
                    None => None,
                },
            ) == number_u64(JsonView::Number(cs@)),
            digits_value(cs@.take(i as int), 10) == Some(value as nat),
            value <= u64::MAX,
        decreases cs@.len() - i,
    {
        assert(cs@.take(i + 1).drop_last() =~= cs@.take(i as int));
        let c = cs[i];
        if !('0' <= c && c <= '9') {
            assert(digits_value(cs@.take(i + 1), 10) is None);
            proof {
                if digits_value(cs@, 10) is Some {
                    crate::html::lemma_digits_value_mono(cs@, 10, i + 1);
                }
            }
            return None;
        }
        let next: u128 = value * 10 + ((c as u32) - 48) as u128;
        assert(digits_value(cs@.take(i + 1), 10) == Some(next as nat));
        if next > 0xffff_ffff_ffff_ffff {
            proof {
                if digits_value(cs@, 10) is Some {
                    crate::html::lemma_digits_value_mono(cs@, 10, i + 1);
                }
            }
            return None;
        }
        value = next;
        i += 1;
    }
    assert(cs@.take(i as int) =~= cs@);
    Some(value as u64)
}

fn sub_get<'a>(v: Option<&'a Json>, key: &str) -> (r: Option<&'a Json>)
    ensures
        match r {
            Some(j) => opt_field(
                match v {
                    Some(x) => Some(x@),
                    None => None,
                },
                key@,
            ) == Some(j@),
            None => opt_field(
                match v {
                    Some(x) => Some(x@),
                    None => None,
                },
                key@,
            ) is None,
        },
{
    match v {
        Some(j) => j.get(key),
        None => None,
    }
}

/// The token usage a response reports, when it reports input, output and total counts.
pub fn token_usage(response: &Json) -> (r: Option<ApiTokenUsage>)
    ensures
        r == usage_of(response@),
{
    let u = match response.get("usage") {
        Some(u) => u,
        None => {
            return None;
        },
    };
    let input = as_u64(u.get("input_tokens"));
    let output = as_u64(u.get("output_tokens"));
    let total = as_u64(u.get("total_tokens"));
    match (input, output, total) {
        (Some(i), Some(o), Some(t)) => Some(
            ApiTokenUsage {
                input_tokens: i,
                output_tokens: o,
                total_tokens: t,
                cached_input_tokens: as_u64(sub_get(u.get("input_tokens_details"), "cached_tokens")),
                reasoning_output_tokens: as_u64(
                    sub_get(u.get("output_tokens_details"), "reasoning_tokens"),
                ),
            },
        ),
        _ => None,
    }
}


/// The content blocks of a message, when its content is an array of blocks.
pub open spec fn blocks_of(message: JsonView) -> Seq<JsonView> {
    elements_of(field(message, "content"@))
}

/// A block that marks the end of the reusable prefix.
pub open spec fn has_breakpoint(block: JsonView) -> bool {
    field(block, "prompt_cache_breakpoint"@) is Some
}

/// The first block, over the messages in order and each message's blocks in order, that
/// carries a cache breakpoint.
pub open spec fn first_breakpoint(messages: Seq<JsonView>) -> Option<JsonView>
    decreases messages.len(),
{
    if messages.len() == 0 {
        None
    } else {
        let bs = blocks_of(messages[0]);
        let j = first_where(bs, |b: JsonView| has_breakpoint(b));
        if j < bs.len() {
            Some(bs[j])
        } else {
            first_breakpoint(messages.drop_first())
        }
    }
}

/// A message whose role is the string `user`.
pub open spec fn is_user_message(message: JsonView) -> bool {
    text_of(field(message, "role"@)) == Some("user"@)
}

/// The text content of the first user message; empty when there is none or its content is
/// not a string.
pub open spec fn user_text(messages: Seq<JsonView>) -> Seq<char> {
    let i = first_where(messages, |m: JsonView| is_user_message(m));
    if i < messages.len() {
        match text_of(field(messages[i], "content"@)) {
            Some(t) => t,
            None => seq![],
        }
    } else {
        seq![]
    }
}

/// `s` up to the first occurrence of `marker`, or all of `s` when the marker is absent.
pub open spec fn head_before(s: Seq<char>, marker: Seq<char>) -> Seq<char> {
    match first_at(s, marker, 0) {
        Some(at) => s.take(at),
        None => s,
    }
}

/// The text a request declares as its reusable prefix: the text of the first block carrying a
/// cache breakpoint; failing that, the first user message up to `marker`.
pub open spec fn declared_prefix_of(request: JsonView, marker: Seq<char>) -> Seq<char> {
    let ms = elements_of(field(request, "input"@));
    let fallback = head_before(user_text(ms), marker);
    match first_breakpoint(ms) {
        Some(b) => match text_of(field(b, "text"@)) {
            Some(t) => t,
            None => fallback,
        },
        None => fallback,
    }
}

/// The first block of `blocks` that carries a breakpoint.
fn breakpoint_in(blocks: &Vec<Json>) -> (r: Option<&Json>)
    ensures
        ({
            let bs = views_of(blocks@);
            let j = first_where(bs, |b: JsonView| has_breakpoint(b));
            match r {
                Some(b) => j < bs.len() && b@ == bs[j],
                None => j == bs.len(),
            }
        }),
{
    proof {
        lemma_views_of(blocks@);
    }
    let ghost bs = views_of(blocks@);
    let ghost p = |b: JsonView| has_breakpoint(b);
    let mut j: usize = 0;
    while j < blocks.len()
        invariant
            j <= blocks@.len(),
            bs == views_of(blocks@),
            bs.len() == blocks@.len(),
            forall|k: int| 0 <= k < blocks@.len() ==> #[trigger] bs[k] == blocks@[k]@,
            p == (|b: JsonView| has_breakpoint(b)),
            forall|k: int| 0 <= k < j ==> !p(#[trigger] bs[k]),
        decreases blocks@.len() - j,
    {
        if blocks[j].get("prompt_cache_breakpoint").is_some() {
            proof {
                lemma_first_where_at(bs, p, j as int);
            }
            return Some(&blocks[j]);
        }
        j += 1;
    }
    proof {
        lemma_first_where_at(bs, p, j as int);
    }
    None
}

/// The first block carrying a breakpoint, over `messages` in order.
fn breakpoint_block(messages: &Vec<Json>) -> (r: Option<&Json>)
    ensures
        match r {
            Some(b) => first_breakpoint(views_of(messages@)) == Some(b@),
            None => first_breakpoint(views_of(messages@)) is None,
        },
{
    proof {
        lemma_views_of(messages@);
    }
    let ghost ms = views_of(messages@);
    let mut i: usize = 0;
    assert(ms.skip(0) =~= ms);
    while i < messages.len()
        invariant
            i <= messages@.len(),
            ms == views_of(messages@),
            ms.len() == messages@.len(),
            forall|k: int| 0 <= k < messages@.len() ==> #[trigger] ms[k] == messages@[k]@,
            first_breakpoint(ms) == first_breakpoint(ms.skip(i as int)),
        decreases messages@.len() - i,
    {
        assert(ms.skip(i as int)[0] == ms[i as int]);
        assert(ms.skip(i as int).drop_first() =~= ms.skip(i + 1));
        let hit = match messages[i].get("content") {
            Some(content) => match content.as_array() {
                Some(blocks) => breakpoint_in(blocks),
                None => None,
            },
            None => None,
        };
        if hit.is_some() {
            return hit;
        }
        i += 1;
    }
    assert(ms.skip(i as int).len() == 0);
    None
}

/// The text content of the first user message, as `user_text` states it.
fn user_content(messages: &Vec<Json>) -> (r: &str)
    ensures
        r@ == user_text(views_of(messages@)),
{
    proof {
        lemma_views_of(messages@);
        reveal_strlit("");
    }
    let ghost ms = views_of(messages@);
    let ghost is_user = |m: JsonView| is_user_message(m);
    let mut u: usize = 0;
    while u < messages.len()
        invariant
            u <= messages@.len(),
            ms == views_of(messages@),
            ms.len() == messages@.len(),
            forall|k: int| 0 <= k < messages@.len() ==> #[trigger] ms[k] == messages@[k]@,
            is_user == (|m: JsonView| is_user_message(m)),
            forall|k: int| 0 <= k < u ==> !is_user(#[trigger] ms[k]),
        decreases messages@.len() - u,
    {
        let role = match messages[u].get("role") {
            Some(r) => r.as_str(),
            None => None,
        };
        assert(opt_str_view(role) == text_of(field(ms[u as int], "role"@)));
        let is_user_role = match role {
            Some(r) => str_eq(r, "user"),
            None => false,
        };
        if is_user_role {
            assert(is_user(ms[u as int]));
            proof {
                lemma_first_where_at(ms, is_user, u as int);
                reveal_strlit("");
            }
            return match messages[u].get("content") {
                Some(c) => match c.as_str() {
                    Some(t) => t,
                    None => "",
                },
                None => "",
            };
        }
        assert(!is_user(ms[u as int]));
        u += 1;
    }
    proof {
        lemma_first_where_at(ms, is_user, u as int);
    }
    ""
}

/// The prefix text a request declares, as `declared_prefix_of` states it.
pub fn declared_prefix(request: &Json, marker: &str) -> (r: String)
    ensures
        r@ == declared_prefix_of(request@, marker@),
{
    let empty: Vec<Json> = Vec::new();
    let messages: &Vec<Json> = match request.get("input") {
        Some(input) => match input.as_array() {
            Some(items) => items,
            None => &empty,
        },
        None => &empty,
    };
    proof {
        lemma_views_of(messages@);
    }
    assert(views_of(messages@) == elements_of(field(request@, "input"@)));
    if let Some(block) = breakpoint_block(messages) {
        if let Some(text) = block.get("text") {
            if let Some(t) = text.as_str() {
                return t.to_string();
            }
        }
    }
    let content = user_content(messages);
    let cs = chars_of(content);
    let mc = chars_of(marker);
    match find_first(&cs, &mc, 0) {
        Some(at) => {
            proof {
                lemma_first_at_bounds(cs@, mc@, 0);
            }
            let mut out = String::new();
            let mut k: usize = 0;
            while k < at
                invariant
                    k <= at,
                    at <= cs@.len(),
                    out@ == cs@.take(k as int),
                decreases at - k,
            {
                push_char(&mut out, cs[k]);
                assert(cs@.take(k + 1) =~= cs@.take(k as int).push(cs@[k as int]));
                k += 1;
            }
            out
        },
        None => content.to_string(),
    }
}

/// Two requests that declare the same reusable prefix get the same prefix hash and length,
/// whatever else differs; two identical serialized bodies get the same body hash.
pub proof fn lemma_shared_prefix_same_hash(a: JsonView, b: JsonView, marker: Seq<char>, sa: &str, sb: &str)
    requires
        declared_prefix_of(a, marker) == declared_prefix_of(b, marker),
    ensures
        fnv1a64(encode_utf8(declared_prefix_of(a, marker))) == fnv1a64(
            encode_utf8(declared_prefix_of(b, marker)),
        ),
        declared_prefix_of(a, marker).len() as u32 == declared_prefix_of(b, marker).len() as u32,
        sa@ == sb@ ==> fnv1a64(sa.spec_bytes()) == fnv1a64(sb.spec_bytes()),
{
}

/// The fingerprint of an outgoing request whose serialized body is `serialized`: the hash and
/// length in characters of its declared prefix, and the hash of the whole body.
pub fn fingerprint_of(request: &Json, serialized: &str, marker: &str) -> (r: PromptFingerprint)
    ensures
        r.prefix_hash == fnv1a64(encode_utf8(declared_prefix_of(request@, marker@))),
        r.prefix_chars == declared_prefix_of(request@, marker@).len() as u32,
        r.body_hash == fnv1a64(serialized.spec_bytes()),
{
    let prefix = declared_prefix(request, marker);
    let prefix_hash = fnv1a(prefix.as_str());
    let n = chars_of(prefix.as_str()).len();
    PromptFingerprint { prefix_hash, prefix_chars: n as u32, body_hash: fnv1a(serialized) }
}

} // verus!
