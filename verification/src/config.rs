//! Settings: the API key as it is cleaned before use or storage, and the endpoint settings
//! with their defaults. Reading the environment and the credential store is the caller's.

use vstd::prelude::*;
use crate::text::{is_space, string_of, trim_str, trim_ws_end, trim_ws_start, trimmed};

verus! {

/// The OpenAI key a raw value yields: the value trimmed, or nothing when that is empty.
pub open spec fn cleaned_key(value: Seq<char>) -> Option<Seq<char>> {
    if trimmed(value).len() == 0 {
        None
    } else {
        Some(trimmed(value))
    }
}

/// `cleaned_key` of `value`.
pub fn clean_api_key(value: &str) -> (r: Option<String>)
    ensures
        match r {
            Some(k) => cleaned_key(value@) == Some(k@),
            None => cleaned_key(value@) is None,
        },
{
    let t = trim_str(value);
    if t.len() == 0 {
        None
    } else {
        Some(string_of(&t))
    }
}

proof fn lemma_trim_ws_end_shape(s: Seq<char>)
    ensures
        exists|k: int| 0 <= k <= s.len() && trim_ws_end(s) == s.take(k),
        trim_ws_end(s).len() > 0 ==> !is_space(trim_ws_end(s).last()),
    decreases s.len(),
{
    if s.len() > 0 && is_space(s.last()) {
        lemma_trim_ws_end_shape(s.drop_last());
        let k = choose|k: int| 0 <= k <= s.drop_last().len() && trim_ws_end(s.drop_last()) == s.drop_last().take(k);
        assert(s.drop_last().take(k) =~= s.take(k));
    } else {
        assert(s.take(s.len() as int) =~= s);
    }
}

proof fn lemma_trim_ws_start_shape(s: Seq<char>)
    ensures
        exists|k: int| 0 <= k <= s.len() && trim_ws_start(s) == s.subrange(k, s.len() as int),
        trim_ws_start(s).len() > 0 ==> !is_space(trim_ws_start(s)[0]),
    decreases s.len(),
{
    if s.len() > 0 && is_space(s[0]) {
        lemma_trim_ws_start_shape(s.drop_first());
        let k = choose|k: int|
            0 <= k <= s.drop_first().len() && trim_ws_start(s.drop_first()) == s.drop_first().subrange(
                k,
                s.drop_first().len() as int,
            );
        assert(s.drop_first().subrange(k, s.drop_first().len() as int) =~= s.subrange(
            k + 1,
            s.len() as int,
        ));
    } else {
        assert(s.subrange(0, s.len() as int) =~= s);
    }
}

/// Trimming twice trims no more than trimming once.
pub proof fn lemma_trimmed_idempotent(s: Seq<char>)
    ensures
        trimmed(trimmed(s)) == trimmed(s),
{
    let e = trim_ws_end(s);
    let t = trim_ws_start(e);
    lemma_trim_ws_end_shape(s);
    lemma_trim_ws_start_shape(e);
    if t.len() > 0 {
        let k = choose|k: int| 0 <= k <= e.len() && t == e.subrange(k, e.len() as int);
        assert(t.last() == e.last());
        assert(trim_ws_end(t) == t);
        assert(trim_ws_start(t) == t);
    }
}

/// A cleaned key is never empty and has nothing left to trim, so cleaning it again gives it
/// back: a key saved through `api_key_to_save` reads back through `clean_api_key` unchanged,
/// equal to the trimmed value that was entered.
pub proof fn lemma_cleaned_key_stable(value: Seq<char>)
    ensures
        cleaned_key(value) matches Some(k) ==> k.len() > 0 && trimmed(k) == k && cleaned_key(k)
            == Some(k),
        cleaned_key(value) matches Some(k) ==> k == trimmed(value),
{
    lemma_trimmed_idempotent(value);
}

/// The refusal of a blank key.
pub const BLANK_KEY_MESSAGE: &'static str = "Enter a non-empty OpenAI API key.";

/// The key to store for `value`: its trimmed form, or a refusal when it is blank.
pub fn api_key_to_save(value: &str) -> (r: Result<String, String>)
    ensures
        match r {
            Ok(k) => cleaned_key(value@) == Some(k@),
            Err(m) => cleaned_key(value@) is None && m@ == BLANK_KEY_MESSAGE@,
        },
{
    match clean_api_key(value) {
        Some(k) => Ok(k),
        None => Err(BLANK_KEY_MESSAGE.to_string()),
    }
}

/// A setting: the given value when it is not blank, else `default`. The value is kept as
/// given, untrimmed.
pub open spec fn setting_or(value: Option<Seq<char>>, default: Seq<char>) -> Seq<char> {
    match value {
        Some(v) => if trimmed(v).len() == 0 {
            default
        } else {
            v
        },
        None => default,
    }
}

pub open spec fn opt_view(value: Option<String>) -> Option<Seq<char>> {
    match value {
        Some(v) => Some(v@),
        None => None,
    }
}

/// `setting_or` of `value` and `default`.
pub fn setting_or_default(value: Option<String>, default: &str) -> (r: String)
    ensures
        r@ == setting_or(opt_view(value), default@),
{
    match value {
        Some(v) => {
            if trim_str(v.as_str()).len() == 0 {
                default.to_string()
            } else {
                v
            }
        },
        None => default.to_string(),
    }
}

/// The endpoint every OpenAI call goes to unless configured otherwise.
pub const DEFAULT_BASE_URL: &'static str = "https://api.openai.com/v1";

} // verus!
