//! Tailoring: the checks a tailored resume must pass before it is rendered, the audit of its
//! bullet rewrites, and the diff and report built from it.

use vstd::prelude::*;
use crate::text::{
    chars_of, count_words, decimal, push_decimal, push_str, str_eq, string_of, strs, trim_str,
    trimmed, word_count,
};
use crate::json::{
    at, field, idx, index_key, json_eq, lemma_member_views, lemma_views_of, member_lookup,
    member_views, text_of, view_of, views_of, Json, JsonView,
};
use crate::ats::{term_views, AtsCoverage, MissReason, TermView};
use crate::evidence::{
    placement_covered, placement_term_is_covered_in_any, trim_end_char, trim_end_in_place,
    trim_start_char, trim_start_copy,
};
use crate::analysis::JobAnalysis;
use crate::http::{push_status, status_text};
use crate::bank::{EntryView, EvidenceEntry, entry_views, note_view};
use crate::text::{digit_char, ascii_lower, is_ascii_alnum, is_ascii_alphanumeric, to_ascii_lowercase, utf8_len, utf8_len_of};

verus! {

broadcast use vstd::seq_lib::group_seq_properties;

/// Why tailoring did not produce a usable resume.
#[derive(Debug)]
pub enum TailoringError {
    UnsupportedLanguage(String),
    Request(String),
    Http { status: u16, body: String },
    MissingOutputText,
    EmptyResponseBody,
    EmptyOutputText,
    InvalidJson(String),
    IncompleteResponse(String),
    Refused(String),
    InvalidTailoredContent(String),
    MissingWorkspaceRoot,
    Io(String),
    Render(String),
    Validation(String),
    OnePageFit { attempts: usize, page_counts: Vec<u32> },
    Fit(String),
}

/// A list of numbers as `Debug` prints it: `[1, 2, 3]`.
pub open spec fn number_list(xs: Seq<u32>) -> Seq<char> {
    "["@ + joined(xs.map_values(|x: u32| decimal(x as nat)), ", "@) + "]"@
}

/// How a tailoring error reads to the user.
pub open spec fn tailoring_error_text(e: TailoringError) -> Seq<char> {
    match e {
        TailoringError::UnsupportedLanguage(s) => "Unsupported resume language: "@ + s@,
        TailoringError::Request(s) => "OpenAI request failed: "@ + s@,
        TailoringError::Http { status, body } => "OpenAI returned HTTP "@ + status_text(status)
            + ": "@ + body@,
        TailoringError::MissingOutputText => "OpenAI response did not contain structured output text"@,
        TailoringError::EmptyResponseBody => "OpenAI returned an empty response body"@,
        TailoringError::EmptyOutputText => "OpenAI returned empty structured output text"@,
        TailoringError::InvalidJson(s) => "OpenAI tailoring JSON was invalid: "@ + s@,
        TailoringError::IncompleteResponse(s) => "OpenAI stopped early ("@ + s@
            + "); the tailored resume is incomplete"@,
        TailoringError::Refused(s) => "OpenAI declined to tailor this resume: "@ + s@,
        TailoringError::InvalidTailoredContent(s) => "Tailored resume failed safety validation: "@
            + s@,
        TailoringError::MissingWorkspaceRoot => "Could not locate repository root with resume/content"@,
        TailoringError::Io(s) => "File operation failed: "@ + s@,
        TailoringError::Render(s) => "Resume render failed: "@ + s@,
        TailoringError::Validation(s) => "Resume validation failed: "@ + s@,
        TailoringError::OnePageFit { attempts, page_counts } => "Resume did not fit on one page after "@
            + decimal(attempts as nat) + " attempts: "@ + number_list(page_counts@),
        TailoringError::Fit(s) => "Resume one-page fit check failed: "@ + s@,
    }
}

fn push_number_list(out: &mut String, xs: &Vec<u32>)
    ensures
        final(out)@ == old(out)@ + number_list(xs@),
{
    let ghost start = out@;
    let ghost ds = xs@.map_values(|x: u32| decimal(x as nat));
    push_str(out, "[");
    let mut i: usize = 0;
    while i < xs.len()
        invariant
            i <= xs@.len(),
            ds == xs@.map_values(|x: u32| decimal(x as nat)),
            out@ == start + "["@ + joined(ds.take(i as int), ", "@),
        decreases xs@.len() - i,
    {
        assert(ds.take(i + 1).drop_last() =~= ds.take(i as int));
        if i > 0 {
            push_str(out, ", ");
        }
        push_decimal(out, xs[i] as u64);
        i += 1;
    }
    assert(ds.take(i as int) =~= ds);
    push_str(out, "]");
}

impl TailoringError {
    /// The error as the user reads it.
    pub fn message(&self) -> (r: String)
        ensures
            r@ == tailoring_error_text(*self),
    {
        let mut out = String::new();
        proof {
            reveal_strlit("");
        }
        match self {
            TailoringError::UnsupportedLanguage(s) => {
                push_str(&mut out, "Unsupported resume language: ");
                push_str(&mut out, s.as_str());
            },
            TailoringError::Request(s) => {
                push_str(&mut out, "OpenAI request failed: ");
                push_str(&mut out, s.as_str());
            },
            TailoringError::Http { status, body } => {
                push_str(&mut out, "OpenAI returned HTTP ");
                push_status(&mut out, *status);
                push_str(&mut out, ": ");
                push_str(&mut out, body.as_str());
            },
            TailoringError::MissingOutputText => {
                push_str(&mut out, "OpenAI response did not contain structured output text");
            },
            TailoringError::EmptyResponseBody => {
                push_str(&mut out, "OpenAI returned an empty response body");
            },
            TailoringError::EmptyOutputText => {
                push_str(&mut out, "OpenAI returned empty structured output text");
            },
            TailoringError::InvalidJson(s) => {
                push_str(&mut out, "OpenAI tailoring JSON was invalid: ");
                push_str(&mut out, s.as_str());
            },
            TailoringError::IncompleteResponse(s) => {
                push_str(&mut out, "OpenAI stopped early (");
                push_str(&mut out, s.as_str());
                push_str(&mut out, "); the tailored resume is incomplete");
            },
            TailoringError::Refused(s) => {
                push_str(&mut out, "OpenAI declined to tailor this resume: ");
                push_str(&mut out, s.as_str());
            },
            TailoringError::InvalidTailoredContent(s) => {
                push_str(&mut out, "Tailored resume failed safety validation: ");
                push_str(&mut out, s.as_str());
            },
            TailoringError::MissingWorkspaceRoot => {
                push_str(&mut out, "Could not locate repository root with resume/content");
            },
            TailoringError::Io(s) => {
                push_str(&mut out, "File operation failed: ");
                push_str(&mut out, s.as_str());
            },
            TailoringError::Render(s) => {
                push_str(&mut out, "Resume render failed: ");
                push_str(&mut out, s.as_str());
            },
            TailoringError::Validation(s) => {
                push_str(&mut out, "Resume validation failed: ");
                push_str(&mut out, s.as_str());
            },
            TailoringError::OnePageFit { attempts, page_counts } => {
                push_str(&mut out, "Resume did not fit on one page after ");
                push_decimal(&mut out, *attempts as u64);
                push_str(&mut out, " attempts: ");
                push_number_list(&mut out, page_counts);
            },
            TailoringError::Fit(s) => {
                push_str(&mut out, "Resume one-page fit check failed: ");
                push_str(&mut out, s.as_str());
            },
        }
        out
    }
}

/// The languages a base resume exists in.
pub open spec fn language_supported(language: Seq<char>) -> bool {
    language == "en"@ || language == "fr"@
}

pub fn validate_language(language: &str) -> (r: Result<(), TailoringError>)
    ensures
        match r {
            Ok(()) => language_supported(language@),
            Err(TailoringError::UnsupportedLanguage(l)) => !language_supported(language@) && l@
                == language@,
            Err(_) => false,
        },
{
    if str_eq(language, "en") || str_eq(language, "fr") {
        Ok(())
    } else {
        Err(TailoringError::UnsupportedLanguage(language.to_owned()))
    }
}

pub fn invalid_message(message: String) -> (r: TailoringError)
    ensures
        r matches TailoringError::InvalidTailoredContent(m) && m@ == message@,
{
    TailoringError::InvalidTailoredContent(message)
}

// ------------------------------------------------------------------ content checks

/// A value that is not a string, or a string that is blank once trimmed.
pub open spec fn blank_text(v: JsonView) -> bool {
    match v {
        JsonView::Str(s) => trimmed(s).len() == 0,
        _ => true,
    }
}

fn is_blank_text(v: &Json) -> (r: bool)
    ensures
        r == blank_text(v@),
{
    match v.as_str() {
        Some(s) => trim_str(s).len() == 0,
        None => true,
    }
}

pub open spec fn is_array(v: JsonView) -> bool {
    v is Array
}

pub open spec fn arr(v: JsonView) -> Seq<JsonView> {
    match v {
        JsonView::Array(xs) => xs,
        _ => seq![],
    }
}

pub open spec fn obj(v: JsonView) -> Seq<(Seq<char>, JsonView)> {
    match v {
        JsonView::Object(ms) => ms,
        _ => seq![],
    }
}

pub open spec fn job_field_changed_msg(i: nat, what: Seq<char>) -> Seq<char> {
    "experience."@ + decimal(i) + what
}

pub open spec fn any_blank(xs: Seq<JsonView>) -> bool {
    exists|k: int| 0 <= k < xs.len() && blank_text(#[trigger] xs[k])
}

/// What is wrong with tailored job `i`, checked in order: a locked field changed, bullets that
/// are not arrays, a changed bullet count, a blank bullet.
pub open spec fn job_problem(bj: JsonView, tj: JsonView, i: nat) -> Option<Seq<char>> {
    if idx(bj, "company"@) != idx(tj, "company"@) {
        Some(job_field_changed_msg(i, ".company changed"@))
    } else if idx(bj, "location"@) != idx(tj, "location"@) {
        Some(job_field_changed_msg(i, ".location changed"@))
    } else if idx(bj, "title"@) != idx(tj, "title"@) {
        Some(job_field_changed_msg(i, ".title changed"@))
    } else if idx(bj, "dates"@) != idx(tj, "dates"@) {
        Some(job_field_changed_msg(i, ".dates changed"@))
    } else if !is_array(idx(bj, "bullets"@)) {
        Some("base bullets are not an array"@)
    } else if !is_array(idx(tj, "bullets"@)) {
        Some("tailored bullets are not an array"@)
    } else if arr(idx(bj, "bullets"@)).len() != arr(idx(tj, "bullets"@)).len() {
        Some("experience."@ + decimal(i) + ".bullets count changed"@)
    } else if any_blank(arr(idx(tj, "bullets"@))) {
        Some("experience."@ + decimal(i) + ".bullets contains empty text"@)
    } else {
        None
    }
}

/// The first problem among the job pairs, by job index.
pub open spec fn jobs_problem(bs: Seq<JsonView>, ts: Seq<JsonView>) -> Option<Seq<char>>
    decreases bs.len(),
{
    if bs.len() == 0 || ts.len() == 0 {
        None
    } else {
        match jobs_problem(bs.drop_last(), ts.drop_last()) {
            Some(m) => Some(m),
            None => job_problem(bs.last(), ts.last(), (bs.len() - 1) as nat),
        }
    }
}

pub open spec fn keys_of(ms: Seq<(Seq<char>, JsonView)>) -> Set<Seq<char>> {
    ms.map_values(|m: (Seq<char>, JsonView)| m.0).to_set()
}

/// The first blank skill line, by stored member order.
pub open spec fn first_blank_skill(ms: Seq<(Seq<char>, JsonView)>) -> Option<Seq<char>>
    decreases ms.len(),
{
    if ms.len() == 0 {
        None
    } else {
        match first_blank_skill(ms.drop_last()) {
            Some(k) => Some(k),
            None => if blank_text(ms.last().1) {
                Some(ms.last().0)
            } else {
                None
            },
        }
    }
}

pub open spec fn skills_problem(base: JsonView, tailored: JsonView) -> Option<Seq<char>> {
    let bsk = idx(base, "skills"@);
    let tsk = idx(tailored, "skills"@);
    if !(bsk is Object) || !(tsk is Object) {
        Some("value is not an object"@)
    } else if keys_of(obj(bsk)) != keys_of(obj(tsk)) {
        Some("skills keys changed"@)
    } else {
        match first_blank_skill(obj(tsk)) {
            Some(k) => Some("skills."@ + k + " is empty"@),
            None => None,
        }
    }
}

/// The first reason, in checking order, that a tailored resume must be refused; `None` when
/// it keeps the base resume's shape and locked facts. Meta fields must be unchanged and the
/// language the requested one; the summary, every bullet and every skill line must be
/// non-blank text; jobs, bullets and skill keys must match the base one for one.
pub open spec fn content_problem(language: Seq<char>, base: JsonView, tailored: JsonView) -> Option<
    Seq<char>,
> {
    let bm = idx(base, "meta"@);
    let tm = idx(tailored, "meta"@);
    let bx = idx(base, "experience"@);
    let tx = idx(tailored, "experience"@);
    if idx(bm, "language"@) != idx(tm, "language"@) {
        Some("meta.language changed"@)
    } else if idx(tm, "language"@) != JsonView::Str(language) {
        Some("tailored meta.language does not match request language"@)
    } else if idx(bm, "type"@) != idx(tm, "type"@) {
        Some("meta.type changed"@)
    } else if idx(bm, "template"@) != idx(tm, "template"@) {
        Some("meta.template changed"@)
    } else if blank_text(idx(tailored, "summary"@)) {
        Some("summary is empty"@)
    } else if !is_array(bx) {
        Some("base experience is not an array"@)
    } else if !is_array(tx) {
        Some("tailored experience is not an array"@)
    } else if arr(bx).len() != arr(tx).len() {
        Some("experience job count changed"@)
    } else if jobs_problem(arr(bx), arr(tx)) is Some {
        jobs_problem(arr(bx), arr(tx))
    } else {
        skills_problem(base, tailored)
    }
}

/// A tailored resume the renderer may take: supported language and no content problem.
pub open spec fn tailored_ok(language: Seq<char>, base: JsonView, tailored: JsonView) -> bool {
    language_supported(language) && content_problem(language, base, tailored) is None
}

fn message_with_index(prefix: &str, i: usize, suffix: &str) -> (r: String)
    ensures
        r@ == prefix@ + decimal(i as nat) + suffix@,
{
    let mut s = String::new();
    push_str(&mut s, prefix);
    push_decimal(&mut s, i as u64);
    push_str(&mut s, suffix);
    s
}

fn field_changed(bj: &Json, tj: &Json, name: &str, null: &Json) -> (r: bool)
    requires
        null@ == JsonView::Null,
    ensures
        r == (idx(bj@, name@) != idx(tj@, name@)),
{
    !json_eq(index_key(bj, name, null), index_key(tj, name, null))
}

fn any_blank_item(xs: &Vec<Json>) -> (r: bool)
    ensures
        r == any_blank(views_of(xs@)),
{
    proof {
        lemma_views_of(xs@);
    }
    let mut k: usize = 0;
    while k < xs.len()
        invariant
            k <= xs@.len(),
            views_of(xs@).len() == xs@.len(),
            forall|j: int| 0 <= j < xs@.len() ==> #[trigger] views_of(xs@)[j] == xs@[j]@,
            forall|j: int| 0 <= j < k ==> !blank_text(#[trigger] views_of(xs@)[j]),
        decreases xs@.len() - k,
    {
        if is_blank_text(&xs[k]) {
            assert(blank_text(views_of(xs@)[k as int]));
            return true;
        }
        k += 1;
    }
    false
}

fn check_job(bj: &Json, tj: &Json, i: usize) -> (r: Option<String>)
    ensures
        match r {
            Some(m) => job_problem(bj@, tj@, i as nat) == Some(m@),
            None => job_problem(bj@, tj@, i as nat) is None,
        },
{
    let null = Json::Null;
    if field_changed(bj, tj, "company", &null) {
        return Some(message_with_index("experience.", i, ".company changed"));
    }
    if field_changed(bj, tj, "location", &null) {
        return Some(message_with_index("experience.", i, ".location changed"));
    }
    if field_changed(bj, tj, "title", &null) {
        return Some(message_with_index("experience.", i, ".title changed"));
    }
    if field_changed(bj, tj, "dates", &null) {
        return Some(message_with_index("experience.", i, ".dates changed"));
    }
    let bb = index_key(bj, "bullets", &null);
    let tb = index_key(tj, "bullets", &null);
    let base_bullets = match bb.as_array() {
        Some(v) => v,
        None => {
            return Some("base bullets are not an array".to_owned());
        },
    };
    let tailored_bullets = match tb.as_array() {
        Some(v) => v,
        None => {
            return Some("tailored bullets are not an array".to_owned());
        },
    };
    proof {
        lemma_views_of(base_bullets@);
        lemma_views_of(tailored_bullets@);
    }
    if base_bullets.len() != tailored_bullets.len() {
        return Some(message_with_index("experience.", i, ".bullets count changed"));
    }
    if any_blank_item(tailored_bullets) {
        return Some(message_with_index("experience.", i, ".bullets contains empty text"));
    }
    None
}

fn key_listed(ms: &Vec<(String, Json)>, key: &str) -> (r: bool)
    ensures
        r == keys_of(member_views(ms@)).contains(key@),
{
    proof {
        lemma_member_views(ms@);
    }
    let ghost ks = member_views(ms@).map_values(|m: (Seq<char>, JsonView)| m.0);
    let mut k: usize = 0;
    while k < ms.len()
        invariant
            k <= ms@.len(),
            ks == member_views(ms@).map_values(|m: (Seq<char>, JsonView)| m.0),
            ks.len() == ms@.len(),
            forall|j: int| 0 <= j < ms@.len() ==> #[trigger] ks[j] == ms@[j].0@,
            forall|j: int| 0 <= j < k ==> ks[j] != key@,
        decreases ms@.len() - k,
    {
        if str_eq(ms[k].0.as_str(), key) {
            assert(ks[k as int] == key@);
            return true;
        }
        k += 1;
    }
    false
}

fn keys_within(a: &Vec<(String, Json)>, b: &Vec<(String, Json)>) -> (r: bool)
    ensures
        r == keys_of(member_views(a@)).subset_of(keys_of(member_views(b@))),
{
    proof {
        lemma_member_views(a@);
    }
    let ghost ka = member_views(a@).map_values(|m: (Seq<char>, JsonView)| m.0);
    let mut k: usize = 0;
    while k < a.len()
        invariant
            k <= a@.len(),
            ka == member_views(a@).map_values(|m: (Seq<char>, JsonView)| m.0),
            ka.len() == a@.len(),
            forall|j: int| 0 <= j < a@.len() ==> #[trigger] ka[j] == a@[j].0@,
            forall|j: int| 0 <= j < k ==> keys_of(member_views(b@)).contains(#[trigger] ka[j]),
        decreases a@.len() - k,
    {
        if !key_listed(b, a[k].0.as_str()) {
            assert(keys_of(member_views(a@)).contains(ka[k as int]));
            return false;
        }
        k += 1;
    }
    assert forall|x: Seq<char>| keys_of(member_views(a@)).contains(x) implies keys_of(
        member_views(b@),
    ).contains(x) by {
        let j = choose|j: int| 0 <= j < ka.len() && ka[j] == x;
    }
    true
}

fn first_blank_member(ms: &Vec<(String, Json)>) -> (r: Option<usize>)
    ensures
        match r {
            Some(k) => k < ms@.len() && first_blank_skill(member_views(ms@)) == Some(ms@[k as int].0@),
            None => first_blank_skill(member_views(ms@)) is None,
        },
{
    proof {
        lemma_member_views(ms@);
    }
    let ghost mv = member_views(ms@);
    let mut k: usize = 0;
    while k < ms.len()
        invariant
            k <= ms@.len(),
            mv == member_views(ms@),
            mv.len() == ms@.len(),
            forall|j: int|
                0 <= j < ms@.len() ==> #[trigger] mv[j] == (ms@[j].0@, view_of(ms@[j].1)),
            first_blank_skill(mv.take(k as int)) is None,
        decreases ms@.len() - k,
    {
        assert(mv.take(k + 1).drop_last() =~= mv.take(k as int));
        if is_blank_text(&ms[k].1) {
            proof {
                lemma_first_blank_prefix(mv, k as int);
            }
            return Some(k);
        }
        k += 1;
    }
    assert(mv.take(k as int) =~= mv);
    None
}

proof fn lemma_first_blank_prefix(mv: Seq<(Seq<char>, JsonView)>, k: int)
    requires
        0 <= k < mv.len(),
        first_blank_skill(mv.take(k)) is None,
        blank_text(mv[k].1),
    ensures
        first_blank_skill(mv) == Some(mv[k].0),
    decreases mv.len(),
{
    if mv.len() - 1 > k {
        assert(mv.drop_last().take(k) =~= mv.take(k));
        lemma_first_blank_prefix(mv.drop_last(), k);
    } else {
        assert(mv.drop_last() =~= mv.take(k));
    }
}

fn check_skills(base: &Json, tailored: &Json) -> (r: Option<String>)
    ensures
        match r {
            Some(m) => skills_problem(base@, tailored@) == Some(m@),
            None => skills_problem(base@, tailored@) is None,
        },
{
    let null = Json::Null;
    let bs = index_key(base, "skills", &null);
    let ts = index_key(tailored, "skills", &null);
    let (bm, tm) = match (bs.as_object(), ts.as_object()) {
        (Some(b), Some(t)) => (b, t),
        _ => {
            return Some("value is not an object".to_owned());
        },
    };
    let within = keys_within(bm, tm);
    let back = keys_within(tm, bm);
    if !(within && back) {
        proof {
            if keys_of(member_views(bm@)) == keys_of(member_views(tm@)) {
                assert(keys_of(member_views(bm@)).subset_of(keys_of(member_views(tm@))));
            }
        }
        return Some("skills keys changed".to_owned());
    }
    assert(keys_of(member_views(bm@)) =~= keys_of(member_views(tm@)));
    match first_blank_member(tm) {
        Some(k) => {
            let mut s = String::new();
            push_str(&mut s, "skills.");
            push_str(&mut s, tm[k].0.as_str());
            push_str(&mut s, " is empty");
            Some(s)
        },
        None => None,
    }
}

fn check_jobs(bs: &Vec<Json>, ts: &Vec<Json>) -> (r: Option<String>)
    requires
        bs@.len() == ts@.len(),
    ensures
        match r {
            Some(m) => jobs_problem(views_of(bs@), views_of(ts@)) == Some(m@),
            None => jobs_problem(views_of(bs@), views_of(ts@)) is None,
        },
{
    proof {
        lemma_views_of(bs@);
        lemma_views_of(ts@);
    }
    let ghost bv = views_of(bs@);
    let ghost tv = views_of(ts@);
    let mut i: usize = 0;
    while i < bs.len()
        invariant
            i <= bs@.len(),
            bs@.len() == ts@.len(),
            bv == views_of(bs@),
            tv == views_of(ts@),
            bv.len() == bs@.len(),
            tv.len() == ts@.len(),
            forall|j: int| 0 <= j < bs@.len() ==> #[trigger] bv[j] == bs@[j]@,
            forall|j: int| 0 <= j < ts@.len() ==> #[trigger] tv[j] == ts@[j]@,
            jobs_problem(bv.take(i as int), tv.take(i as int)) is None,
        decreases bs@.len() - i,
    {
        assert(bv.take(i + 1).drop_last() =~= bv.take(i as int));
        assert(tv.take(i + 1).drop_last() =~= tv.take(i as int));
        match check_job(&bs[i], &ts[i], i) {
            Some(m) => {
                proof {
                    lemma_jobs_problem_prefix(bv, tv, i as int);
                }
                return Some(m);
            },
            None => {},
        }
        i += 1;
    }
    assert(bv.take(i as int) =~= bv);
    assert(tv.take(i as int) =~= tv);
    None
}

proof fn lemma_jobs_problem_prefix(bv: Seq<JsonView>, tv: Seq<JsonView>, i: int)
    requires
        bv.len() == tv.len(),
        0 <= i < bv.len(),
        jobs_problem(bv.take(i), tv.take(i)) is None,
        job_problem(bv[i], tv[i], i as nat) is Some,
    ensures
        jobs_problem(bv, tv) == job_problem(bv[i], tv[i], i as nat),
    decreases bv.len(),
{
    if bv.len() - 1 > i {
        assert(bv.drop_last().take(i) =~= bv.take(i));
        assert(tv.drop_last().take(i) =~= tv.take(i));
        lemma_jobs_problem_prefix(bv.drop_last(), tv.drop_last(), i);
    } else {
        assert(bv.drop_last() =~= bv.take(i));
        assert(tv.drop_last() =~= tv.take(i));
    }
}

proof fn lemma_jobs_ok(bs: Seq<JsonView>, ts: Seq<JsonView>)
    requires
        bs.len() == ts.len(),
        jobs_problem(bs, ts) is None,
    ensures
        forall|k: int| 0 <= k < bs.len() ==> #[trigger] job_problem(bs[k], ts[k], k as nat) is None,
    decreases bs.len(),
{
    if bs.len() > 0 {
        lemma_jobs_ok(bs.drop_last(), ts.drop_last());
        assert forall|k: int| 0 <= k < bs.len() implies #[trigger] job_problem(
            bs[k],
            ts[k],
            k as nat,
        ) is None by {
            if k < bs.len() - 1 {
                assert(bs.drop_last()[k] == bs[k]);
                assert(ts.drop_last()[k] == ts[k]);
            }
        }
    }
}

proof fn lemma_zip_bullets_at(i: nat, bb: Seq<JsonView>, tb: Seq<JsonView>, n: nat)
    requires
        n <= bb.len(),
        n <= tb.len(),
    ensures
        zip_bullets(i, bb, tb, n).len() == n,
        forall|j: int|
            0 <= j < n ==> (#[trigger] zip_bullets(i, bb, tb, n)[j]).after == tb[j]
                && zip_bullets(i, bb, tb, n)[j].before == bb[j],
    decreases n,
{
    if n > 0 {
        lemma_zip_bullets_at(i, bb, tb, (n - 1) as nat);
        assert forall|j: int| 0 <= j < n implies (#[trigger] zip_bullets(i, bb, tb, n)[j]).after
            == tb[j] && zip_bullets(i, bb, tb, n)[j].before == bb[j] by {
            if j < n - 1 {
                assert(zip_bullets(i, bb, tb, n)[j] == zip_bullets(i, bb, tb, (n - 1) as nat)[j]);
            }
        }
    }
}

proof fn lemma_zip_jobs_text(bx: Seq<JsonView>, tx: Seq<JsonView>, n: nat)
    requires
        n <= bx.len(),
        n <= tx.len(),
        forall|k: int, b: int|
            0 <= k < n && 0 <= b < bullets_of(tx[k]).len() ==> #[trigger] bullets_of(tx[k])[b] is Str,
    ensures
        forall|j: int| 0 <= j < zip_jobs(bx, tx, n).len() ==> (#[trigger] zip_jobs(bx, tx, n)[j]).after is Str,
    decreases n,
{
    if n > 0 {
        lemma_zip_jobs_text(bx, tx, (n - 1) as nat);
        let bb = bullets_of(bx[n - 1]);
        let tb = bullets_of(tx[n - 1]);
        let m = min_len(bb.len(), tb.len());
        lemma_zip_bullets_at((n - 1) as nat, bb, tb, m);
        let prev = zip_jobs(bx, tx, (n - 1) as nat);
        let z = zip_bullets((n - 1) as nat, bb, tb, m);
        assert(zip_jobs(bx, tx, n) == prev + z);
        assert forall|j: int| 0 <= j < zip_jobs(bx, tx, n).len() implies (#[trigger] zip_jobs(
            bx,
            tx,
            n,
        )[j]).after is Str by {
            if j >= prev.len() {
                let b = j - prev.len();
                assert(zip_jobs(bx, tx, n)[j] == z[b]);
                assert(z[b].after == tb[b]);
                assert(bullets_of(tx[n - 1])[b] is Str);
            } else {
                assert(zip_jobs(bx, tx, n)[j] == prev[j]);
            }
        }
    }
}

/// A tailored resume that passed `validate_tailored_content` has every job's bullets as
/// arrays on both sides, and every tailored bullet is text; in particular a bullet left
/// unchanged is text.
pub proof fn lemma_validated_shape(language: Seq<char>, base: JsonView, tailored: JsonView)
    requires
        tailored_ok(language, base, tailored),
    ensures
        bullets_shaped(base, tailored),
        forall|j: int|
            0 <= j < pairs_of(base, tailored).len() ==> (#[trigger] pairs_of(base, tailored)[j]).after is Str,
        unchanged_are_text(pairs_of(base, tailored)),
{
    let bx = arr(idx(base, "experience"@));
    let tx = arr(idx(tailored, "experience"@));
    lemma_jobs_ok(bx, tx);
    assert forall|k: int, b: int|
        0 <= k < min_len(bx.len(), tx.len()) && 0 <= b < bullets_of(tx[k]).len() implies #[trigger] bullets_of(
        tx[k],
    )[b] is Str by {
        assert(job_problem(bx[k], tx[k], k as nat) is None);
        assert(!blank_text(arr(idx(tx[k], "bullets"@))[b]));
    }
    lemma_zip_jobs_text(bx, tx, min_len(bx.len(), tx.len()));
    assert forall|k: int|
        0 <= k < min_len(bx.len(), tx.len()) implies (#[trigger] idx(bx[k], "bullets"@) is Array)
            && idx(tx[k], "bullets"@) is Array by {
        assert(job_problem(bx[k], tx[k], k as nat) is None);
    }
}

/// Refuses a tailored resume that does not keep the base resume's shape and locked facts.
pub fn validate_tailored_content(language: &str, base: &Json, tailored: &Json) -> (r: Result<
    (),
    TailoringError,
>)
    ensures
        match r {
            Ok(()) => tailored_ok(language@, base@, tailored@),
            Err(TailoringError::UnsupportedLanguage(l)) => !language_supported(language@) && l@
                == language@,
            Err(TailoringError::InvalidTailoredContent(m)) => language_supported(language@)
                && content_problem(language@, base@, tailored@) == Some(m@),
            Err(_) => false,
        },
{
    validate_language(language)?;
    match content_check(language, base, tailored) {
        Some(m) => Err(invalid_message(m)),
        None => Ok(()),
    }
}

fn content_check(language: &str, base: &Json, tailored: &Json) -> (r: Option<String>)
    ensures
        match r {
            Some(m) => content_problem(language@, base@, tailored@) == Some(m@),
            None => content_problem(language@, base@, tailored@) is None,
        },
{
    let null = Json::Null;
    let bm = index_key(base, "meta", &null);
    let tm = index_key(tailored, "meta", &null);
    if field_changed(bm, tm, "language", &null) {
        return Some("meta.language changed".to_owned());
    }
    let lang_matches = match index_key(tm, "language", &null) {
        Json::Str(s) => str_eq(s.as_str(), language),
        _ => false,
    };
    if !lang_matches {
        return Some("tailored meta.language does not match request language".to_owned());
    }
    if field_changed(bm, tm, "type", &null) {
        return Some("meta.type changed".to_owned());
    }
    if field_changed(bm, tm, "template", &null) {
        return Some("meta.template changed".to_owned());
    }
    if is_blank_text(index_key(tailored, "summary", &null)) {
        return Some("summary is empty".to_owned());
    }
    let base_experience = match index_key(base, "experience", &null).as_array() {
        Some(v) => v,
        None => {
            return Some("base experience is not an array".to_owned());
        },
    };
    let tailored_experience = match index_key(tailored, "experience", &null).as_array() {
        Some(v) => v,
        None => {
            return Some("tailored experience is not an array".to_owned());
        },
    };
    proof {
        lemma_views_of(base_experience@);
        lemma_views_of(tailored_experience@);
    }
    if base_experience.len() != tailored_experience.len() {
        return Some("experience job count changed".to_owned());
    }
    match check_jobs(base_experience, tailored_experience) {
        Some(m) => {
            return Some(m);
        },
        None => {},
    }
    check_skills(base, tailored)
}

// ------------------------------------------------------------------ bullet pairs

/// What the tailoring model says it did to one experience bullet.
#[derive(Clone, Copy, Debug, PartialEq, Eq, Structural)]
pub enum BulletRewriteOutcome {
    Rewritten,
    NoRelevantMatch,
    Replaced,
}

/// The model's account of one bullet: which one, what it did, and why.
#[derive(Clone, Debug)]
pub struct BulletRewriteDecision {
    pub experience_index: usize,
    pub bullet_index: usize,
    pub outcome: BulletRewriteOutcome,
    pub rationale: String,
}

pub struct DecisionView {
    pub experience_index: nat,
    pub bullet_index: nat,
    pub outcome: BulletRewriteOutcome,
    pub rationale: Seq<char>,
}

impl View for BulletRewriteDecision {
    type V = DecisionView;

    open spec fn view(&self) -> DecisionView {
        DecisionView {
            experience_index: self.experience_index as nat,
            bullet_index: self.bullet_index as nat,
            outcome: self.outcome,
            rationale: self.rationale@,
        }
    }
}

pub open spec fn decision_views(v: Seq<BulletRewriteDecision>) -> Seq<DecisionView> {
    v.map_values(|d: BulletRewriteDecision| d@)
}

/// The tailoring report: the measured keyword lists, the model's notes and estimate, the
/// measured coverage, and the audit of every bullet.
#[derive(Debug)]
pub struct TailoringReport {
    pub covered_keywords: Vec<String>,
    pub omitted_unsupported_keywords: Vec<String>,
    pub changed_fields: Vec<String>,
    pub safety_notes: Vec<String>,
    /// The model's self-assessed coverage; advisory only.
    pub model_estimated_ats_coverage_score: u8,
    pub ats_coverage: Option<AtsCoverage>,
    pub bullet_rewrite_decisions: Vec<BulletRewriteDecision>,
}

/// A tailored resume as the model returned it.
#[derive(Debug)]
pub struct TailoredResume {
    pub content: Json,
    pub report: TailoringReport,
}

/// One bullet of the base resume beside the same bullet of the tailored one.
pub struct BulletPair {
    pub experience_index: usize,
    pub bullet_index: usize,
    pub before: Json,
    pub after: Json,
}

pub struct PairView {
    pub experience_index: nat,
    pub bullet_index: nat,
    pub before: JsonView,
    pub after: JsonView,
}

impl View for BulletPair {
    type V = PairView;

    open spec fn view(&self) -> PairView {
        PairView {
            experience_index: self.experience_index as nat,
            bullet_index: self.bullet_index as nat,
            before: self.before@,
            after: self.after@,
        }
    }
}

pub open spec fn pair_views(v: Seq<BulletPair>) -> Seq<PairView> {
    v.map_values(|p: BulletPair| p@)
}

pub open spec fn min_len(a: nat, b: nat) -> nat {
    if a <= b {
        a
    } else {
        b
    }
}

/// The bullets of job `i`, zipped up to the shorter list.
pub open spec fn zip_bullets(i: nat, bb: Seq<JsonView>, tb: Seq<JsonView>, n: nat) -> Seq<PairView>
    decreases n,
{
    if n == 0 {
        seq![]
    } else {
        zip_bullets(i, bb, tb, (n - 1) as nat).push(
            PairView {
                experience_index: i,
                bullet_index: (n - 1) as nat,
                before: bb[n - 1],
                after: tb[n - 1],
            },
        )
    }
}

pub open spec fn bullets_of(job: JsonView) -> Seq<JsonView> {
    arr(idx(job, "bullets"@))
}

pub open spec fn zip_jobs(bx: Seq<JsonView>, tx: Seq<JsonView>, n: nat) -> Seq<PairView>
    decreases n,
{
    if n == 0 {
        seq![]
    } else {
        let bb = bullets_of(bx[n - 1]);
        let tb = bullets_of(tx[n - 1]);
        zip_jobs(bx, tx, (n - 1) as nat) + zip_bullets(
            (n - 1) as nat,
            bb,
            tb,
            min_len(bb.len(), tb.len()),
        )
    }
}

/// Every (job, bullet) of the two documents side by side, in reading order, each list zipped
/// to the shorter one.
pub open spec fn pairs_of(base: JsonView, tailored: JsonView) -> Seq<PairView> {
    let bx = arr(idx(base, "experience"@));
    let tx = arr(idx(tailored, "experience"@));
    zip_jobs(bx, tx, min_len(bx.len(), tx.len()))
}

fn array_or_empty<'a>(v: &'a Json, empty: &'a Vec<Json>) -> (r: &'a Vec<Json>)
    requires
        empty@.len() == 0,
    ensures
        views_of(r@) == arr(v@),
{
    proof {
        lemma_views_of(empty@);
    }
    match v.as_array() {
        Some(xs) => xs,
        None => {
            assert(views_of(empty@) =~= arr(v@));
            empty
        },
    }
}

fn push_job_pairs(out: &mut Vec<BulletPair>, i: usize, bj: &Json, tj: &Json)
    ensures
        pair_views(final(out)@) == pair_views(old(out)@) + zip_bullets(
            i as nat,
            bullets_of(bj@),
            bullets_of(tj@),
            min_len(bullets_of(bj@).len(), bullets_of(tj@).len()),
        ),
{
    let null = Json::Null;
    let empty: Vec<Json> = Vec::new();
    let bb = array_or_empty(index_key(bj, "bullets", &null), &empty);
    let tb = array_or_empty(index_key(tj, "bullets", &null), &empty);
    proof {
        lemma_views_of(bb@);
        lemma_views_of(tb@);
    }
    let n = if bb.len() <= tb.len() {
        bb.len()
    } else {
        tb.len()
    };
    let ghost start = pair_views(out@);
    let mut b: usize = 0;
    while b < n
        invariant
            b <= n,
            n <= bb@.len(),
            n <= tb@.len(),
            forall|k: int| 0 <= k < bb@.len() ==> #[trigger] views_of(bb@)[k] == bb@[k]@,
            forall|k: int| 0 <= k < tb@.len() ==> #[trigger] views_of(tb@)[k] == tb@[k]@,
            views_of(bb@) == bullets_of(bj@),
            views_of(tb@) == bullets_of(tj@),
            pair_views(out@) == start + zip_bullets(
                i as nat,
                bullets_of(bj@),
                bullets_of(tj@),
                b as nat,
            ),
        decreases n - b,
    {
        let ghost before = out@;
        out.push(
            BulletPair {
                experience_index: i,
                bullet_index: b,
                before: bb[b].deep_copy(),
                after: tb[b].deep_copy(),
            },
        );
        assert(pair_views(out@) =~= pair_views(before).push(
            PairView {
                experience_index: i as nat,
                bullet_index: b as nat,
                before: bullets_of(bj@)[b as int],
                after: bullets_of(tj@)[b as int],
            },
        ));
        b += 1;
    }
}

/// The bullets of both documents side by side.
pub fn bullet_pairs(base: &Json, tailored: &Json) -> (r: Vec<BulletPair>)
    ensures
        pair_views(r@) == pairs_of(base@, tailored@),
{
    let null = Json::Null;
    let empty: Vec<Json> = Vec::new();
    let bx = array_or_empty(index_key(base, "experience", &null), &empty);
    let tx = array_or_empty(index_key(tailored, "experience", &null), &empty);
    proof {
        lemma_views_of(bx@);
        lemma_views_of(tx@);
    }
    let ghost bv = views_of(bx@);
    let ghost tv = views_of(tx@);
    let n = if bx.len() <= tx.len() {
        bx.len()
    } else {
        tx.len()
    };
    let mut out: Vec<BulletPair> = Vec::new();
    let mut i: usize = 0;
    while i < n
        invariant
            i <= n,
            n <= bx@.len(),
            n <= tx@.len(),
            bv == views_of(bx@),
            tv == views_of(tx@),
            forall|k: int| 0 <= k < bx@.len() ==> #[trigger] bv[k] == bx@[k]@,
            forall|k: int| 0 <= k < tx@.len() ==> #[trigger] tv[k] == tx@[k]@,
            pair_views(out@) == zip_jobs(bv, tv, i as nat),
        decreases n - i,
    {
        push_job_pairs(&mut out, i, &bx[i], &tx[i]);
        i += 1;
    }
    out
}

/// How many bullets the tailored document changed.
pub open spec fn changed_count(ps: Seq<PairView>) -> nat
    decreases ps.len(),
{
    if ps.len() == 0 {
        0
    } else {
        changed_count(ps.drop_last()) + if ps.last().before != ps.last().after {
            1nat
        } else {
            0nat
        }
    }
}

pub fn count_changed_experience_bullets(base: &Json, tailored: &Json) -> (r: u32)
    ensures
        r == changed_count(pairs_of(base@, tailored@)) as u32,
{
    let pairs = bullet_pairs(base, tailored);
    let ghost ps = pair_views(pairs@);
    let mut count: usize = 0;
    let mut i: usize = 0;
    while i < pairs.len()
        invariant
            i <= pairs@.len(),
            ps == pair_views(pairs@),
            count <= i,
            count == changed_count(ps.take(i as int)),
        decreases pairs@.len() - i,
    {
        assert(ps.take(i + 1).drop_last() =~= ps.take(i as int));
        if !json_eq(&pairs[i].before, &pairs[i].after) {
            count += 1;
        }
        i += 1;
    }
    assert(ps.take(i as int) =~= ps);
    count as u32
}

// ------------------------------------------------------------- the bullet audit

/// Both documents have an experience array, and each zipped pair of jobs has bullet arrays:
/// what reading the bullets side by side takes.
pub open spec fn bullets_shaped(base: JsonView, tailored: JsonView) -> bool {
    let bx = idx(base, "experience"@);
    let tx = idx(tailored, "experience"@);
    &&& bx is Array
    &&& tx is Array
    &&& forall|k: int|
        0 <= k < min_len(arr(bx).len(), arr(tx).len()) ==> (#[trigger] idx(arr(bx)[k], "bullets"@)
            is Array) && idx(arr(tx)[k], "bullets"@) is Array
}

pub open spec fn pair_msg(prefix: Seq<char>, i: nat, b: nat, suffix: Seq<char>) -> Seq<char> {
    prefix + decimal(i) + "/"@ + decimal(b) + suffix
}

pub open spec fn has_pair(ps: Seq<PairView>, i: nat, b: nat) -> bool {
    exists|k: int|
        0 <= k < ps.len() && (#[trigger] ps[k]).experience_index == i && ps[k].bullet_index == b
}

pub open spec fn pair_changed(ps: Seq<PairView>, i: nat, b: nat) -> bool {
    exists|k: int|
        0 <= k < ps.len() && (#[trigger] ps[k]).experience_index == i && ps[k].bullet_index == b
            && ps[k].before != ps[k].after
}

pub open spec fn duplicated_before(ds: Seq<DecisionView>, k: int) -> bool {
    exists|j: int|
        0 <= j < k && (#[trigger] ds[j]).experience_index == ds[k].experience_index
            && ds[j].bullet_index == ds[k].bullet_index
}

/// What is wrong with decision `k`: it names no bullet, repeats an earlier one, calls an
/// unchanged bullet rewritten, or calls a changed one untouched.
pub open spec fn decision_problem(ds: Seq<DecisionView>, k: int, ps: Seq<PairView>) -> Option<
    Seq<char>,
> {
    let d = ds[k];
    let i = d.experience_index;
    let b = d.bullet_index;
    if !has_pair(ps, i, b) {
        Some(pair_msg("bullet rewrite decision references missing experience bullet "@, i, b, ""@))
    } else if duplicated_before(ds, k) {
        Some(pair_msg("bullet rewrite decision is duplicated for experience bullet "@, i, b, ""@))
    } else if d.outcome == BulletRewriteOutcome::Rewritten && !pair_changed(ps, i, b) {
        Some(
            pair_msg(
                "bullet rewrite decision marks unchanged experience bullet "@,
                i,
                b,
                " as rewritten"@,
            ),
        )
    } else if d.outcome == BulletRewriteOutcome::NoRelevantMatch && pair_changed(ps, i, b) {
        Some(
            pair_msg(
                "bullet rewrite decision marks changed experience bullet "@,
                i,
                b,
                " as no_relevant_match"@,
            ),
        )
    } else {
        None
    }
}

/// The problem of the first faulty decision.
pub open spec fn decisions_problem(ds: Seq<DecisionView>, ps: Seq<PairView>) -> Option<Seq<char>>
    decreases ds.len(),
{
    if ds.len() == 0 {
        None
    } else {
        match decisions_problem(ds.drop_last(), ps) {
            Some(m) => Some(m),
            None => decision_problem(ds, ds.len() - 1, ps),
        }
    }
}

pub open spec fn decision_paths(ds: Seq<DecisionView>) -> Set<(nat, nat)> {
    ds.map_values(|d: DecisionView| (d.experience_index, d.bullet_index)).to_set()
}

pub open spec fn pair_paths(ps: Seq<PairView>) -> Set<(nat, nat)> {
    ps.map_values(|p: PairView| (p.experience_index, p.bullet_index)).to_set()
}

pub open spec fn all_changed(ps: Seq<PairView>) -> bool {
    forall|k: int| 0 <= k < ps.len() ==> (#[trigger] ps[k]).before != ps[k].after
}

/// Every bullet must differ from the base, and the audit must hold exactly one truthful
/// decision per bullet.
pub open spec fn audit_problem(ps: Seq<PairView>, ds: Seq<DecisionView>) -> Option<Seq<char>> {
    if !all_changed(ps) {
        Some("every experience bullet must be rewritten; skills-only tailoring is not accepted"@)
    } else if decisions_problem(ds, ps) is Some {
        decisions_problem(ds, ps)
    } else if decision_paths(ds) != pair_paths(ps) {
        Some("one rewrite decision is required for every experience bullet"@)
    } else {
        None
    }
}

fn pair_message(prefix: &str, i: usize, b: usize, suffix: &str) -> (r: String)
    ensures
        r@ == pair_msg(prefix@, i as nat, b as nat, suffix@),
{
    let mut s = String::new();
    push_str(&mut s, prefix);
    push_decimal(&mut s, i as u64);
    push_str(&mut s, "/");
    push_decimal(&mut s, b as u64);
    push_str(&mut s, suffix);
    s
}

fn find_pair(pairs: &Vec<BulletPair>, i: usize, b: usize) -> (r: (bool, bool))
    ensures
        r.0 == has_pair(pair_views(pairs@), i as nat, b as nat),
        r.1 == pair_changed(pair_views(pairs@), i as nat, b as nat),
{
    let ghost ps = pair_views(pairs@);
    let mut found = false;
    let mut changed = false;
    let mut k: usize = 0;
    while k < pairs.len()
        invariant
            k <= pairs@.len(),
            ps == pair_views(pairs@),
            found == exists|j: int|
                0 <= j < k && (#[trigger] ps[j]).experience_index == i && ps[j].bullet_index == b,
            changed == exists|j: int|
                0 <= j < k && (#[trigger] ps[j]).experience_index == i && ps[j].bullet_index == b
                    && ps[j].before != ps[j].after,
        decreases pairs@.len() - k,
    {
        let p = &pairs[k];
        if p.experience_index == i && p.bullet_index == b {
            assert(ps[k as int].experience_index == i);
            found = true;
            if !json_eq(&p.before, &p.after) {
                changed = true;
            }
        }
        k += 1;
    }
    (found, changed)
}

fn seen_before(ds: &Vec<BulletRewriteDecision>, k: usize) -> (r: bool)
    requires
        k < ds@.len(),
    ensures
        r == duplicated_before(decision_views(ds@), k as int),
{
    let ghost dv = decision_views(ds@);
    let mut j: usize = 0;
    while j < k
        invariant
            j <= k,
            k < ds@.len(),
            dv == decision_views(ds@),
            forall|m: int|
                0 <= m < j ==> !((#[trigger] dv[m]).experience_index == dv[k as int].experience_index
                    && dv[m].bullet_index == dv[k as int].bullet_index),
        decreases k - j,
    {
        if ds[j].experience_index == ds[k].experience_index && ds[j].bullet_index
            == ds[k].bullet_index {
            assert(dv[j as int].experience_index == dv[k as int].experience_index);
            return true;
        }
        j += 1;
    }
    false
}

fn check_decision(
    ds: &Vec<BulletRewriteDecision>,
    k: usize,
    pairs: &Vec<BulletPair>,
) -> (r: Option<String>)
    requires
        k < ds@.len(),
    ensures
        match r {
            Some(m) => decision_problem(decision_views(ds@), k as int, pair_views(pairs@)) == Some(
                m@,
            ),
            None => decision_problem(decision_views(ds@), k as int, pair_views(pairs@)) is None,
        },
{
    let d = &ds[k];
    let i = d.experience_index;
    let b = d.bullet_index;
    let (present, changed) = find_pair(pairs, i, b);
    if !present {
        return Some(pair_message("bullet rewrite decision references missing experience bullet ", i, b, ""));
    }
    if seen_before(ds, k) {
        return Some(pair_message("bullet rewrite decision is duplicated for experience bullet ", i, b, ""));
    }
    match d.outcome {
        BulletRewriteOutcome::Rewritten => {
            if !changed {
                return Some(
                    pair_message(
                        "bullet rewrite decision marks unchanged experience bullet ",
                        i,
                        b,
                        " as rewritten",
                    ),
                );
            }
        },
        BulletRewriteOutcome::NoRelevantMatch => {
            if changed {
                return Some(
                    pair_message(
                        "bullet rewrite decision marks changed experience bullet ",
                        i,
                        b,
                        " as no_relevant_match",
                    ),
                );
            }
        },
        BulletRewriteOutcome::Replaced => {},
    }
    None
}

proof fn lemma_decisions_prefix(ds: Seq<DecisionView>, ps: Seq<PairView>, k: int)
    requires
        0 <= k < ds.len(),
        decisions_problem(ds.take(k), ps) is None,
        decision_problem(ds, k, ps) is Some,
    ensures
        decisions_problem(ds, ps) == decision_problem(ds, k, ps),
    decreases ds.len(),
{
    lemma_decision_problem_prefix(ds, ps, k, k + 1);
    if ds.len() - 1 > k {
        assert(ds.drop_last().take(k) =~= ds.take(k));
        lemma_decision_problem_prefix(ds, ps, k, ds.len() - 1);
        lemma_decisions_prefix(ds.drop_last(), ps, k);
    } else {
        assert(ds.drop_last() =~= ds.take(k));
    }
}

/// Whether decision `k` is faulty depends only on the decisions up to it.
proof fn lemma_decision_problem_prefix(ds: Seq<DecisionView>, ps: Seq<PairView>, k: int, n: int)
    requires
        0 <= k < n <= ds.len(),
    ensures
        decision_problem(ds.take(n), k, ps) == decision_problem(ds, k, ps),
{
    assert(ds.take(n)[k] == ds[k]);
    assert(duplicated_before(ds.take(n), k) == duplicated_before(ds, k)) by {
        if duplicated_before(ds, k) {
            let j = choose|j: int|
                0 <= j < k && (#[trigger] ds[j]).experience_index == ds[k].experience_index
                    && ds[j].bullet_index == ds[k].bullet_index;
            assert(ds.take(n)[j] == ds[j]);
        }
        if duplicated_before(ds.take(n), k) {
            let j = choose|j: int|
                0 <= j < k && (#[trigger] ds.take(n)[j]).experience_index == ds.take(
                    n,
                )[k].experience_index && ds.take(n)[j].bullet_index == ds.take(n)[k].bullet_index;
            assert(ds.take(n)[j] == ds[j]);
        }
    }
}

proof fn lemma_decisions_none(ds: Seq<DecisionView>, ps: Seq<PairView>)
    requires
        decisions_problem(ds, ps) is None,
    ensures
        forall|k: int| 0 <= k < ds.len() ==> #[trigger] decision_problem(ds, k, ps) is None,
    decreases ds.len(),
{
    if ds.len() > 0 {
        lemma_decisions_none(ds.drop_last(), ps);
        assert forall|k: int| 0 <= k < ds.len() implies #[trigger] decision_problem(ds, k, ps)
            is None by {
            if k < ds.len() - 1 {
                assert(ds.drop_last() =~= ds.take(ds.len() - 1));
                lemma_decision_problem_prefix(ds, ps, k, ds.len() - 1);
                assert(decision_problem(ds.drop_last(), k, ps) is None);
            }
        }
    }
}

fn check_decisions(ds: &Vec<BulletRewriteDecision>, pairs: &Vec<BulletPair>) -> (r: Option<String>)
    ensures
        match r {
            Some(m) => decisions_problem(decision_views(ds@), pair_views(pairs@)) == Some(m@),
            None => decisions_problem(decision_views(ds@), pair_views(pairs@)) is None,
        },
{
    let ghost dv = decision_views(ds@);
    let ghost ps = pair_views(pairs@);
    let mut k: usize = 0;
    while k < ds.len()
        invariant
            k <= ds@.len(),
            dv == decision_views(ds@),
            ps == pair_views(pairs@),
            decisions_problem(dv.take(k as int), ps) is None,
        decreases ds@.len() - k,
    {
        match check_decision(ds, k, pairs) {
            Some(m) => {
                proof {
                    lemma_decisions_prefix(dv, ps, k as int);
                }
                return Some(m);
            },
            None => {},
        }
        proof {
            let t = dv.take(k + 1);
            assert(t.drop_last() =~= dv.take(k as int));
            lemma_decision_problem_prefix(dv, ps, k as int, k + 1);
        }
        k += 1;
    }
    assert(dv.take(k as int) =~= dv);
    None
}

fn all_pairs_changed(pairs: &Vec<BulletPair>) -> (r: bool)
    ensures
        r == all_changed(pair_views(pairs@)),
{
    let ghost ps = pair_views(pairs@);
    let mut k: usize = 0;
    while k < pairs.len()
        invariant
            k <= pairs@.len(),
            ps == pair_views(pairs@),
            forall|j: int| 0 <= j < k ==> (#[trigger] ps[j]).before != ps[j].after,
        decreases pairs@.len() - k,
    {
        if json_eq(&pairs[k].before, &pairs[k].after) {
            assert(ps[k as int].before == ps[k as int].after);
            return false;
        }
        k += 1;
    }
    true
}

fn every_pair_decided(ds: &Vec<BulletRewriteDecision>, pairs: &Vec<BulletPair>) -> (r: bool)
    ensures
        r == pair_paths(pair_views(pairs@)).subset_of(decision_paths(decision_views(ds@))),
{
    let ghost dv = decision_views(ds@);
    let ghost ps = pair_views(pairs@);
    let ghost dp = dv.map_values(|d: DecisionView| (d.experience_index, d.bullet_index));
    let ghost pp = ps.map_values(|p: PairView| (p.experience_index, p.bullet_index));
    let mut k: usize = 0;
    while k < pairs.len()
        invariant
            k <= pairs@.len(),
            dv == decision_views(ds@),
            ps == pair_views(pairs@),
            dp == dv.map_values(|d: DecisionView| (d.experience_index, d.bullet_index)),
            pp == ps.map_values(|p: PairView| (p.experience_index, p.bullet_index)),
            forall|j: int| 0 <= j < k ==> dp.to_set().contains(#[trigger] pp[j]),
        decreases pairs@.len() - k,
    {
        let i = pairs[k].experience_index;
        let b = pairs[k].bullet_index;
        let mut m: usize = 0;
        let mut hit = false;
        while m < ds.len()
            invariant
                m <= ds@.len(),
                dv == decision_views(ds@),
                dp == dv.map_values(|d: DecisionView| (d.experience_index, d.bullet_index)),
                dp.len() == ds@.len(),
                hit == (exists|j: int| 0 <= j < m && #[trigger] dp[j] == (i as nat, b as nat)),
            decreases ds@.len() - m,
        {
            if ds[m].experience_index == i && ds[m].bullet_index == b {
                assert(dp[m as int] == (i as nat, b as nat));
                hit = true;
            } else {
                assert(dp[m as int] != (i as nat, b as nat));
            }
            m += 1;
        }
        if !hit {
            proof {
                if dp.to_set().contains((i as nat, b as nat)) {
                    let j = choose|j: int| 0 <= j < dp.len() && dp[j] == (i as nat, b as nat);
                    assert(dp[j] == (i as nat, b as nat));
                }
                assert(pp[k as int] == (i as nat, b as nat));
                assert(pp.to_set().contains(pp[k as int]));
            }
            return false;
        }
        assert(pp[k as int] == (i as nat, b as nat));
        proof {
            let j = choose|j: int| 0 <= j < m && #[trigger] dp[j] == (i as nat, b as nat);
            assert(dp.to_set().contains(dp[j]));
        }
        k += 1;
    }
    assert forall|x: (nat, nat)| pp.to_set().contains(x) implies dp.to_set().contains(x) by {
        let j = choose|j: int| 0 <= j < pp.len() && pp[j] == x;
    }
    true
}

proof fn lemma_decided_within(ds: Seq<DecisionView>, ps: Seq<PairView>)
    requires
        decisions_problem(ds, ps) is None,
    ensures
        decision_paths(ds).subset_of(pair_paths(ps)),
{
    lemma_decisions_none(ds, ps);
    let dp = ds.map_values(|d: DecisionView| (d.experience_index, d.bullet_index));
    let pp = ps.map_values(|p: PairView| (p.experience_index, p.bullet_index));
    assert forall|x: (nat, nat)| dp.to_set().contains(x) implies pp.to_set().contains(x) by {
        let j = choose|j: int| 0 <= j < dp.len() && dp[j] == x;
        assert(decision_problem(ds, j, ps) is None);
        let k = choose|k: int|
            0 <= k < ps.len() && (#[trigger] ps[k]).experience_index == ds[j].experience_index
                && ps[k].bullet_index == ds[j].bullet_index;
        assert(pp[k] == x);
    }
}

/// Every bullet must be rewritten and audited exactly once, truthfully.
pub fn validate_full_bullet_rewrites(base: &Json, tailored: &TailoredResume) -> (r: Result<
    (),
    TailoringError,
>)
    requires
        bullets_shaped(base@, tailored.content@),
    ensures
        match r {
            Ok(()) => audit_problem(
                pairs_of(base@, tailored.content@),
                decision_views(tailored.report.bullet_rewrite_decisions@),
            ) is None,
            Err(TailoringError::InvalidTailoredContent(m)) => audit_problem(
                pairs_of(base@, tailored.content@),
                decision_views(tailored.report.bullet_rewrite_decisions@),
            ) == Some(m@),
            Err(_) => false,
        },
{
    let pairs = bullet_pairs(base, &tailored.content);
    let ds = &tailored.report.bullet_rewrite_decisions;
    if !all_pairs_changed(&pairs) {
        return Err(
            invalid_message(
                "every experience bullet must be rewritten; skills-only tailoring is not accepted".to_owned(),
            ),
        );
    }
    match check_decisions(ds, &pairs) {
        Some(m) => {
            return Err(invalid_message(m));
        },
        None => {},
    }
    proof {
        lemma_decided_within(decision_views(ds@), pair_views(pairs@));
    }
    if !every_pair_decided(ds, &pairs) {
        return Err(invalid_message("one rewrite decision is required for every experience bullet".to_owned()));
    }
    assert(decision_paths(decision_views(ds@)) =~= pair_paths(pair_views(pairs@)));
    Ok(())
}

// ------------------------------------------------------------ replacement checks

/// Fewest words a replaced bullet needs to describe a real accomplishment.
pub const MIN_REPLACED_WORDS: usize = 8;
/// Longest run of short comma-separated fragments a replaced bullet may hold.
pub const MAX_LIST_RUN: usize = 8;
/// A replaced bullet may always grow to this many characters.
pub const MIN_REPLACED_LENGTH_ALLOWANCE: usize = 140;

pub open spec fn substantial(text: Seq<char>) -> bool {
    word_count(text) >= 8
}

pub fn replacement_is_substantial(text: &str) -> (r: bool)
    ensures
        r == substantial(text@),
{
    count_words(&chars_of(text)) >= MIN_REPLACED_WORDS
}

/// The pieces of `s` between commas, as `str::split(',')` yields them.
pub open spec fn comma_fragments(s: Seq<char>) -> Seq<Seq<char>>
    decreases s.len(),
{
    if s.len() == 0 {
        seq![seq![]]
    } else {
        let p = comma_fragments(s.drop_last());
        if s.last() == ',' {
            p.push(seq![])
        } else {
            p.update(p.len() - 1, p.last().push(s.last()))
        }
    }
}

pub proof fn lemma_comma_fragments_nonempty(s: Seq<char>)
    ensures
        comma_fragments(s).len() >= 1,
    decreases s.len(),
{
    if s.len() > 0 {
        lemma_comma_fragments_nonempty(s.drop_last());
    }
}

/// (current run, longest run) of fragments of at most three words.
pub open spec fn list_runs(fs: Seq<Seq<char>>) -> (nat, nat)
    decreases fs.len(),
{
    if fs.len() == 0 {
        (0, 0)
    } else {
        let p = list_runs(fs.drop_last());
        if word_count(fs.last()) <= 3 {
            let c = p.0 + 1;
            (c, if c > p.1 {
                c
            } else {
                p.1
            })
        } else {
            (0, p.1)
        }
    }
}

/// A replaced bullet reads as prose when no more than eight short comma-separated fragments
/// run together: a loose floor against keyword dumps.
pub open spec fn reads_as_prose(text: Seq<char>) -> bool {
    list_runs(comma_fragments(text)).1 <= 8
}

pub fn split_commas(text: &[char]) -> (r: Vec<Vec<char>>)
    ensures
        crate::tokens::tv(r@) == comma_fragments(text@),
{
    let mut out: Vec<Vec<char>> = Vec::new();
    out.push(Vec::new());
    assert(crate::tokens::tv(out@) =~= comma_fragments(text@.take(0)));
    let mut i: usize = 0;
    while i < text.len()
        invariant
            i <= text@.len(),
            out@.len() >= 1,
            crate::tokens::tv(out@) == comma_fragments(text@.take(i as int)),
        decreases text@.len() - i,
    {
        assert(text@.take(i + 1).drop_last() =~= text@.take(i as int));
        let ghost before = crate::tokens::tv(out@);
        if text[i] == ',' {
            out.push(Vec::new());
            assert(crate::tokens::tv(out@) =~= before.push(seq![]));
        } else {
            let last = out.len() - 1;
            let mut frag = out.pop().unwrap();
            frag.push(text[i]);
            out.push(frag);
            assert(crate::tokens::tv(out@) =~= before.update(last as int, before.last().push(
                text@[i as int],
            )));
        }
        i += 1;
    }
    assert(text@.take(i as int) =~= text@);
    out
}

pub fn replacement_reads_as_prose(text: &str) -> (r: bool)
    ensures
        r == reads_as_prose(text@),
{
    let frags = split_commas(&chars_of(text));
    let ghost fs = crate::tokens::tv(frags@);
    let mut current: usize = 0;
    let mut longest: usize = 0;
    let mut i: usize = 0;
    while i < frags.len()
        invariant
            i <= frags@.len(),
            fs == crate::tokens::tv(frags@),
            current <= i,
            longest <= i,
            (current as nat, longest as nat) == list_runs(fs.take(i as int)),
        decreases frags@.len() - i,
    {
        assert(fs.take(i + 1).drop_last() =~= fs.take(i as int));
        if count_words(&frags[i]) <= 3 {
            current += 1;
            if current > longest {
                longest = current;
            }
        } else {
            current = 0;
        }
        i += 1;
    }
    assert(fs.take(i as int) =~= fs);
    longest <= MAX_LIST_RUN
}

/// A replacement stays within half again the length of the bullet it replaced, or within the
/// absolute allowance for a very short base bullet.
pub open spec fn length_stable(base: Seq<char>, replaced: Seq<char>) -> bool {
    let grown = base.len() * 3 / 2;
    replaced.len() <= if grown > 140 {
        grown
    } else {
        140
    }
}

pub fn replacement_length_is_stable(base_bullet: &str, replaced_bullet: &str) -> (r: bool)
    ensures
        r == length_stable(base_bullet@, replaced_bullet@),
{
    let b = chars_of(base_bullet).len() as u128;
    let grown: u128 = b * 3 / 2;
    let limit: u128 = if grown > 140 {
        grown
    } else {
        140
    };
    (chars_of(replaced_bullet).len() as u128) <= limit
}

/// The text at `doc["experience"][i]["bullets"][b]`, empty when there is none.
pub open spec fn bullet_text(doc: JsonView, i: nat, b: nat) -> Seq<char> {
    match text_of(Some(at(idx(at(idx(doc, "experience"@), i as int), "bullets"@), b as int))) {
        Some(t) => t,
        None => seq![],
    }
}

fn bullet_text_of(doc: &Json, i: usize, b: usize) -> (r: Vec<char>)
    ensures
        r@ == bullet_text(doc@, i as nat, b as nat),
{
    let null = Json::Null;
    let jobs = index_key(doc, "experience", &null);
    let job = match jobs.as_array() {
        Some(xs) => {
            proof {
                lemma_views_of(xs@);
            }
            if i < xs.len() {
                &xs[i]
            } else {
                &null
            }
        },
        None => &null,
    };
    let bullets = index_key(job, "bullets", &null);
    let bullet = match bullets.as_array() {
        Some(xs) => {
            proof {
                lemma_views_of(xs@);
            }
            if b < xs.len() {
                &xs[b]
            } else {
                &null
            }
        },
        None => &null,
    };
    match bullet.as_str() {
        Some(t) => chars_of(t),
        None => Vec::new(),
    }
}

pub open spec fn replaced_only(ds: Seq<DecisionView>) -> Seq<DecisionView>
    decreases ds.len(),
{
    if ds.len() == 0 {
        seq![]
    } else if ds.last().outcome == BulletRewriteOutcome::Replaced {
        replaced_only(ds.drop_last()).push(ds.last())
    } else {
        replaced_only(ds.drop_last())
    }
}

/// What is wrong with one replacement: too short, a keyword list, or too long for the layout.
pub open spec fn replacement_problem(base: JsonView, tailored: JsonView, d: DecisionView) -> Option<
    Seq<char>,
> {
    let i = d.experience_index;
    let b = d.bullet_index;
    let before = bullet_text(base, i, b);
    let after = bullet_text(tailored, i, b);
    if !substantial(after) {
        Some(
            pair_msg(
                "replaced experience bullet "@,
                i,
                b,
                " is too short to describe a real accomplishment"@,
            ),
        )
    } else if !reads_as_prose(after) {
        Some(
            pair_msg(
                "replaced experience bullet "@,
                i,
                b,
                " reads as a keyword list instead of prose"@,
            ),
        )
    } else if !length_stable(before, after) {
        Some(pair_msg("replaced experience bullet "@, i, b, " is too long for the locked layout"@))
    } else {
        None
    }
}

pub open spec fn replacements_problem(base: JsonView, tailored: JsonView, rs: Seq<DecisionView>) -> Option<
    Seq<char>,
>
    decreases rs.len(),
{
    if rs.len() == 0 {
        None
    } else {
        match replacements_problem(base, tailored, rs.drop_last()) {
            Some(m) => Some(m),
            None => replacement_problem(base, tailored, rs.last()),
        }
    }
}

/// The full audit, then at least one outright replacement, each one prose of a plausible
/// length.
pub open spec fn rewrite_problem(base: JsonView, tailored: JsonView, ds: Seq<DecisionView>) -> Option<
    Seq<char>,
> {
    let rs = replaced_only(ds);
    if audit_problem(pairs_of(base, tailored), ds) is Some {
        audit_problem(pairs_of(base, tailored), ds)
    } else if rs.len() < 1 {
        Some(
            "tailoring requires at least 1 replaced experience bullet, but "@ + decimal(rs.len())
                + " were marked replaced"@,
        )
    } else {
        replacements_problem(base, tailored, rs)
    }
}

fn check_replacement(base: &Json, tailored: &Json, d: &BulletRewriteDecision) -> (r: Option<String>)
    ensures
        match r {
            Some(m) => replacement_problem(base@, tailored@, d@) == Some(m@),
            None => replacement_problem(base@, tailored@, d@) is None,
        },
{
    let i = d.experience_index;
    let b = d.bullet_index;
    let before = string_of(&bullet_text_of(base, i, b));
    let after = string_of(&bullet_text_of(tailored, i, b));
    if !replacement_is_substantial(after.as_str()) {
        return Some(pair_message("replaced experience bullet ", i, b, " is too short to describe a real accomplishment"));
    }
    if !replacement_reads_as_prose(after.as_str()) {
        return Some(pair_message("replaced experience bullet ", i, b, " reads as a keyword list instead of prose"));
    }
    if !replacement_length_is_stable(before.as_str(), after.as_str()) {
        return Some(pair_message("replaced experience bullet ", i, b, " is too long for the locked layout"));
    }
    None
}

proof fn lemma_replacements_prefix(base: JsonView, tailored: JsonView, rs: Seq<DecisionView>, k: int)
    requires
        0 <= k < rs.len(),
        replacements_problem(base, tailored, rs.take(k)) is None,
        replacement_problem(base, tailored, rs[k]) is Some,
    ensures
        replacements_problem(base, tailored, rs) == replacement_problem(base, tailored, rs[k]),
    decreases rs.len(),
{
    if rs.len() - 1 > k {
        assert(rs.drop_last().take(k) =~= rs.take(k));
        lemma_replacements_prefix(base, tailored, rs.drop_last(), k);
    } else {
        assert(rs.drop_last() =~= rs.take(k));
    }
}

/// Every bullet must be rewritten and at least one replaced outright; each replacement must
/// read as prose and stay near the length of the bullet it replaced.
pub fn validate_bullet_rewrites(base: &Json, tailored: &TailoredResume) -> (r: Result<
    (),
    TailoringError,
>)
    requires
        bullets_shaped(base@, tailored.content@),
    ensures
        match r {
            Ok(()) => rewrite_problem(
                base@,
                tailored.content@,
                decision_views(tailored.report.bullet_rewrite_decisions@),
            ) is None,
            Err(TailoringError::InvalidTailoredContent(m)) => rewrite_problem(
                base@,
                tailored.content@,
                decision_views(tailored.report.bullet_rewrite_decisions@),
            ) == Some(m@),
            Err(_) => false,
        },
{
    validate_full_bullet_rewrites(base, tailored)?;
    let ds = &tailored.report.bullet_rewrite_decisions;
    let ghost dv = decision_views(ds@);
    let mut replacements: Vec<usize> = Vec::new();
    let mut k: usize = 0;
    while k < ds.len()
        invariant
            k <= ds@.len(),
            dv == decision_views(ds@),
            replacements@.len() == replaced_only(dv.take(k as int)).len(),
            forall|j: int|
                0 <= j < replacements@.len() ==> #[trigger] replacements@[j] < ds@.len() && dv[(
                replacements@[j]) as int] == replaced_only(dv.take(k as int))[j],
        decreases ds@.len() - k,
    {
        assert(dv.take(k + 1).drop_last() =~= dv.take(k as int));
        if ds[k].outcome == BulletRewriteOutcome::Replaced {
            replacements.push(k);
        }
        k += 1;
    }
    assert(dv.take(k as int) =~= dv);
    let ghost rs = replaced_only(dv);
    if replacements.len() < 1 {
        let mut m = String::new();
        push_str(&mut m, "tailoring requires at least 1 replaced experience bullet, but ");
        push_decimal(&mut m, replacements.len() as u64);
        push_str(&mut m, " were marked replaced");
        return Err(invalid_message(m));
    }
    let mut j: usize = 0;
    while j < replacements.len()
        invariant
            j <= replacements@.len(),
            replacements@.len() == rs.len(),
            rs == replaced_only(dv),
            dv == decision_views(ds@),
            forall|m: int|
                0 <= m < replacements@.len() ==> #[trigger] replacements@[m] < ds@.len() && dv[(
                replacements@[m]) as int] == rs[m],
            replacements_problem(base@, tailored.content@, rs.take(j as int)) is None,
            rs.len() >= 1,
            ds@ == tailored.report.bullet_rewrite_decisions@,
            audit_problem(pairs_of(base@, tailored.content@), dv) is None,
        decreases replacements@.len() - j,
    {
        assert(rs.take(j + 1).drop_last() =~= rs.take(j as int));
        let d = &ds[replacements[j]];
        assert(d@ == rs[j as int]);
        match check_replacement(base, &tailored.content, d) {
            Some(m) => {
                proof {
                    lemma_replacements_prefix(base@, tailored.content@, rs, j as int);
                }
                return Err(invalid_message(m));
            },
            None => {},
        }
        j += 1;
    }
    assert(rs.take(j as int) =~= rs);
    Ok(())
}

// ------------------------------------------------------------- audit normalizing

/// The last decision the model gave for bullet (i, b), only counting those with a non-blank
/// rationale when asked.
pub open spec fn last_for(ds: Seq<DecisionView>, i: nat, b: nat, nonblank_only: bool) -> Option<
    DecisionView,
>
    decreases ds.len(),
{
    if ds.len() == 0 {
        None
    } else if ds.last().experience_index == i && ds.last().bullet_index == b && (!nonblank_only
        || trimmed(ds.last().rationale).len() > 0) {
        Some(ds.last())
    } else {
        last_for(ds.drop_last(), i, b, nonblank_only)
    }
}

pub open spec fn default_rationale(o: BulletRewriteOutcome) -> Seq<char> {
    match o {
        BulletRewriteOutcome::Rewritten => "Derived from the saved experience-bullet rewrite."@,
        BulletRewriteOutcome::Replaced => "Bullet was replaced with new job-targeted content."@,
        BulletRewriteOutcome::NoRelevantMatch => "No experience-bullet text change was returned."@,
    }
}

/// The decision the saved text supports for one bullet: untouched when the text is the
/// base text, replaced when it changed and the model said so, rewritten otherwise. The
/// model's rationale is kept only when it was given for that same outcome.
pub open spec fn audited(p: PairView, ds: Seq<DecisionView>) -> DecisionView {
    let claimed = match last_for(ds, p.experience_index, p.bullet_index, false) {
        Some(d) => d.outcome == BulletRewriteOutcome::Replaced,
        None => false,
    };
    let outcome = if p.before == p.after {
        BulletRewriteOutcome::NoRelevantMatch
    } else if claimed {
        BulletRewriteOutcome::Replaced
    } else {
        BulletRewriteOutcome::Rewritten
    };
    DecisionView {
        experience_index: p.experience_index,
        bullet_index: p.bullet_index,
        outcome,
        rationale: match last_for(ds, p.experience_index, p.bullet_index, true) {
            Some(d) => if d.outcome == outcome {
                d.rationale
            } else {
                default_rationale(outcome)
            },
            None => default_rationale(outcome),
        },
    }
}

pub open spec fn audited_all(ps: Seq<PairView>, ds: Seq<DecisionView>) -> Seq<DecisionView> {
    ps.map_values(|p: PairView| audited(p, ds))
}

/// After normalization there is exactly one decision per bullet, in bullet order; a bullet
/// is marked as having no relevant match exactly when its text is unchanged, and it is marked
/// replaced only when its text changed and the model said it replaced it.
pub proof fn lemma_audited_decisions(ps: Seq<PairView>, ds: Seq<DecisionView>)
    ensures
        audited_all(ps, ds).len() == ps.len(),
        forall|k: int|
            0 <= k < ps.len() ==> (#[trigger] audited_all(ps, ds)[k]).experience_index
                == ps[k].experience_index && audited_all(ps, ds)[k].bullet_index == ps[k].bullet_index,
        forall|k: int|
            0 <= k < ps.len() ==> ((#[trigger] audited_all(ps, ds)[k]).outcome
                == BulletRewriteOutcome::NoRelevantMatch <==> ps[k].before == ps[k].after),
        forall|k: int|
            0 <= k < ps.len() && (#[trigger] audited_all(ps, ds)[k]).outcome
                == BulletRewriteOutcome::Replaced ==> ps[k].before != ps[k].after && (last_for(
                ds,
                ps[k].experience_index,
                ps[k].bullet_index,
                false,
            ) matches Some(d) && d.outcome == BulletRewriteOutcome::Replaced),
{
    assert forall|k: int| 0 <= k < ps.len() implies #[trigger] audited_all(ps, ds)[k] == audited(ps[k], ds) by {}
}

fn last_decision(ds: &Vec<BulletRewriteDecision>, i: usize, b: usize, nonblank_only: bool) -> (r:
    Option<usize>)
    ensures
        match (r, last_for(decision_views(ds@), i as nat, b as nat, nonblank_only)) {
            (None, None) => true,
            (Some(k), Some(d)) => k < ds@.len() && ds@[k as int]@ == d,
            _ => false,
        },
{
    let ghost dv = decision_views(ds@);
    let mut found: Option<usize> = None;
    let mut k: usize = 0;
    while k < ds.len()
        invariant
            k <= ds@.len(),
            dv == decision_views(ds@),
            match (found, last_for(dv.take(k as int), i as nat, b as nat, nonblank_only)) {
                (None, None) => true,
                (Some(j), Some(d)) => j < k && ds@[j as int]@ == d,
                _ => false,
            },
        decreases ds@.len() - k,
    {
        assert(dv.take(k + 1).drop_last() =~= dv.take(k as int));
        let d = &ds[k];
        if d.experience_index == i && d.bullet_index == b && (!nonblank_only || trim_str(
            d.rationale.as_str(),
        ).len() > 0) {
            found = Some(k);
        }
        k += 1;
    }
    assert(dv.take(k as int) =~= dv);
    found
}

fn default_rationale_text(o: BulletRewriteOutcome) -> (r: String)
    ensures
        r@ == default_rationale(o),
{
    match o {
        BulletRewriteOutcome::Rewritten => "Derived from the saved experience-bullet rewrite.".to_owned(),
        BulletRewriteOutcome::Replaced => "Bullet was replaced with new job-targeted content.".to_owned(),
        BulletRewriteOutcome::NoRelevantMatch => "No experience-bullet text change was returned.".to_owned(),
    }
}

fn audit_pair(p: &BulletPair, ds: &Vec<BulletRewriteDecision>) -> (r: BulletRewriteDecision)
    ensures
        r@ == audited(p@, decision_views(ds@)),
{
    let claimed = match last_decision(ds, p.experience_index, p.bullet_index, false) {
        Some(k) => ds[k].outcome == BulletRewriteOutcome::Replaced,
        None => false,
    };
    let outcome = if json_eq(&p.before, &p.after) {
        BulletRewriteOutcome::NoRelevantMatch
    } else if claimed {
        BulletRewriteOutcome::Replaced
    } else {
        BulletRewriteOutcome::Rewritten
    };
    let rationale = match last_decision(ds, p.experience_index, p.bullet_index, true) {
        Some(k) => if ds[k].outcome == outcome {
            ds[k].rationale.clone()
        } else {
            default_rationale_text(outcome)
        },
        None => default_rationale_text(outcome),
    };
    BulletRewriteDecision {
        experience_index: p.experience_index,
        bullet_index: p.bullet_index,
        outcome,
        rationale,
    }
}

/// Rebuilds the bullet audit from the saved text: one decision per bullet, in reading order,
/// with outcomes the text supports. Nothing else in the resume changes.
pub fn normalize_bullet_rewrite_decisions(base: &Json, tailored: &mut TailoredResume)
    ensures
        decision_views(final(tailored).report.bullet_rewrite_decisions@) == audited_all(
            pairs_of(base@, old(tailored).content@),
            decision_views(old(tailored).report.bullet_rewrite_decisions@),
        ),
        final(tailored).content@ == old(tailored).content@,
        final(tailored).report.covered_keywords@ == old(tailored).report.covered_keywords@,
        final(tailored).report.omitted_unsupported_keywords@ == old(
            tailored,
        ).report.omitted_unsupported_keywords@,
        final(tailored).report.changed_fields@ == old(tailored).report.changed_fields@,
        final(tailored).report.safety_notes@ == old(tailored).report.safety_notes@,
        final(tailored).report.model_estimated_ats_coverage_score == old(
            tailored,
        ).report.model_estimated_ats_coverage_score,
        final(tailored).report.ats_coverage == old(tailored).report.ats_coverage,
{
    let pairs = bullet_pairs(base, &tailored.content);
    let ghost ps = pair_views(pairs@);
    let ghost dv = decision_views(tailored.report.bullet_rewrite_decisions@);
    let mut decisions: Vec<BulletRewriteDecision> = Vec::new();
    let mut k: usize = 0;
    while k < pairs.len()
        invariant
            k <= pairs@.len(),
            ps == pair_views(pairs@),
            dv == decision_views(tailored.report.bullet_rewrite_decisions@),
            decision_views(decisions@) == audited_all(ps.take(k as int), dv),
        decreases pairs@.len() - k,
    {
        let d = audit_pair(&pairs[k], &tailored.report.bullet_rewrite_decisions);
        let ghost before = decisions@;
        assert(ps[k as int] == pairs@[k as int]@);
        decisions.push(d);
        assert(decision_views(decisions@) =~= decision_views(before).push(audited(ps[k as int], dv)));
        assert(audited_all(ps.take(k + 1), dv) =~= audited_all(ps.take(k as int), dv).push(
            audited(ps[k as int], dv),
        ));
        k += 1;
    }
    assert(ps.take(k as int) =~= ps);
    tailored.report.bullet_rewrite_decisions = decisions;
}

// ------------------------------------------------------------------ retry feedback

/// `lines` joined with `sep` between them.
pub open spec fn joined(lines: Seq<Seq<char>>, sep: Seq<char>) -> Seq<char>
    decreases lines.len(),
{
    if lines.len() == 0 {
        seq![]
    } else if lines.len() == 1 {
        lines[0]
    } else {
        joined(lines.drop_last(), sep) + sep + lines.last()
    }
}

pub open spec fn text_or_empty(v: JsonView) -> Seq<char> {
    match v {
        JsonView::Str(s) => s,
        _ => seq![],
    }
}

/// One line per bullet the tailored text left as it was.
pub open spec fn unchanged_lines(ps: Seq<PairView>) -> Seq<Seq<char>>
    decreases ps.len(),
{
    if ps.len() == 0 {
        seq![]
    } else if ps.last().before == ps.last().after {
        unchanged_lines(ps.drop_last()).push(
            "experience "@ + decimal(ps.last().experience_index) + ", bullet "@ + decimal(
                ps.last().bullet_index,
            ) + ": "@ + text_or_empty(ps.last().before),
        )
    } else {
        unchanged_lines(ps.drop_last())
    }
}

/// Every bullet left as it was has text: a bullet equal to its tailored (validated) text.
pub open spec fn unchanged_are_text(ps: Seq<PairView>) -> bool {
    forall|k: int| 0 <= k < ps.len() && (#[trigger] ps[k]).before == ps[k].after ==> ps[k].before is Str
}

fn push_line(out: &mut String, first: bool, line: &String)
    ensures
        final(out)@ == if first {
            old(out)@ + line@
        } else {
            old(out)@ + "\n"@ + line@
        },
{
    if !first {
        push_str(out, "\n");
    }
    push_str(out, line.as_str());
}

/// The bullets the retry prompt must ask to have rewritten, one per line.
pub fn unchanged_experience_bullets(base: &Json, tailored: &Json) -> (r: String)
    requires
        bullets_shaped(base@, tailored@),
        unchanged_are_text(pairs_of(base@, tailored@)),
    ensures
        r@ == joined(unchanged_lines(pairs_of(base@, tailored@)), "\n"@),
{
    let pairs = bullet_pairs(base, tailored);
    let ghost ps = pair_views(pairs@);
    let mut out = String::new();
    let mut count: usize = 0;
    let mut k: usize = 0;
    while k < pairs.len()
        invariant
            k <= pairs@.len(),
            ps == pair_views(pairs@),
            unchanged_are_text(ps),
            count == unchanged_lines(ps.take(k as int)).len(),
            count <= k,
            out@ == joined(unchanged_lines(ps.take(k as int)), "\n"@),
        decreases pairs@.len() - k,
    {
        assert(ps.take(k + 1).drop_last() =~= ps.take(k as int));
        let p = &pairs[k];
        if json_eq(&p.before, &p.after) {
            let mut line = String::new();
            push_str(&mut line, "experience ");
            push_decimal(&mut line, p.experience_index as u64);
            push_str(&mut line, ", bullet ");
            push_decimal(&mut line, p.bullet_index as u64);
            push_str(&mut line, ": ");
            match &p.before {
                Json::Str(t) => push_str(&mut line, t.as_str()),
                _ => {},
            }
            let ghost prev = unchanged_lines(ps.take(k as int));
            assert(ps[k as int] == p@);
            assert(unchanged_lines(ps.take(k + 1)) == prev.push(line@));
            push_line(&mut out, count == 0, &line);
            proof {
                if count > 0 {
                    assert(prev.push(line@).drop_last() =~= prev);
                }
            }
            count += 1;
        } else {
            assert(ps[k as int] == p@);
        }
        k += 1;
    }
    assert(ps.take(k as int) =~= ps);
    out
}

/// Every string bullet of the tailored document, in reading order.
pub open spec fn all_bullet_texts(doc: JsonView) -> Seq<Seq<char>> {
    bullet_texts_of_jobs(arr(idx(doc, "experience"@)))
}

pub open spec fn string_items(xs: Seq<JsonView>) -> Seq<Seq<char>>
    decreases xs.len(),
{
    if xs.len() == 0 {
        seq![]
    } else {
        match xs.last() {
            JsonView::Str(s) => string_items(xs.drop_last()).push(s),
            _ => string_items(xs.drop_last()),
        }
    }
}

pub open spec fn bullet_texts_of_jobs(jobs: Seq<JsonView>) -> Seq<Seq<char>>
    decreases jobs.len(),
{
    if jobs.len() == 0 {
        seq![]
    } else {
        bullet_texts_of_jobs(jobs.drop_last()) + string_items(bullets_of(jobs.last()))
    }
}

fn push_string_items(out: &mut Vec<String>, xs: &Vec<Json>)
    ensures
        strs(final(out)@) == strs(old(out)@) + string_items(views_of(xs@)),
{
    proof {
        lemma_views_of(xs@);
    }
    let ghost xv = views_of(xs@);
    let ghost start = strs(out@);
    let mut k: usize = 0;
    while k < xs.len()
        invariant
            k <= xs@.len(),
            xv == views_of(xs@),
            xv.len() == xs@.len(),
            forall|j: int| 0 <= j < xs@.len() ==> #[trigger] xv[j] == xs@[j]@,
            strs(out@) == start + string_items(xv.take(k as int)),
        decreases xs@.len() - k,
    {
        assert(xv.take(k + 1).drop_last() =~= xv.take(k as int));
        match &xs[k] {
            Json::Str(t) => {
                let ghost before = out@;
                out.push(t.clone());
                assert(strs(out@) =~= strs(before).push(t@));
            },
            _ => {},
        }
        k += 1;
    }
    assert(xv.take(k as int) =~= xv);
}

fn bullet_texts(doc: &Json) -> (r: Vec<String>)
    ensures
        strs(r@) == all_bullet_texts(doc@),
{
    let null = Json::Null;
    let empty: Vec<Json> = Vec::new();
    let jobs = array_or_empty(index_key(doc, "experience", &null), &empty);
    proof {
        lemma_views_of(jobs@);
    }
    let ghost jv = views_of(jobs@);
    let mut out: Vec<String> = Vec::new();
    let mut k: usize = 0;
    while k < jobs.len()
        invariant
            k <= jobs@.len(),
            jv == views_of(jobs@),
            jv.len() == jobs@.len(),
            forall|j: int| 0 <= j < jobs@.len() ==> #[trigger] jv[j] == jobs@[j]@,
            strs(out@) == bullet_texts_of_jobs(jv.take(k as int)),
            null@ == JsonView::Null,
            empty@.len() == 0,
        decreases jobs@.len() - k,
    {
        assert(jv.take(k + 1).drop_last() =~= jv.take(k as int));
        let bullets = array_or_empty(index_key(&jobs[k], "bullets", &null), &empty);
        push_string_items(&mut out, bullets);
        k += 1;
    }
    assert(jv.take(k as int) =~= jv);
    out
}

/// The selected claims that did not land inside a single bullet.
pub open spec fn missing_placements(bullets: Seq<Seq<char>>, terms: Seq<Seq<char>>) -> Seq<
    Seq<char>,
>
    decreases terms.len(),
{
    if terms.len() == 0 {
        seq![]
    } else if exists|k: int| 0 <= k < bullets.len() && placement_covered(#[trigger] bullets[k], terms.last()) {
        missing_placements(bullets, terms.drop_last())
    } else {
        missing_placements(bullets, terms.drop_last()).push(terms.last())
    }
}

/// Names the selected claims that did not land in any one bullet; words scattered across
/// several bullets do not count.
pub fn missing_model_placement_terms(tailored: &Json, required_terms: &[String]) -> (r: Vec<String>)
    ensures
        strs(r@) == missing_placements(all_bullet_texts(tailored@), strs(required_terms@)),
{
    let bullets = bullet_texts(tailored);
    let ghost bs = strs(bullets@);
    let ghost ts = strs(required_terms@);
    let mut out: Vec<String> = Vec::new();
    let mut k: usize = 0;
    while k < required_terms.len()
        invariant
            k <= required_terms@.len(),
            bs == strs(bullets@),
            ts == strs(required_terms@),
            strs(out@) == missing_placements(bs, ts.take(k as int)),
        decreases required_terms@.len() - k,
    {
        assert(ts.take(k + 1).drop_last() =~= ts.take(k as int));
        let covered = placement_term_is_covered_in_any(&bullets, required_terms[k].as_str());
        proof {
            if covered {
                let j = choose|j: int|
                    0 <= j < bullets@.len() && placement_covered(bullets@[j]@, required_terms@[k as int]@);
                assert(bs[j] == bullets@[j]@);
            } else {
                assert forall|j: int| 0 <= j < bs.len() implies !placement_covered(
                    #[trigger] bs[j],
                    ts[k as int],
                ) by {
                    assert(bs[j] == bullets@[j]@);
                }
            }
        }
        if !covered {
            let ghost before = out@;
            out.push(required_terms[k].clone());
            assert(strs(out@) =~= strs(before).push(required_terms@[k as int]@));
        }
        k += 1;
    }
    assert(ts.take(k as int) =~= ts);
    out
}

/// Weight from which a supported term the resume dropped is worth another attempt.
pub const MIN_UNPLACED_EVIDENCE_WEIGHT: u8 = 4;

/// High-value terms the person can already prove that the document still does not carry.
pub open spec fn unplaced(ts: Seq<TermView>) -> Seq<Seq<char>>
    decreases ts.len(),
{
    if ts.len() == 0 {
        seq![]
    } else if ts.last().miss_reason == Some(MissReason::EvidenceNotPlaced) && ts.last().weight
        >= 4 {
        unplaced(ts.drop_last()).push(ts.last().term)
    } else {
        unplaced(ts.drop_last())
    }
}

pub fn unplaced_supported_terms(coverage: &AtsCoverage) -> (r: Vec<String>)
    ensures
        strs(r@) == unplaced(term_views(coverage.terms@)),
{
    let ghost tv = term_views(coverage.terms@);
    let mut out: Vec<String> = Vec::new();
    let mut k: usize = 0;
    while k < coverage.terms.len()
        invariant
            k <= coverage.terms@.len(),
            tv == term_views(coverage.terms@),
            strs(out@) == unplaced(tv.take(k as int)),
        decreases coverage.terms@.len() - k,
    {
        assert(tv.take(k + 1).drop_last() =~= tv.take(k as int));
        let t = &coverage.terms[k];
        if t.miss_reason == Some(MissReason::EvidenceNotPlaced) && t.weight >= MIN_UNPLACED_EVIDENCE_WEIGHT {
            let ghost before = out@;
            out.push(t.term.clone());
            assert(strs(out@) =~= strs(before).push(t.term@));
        }
        k += 1;
    }
    assert(tv.take(k as int) =~= tv);
    out
}

// ------------------------------------------------------------------- content diff

/// One editable value the tailored resume changed.
#[derive(Clone, Debug, PartialEq, Eq)]
pub struct ContentChange {
    pub path: String,
    pub before: String,
    pub after: String,
}

pub struct ChangeView {
    pub path: Seq<char>,
    pub before: Seq<char>,
    pub after: Seq<char>,
}

impl View for ContentChange {
    type V = ChangeView;

    open spec fn view(&self) -> ChangeView {
        ChangeView { path: self.path@, before: self.before@, after: self.after@ }
    }
}

pub open spec fn change_views(v: Seq<ContentChange>) -> Seq<ChangeView> {
    v.map_values(|c: ContentChange| c@)
}

pub open spec fn summary_change(base: JsonView, tailored: JsonView) -> Seq<ChangeView> {
    match (idx(base, "summary"@), idx(tailored, "summary"@)) {
        (JsonView::Str(b), JsonView::Str(a)) => if b != a {
            seq![ChangeView { path: "/summary"@, before: b, after: a }]
        } else {
            seq![]
        },
        _ => seq![],
    }
}

pub open spec fn bullet_changes(ps: Seq<PairView>) -> Seq<ChangeView>
    decreases ps.len(),
{
    if ps.len() == 0 {
        seq![]
    } else if ps.last().before != ps.last().after {
        bullet_changes(ps.drop_last()).push(
            ChangeView {
                path: "/experience/"@ + decimal(ps.last().experience_index) + "/bullets/"@
                    + decimal(ps.last().bullet_index),
                before: text_or_empty(ps.last().before),
                after: text_or_empty(ps.last().after),
            },
        )
    } else {
        bullet_changes(ps.drop_last())
    }
}

pub open spec fn lookup_or_null(ms: Seq<(Seq<char>, JsonView)>, key: Seq<char>) -> JsonView {
    match member_lookup(ms, key) {
        Some(v) => v,
        None => JsonView::Null,
    }
}

pub open spec fn skill_changes(bms: Seq<(Seq<char>, JsonView)>, tms: Seq<(Seq<char>, JsonView)>) -> Seq<
    ChangeView,
>
    decreases bms.len(),
{
    if bms.len() == 0 {
        seq![]
    } else {
        let m = bms.last();
        let after = lookup_or_null(tms, m.0);
        if m.1 != after {
            skill_changes(bms.drop_last(), tms).push(
                ChangeView {
                    path: "/skills/"@ + m.0,
                    before: text_or_empty(m.1),
                    after: text_or_empty(after),
                },
            )
        } else {
            skill_changes(bms.drop_last(), tms)
        }
    }
}

/// The editable values the tailored resume changed: the summary, then each bullet in reading
/// order, then each skill line in the base resume's order.
pub open spec fn content_changes_of(base: JsonView, tailored: JsonView) -> Seq<ChangeView> {
    summary_change(base, tailored) + bullet_changes(pairs_of(base, tailored)) + skill_changes(
        obj(idx(base, "skills"@)),
        obj(idx(tailored, "skills"@)),
    )
}

/// What reading the diff takes: the bullets side by side, changed bullets and skill lines
/// that are text on both sides, and every base skill key present in the tailored skills.
pub open spec fn diffable(base: JsonView, tailored: JsonView) -> bool {
    let ps = pairs_of(base, tailored);
    let bms = obj(idx(base, "skills"@));
    let tms = obj(idx(tailored, "skills"@));
    &&& bullets_shaped(base, tailored)
    &&& forall|k: int|
        0 <= k < ps.len() && (#[trigger] ps[k]).before != ps[k].after ==> ps[k].before is Str
            && ps[k].after is Str
    &&& idx(base, "skills"@) is Object
    &&& idx(tailored, "skills"@) is Object
    &&& forall|k: int|
        0 <= k < bms.len() ==> member_lookup(tms, (#[trigger] bms[k]).0) is Some && (bms[k].1
            != lookup_or_null(tms, bms[k].0) ==> bms[k].1 is Str && lookup_or_null(
            tms,
            bms[k].0,
        ) is Str)
}

/// Whether `content_changes` may read the two documents: `diffable` decided.
#[verifier::rlimit(30)]
pub fn is_diffable(base: &Json, tailored: &Json) -> (r: bool)
    ensures
        r == diffable(base@, tailored@),
{
    let null = Json::Null;
    let empty: Vec<Json> = Vec::new();
    let bxj = index_key(base, "experience", &null);
    let txj = index_key(tailored, "experience", &null);
    if bxj.as_array().is_none() || txj.as_array().is_none() {
        return false;
    }
    let bx = array_or_empty(bxj, &empty);
    let tx = array_or_empty(txj, &empty);
    proof {
        lemma_views_of(bx@);
        lemma_views_of(tx@);
    }
    let ghost bv = views_of(bx@);
    let ghost tv = views_of(tx@);
    let n = if bx.len() <= tx.len() {
        bx.len()
    } else {
        tx.len()
    };
    let mut k: usize = 0;
    while k < n
        invariant
            k <= n,
            null@ == JsonView::Null,
            n == min_len(bv.len(), tv.len()),
            bv == views_of(bx@),
            tv == views_of(tx@),
            bv == arr(idx(base@, "experience"@)),
            tv == arr(idx(tailored@, "experience"@)),
            bv.len() == bx@.len(),
            tv.len() == tx@.len(),
            forall|j: int| 0 <= j < bx@.len() ==> #[trigger] bv[j] == bx@[j]@,
            forall|j: int| 0 <= j < tx@.len() ==> #[trigger] tv[j] == tx@[j]@,
            forall|j: int|
                0 <= j < k ==> (#[trigger] idx(bv[j], "bullets"@) is Array) && idx(
                    tv[j],
                    "bullets"@,
                ) is Array,
        decreases n - k,
    {
        let bb = index_key(&bx[k], "bullets", &null);
        let tb = index_key(&tx[k], "bullets", &null);
        if bb.as_array().is_none() || tb.as_array().is_none() {
            assert(!(idx(bv[k as int], "bullets"@) is Array) || !(idx(tv[k as int], "bullets"@) is Array));
            return false;
        }
        k += 1;
    }
    assert(bullets_shaped(base@, tailored@));
    let pairs = bullet_pairs(base, tailored);
    let ghost ps = pair_views(pairs@);
    let mut i: usize = 0;
    while i < pairs.len()
        invariant
            i <= pairs@.len(),
            ps == pair_views(pairs@),
            ps == pairs_of(base@, tailored@),
            ps.len() == pairs@.len(),
            forall|j: int| 0 <= j < pairs@.len() ==> #[trigger] ps[j] == pairs@[j]@,
            forall|j: int|
                0 <= j < i && (#[trigger] ps[j]).before != ps[j].after ==> ps[j].before is Str
                    && ps[j].after is Str,
        decreases pairs@.len() - i,
    {
        if !json_eq(&pairs[i].before, &pairs[i].after) {
            if pairs[i].before.as_str().is_none() || pairs[i].after.as_str().is_none() {
                assert(ps[i as int].before != ps[i as int].after);
                return false;
            }
        }
        i += 1;
    }
    let bs = match index_key(base, "skills", &null).as_object() {
        Some(ms) => ms,
        None => {
            return false;
        },
    };
    let ts = match index_key(tailored, "skills", &null).as_object() {
        Some(ms) => ms,
        None => {
            return false;
        },
    };
    proof {
        lemma_member_views(bs@);
        lemma_member_views(ts@);
    }
    let ghost bms = member_views(bs@);
    let ghost tms = member_views(ts@);
    let mut m: usize = 0;
    while m < bs.len()
        invariant
            m <= bs@.len(),
            bms == member_views(bs@),
            tms == member_views(ts@),
            bms == obj(idx(base@, "skills"@)),
            tms == obj(idx(tailored@, "skills"@)),
            bms.len() == bs@.len(),
            null@ == JsonView::Null,
            forall|j: int| 0 <= j < bs@.len() ==> #[trigger] bms[j] == (bs@[j].0@, view_of(bs@[j].1)),
            forall|j: int|
                0 <= j < m ==> member_lookup(tms, (#[trigger] bms[j]).0) is Some && (bms[j].1
                    != lookup_or_null(tms, bms[j].0) ==> bms[j].1 is Str && lookup_or_null(
                    tms,
                    bms[j].0,
                ) is Str),
        decreases bs@.len() - m,
    {
        let after = match lookup_member_in(ts, bs[m].0.as_str()) {
            Some(a) => a,
            None => {
                assert(member_lookup(tms, bms[m as int].0) is None);
                return false;
            },
        };
        let before = &bs[m].1;
        if !json_eq(before, after) {
            if before.as_str().is_none() || after.as_str().is_none() {
                assert(bms[m as int].1 != lookup_or_null(tms, bms[m as int].0));
                return false;
            }
        }
        m += 1;
    }
    true
}

fn text_copy(v: &Json) -> (r: String)
    ensures
        r@ == text_or_empty(v@),
{
    match v {
        Json::Str(s) => s.clone(),
        _ => String::new(),
    }
}

#[verifier::rlimit(30)]
fn lookup_member<'a>(ms: &'a Vec<(String, Json)>, key: &str, null: &'a Json) -> (r: &'a Json)
    requires
        null@ == JsonView::Null,
    ensures
        r@ == lookup_or_null(member_views(ms@), key@),
{
    proof {
        lemma_member_views(ms@);
    }
    let ghost mv = member_views(ms@);
    assert(mv.skip(0) =~= mv);
    let mut i: usize = 0;
    while i < ms.len()
        invariant
            i <= ms@.len(),
            mv == member_views(ms@),
            mv.len() == ms@.len(),
            null@ == JsonView::Null,
            forall|k: int| 0 <= k < ms@.len() ==> #[trigger] mv[k] == (ms@[k].0@, view_of(ms@[k].1)),
            member_lookup(mv, key@) == member_lookup(mv.skip(i as int), key@),
        decreases ms@.len() - i,
    {
        assert(mv.skip(i as int)[0] == mv[i as int]);
        if str_eq(ms[i].0.as_str(), key) {
            return &ms[i].1;
        }
        assert(mv.skip(i as int).drop_first() =~= mv.skip(i + 1));
        i += 1;
    }
    assert(mv.skip(i as int).len() == 0);
    null
}

/// The value stored under `key`, when an object's members hold it.
#[verifier::rlimit(30)]
pub fn lookup_member_in<'a>(ms: &'a Vec<(String, Json)>, key: &str) -> (r: Option<&'a Json>)
    ensures
        match r {
            Some(v) => member_lookup(member_views(ms@), key@) == Some(v@),
            None => member_lookup(member_views(ms@), key@) is None,
        },
{
    proof {
        lemma_member_views(ms@);
    }
    let ghost mv = member_views(ms@);
    assert(mv.skip(0) =~= mv);
    let mut i: usize = 0;
    while i < ms.len()
        invariant
            i <= ms@.len(),
            mv == member_views(ms@),
            mv.len() == ms@.len(),
            forall|k: int| 0 <= k < ms@.len() ==> #[trigger] mv[k] == (ms@[k].0@, view_of(ms@[k].1)),
            member_lookup(mv, key@) == member_lookup(mv.skip(i as int), key@),
        decreases ms@.len() - i,
    {
        assert(mv.skip(i as int)[0] == mv[i as int]);
        if str_eq(ms[i].0.as_str(), key) {
            return Some(&ms[i].1);
        }
        assert(mv.skip(i as int).drop_first() =~= mv.skip(i + 1));
        i += 1;
    }
    None
}

/// The editable values a validated tailored resume changed.
pub fn content_changes(base: &Json, tailored: &Json) -> (r: Vec<ContentChange>)
    requires
        diffable(base@, tailored@),
    ensures
        change_views(r@) == content_changes_of(base@, tailored@),
{
    let null = Json::Null;
    let mut changes: Vec<ContentChange> = Vec::new();
    match (index_key(base, "summary", &null), index_key(tailored, "summary", &null)) {
        (Json::Str(b), Json::Str(a)) => {
            if !str_eq(b.as_str(), a.as_str()) {
                changes.push(
                    ContentChange { path: "/summary".to_owned(), before: b.clone(), after: a.clone() },
                );
            }
        },
        _ => {},
    }
    assert(change_views(changes@) =~= summary_change(base@, tailored@));
    let ghost after_summary = change_views(changes@);
    let pairs = bullet_pairs(base, tailored);
    let ghost ps = pair_views(pairs@);
    let mut k: usize = 0;
    while k < pairs.len()
        invariant
            k <= pairs@.len(),
            ps == pair_views(pairs@),
            change_views(changes@) == after_summary + bullet_changes(ps.take(k as int)),
        decreases pairs@.len() - k,
    {
        assert(ps.take(k + 1).drop_last() =~= ps.take(k as int));
        let p = &pairs[k];
        assert(ps[k as int] == p@);
        if !json_eq(&p.before, &p.after) {
            let mut path = String::new();
            push_str(&mut path, "/experience/");
            push_decimal(&mut path, p.experience_index as u64);
            push_str(&mut path, "/bullets/");
            push_decimal(&mut path, p.bullet_index as u64);
            let ghost before = changes@;
            changes.push(ContentChange { path, before: text_copy(&p.before), after: text_copy(&p.after) });
            assert(change_views(changes@) =~= change_views(before).push(bullet_changes(ps.take(k + 1)).last()));
            assert(bullet_changes(ps.take(k + 1)) =~= bullet_changes(ps.take(k as int)).push(
                bullet_changes(ps.take(k + 1)).last(),
            ));
        }
        k += 1;
    }
    assert(ps.take(k as int) =~= ps);
    let ghost after_bullets = change_views(changes@);
    let empty: Vec<(String, Json)> = Vec::new();
    let base_skills = match index_key(base, "skills", &null).as_object() {
        Some(m) => m,
        None => &empty,
    };
    let tailored_skills = match index_key(tailored, "skills", &null).as_object() {
        Some(m) => m,
        None => &empty,
    };
    proof {
        lemma_member_views(base_skills@);
    }
    let ghost bms = member_views(base_skills@);
    let ghost tms = member_views(tailored_skills@);
    assert(bms == obj(idx(base@, "skills"@)));
    assert(tms == obj(idx(tailored@, "skills"@)));
    let mut i: usize = 0;
    while i < base_skills.len()
        invariant
            i <= base_skills@.len(),
            bms == member_views(base_skills@),
            tms == member_views(tailored_skills@),
            bms.len() == base_skills@.len(),
            forall|j: int|
                0 <= j < base_skills@.len() ==> #[trigger] bms[j] == (
                    base_skills@[j].0@,
                    view_of(base_skills@[j].1),
                ),
            null@ == JsonView::Null,
            change_views(changes@) == after_bullets + skill_changes(bms.take(i as int), tms),
        decreases base_skills@.len() - i,
    {
        assert(bms.take(i + 1).drop_last() =~= bms.take(i as int));
        let key = base_skills[i].0.as_str();
        let before_value = &base_skills[i].1;
        let after_value = lookup_member(tailored_skills, key, &null);
        if !json_eq(before_value, after_value) {
            let mut path = String::new();
            push_str(&mut path, "/skills/");
            push_str(&mut path, key);
            let ghost before = changes@;
            changes.push(
                ContentChange { path, before: text_copy(before_value), after: text_copy(after_value) },
            );
            assert(change_views(changes@) =~= change_views(before).push(
                skill_changes(bms.take(i + 1), tms).last(),
            ));
            assert(skill_changes(bms.take(i + 1), tms) =~= skill_changes(bms.take(i as int), tms).push(
                skill_changes(bms.take(i + 1), tms).last(),
            ));
        }
        i += 1;
    }
    assert(bms.take(i as int) =~= bms);
    assert(change_views(changes@) =~= content_changes_of(base@, tailored@));
    changes
}

// ------------------------------------------------------------------- evidence block

pub open spec fn is_listed_kind(kind: Seq<char>) -> bool {
    kind == "technology"@ || kind == "method_domain"@ || kind == "responsibility"@
}

/// The pieces the evidence block lists, as a function of one entry.
pub enum Listing {
    /// Attested entries of this kind, by term.
    Kind(&'static str),
    /// Attested entries of any other kind, as "term (kind)".
    Other,
    /// Entries the user did not attest to, by term.
    Unattested,
    /// Attested entries the model may place into a role, by term.
    Placeable,
    /// Entries with a non-blank proof note, as "- term: note" lines.
    Notes,
}

pub open spec fn listed(l: Listing, e: EntryView) -> Option<Seq<char>> {
    match l {
        Listing::Kind(k) => if e.user_attested && e.kind == k@ {
            Some(e.term)
        } else {
            None
        },
        Listing::Other => if e.user_attested && !is_listed_kind(e.kind) {
            Some(e.term + " ("@ + e.kind + ")"@)
        } else {
            None
        },
        Listing::Unattested => if !e.user_attested {
            Some(e.term)
        } else {
            None
        },
        Listing::Placeable => if e.user_attested && e.allow_model_role_placement {
            Some(e.term)
        } else {
            None
        },
        Listing::Notes => match e.note {
            Some(n) => if trimmed(n).len() > 0 {
                Some("- "@ + e.term + ": "@ + trimmed(n) + "\n"@)
            } else {
                None
            },
            None => None,
        },
    }
}

pub open spec fn listing(es: Seq<EntryView>, l: Listing) -> Seq<Seq<char>>
    decreases es.len(),
{
    if es.len() == 0 {
        seq![]
    } else {
        match listed(l, es.last()) {
            Some(x) => listing(es.drop_last(), l).push(x),
            None => listing(es.drop_last(), l),
        }
    }
}

/// `label` and the items joined by ", " on one line, or nothing when there are no items.
pub open spec fn labelled_line(label: Seq<char>, items: Seq<Seq<char>>) -> Seq<char> {
    if items.len() == 0 {
        seq![]
    } else {
        label + joined(items, ", "@) + "\n"@
    }
}

pub open spec fn concat(items: Seq<Seq<char>>) -> Seq<char>
    decreases items.len(),
{
    if items.len() == 0 {
        seq![]
    } else {
        concat(items.drop_last()) + items.last()
    }
}

/// The evidence entries as the prompt shows them: grouped by kind in a fixed order, with any
/// other kind still listed, unattested terms kept apart, placement permissions and proof notes
/// last. Every entry reaches the model; grouping is never a filter.
pub open spec fn evidence_block(es: Seq<EntryView>) -> Seq<char> {
    if es.len() == 0 {
        "User-attested evidence bank: (none matched this job)\n"@
    } else {
        let notes = listing(es, Listing::Notes);
        "User-attested evidence bank - each term is a capability this person has actually practised:\n"@
            + labelled_line("technology: "@, listing(es, Listing::Kind("technology")))
            + labelled_line("method_domain: "@, listing(es, Listing::Kind("method_domain")))
            + labelled_line("responsibility: "@, listing(es, Listing::Kind("responsibility")))
            + labelled_line("other: "@, listing(es, Listing::Other)) + labelled_line(
            "Not user-attested - do not claim these: "@,
            listing(es, Listing::Unattested),
        ) + labelled_line(
            "Authorized for placement into an existing role's bullets: "@,
            listing(es, Listing::Placeable),
        ) + if notes.len() == 0 {
            seq![]
        } else {
            "Proof notes:\n"@ + concat(notes)
        }
    }
}

fn listed_item(l: &Listing, e: &EvidenceEntry) -> (r: Option<String>)
    ensures
        match (r, listed(*l, e@)) {
            (None, None) => true,
            (Some(x), Some(y)) => x@ == y,
            _ => false,
        },
{
    match l {
        Listing::Kind(k) => if e.user_attested && str_eq(e.kind.as_str(), k) {
            Some(e.term.clone())
        } else {
            None
        },
        Listing::Other => {
            let k = e.kind.as_str();
            let known = str_eq(k, "technology") || str_eq(k, "method_domain") || str_eq(
                k,
                "responsibility",
            );
            if e.user_attested && !known {
                let mut s = String::new();
                push_str(&mut s, e.term.as_str());
                push_str(&mut s, " (");
                push_str(&mut s, k);
                push_str(&mut s, ")");
                Some(s)
            } else {
                None
            }
        },
        Listing::Unattested => if !e.user_attested {
            Some(e.term.clone())
        } else {
            None
        },
        Listing::Placeable => if e.user_attested && e.allow_model_role_placement {
            Some(e.term.clone())
        } else {
            None
        },
        Listing::Notes => match &e.note {
            Some(n) => {
                let t = trim_str(n.as_str());
                if t.len() > 0 {
                    let mut s = String::new();
                    push_str(&mut s, "- ");
                    push_str(&mut s, e.term.as_str());
                    push_str(&mut s, ": ");
                    push_str(&mut s, string_of(&t).as_str());
                    push_str(&mut s, "\n");
                    Some(s)
                } else {
                    None
                }
            },
            None => None,
        },
    }
}

fn collect_listing(entries: &[EvidenceEntry], l: Listing) -> (r: Vec<String>)
    ensures
        strs(r@) == listing(entry_views(entries@), l),
{
    let ghost es = entry_views(entries@);
    let mut out: Vec<String> = Vec::new();
    let mut k: usize = 0;
    while k < entries.len()
        invariant
            k <= entries@.len(),
            es == entry_views(entries@),
            strs(out@) == listing(es.take(k as int), l),
        decreases entries@.len() - k,
    {
        assert(es.take(k + 1).drop_last() =~= es.take(k as int));
        assert(es.take(k + 1).last() == entries@[k as int]@);
        match listed_item(&l, &entries[k]) {
            Some(x) => {
                let ghost before = out@;
                out.push(x);
                assert(strs(out@) =~= strs(before).push(listed(l, entries@[k as int]@).unwrap()));
            },
            None => {},
        }
        k += 1;
    }
    assert(es.take(k as int) =~= es);
    out
}

/// Appends `items` joined by `sep`.
fn push_joined(out: &mut String, items: &Vec<String>, sep: &str)
    ensures
        final(out)@ == old(out)@ + joined(strs(items@), sep@),
{
    let ghost start = out@;
    let ghost is = strs(items@);
    let mut k: usize = 0;
    while k < items.len()
        invariant
            k <= items@.len(),
            is == strs(items@),
            out@ == start + joined(is.take(k as int), sep@),
        decreases items@.len() - k,
    {
        assert(is.take(k + 1).drop_last() =~= is.take(k as int));
        if k > 0 {
            push_str(out, sep);
        }
        push_str(out, items[k].as_str());
        proof {
            if k == 0 {
                assert(is.take(1) =~= seq![is[0]]);
            }
        }
        assert(out@ =~= start + joined(is.take(k + 1), sep@));
        k += 1;
    }
    assert(is.take(k as int) =~= is);
}

fn push_labelled_line(out: &mut String, label: &str, items: &Vec<String>)
    ensures
        final(out)@ == old(out)@ + labelled_line(label@, strs(items@)),
{
    if items.len() > 0 {
        push_str(out, label);
        push_joined(out, items, ", ");
        push_str(out, "\n");
    }
}

/// Renders the job-matched evidence entries for the prompt.
pub fn render_evidence_block(entries: &[EvidenceEntry]) -> (r: String)
    ensures
        r@ == evidence_block(entry_views(entries@)),
{
    if entries.len() == 0 {
        return "User-attested evidence bank: (none matched this job)\n".to_owned();
    }
    let mut block = String::new();
    push_str(
        &mut block,
        "User-attested evidence bank - each term is a capability this person has actually practised:\n",
    );
    push_labelled_line(&mut block, "technology: ", &collect_listing(entries, Listing::Kind("technology")));
    push_labelled_line(&mut block, "method_domain: ", &collect_listing(entries, Listing::Kind("method_domain")));
    push_labelled_line(&mut block, "responsibility: ", &collect_listing(entries, Listing::Kind("responsibility")));
    push_labelled_line(&mut block, "other: ", &collect_listing(entries, Listing::Other));
    push_labelled_line(
        &mut block,
        "Not user-attested - do not claim these: ",
        &collect_listing(entries, Listing::Unattested),
    );
    push_labelled_line(
        &mut block,
        "Authorized for placement into an existing role's bullets: ",
        &collect_listing(entries, Listing::Placeable),
    );
    let notes = collect_listing(entries, Listing::Notes);
    if notes.len() > 0 {
        push_str(&mut block, "Proof notes:\n");
        let ghost start = block@;
        let ghost ns = strs(notes@);
        let mut k: usize = 0;
        while k < notes.len()
            invariant
                k <= notes@.len(),
                ns == strs(notes@),
                block@ == start + concat(ns.take(k as int)),
            decreases notes@.len() - k,
        {
            assert(ns.take(k + 1).drop_last() =~= ns.take(k as int));
            push_str(&mut block, notes[k].as_str());
            assert(block@ =~= start + concat(ns.take(k + 1)));
            k += 1;
        }
        assert(ns.take(k as int) =~= ns);
    }
    assert(block@ =~= evidence_block(entry_views(entries@)));
    block
}

// -------------------------------------------------------------------------- slugs

/// The running slug of `s` and whether it ends in a dash just written: ASCII letters and
/// digits kept lowercased, every other run of characters one dash.
pub open spec fn slug_scan(s: Seq<char>) -> (Seq<char>, bool)
    decreases s.len(),
{
    if s.len() == 0 {
        (seq![], false)
    } else {
        let p = slug_scan(s.drop_last());
        let c = s.last();
        if is_ascii_alnum(c) {
            (p.0.push(ascii_lower(c)), false)
        } else if !p.1 {
            (p.0.push('-'), true)
        } else {
            p
        }
    }
}

pub open spec fn dash_trimmed(s: Seq<char>) -> Seq<char> {
    trim_start_char(trim_end_char(s, '-'), '-')
}

/// A path-safe slug: lowercase ASCII letters and digits separated by single dashes, never
/// starting or ending with one; `tailored-resume` when nothing is left.
pub open spec fn slug_of(value: Seq<char>) -> Seq<char> {
    let t = dash_trimmed(slug_scan(value).0);
    if t.len() == 0 {
        "tailored-resume"@
    } else {
        t
    }
}

pub fn slugify(value: &str) -> (r: String)
    ensures
        r@ == slug_of(value@),
{
    let cs = chars_of(value);
    let mut slug: Vec<char> = Vec::new();
    let mut previous_dash = false;
    let mut i: usize = 0;
    while i < cs.len()
        invariant
            i <= cs@.len(),
            cs@ == value@,
            (slug@, previous_dash) == slug_scan(cs@.take(i as int)),
        decreases cs@.len() - i,
    {
        assert(cs@.take(i + 1).drop_last() =~= cs@.take(i as int));
        let c = cs[i];
        if is_ascii_alphanumeric(c) {
            slug.push(to_ascii_lowercase(c));
            previous_dash = false;
        } else if !previous_dash {
            slug.push('-');
            previous_dash = true;
        }
        i += 1;
    }
    assert(cs@.take(i as int) =~= cs@);
    trim_end_in_place(&mut slug, '-');
    let t = trim_start_copy(&slug, '-');
    if t.len() == 0 {
        "tailored-resume".to_owned()
    } else {
        string_of(&t)
    }
}

pub open spec fn is_ascii_text(s: Seq<char>) -> bool {
    forall|i: int| 0 <= i < s.len() ==> (#[trigger] s[i] as u32) < 128
}

pub proof fn lemma_slug_scan_ascii(s: Seq<char>)
    ensures
        is_ascii_text(slug_scan(s).0),
    decreases s.len(),
{
    if s.len() > 0 {
        lemma_slug_scan_ascii(s.drop_last());
    }
}

pub proof fn lemma_trim_start_ascii(s: Seq<char>, c: char)
    requires
        is_ascii_text(s),
    ensures
        is_ascii_text(trim_start_char(s, c)),
    decreases s.len(),
{
    if s.len() > 0 && s[0] == c {
        lemma_trim_start_ascii(s.drop_first(), c);
    }
}

pub proof fn lemma_trim_end_ascii(s: Seq<char>, c: char)
    requires
        is_ascii_text(s),
    ensures
        is_ascii_text(trim_end_char(s, c)),
    decreases s.len(),
{
    if s.len() > 0 && s.last() == c {
        lemma_trim_end_ascii(s.drop_last(), c);
    }
}

pub proof fn lemma_slug_ascii(value: Seq<char>)
    ensures
        is_ascii_text(slug_of(value)),
{
    lemma_slug_scan_ascii(value);
    lemma_trim_end_ascii(slug_scan(value).0, '-');
    lemma_trim_start_ascii(trim_end_char(slug_scan(value).0, '-'), '-');
    reveal_strlit("tailored-resume");
}

/// A character a slug may hold: a lowercase ASCII letter, a digit or a dash.
pub open spec fn slug_char(c: char) -> bool {
    ('a' <= c && c <= 'z') || ('0' <= c && c <= '9') || c == '-'
}

proof fn lemma_slug_scan_chars(s: Seq<char>)
    ensures
        forall|i: int| 0 <= i < slug_scan(s).0.len() ==> slug_char(#[trigger] slug_scan(s).0[i]),
    decreases s.len(),
{
    if s.len() > 0 {
        lemma_slug_scan_chars(s.drop_last());
        let p = slug_scan(s.drop_last());
        let c = s.last();
        let r = slug_scan(s).0;
        if is_ascii_alnum(c) {
            let l = ascii_lower(c);
            if 'A' <= c && c <= 'Z' {
                assert(65 <= (c as u32) <= 90);
                assert((((c as u32) + 32) as char) as u32 == (c as u32) + 32);
            }
            assert(slug_char(l));
            assert(r == p.0.push(l));
        }
        assert forall|i: int| 0 <= i < r.len() implies slug_char(#[trigger] r[i]) by {
            if i < p.0.len() {
                assert(r[i] == p.0[i]);
            }
        }
    }
}

pub(crate) proof fn lemma_trim_start_shape(s: Seq<char>, c: char)
    ensures
        exists|k: int| 0 <= k <= s.len() && trim_start_char(s, c) == s.subrange(k, s.len() as int),
        trim_start_char(s, c).len() > 0 ==> trim_start_char(s, c)[0] != c,
    decreases s.len(),
{
    if s.len() > 0 && s[0] == c {
        lemma_trim_start_shape(s.drop_first(), c);
        let k = choose|k: int|
            0 <= k <= s.drop_first().len() && trim_start_char(s.drop_first(), c) == s.drop_first().subrange(
                k,
                s.drop_first().len() as int,
            );
        assert(s.drop_first().subrange(k, s.drop_first().len() as int) =~= s.subrange(
            k + 1,
            s.len() as int,
        ));
    } else {
        assert(s.subrange(0, s.len() as int) =~= s);
    }
}

pub(crate) proof fn lemma_trim_end_shape(s: Seq<char>, c: char)
    ensures
        exists|k: int| 0 <= k <= s.len() && trim_end_char(s, c) == s.take(k),
        trim_end_char(s, c).len() > 0 ==> trim_end_char(s, c).last() != c,
    decreases s.len(),
{
    if s.len() > 0 && s.last() == c {
        lemma_trim_end_shape(s.drop_last(), c);
        let k = choose|k: int| 0 <= k <= s.drop_last().len() && trim_end_char(s.drop_last(), c) == s.drop_last().take(k);
        assert(s.drop_last().take(k) =~= s.take(k));
    } else {
        assert(s.take(s.len() as int) =~= s);
    }
}

/// A slug is path safe: never empty, only lowercase ASCII letters, digits and dashes, and
/// neither starting nor ending with a dash.
pub proof fn lemma_slug_path_safe(value: Seq<char>)
    ensures
        slug_of(value).len() > 0,
        forall|i: int| 0 <= i < slug_of(value).len() ==> slug_char(#[trigger] slug_of(value)[i]),
        slug_of(value)[0] != '-',
        slug_of(value).last() != '-',
{
    let scanned = slug_scan(value).0;
    lemma_slug_scan_chars(value);
    let e = trim_end_char(scanned, '-');
    lemma_trim_end_shape(scanned, '-');
    let t = trim_start_char(e, '-');
    lemma_trim_start_shape(e, '-');
    let ke = choose|k: int| 0 <= k <= scanned.len() && e == scanned.take(k);
    let ks = choose|k: int| 0 <= k <= e.len() && t == e.subrange(k, e.len() as int);
    if t.len() == 0 {
        reveal_strlit("tailored-resume");
        assert(slug_of(value) == "tailored-resume"@);
        assert forall|i: int| 0 <= i < slug_of(value).len() implies slug_char(
            #[trigger] slug_of(value)[i],
        ) by {
            assert(slug_of(value)[i] == "tailored-resume"@[i]);
        }
    } else {
        assert(slug_of(value) == t);
        assert forall|i: int| 0 <= i < t.len() implies slug_char(#[trigger] t[i]) by {
            assert(t[i] == e[ks + i]);
            assert(e[ks + i] == scanned[ks + i]);
        }
        assert(t.last() == e.last());
    }
}

/// FNV-1a over bytes, 32-bit.
pub open spec fn fnv1a(bytes: Seq<u8>) -> u32
    decreases bytes.len(),
{
    if bytes.len() == 0 {
        0x811c9dc5
    } else {
        (fnv1a(bytes.drop_last()) ^ (bytes.last() as u32)).wrapping_mul(0x01000193)
    }
}

pub fn fnv1a_32(bytes: &[u8]) -> (r: u32)
    ensures
        r == fnv1a(bytes@),
{
    let mut hash: u32 = 0x811c9dc5;
    let mut i: usize = 0;
    while i < bytes.len()
        invariant
            i <= bytes@.len(),
            hash == fnv1a(bytes@.take(i as int)),
        decreases bytes@.len() - i,
    {
        assert(bytes@.take(i + 1).drop_last() =~= bytes@.take(i as int));
        hash = (hash ^ (bytes[i] as u32)).wrapping_mul(0x01000193);
        i += 1;
    }
    assert(bytes@.take(i as int) =~= bytes@);
    hash
}

pub open spec fn ascii_bytes(s: Seq<char>) -> Seq<u8> {
    s.map_values(|c: char| c as u8)
}

pub open spec fn hex_digit(n: nat) -> char {
    if n < 10 {
        digit_char(n)
    } else {
        ((n + 87) as u32) as char
    }
}

/// The last `count` hexadecimal digits of `n`, lowercase, zero-padded.
pub open spec fn hex_digits(n: nat, count: nat) -> Seq<char>
    decreases count,
{
    if count == 0 {
        seq![]
    } else {
        hex_digits(n / 16, (count - 1) as nat).push(hex_digit(n % 16))
    }
}

fn push_hex8(out: &mut String, h: u32)
    ensures
        final(out)@ == old(out)@ + hex_digits(h as nat, 8),
{
    let mut digits: Vec<char> = Vec::new();
    let mut n: u32 = h;
    let mut k: usize = 0;
    proof {
        vstd::arithmetic::power::lemma_pow0(16);
        assert(hex_digits(h as nat, 8) =~= hex_digits(h as nat, 8) + digits@);
    }
    while k < 8
        invariant
            k <= 8,
            digits@.len() == k,
            n as nat == (h as nat) / vstd::arithmetic::power::pow(16, k as nat) as nat,
            hex_digits(h as nat, 8) == hex_digits(n as nat, (8 - k) as nat) + digits@,
        decreases 8 - k,
    {
        let d: u32 = n % 16;
        let c: char = if d < 10 {
            ((d as u8) + 48) as char
        } else {
            ((d as u8) + 87) as char
        };
        proof {
            vstd::arithmetic::power::lemma_pow_adds(16, k as nat, 1);
            vstd::arithmetic::power::lemma_pow1(16);
            vstd::arithmetic::power::lemma_pow_positive(16, k as nat);
            vstd::arithmetic::div_mod::lemma_div_denominator(
                h as int,
                vstd::arithmetic::power::pow(16, k as nat),
                16,
            );
            assert(hex_digits(n as nat, (8 - k) as nat) == hex_digits(
                (n / 16) as nat,
                (8 - k - 1) as nat,
            ).push(hex_digit((n % 16) as nat)));
        }
        let ghost before = digits@;
        digits.insert(0, c);
        assert(digits@ =~= seq![c] + before);
        assert(hex_digits((n / 16) as nat, (8 - k - 1) as nat).push(c) + before =~= hex_digits(
            (n / 16) as nat,
            (8 - k - 1) as nat,
        ) + digits@);
        n = n / 16;
        k += 1;
    }
    push_str(out, string_of(&digits).as_str());
}

/// A slug cut to `max_len` bytes: kept whole when it fits, otherwise a dash-trimmed prefix
/// followed by `-` and the eight-digit FNV-1a hash of the whole slug, so distinct long slugs
/// stay distinct and the same one always gives the same result.
pub open spec fn bounded(slug: Seq<char>, max_len: nat) -> Seq<char> {
    if slug.len() <= max_len {
        slug
    } else {
        let prefix_len: nat = if max_len >= 9 {
            (max_len - 9) as nat
        } else {
            0
        };
        dash_trimmed(slug.take(prefix_len as int)) + "-"@ + hex_digits(
            fnv1a(ascii_bytes(slug)) as nat,
            8,
        )
    }
}

proof fn lemma_hex_digits_len(n: nat, count: nat)
    ensures
        hex_digits(n, count).len() == count,
    decreases count,
{
    if count > 0 {
        lemma_hex_digits_len(n / 16, (count - 1) as nat);
    }
}

/// A bounded slug never exceeds its limit once the limit leaves room for the dash and the
/// eight hash digits; a slug already within the limit is kept as it is.
pub proof fn lemma_bounded_slug_fits(slug: Seq<char>, max_len: nat)
    requires
        max_len >= 9,
    ensures
        bounded(slug, max_len).len() <= max_len,
        slug.len() <= max_len ==> bounded(slug, max_len) == slug,
{
    if slug.len() > max_len {
        let prefix = slug.take((max_len - 9) as int);
        lemma_trim_end_shape(prefix, '-');
        lemma_trim_start_shape(trim_end_char(prefix, '-'), '-');
        lemma_hex_digits_len(fnv1a(ascii_bytes(slug)) as nat, 8);
        reveal_strlit("-");
    }
}

/// `slug` is ASCII, as `slugify` makes it, so its bytes are its characters.
pub(crate) fn bounded_slug(slug: &str, max_len: usize) -> (r: String)
    requires
        is_ascii_text(slug@),
    ensures
        r@ == bounded(slug@, max_len as nat),
{
    let cs = chars_of(slug);
    if cs.len() <= max_len {
        return slug.to_owned();
    }
    let mut bytes: Vec<u8> = Vec::new();
    let mut i: usize = 0;
    while i < cs.len()
        invariant
            i <= cs@.len(),
            cs@ == slug@,
            bytes@ == ascii_bytes(cs@.take(i as int)),
        decreases cs@.len() - i,
    {
        bytes.push(cs[i] as u8);
        assert(ascii_bytes(cs@.take(i + 1)) =~= ascii_bytes(cs@.take(i as int)).push(cs@[i as int] as u8));
        i += 1;
    }
    assert(cs@.take(i as int) =~= cs@);
    let hash = fnv1a_32(&bytes);
    let prefix_len: usize = if max_len >= 9 {
        max_len - 9
    } else {
        0
    };
    let mut prefix: Vec<char> = Vec::new();
    let mut j: usize = 0;
    while j < prefix_len
        invariant
            j <= prefix_len,
            prefix_len < cs@.len(),
            prefix@ == cs@.take(j as int),
        decreases prefix_len - j,
    {
        prefix.push(cs[j]);
        assert(cs@.take(j + 1) =~= cs@.take(j as int).push(cs@[j as int]));
        j += 1;
    }
    trim_end_in_place(&mut prefix, '-');
    let trimmed_prefix = trim_start_copy(&prefix, '-');
    let mut out = string_of(&trimmed_prefix);
    push_str(&mut out, "-");
    push_hex8(&mut out, hash);
    out
}

/// The longest variant slug, language suffix included.
pub const MAX_COMPANY_ROLE_SLUG_LEN: usize = 64;

pub open spec fn text_or(v: Option<JsonView>, fallback: Seq<char>) -> Seq<char> {
    match text_of(v) {
        Some(t) => t,
        None => fallback,
    }
}

/// The variant's name: company and role (the analysed role, else the posting's title),
/// slugged, bounded so that with the language suffix it stays within 64 bytes.
pub open spec fn company_role(job: JsonView, role_target: Seq<char>, language: Seq<char>) -> Seq<
    char,
> {
    let company = text_or(field(job, "company"@), "unknown-company"@);
    let role = if trimmed(role_target).len() == 0 {
        text_or(field(job, "title"@), "unknown-role"@)
    } else {
        role_target
    };
    let suffix = "-"@ + language;
    let limit: nat = if utf8_len(suffix) <= 64 {
        (64 - utf8_len(suffix)) as nat
    } else {
        0
    };
    bounded(slug_of(company + "-"@ + role), limit) + suffix
}

pub fn company_role_slug(parsed_job: &Json, analysis: &JobAnalysis, language: &str) -> (r: String)
    ensures
        r@ == company_role(parsed_job@, analysis.role_target@, language@),
{
    let company = match parsed_job.get("company") {
        Some(v) => match v.as_str() {
            Some(t) => t,
            None => "unknown-company",
        },
        None => "unknown-company",
    };
    let role = if trim_str(analysis.role_target.as_str()).len() == 0 {
        match parsed_job.get("title") {
            Some(v) => match v.as_str() {
                Some(t) => t,
                None => "unknown-role",
            },
            None => "unknown-role",
        }
    } else {
        analysis.role_target.as_str()
    };
    let mut joined_name = String::new();
    push_str(&mut joined_name, company);
    push_str(&mut joined_name, "-");
    push_str(&mut joined_name, role);
    let base = slugify(joined_name.as_str());
    let mut suffix = String::new();
    push_str(&mut suffix, "-");
    push_str(&mut suffix, language);
    let suffix_len = utf8_len_of(&chars_of(suffix.as_str()));
    let limit: usize = if suffix_len <= 64 {
        (64 - suffix_len) as usize
    } else {
        0
    };
    proof {
        lemma_slug_ascii(joined_name@);
    }
    let mut out = bounded_slug(base.as_str(), limit);
    push_str(&mut out, suffix.as_str());
    out
}

// -------------------------------------------------------------------------- dates

/// The Gregorian civil date (year, month, day) of a count of days since 1970-01-01, by Howard
/// Hinnant's days-to-civil algorithm: 400-year eras, then years of the era from March.
pub open spec fn civil_from_days(days: int) -> (int, int, int) {
    let z = days + 719468;
    let era = z / 146097;
    let doe = z - era * 146097;
    let yoe = (doe - doe / 1460 + doe / 36524 - doe / 146096) / 365;
    let year = yoe + era * 400;
    let doy = doe - (365 * yoe + yoe / 4 - yoe / 100);
    let mp = (5 * doy + 2) / 153;
    let day = doy - (153 * mp + 2) / 5 + 1;
    let month = if mp < 10 {
        mp + 3
    } else {
        mp - 9
    };
    (if month <= 2 {
        year + 1
    } else {
        year
    }, month, day)
}

proof fn lemma_year_of_era(d: u64)
    requires
        d <= 146096,
    ensures
        d / 1460 <= d,
        d - d / 1460 + d / 36524 >= d / 146096,
        (d - d / 1460 + d / 36524 - d / 146096) / 365 <= 399,
{
    assert(d / 1460 <= d && d - d / 1460 + d / 36524 >= d / 146096 && (d - d / 1460 + d / 36524
        - d / 146096) / 365 <= 399) by (bit_vector)
        requires
            d <= 146096,
    ;
}

proof fn lemma_day_of_year(d: u64, yoe: u64)
    requires
        d <= 146096,
        yoe == ((d - d / 1460 + d / 36524 - d / 146096) / 365) as u64,
    ensures
        365 * yoe + yoe / 4 >= yoe / 100,
        365 * yoe + yoe / 4 - yoe / 100 <= d,
        d - (365 * yoe + yoe / 4 - yoe / 100) <= 365,
{
    assert({
        let a: u64 = (d - d / 1460 + d / 36524 - d / 146096) as u64;
        let y: u64 = a / 365;
        &&& 365 * y + y / 4 >= y / 100
        &&& (365 * y + y / 4 - y / 100) <= d
        &&& d - (365 * y + y / 4 - y / 100) <= 365
    }) by (bit_vector)
        requires
            d <= 146096,
    ;
    lemma_year_of_era(d);
}

proof fn lemma_month_of_year(doy: u64)
    requires
        doy <= 365,
    ensures
        (5 * doy + 2) / 153 <= 11,
        (153 * ((5 * doy + 2) / 153) + 2) / 5 <= doy,
        doy - (153 * ((5 * doy + 2) / 153) + 2) / 5 + 1 <= 31,
{
    assert({
        let mp: u64 = ((5 * doy + 2) / 153) as u64;
        &&& mp <= 11
        &&& (153 * mp + 2) / 5 <= doy
        &&& doy - (153 * mp + 2) / 5 + 1 <= 31
    }) by (bit_vector)
        requires
            doy <= 365,
    ;
}

pub fn civil_date_from_days(days_since_epoch: i64) -> (r: (i64, u32, u32))
    requires
        days_since_epoch <= i64::MAX - 719468,
    ensures
        (r.0 as int, r.1 as int, r.2 as int) == civil_from_days(days_since_epoch as int),
        1 <= r.1 <= 12,
        1 <= r.2 <= 31,
{
    let z: i64 = days_since_epoch + 719468;
    let era: i64 = if z >= 0 {
        ((z as u64) / 146097) as i64
    } else {
        let q: u64 = ((146096 - z) as u64) / 146097;
        proof {
            let x = 146096 - z;
            vstd::arithmetic::div_mod::lemma_fundamental_div_mod(x as int, 146097);
            vstd::arithmetic::div_mod::lemma_fundamental_div_mod_converse(
                z as int,
                146097,
                -(q as int),
                146096 - (x as int) % 146097,
            );
        }
        -(q as i64)
    };
    proof {
        vstd::arithmetic::div_mod::lemma_fundamental_div_mod(z as int, 146097);
    }
    assert(era == (z as int) / 146097);
    let doe: i64 = z - era * 146097;
    assert(0 <= doe <= 146096);
    let d: u64 = doe as u64;
    proof {
        lemma_year_of_era(d);
    }
    let yoe: u64 = (d - d / 1460 + d / 36524 - d / 146096) / 365;
    proof {
        lemma_day_of_year(d, yoe);
    }
    let doy: u64 = d - (365 * yoe + yoe / 4 - yoe / 100);
    proof {
        lemma_month_of_year(doy);
    }
    let mp: u64 = (5 * doy + 2) / 153;
    let day: u64 = doy - (153 * mp + 2) / 5 + 1;
    let month: u64 = if mp < 10 {
        mp + 3
    } else {
        mp - 9
    };
    let year: i64 = yoe as i64 + era * 400;
    (if month <= 2 {
        year + 1
    } else {
        year
    }, month as u32, day as u32)
}

/// `n` written with at least `width` digits, zero-padded.
pub open spec fn padded(n: nat, width: nat) -> Seq<char> {
    let d = decimal(n);
    if d.len() >= width {
        d
    } else {
        Seq::new((width - d.len()) as nat, |i: int| '0') + d
    }
}

fn push_padded(out: &mut String, n: u64, width: usize)
    ensures
        final(out)@ == old(out)@ + padded(n as nat, width as nat),
{
    let mut digits = String::new();
    push_decimal(&mut digits, n);
    let dc = chars_of(digits.as_str());
    let ghost start = out@;
    if dc.len() < width {
        let pad = width - dc.len();
        let mut k: usize = 0;
        while k < pad
            invariant
                k <= pad,
                out@ == start + Seq::new(k as nat, |i: int| '0'),
            decreases pad - k,
        {
            crate::text::push_char(out, '0');
            assert(out@ =~= start + Seq::new((k + 1) as nat, |i: int| '0'));
            k += 1;
        }
    }
    push_str(out, digits.as_str());
    assert(out@ =~= start + padded(n as nat, width as nat));
}

/// `YYYY-MM-DD` for a day count since 1970-01-01 (not before it).
pub open spec fn date_prefix(days: int) -> Seq<char> {
    let (y, m, d) = civil_from_days(days);
    padded(y as nat, 4) + "-"@ + padded(m as nat, 2) + "-"@ + padded(d as nat, 2)
}

pub proof fn lemma_civil_year_nonnegative(days: int)
    requires
        0 <= days,
    ensures
        civil_from_days(days).0 >= 0,
{
    let z = days + 719468;
    vstd::arithmetic::div_mod::lemma_fundamental_div_mod(z, 146097);
    vstd::arithmetic::div_mod::lemma_div_pos_is_pos(z, 146097);
}

/// The date prefix of variant names, for the day `days_since_epoch` (the application reads
/// the clock).
pub fn date_prefix_from_days(days_since_epoch: i64) -> (r: String)
    requires
        0 <= days_since_epoch <= i64::MAX - 719468,
    ensures
        r@ == date_prefix(days_since_epoch as int),
{
    let (year, month, day) = civil_date_from_days(days_since_epoch);
    proof {
        lemma_civil_year_nonnegative(days_since_epoch as int);
    }
    let mut out = String::new();
    push_padded(&mut out, year as u64, 4);
    push_str(&mut out, "-");
    push_padded(&mut out, month as u64, 2);
    push_str(&mut out, "-");
    push_padded(&mut out, day as u64, 2);
    out
}

} // verus!
