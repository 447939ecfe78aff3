//! The structured job analysis, and how its text is read out of a Responses API body.

use vstd::prelude::*;
use crate::text::{push_str, str_eq, trim_str, trimmed};
use crate::http::{push_status, status_text};
use crate::config::{clean_api_key, cleaned_key, opt_view, setting_or, setting_or_default, DEFAULT_BASE_URL};
use crate::json::{elements_of, field, lemma_views_of, text_of, views_of, Json, JsonView};

verus! {

/// One high-importance keyword, with the job-post evidence for it.
#[derive(Clone, Debug, PartialEq)]
pub struct KeywordSignal {
    pub term: String,
    /// `technology`, `method_domain`, or `responsibility`.
    pub category: String,
    /// 1 to 5.
    pub importance: u8,
    pub evidence: String,
}

/// Alternate written forms of a term that a literal keyword matcher treats as different
/// strings ("Kubernetes" and "K8s").
#[derive(Clone, Debug, PartialEq)]
pub struct TermVariants {
    pub term: String,
    pub variants: Vec<String>,
}

/// What a job post asks for, as the analysis model extracted it.
#[derive(Clone, Debug, PartialEq)]
pub struct JobAnalysis {
    pub role_target: String,
    pub seniority: String,
    pub core_keywords: Vec<KeywordSignal>,
    pub required_skills: Vec<String>,
    pub preferred_skills: Vec<String>,
    pub tools_and_platforms: Vec<String>,
    pub domain_terms: Vec<String>,
    pub responsibility_phrases: Vec<String>,
    pub achievement_angles: Vec<String>,
    pub ats_phrase_bank: Vec<String>,
    pub must_not_claim_without_evidence: Vec<String>,
    pub term_variants: Vec<TermVariants>,
    pub summary: String,
}

/// Where the model endpoint is and which model to ask.
#[derive(Clone, Debug)]
pub struct AnalysisConfig {
    pub api_key: String,
    pub model: String,
    pub base_url: String,
}

/// The model the analysis stage asks unless configured otherwise.
pub const DEFAULT_ANALYSIS_MODEL: &'static str = "gpt-5.6-luna";

impl AnalysisConfig {
    /// The configuration from the raw settings: none without a usable key; a blank model or
    /// endpoint falls back to its default.
    pub fn from_values(api_key: Option<String>, model: Option<String>, base_url: Option<String>) -> (r:
        Option<Self>)
        ensures
            match r {
                Some(c) => api_key is Some && cleaned_key(api_key.unwrap()@) == Some(c.api_key@)
                    && c.model@ == setting_or(opt_view(model), DEFAULT_ANALYSIS_MODEL@)
                    && c.base_url@ == setting_or(opt_view(base_url), DEFAULT_BASE_URL@),
                None => api_key is None || cleaned_key(api_key.unwrap()@) is None,
            },
    {
        let key = match api_key {
            Some(k) => k,
            None => {
                return None;
            },
        };
        let cleaned = match clean_api_key(key.as_str()) {
            Some(c) => c,
            None => {
                return None;
            },
        };
        Some(
            AnalysisConfig {
                api_key: cleaned,
                model: setting_or_default(model, DEFAULT_ANALYSIS_MODEL),
                base_url: setting_or_default(base_url, DEFAULT_BASE_URL),
            },
        )
    }
}

/// Why an analysis call did not produce a usable analysis.
#[derive(Debug)]
pub enum AnalysisError {
    Request(String),
    Http { status: u16, body: String },
    MissingOutputText,
    EmptyResponseBody,
    EmptyOutputText,
    InvalidJson(String),
    IncompleteResponse(String),
    Refused(String),
}

// ------------------------------------------------------------ Responses API bodies

/// `field` of a content part whose `type` is `ty`.
pub open spec fn part_hit(part: JsonView, ty: Seq<char>, name: Seq<char>) -> Option<Seq<char>> {
    if text_of(field(part, "type"@)) == Some(ty) {
        text_of(field(part, name))
    } else {
        None
    }
}

pub open spec fn first_part_hit(parts: Seq<JsonView>, ty: Seq<char>, name: Seq<char>) -> Option<
    Seq<char>,
>
    decreases parts.len(),
{
    if parts.len() == 0 {
        None
    } else {
        match part_hit(parts[0], ty, name) {
            Some(t) => Some(t),
            None => first_part_hit(parts.drop_first(), ty, name),
        }
    }
}

pub open spec fn first_item_hit(items: Seq<JsonView>, ty: Seq<char>, name: Seq<char>) -> Option<
    Seq<char>,
>
    decreases items.len(),
{
    if items.len() == 0 {
        None
    } else {
        match first_part_hit(elements_of(field(items[0], "content"@)), ty, name) {
            Some(t) => Some(t),
            None => first_item_hit(items.drop_first(), ty, name),
        }
    }
}

/// The first `name` of an output content part of type `ty`, in output order.
pub open spec fn output_hit(response: JsonView, ty: Seq<char>, name: Seq<char>) -> Option<Seq<char>> {
    first_item_hit(elements_of(field(response, "output"@)), ty, name)
}

fn find_part(parts: &Vec<Json>, ty: &str, name: &str) -> (r: Option<String>)
    ensures
        match r {
            Some(t) => first_part_hit(views_of(parts@), ty@, name@) == Some(t@),
            None => first_part_hit(views_of(parts@), ty@, name@) is None,
        },
{
    proof {
        lemma_views_of(parts@);
    }
    let ghost ps = views_of(parts@);
    assert(ps.skip(0) =~= ps);
    let mut i: usize = 0;
    while i < parts.len()
        invariant
            i <= parts@.len(),
            ps == views_of(parts@),
            ps.len() == parts@.len(),
            forall|k: int| 0 <= k < parts@.len() ==> #[trigger] ps[k] == parts@[k]@,
            first_part_hit(ps, ty@, name@) == first_part_hit(ps.skip(i as int), ty@, name@),
        decreases parts@.len() - i,
    {
        assert(ps.skip(i as int)[0] == ps[i as int]);
        assert(ps.skip(i as int).drop_first() =~= ps.skip(i + 1));
        let part = &parts[i];
        let typed = match part.get("type") {
            Some(t) => match t.as_str() {
                Some(x) => str_eq(x, ty),
                None => false,
            },
            None => false,
        };
        if typed {
            match part.get(name) {
                Some(v) => match v.as_str() {
                    Some(x) => {
                        return Some(x.to_owned());
                    },
                    None => {},
                },
                None => {},
            }
        }
        i += 1;
    }
    None
}

/// The first content part of type `ty` in a Responses API body, and its `name` text.
pub fn find_output(response: &Json, ty: &str, name: &str) -> (r: Option<String>)
    ensures
        match r {
            Some(t) => output_hit(response@, ty@, name@) == Some(t@),
            None => output_hit(response@, ty@, name@) is None,
        },
{
    let items = match response.get("output") {
        Some(o) => match o.as_array() {
            Some(a) => a,
            None => {
                return None;
            },
        },
        None => {
            return None;
        },
    };
    proof {
        lemma_views_of(items@);
    }
    let ghost is = views_of(items@);
    assert(is.skip(0) =~= is);
    let mut i: usize = 0;
    while i < items.len()
        invariant
            i <= items@.len(),
            is == views_of(items@),
            is.len() == items@.len(),
            forall|k: int| 0 <= k < items@.len() ==> #[trigger] is[k] == items@[k]@,
            first_item_hit(is, ty@, name@) == first_item_hit(is.skip(i as int), ty@, name@),
            output_hit(response@, ty@, name@) == first_item_hit(is, ty@, name@),
        decreases items@.len() - i,
    {
        assert(is.skip(i as int)[0] == is[i as int]);
        assert(is.skip(i as int).drop_first() =~= is.skip(i + 1));
        let parts = match items[i].get("content") {
            Some(c) => c.as_array(),
            None => None,
        };
        match parts {
            Some(ps) => match find_part(ps, ty, name) {
                Some(t) => {
                    return Some(t);
                },
                None => {},
            },
            None => {},
        }
        i += 1;
    }
    None
}

/// Why the model stopped early, when the response says it did.
pub open spec fn incomplete_of(response: JsonView) -> Option<Seq<char>> {
    if text_of(field(response, "status"@)) != Some("incomplete"@) {
        None
    } else {
        match field(response, "incomplete_details"@) {
            Some(d) => match text_of(field(d, "reason"@)) {
                Some(r) => Some(r),
                None => Some("reason unknown"@),
            },
            None => Some("reason unknown"@),
        }
    }
}

pub fn incomplete_reason(response: &Json) -> (r: Option<String>)
    ensures
        match r {
            Some(t) => incomplete_of(response@) == Some(t@),
            None => incomplete_of(response@) is None,
        },
{
    let incomplete = match response.get("status") {
        Some(s) => match s.as_str() {
            Some(x) => str_eq(x, "incomplete"),
            None => false,
        },
        None => false,
    };
    if !incomplete {
        return None;
    }
    match response.get("incomplete_details") {
        Some(d) => match d.get("reason") {
            Some(r) => match r.as_str() {
                Some(x) => Some(x.to_owned()),
                None => Some("reason unknown".to_owned()),
            },
            None => Some("reason unknown".to_owned()),
        },
        None => Some("reason unknown".to_owned()),
    }
}

pub fn find_refusal(response: &Json) -> (r: Option<String>)
    ensures
        match r {
            Some(t) => output_hit(response@, "refusal"@, "refusal"@) == Some(t@),
            None => output_hit(response@, "refusal"@, "refusal"@) is None,
        },
{
    find_output(response, "refusal", "refusal")
}

pub fn find_output_text(response: &Json) -> (r: Option<String>)
    ensures
        match r {
            Some(t) => output_hit(response@, "output_text"@, "text"@) == Some(t@),
            None => output_hit(response@, "output_text"@, "text"@) is None,
        },
{
    find_output(response, "output_text", "text")
}

/// What a parsed Responses API body yields: a refusal, the structured text, or why there is
/// none; a response cut short is refused even when text came back.
pub open spec fn output_outcome(response: JsonView) -> Result<Seq<char>, AnalysisErrorView> {
    match output_hit(response, "refusal"@, "refusal"@) {
        Some(r) => Err(AnalysisErrorView::Refused(r)),
        None => match output_hit(response, "output_text"@, "text"@) {
            None => match incomplete_of(response) {
                Some(reason) => Err(AnalysisErrorView::IncompleteResponse(reason)),
                None => Err(AnalysisErrorView::MissingOutputText),
            },
            Some(t) => if trimmed(t).len() == 0 {
                Err(AnalysisErrorView::EmptyOutputText)
            } else {
                match incomplete_of(response) {
                    Some(reason) => Err(AnalysisErrorView::IncompleteResponse(reason)),
                    None => Ok(t),
                }
            },
        },
    }
}

pub enum AnalysisErrorView {
    Request(Seq<char>),
    Http { status: u16, body: Seq<char> },
    MissingOutputText,
    EmptyResponseBody,
    EmptyOutputText,
    InvalidJson(Seq<char>),
    IncompleteResponse(Seq<char>),
    Refused(Seq<char>),
}

impl View for AnalysisError {
    type V = AnalysisErrorView;

    open spec fn view(&self) -> AnalysisErrorView {
        match self {
            AnalysisError::Request(s) => AnalysisErrorView::Request(s@),
            AnalysisError::Http { status, body } => AnalysisErrorView::Http { status: *status, body: body@ },
            AnalysisError::MissingOutputText => AnalysisErrorView::MissingOutputText,
            AnalysisError::EmptyResponseBody => AnalysisErrorView::EmptyResponseBody,
            AnalysisError::EmptyOutputText => AnalysisErrorView::EmptyOutputText,
            AnalysisError::InvalidJson(s) => AnalysisErrorView::InvalidJson(s@),
            AnalysisError::IncompleteResponse(s) => AnalysisErrorView::IncompleteResponse(s@),
            AnalysisError::Refused(s) => AnalysisErrorView::Refused(s@),
        }
    }
}

/// The instructions of the analysis prompt; the job post follows them.
pub const ANALYSIS_INSTRUCTIONS: &'static str = "Analyze this normalized job post for ATS resume-tailoring signals.\nReturn only the schema fields. Ground every keyword and phrase in the job post.\nDo not invent credentials, experience, metrics, responsibilities, or tools not supported by the post.\nReturn short, atomic capability terms, normally one to six words.\nPrefer exact technology, framework, certification, and domain wording when useful.\nSemantically deduplicate terms across every array; choose one clear ATS-friendly label per capability.\nDo not put job titles, company names, generic personality traits, or full requirement sentences in capability arrays.\nThis applies to responsibility_phrases too: write the capability, not the sentence. Prefer a bare capability like pair programming over a sentence like intervenir en pair programming, and revue de code over realiser des revues approfondies. Drop leading verbs, articles, and adverbs; keep the noun phrase a resume would actually contain.\nClassify tools and frameworks as technology, working methods and business domains as method_domain, and claims about actions performed as responsibility.\nWeight terms by how the post asks for them: a term in a requirements or must-have section, or repeated across the post, outranks one mentioned once in company boilerplate, benefits, or an equal-opportunity notice.\nBe thorough rather than selective. Extract every distinct capability the post asks for, up to the schema limits; a term you leave out cannot be matched later.\nIn term_variants, list the alternate written forms of any extracted term that a literal keyword matcher would treat as a different string: acronym and expansion (Kubernetes / K8s, continuous integration / CI/CD), common spellings (PostgreSQL / Postgres), and the job post's own wording when it differs from your chosen label. Only list forms that mean the same capability; do not list related or broader technologies.\nFocus on analysis for a later resume-writing layer; do not rewrite resume bullets.\nWrite every extracted field (role_target, seniority, core_keywords terms and evidence, required_skills, preferred_skills, tools_and_platforms, domain_terms, responsibility_phrases, achievement_angles, ats_phrase_bank, must_not_claim_without_evidence, term_variants, and summary) in the same language as the job post itself. Do not translate the job post's language into English or any other language.\n\nNormalized job JSON:\n";

/// The analysis prompt: the fixed instructions, then the compact JSON of the job post's
/// prompt view, last so the instructions stay a shared prefix.
pub fn build_analysis_prompt(compact_job: &str) -> (r: String)
    ensures
        r@ == ANALYSIS_INSTRUCTIONS@ + compact_job@,
{
    let mut out = String::new();
    proof {
        reveal_strlit("");
    }
    push_str(&mut out, ANALYSIS_INSTRUCTIONS);
    push_str(&mut out, compact_job);
    out
}

/// How an analysis error reads to the user.
pub open spec fn analysis_error_text(e: AnalysisErrorView) -> Seq<char> {
    match e {
        AnalysisErrorView::Request(s) => "OpenAI request failed: "@ + s,
        AnalysisErrorView::Http { status, body } => "OpenAI returned HTTP "@ + status_text(status)
            + ": "@ + body,
        AnalysisErrorView::MissingOutputText => "OpenAI response did not contain structured output text"@,
        AnalysisErrorView::EmptyResponseBody => "OpenAI returned an empty response body"@,
        AnalysisErrorView::EmptyOutputText => "OpenAI returned empty structured output text"@,
        AnalysisErrorView::InvalidJson(s) => "OpenAI analysis JSON was invalid: "@ + s,
        AnalysisErrorView::IncompleteResponse(s) => "OpenAI stopped early ("@ + s
            + "); the analysis is incomplete"@,
        AnalysisErrorView::Refused(s) => "OpenAI declined to analyze this job post: "@ + s,
    }
}

impl AnalysisError {
    /// The error as the user reads it.
    pub fn message(&self) -> (r: String)
        ensures
            r@ == analysis_error_text(self@),
    {
        let mut out = String::new();
        proof {
            reveal_strlit("");
        }
        match self {
            AnalysisError::Request(s) => {
                push_str(&mut out, "OpenAI request failed: ");
                push_str(&mut out, s.as_str());
            },
            AnalysisError::Http { status, body } => {
                push_str(&mut out, "OpenAI returned HTTP ");
                push_status(&mut out, *status);
                push_str(&mut out, ": ");
                push_str(&mut out, body.as_str());
            },
            AnalysisError::MissingOutputText => {
                push_str(&mut out, "OpenAI response did not contain structured output text");
            },
            AnalysisError::EmptyResponseBody => {
                push_str(&mut out, "OpenAI returned an empty response body");
            },
            AnalysisError::EmptyOutputText => {
                push_str(&mut out, "OpenAI returned empty structured output text");
            },
            AnalysisError::InvalidJson(s) => {
                push_str(&mut out, "OpenAI analysis JSON was invalid: ");
                push_str(&mut out, s.as_str());
            },
            AnalysisError::IncompleteResponse(s) => {
                push_str(&mut out, "OpenAI stopped early (");
                push_str(&mut out, s.as_str());
                push_str(&mut out, "); the analysis is incomplete");
            },
            AnalysisError::Refused(s) => {
                push_str(&mut out, "OpenAI declined to analyze this job post: ");
                push_str(&mut out, s.as_str());
            },
        }
        out
    }
}

/// Reads the structured output text out of a parsed Responses API body.
pub fn structured_output_of(response: &Json) -> (r: Result<String, AnalysisError>)
    ensures
        match r {
            Ok(t) => output_outcome(response@) == Ok::<Seq<char>, AnalysisErrorView>(t@),
            Err(e) => output_outcome(response@) == Err::<Seq<char>, AnalysisErrorView>(e@),
        },
{
    match find_refusal(response) {
        Some(r) => {
            return Err(AnalysisError::Refused(r));
        },
        None => {},
    }
    let text = match find_output_text(response) {
        Some(t) => t,
        None => {
            return Err(
                match incomplete_reason(response) {
                    Some(reason) => AnalysisError::IncompleteResponse(reason),
                    None => AnalysisError::MissingOutputText,
                },
            );
        },
    };
    if trim_str(text.as_str()).len() == 0 {
        return Err(AnalysisError::EmptyOutputText);
    }
    match incomplete_reason(response) {
        Some(reason) => Err(AnalysisError::IncompleteResponse(reason)),
        None => Ok(text),
    }
}

/// A response body that is blank is refused before it is parsed.
pub fn body_is_blank(body: &str) -> (r: bool)
    ensures
        r == (trimmed(body@).len() == 0),
{
    trim_str(body).len() == 0
}

} // verus!
