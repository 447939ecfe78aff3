//! Importing a job post the app fetched or the user pasted: URL screening, the structured
//! data a page may carry, the page text handed to the extraction model, and the capture
//! payload built from the result.

use vstd::prelude::*;
use crate::text::{
    chars_of, contains, contains_seq, is_space, is_whitespace, push_char, push_decimal, push_str,
    str_eq, string_of, trim_str, trimmed,
};
use crate::json::{
    elements_of, field, lemma_member_views, lemma_views_of, member_lookup, member_views, text_of,
    view_of, views_of, Json, JsonView,
};
use crate::html::{
    collapse_spaces, collapse_whitespace, first_at, html_block_text, html_to_block_text,
    lemma_first_at_bounds, lowered,
};
use crate::analysis::{AnalysisError, AnalysisErrorView};
use crate::html::clamp;

verus! {

broadcast use vstd::seq_lib::group_seq_properties;

// ------------------------------------------------------------------ routing labels

/// How a job reached the app.
#[derive(Clone, Copy, Debug, PartialEq, Eq, Structural)]
pub enum ImportMode {
    Url,
    Text,
}

impl ImportMode {
    pub fn source(self) -> (r: &'static str)
        ensures
            r@ == match self {
                ImportMode::Url => "url_import"@,
                ImportMode::Text => "text_import"@,
            },
    {
        match self {
            ImportMode::Url => "url_import",
            ImportMode::Text => "text_import",
        }
    }
}

/// How the posting was recovered.
#[derive(Clone, Copy, Debug, PartialEq, Eq, Structural)]
pub enum Extraction {
    JsonLd,
    Llm,
}

impl Extraction {
    pub fn label(self) -> (r: &'static str)
        ensures
            r@ == match self {
                Extraction::JsonLd => "json_ld"@,
                Extraction::Llm => "llm"@,
            },
    {
        match self {
            Extraction::JsonLd => "json_ld",
            Extraction::Llm => "llm",
        }
    }
}

/// The extraction model's view of a posting.
#[derive(Clone, Debug, Default)]
pub struct ExtractedJob {
    pub is_job_posting: bool,
    pub title: String,
    pub company: String,
    pub description: String,
    pub location: Option<String>,
    pub locations: Vec<String>,
    pub job_type: Option<String>,
    pub remote: Option<bool>,
    pub compensation: Option<String>,
    pub qualifications: Option<String>,
    pub skills: Vec<String>,
    pub years_experience_min: Option<u32>,
    pub years_experience_max: Option<u32>,
    pub date_posted: Option<String>,
    pub education_requirement: Option<String>,
    pub company_description: Option<String>,
    pub company_hq: Option<String>,
    pub industry_tags: Vec<String>,
    pub extraction_confidence: String,
}

/// Why an import did not produce a capture.
#[derive(Debug)]
pub enum ImportError {
    InvalidUrl,
    Request { host: String, detail: String },
    Blocked { status: u16 },
    NotFound { status: u16 },
    HttpStatus { status: u16 },
    NotHtml { content_type: String },
    PageTooThin { chars: usize },
    TextTooShort { chars: usize },
    MissingApiKey,
    Extraction(AnalysisError),
    NotAJobPosting,
    EmptyResult,
}

/// How an import error reads to the user.
pub open spec fn import_error_text(e: ImportError) -> Seq<char> {
    match e {
        ImportError::InvalidUrl => "That does not look like a job post URL. Paste the full link, starting with https://."@,
        ImportError::Request { host, detail } => "Could not reach "@ + host@ + ": "@ + detail@
            + ". Check the link and your connection."@,
        ImportError::Blocked { status } => "The site refused the request (HTTP "@ + crate::text::decimal(
            status as nat,
        ) + BLOCKED_TAIL@,
        ImportError::NotFound { status } => "That job post is gone (HTTP "@ + crate::text::decimal(
            status as nat,
        ) + "). The listing may have been taken down."@,
        ImportError::HttpStatus { status } => "The site returned HTTP "@ + crate::text::decimal(
            status as nat,
        ) + "."@,
        ImportError::NotHtml { content_type } => "That link returns "@ + content_type@
            + ", not a web page. If it is a PDF, open it and paste the text instead."@,
        ImportError::PageTooThin { chars } => "Only "@ + crate::text::decimal(chars as nat)
            + THIN_TAIL@,
        ImportError::TextTooShort { chars } => "That is only "@ + crate::text::decimal(chars as nat)
            + " characters. Paste the whole job post, including the requirements section."@,
        ImportError::MissingApiKey => "OPENAI_API_KEY is required to import a job post with AI."@,
        ImportError::Extraction(a) => "The AI could not extract this posting: "@
            + crate::analysis::analysis_error_text(a@),
        ImportError::NotAJobPosting => NOT_A_POSTING@,
        ImportError::EmptyResult => "The AI came back with no title and no description. Try the Paste text tab with the posting text."@,
    }
}

pub const BLOCKED_TAIL: &'static str = "). Many job boards block anything that is not a real browser - open the post in your browser, copy the text, and use the Paste text tab.";

pub const THIN_TAIL: &'static str = " characters of text came back - the page probably builds its content with JavaScript. Open it in your browser, copy the post, and use the Paste text tab.";

pub const NOT_A_POSTING: &'static str = "That page does not look like a job posting - it may be a search page or a login wall. Open the posting itself, or paste its text.";

impl ImportError {
    /// The error as the user reads it.
    pub fn message(&self) -> (r: String)
        ensures
            r@ == import_error_text(*self),
    {
        let mut out = String::new();
        proof {
            reveal_strlit("");
        }
        match self {
            ImportError::InvalidUrl => {
                push_str(&mut out, "That does not look like a job post URL. Paste the full link, starting with https://.");
            },
            ImportError::Request { host, detail } => {
                push_str(&mut out, "Could not reach ");
                push_str(&mut out, host.as_str());
                push_str(&mut out, ": ");
                push_str(&mut out, detail.as_str());
                push_str(&mut out, ". Check the link and your connection.");
            },
            ImportError::Blocked { status } => {
                push_str(&mut out, "The site refused the request (HTTP ");
                push_decimal(&mut out, *status as u64);
                push_str(&mut out, BLOCKED_TAIL);
            },
            ImportError::NotFound { status } => {
                push_str(&mut out, "That job post is gone (HTTP ");
                push_decimal(&mut out, *status as u64);
                push_str(&mut out, "). The listing may have been taken down.");
            },
            ImportError::HttpStatus { status } => {
                push_str(&mut out, "The site returned HTTP ");
                push_decimal(&mut out, *status as u64);
                push_str(&mut out, ".");
            },
            ImportError::NotHtml { content_type } => {
                push_str(&mut out, "That link returns ");
                push_str(&mut out, content_type.as_str());
                push_str(&mut out, ", not a web page. If it is a PDF, open it and paste the text instead.");
            },
            ImportError::PageTooThin { chars } => {
                push_str(&mut out, "Only ");
                push_decimal(&mut out, *chars as u64);
                push_str(&mut out, THIN_TAIL);
            },
            ImportError::TextTooShort { chars } => {
                push_str(&mut out, "That is only ");
                push_decimal(&mut out, *chars as u64);
                push_str(&mut out, " characters. Paste the whole job post, including the requirements section.");
            },
            ImportError::MissingApiKey => {
                push_str(&mut out, "OPENAI_API_KEY is required to import a job post with AI.");
            },
            ImportError::Extraction(a) => {
                push_str(&mut out, "The AI could not extract this posting: ");
                let m = a.message();
                push_str(&mut out, m.as_str());
            },
            ImportError::NotAJobPosting => {
                push_str(&mut out, NOT_A_POSTING);
            },
            ImportError::EmptyResult => {
                push_str(&mut out, "The AI came back with no title and no description. Try the Paste text tab with the posting text.");
            },
        }
        out
    }
}

/// An extraction is usable when the model found a posting and returned a title or a body.
pub fn check_extracted_job(job: ExtractedJob) -> (r: Result<ExtractedJob, ImportError>)
    ensures
        match r {
            Ok(j) => job.is_job_posting && (trimmed(job.title@).len() > 0 || trimmed(
                job.description@,
            ).len() > 0) && j.title@ == job.title@ && j.description@ == job.description@,
            Err(ImportError::NotAJobPosting) => !job.is_job_posting,
            Err(ImportError::EmptyResult) => job.is_job_posting && trimmed(job.title@).len() == 0
                && trimmed(job.description@).len() == 0,
            Err(_) => false,
        },
{
    if !job.is_job_posting {
        return Err(ImportError::NotAJobPosting);
    }
    if trim_str(job.title.as_str()).len() == 0 && trim_str(job.description.as_str()).len() == 0 {
        return Err(ImportError::EmptyResult);
    }
    Ok(job)
}

// ---------------------------------------------------------------------------- URLs

/// What `url::Url::parse` makes of a string: its scheme, host and serialization, or nothing
/// when it is not an absolute URL.
pub uninterp spec fn url_parse(input: Seq<char>) -> Option<(Seq<char>, Option<Seq<char>>, Seq<char>)>;

/// The parts of a parsed URL the importer reads.
pub struct ParsedUrl {
    pub scheme: String,
    pub host: Option<String>,
    pub serialized: String,
}

pub open spec fn parsed_view(p: Option<ParsedUrl>) -> Option<(Seq<char>, Option<Seq<char>>, Seq<char>)> {
    match p {
        Some(u) => Some(
            (
                u.scheme@,
                match u.host {
                    Some(h) => Some(h@),
                    None => None,
                },
                u.serialized@,
            ),
        ),
        None => None,
    }
}

/// Calls `reqwest::Url::parse` (the `url` crate's parser) and reads back the scheme, the host
/// (`host_str`) and the serialization. The result is named, not restated: it is whatever that
/// parser gives for this input.
#[verifier::external_body]
pub(crate) fn parse_url(input: &str) -> (r: Option<ParsedUrl>)
    ensures
        parsed_view(r) == url_parse(input@),
{
    match reqwest::Url::parse(input) {
        Ok(url) => Some(
            ParsedUrl {
                scheme: url.scheme().to_owned(),
                host: url.host_str().map(|h| h.to_owned()),
                serialized: url.to_string(),
            },
        ),
        Err(_) => None,
    }
}

/// A parsed URL the app may fetch: http or https, with a host that has a dot in it.
pub open spec fn fetchable(p: Option<(Seq<char>, Option<Seq<char>>, Seq<char>)>) -> Option<Seq<char>> {
    match p {
        Some(u) => if (u.0 == "http"@ || u.0 == "https"@) && match u.1 {
            Some(h) => contains_seq(h, "."@),
            None => false,
        } {
            Some(u.2)
        } else {
            None
        },
        None => None,
    }
}

/// Decides on an already parsed URL.
pub fn accept_parsed_url(parsed: Option<ParsedUrl>) -> (r: Result<String, ImportError>)
    ensures
        match r {
            Ok(u) => fetchable(parsed_view(parsed)) == Some(u@),
            Err(ImportError::InvalidUrl) => fetchable(parsed_view(parsed)) is None,
            Err(_) => false,
        },
{
    match parsed {
        Some(u) => {
            let scheme_ok = str_eq(u.scheme.as_str(), "http") || str_eq(u.scheme.as_str(), "https");
            let host_ok = match &u.host {
                Some(h) => contains(&chars_of(h.as_str()), &chars_of(".")),
                None => false,
            };
            if scheme_ok && host_ok {
                Ok(u.serialized)
            } else {
                Err(ImportError::InvalidUrl)
            }
        },
        None => Err(ImportError::InvalidUrl),
    }
}

/// What the user typed, trimmed, with `https://` added when it names no scheme.
pub open spec fn url_candidate(raw: Seq<char>) -> Seq<char> {
    let t = trimmed(raw);
    if contains_seq(t, "://"@) {
        t
    } else {
        "https://"@ + t
    }
}

/// Accepts what a user actually pastes and refuses what must never be fetched.
pub fn normalize_url(raw: &str) -> (r: Result<String, ImportError>)
    ensures
        match r {
            Ok(u) => trimmed(raw@).len() > 0 && fetchable(url_parse(url_candidate(raw@))) == Some(
                u@,
            ),
            Err(ImportError::InvalidUrl) => trimmed(raw@).len() == 0 || fetchable(
                url_parse(url_candidate(raw@)),
            ) is None,
            Err(_) => false,
        },
{
    let t = trim_str(raw);
    if t.len() == 0 {
        return Err(ImportError::InvalidUrl);
    }
    let trimmed_text = string_of(&t);
    let candidate = if contains(&t, &chars_of("://")) {
        trimmed_text
    } else {
        let mut c = String::new();
        push_str(&mut c, "https://");
        push_str(&mut c, trimmed_text.as_str());
        c
    };
    accept_parsed_url(parse_url(candidate.as_str()))
}

// ---------------------------------------------------------------------- page text

/// Pasted text shorter than this is not a whole posting.
pub const MIN_PASTED_CHARS: usize = 200;
/// Fetched page text shorter than this is a JavaScript shell.
pub const MIN_PAGE_CHARS: usize = 400;
/// Page text kept for the extraction prompt.
pub const MAX_PROMPT_CHARS: usize = 32_000;

/// The page text must be long enough to be a document.
pub fn check_page_text(body: &str) -> (r: Result<(), ImportError>)
    ensures
        match r {
            Ok(()) => body@.len() >= 400,
            Err(ImportError::PageTooThin { chars }) => body@.len() < 400 && chars == body@.len(),
            Err(_) => false,
        },
{
    let n = chars_of(body).len();
    if n < MIN_PAGE_CHARS {
        Err(ImportError::PageTooThin { chars: n })
    } else {
        Ok(())
    }
}

/// The body pasted text yields: its HTML stripped when it carries closing tags.
pub open spec fn pasted_body(text: Seq<char>) -> Seq<char> {
    let t = trimmed(text);
    if contains_seq(t, "</"@) {
        html_block_text(t)
    } else {
        t
    }
}

/// Pasted text, checked for length and stripped of markup.
pub fn prepare_pasted_text(text: &str) -> (r: Result<String, ImportError>)
    ensures
        match r {
            Ok(b) => trimmed(text@).len() >= 200 && b@ == pasted_body(text@),
            Err(ImportError::TextTooShort { chars }) => trimmed(text@).len() < 200 && chars
                == trimmed(text@).len(),
            Err(_) => false,
        },
{
    let t = trim_str(text);
    if t.len() < MIN_PASTED_CHARS {
        return Err(ImportError::TextTooShort { chars: t.len() });
    }
    let trimmed_text = string_of(&t);
    if contains(&t, &chars_of("</")) {
        Ok(html_to_block_text(trimmed_text.as_str()))
    } else {
        Ok(trimmed_text)
    }
}

/// The index of the last whitespace character of `s`.
pub open spec fn last_space(s: Seq<char>) -> Option<int>
    decreases s.len(),
{
    if s.len() == 0 {
        None
    } else if is_space(s.last()) {
        Some(s.len() - 1)
    } else {
        last_space(s.drop_last())
    }
}

pub proof fn lemma_last_space_bound(s: Seq<char>)
    ensures
        last_space(s) matches Some(i) ==> 0 <= i < s.len(),
    decreases s.len(),
{
    if s.len() > 0 && !is_space(s.last()) {
        lemma_last_space_bound(s.drop_last());
    }
}

/// Page text cut to the first 32,000 characters, back to the last whitespace, and marked.
pub open spec fn truncated_for_prompt(text: Seq<char>) -> Seq<char> {
    if text.len() <= 32000 {
        text
    } else {
        let cut = text.take(32000);
        let kept = match last_space(cut) {
            Some(i) => cut.take(i),
            None => cut,
        };
        kept + "\n[... page text truncated ...]"@
    }
}

/// Text within the limit is handed over whole; longer text is cut to a prefix of at most
/// 32,000 characters and marked as truncated.
pub proof fn lemma_truncation_keeps_a_prefix(text: Seq<char>)
    ensures
        text.len() <= 32000 ==> truncated_for_prompt(text) == text,
        text.len() > 32000 ==> exists|k: int|
            0 <= k <= 32000 && truncated_for_prompt(text) == text.take(k)
                + "\n[... page text truncated ...]"@,
{
    if text.len() > 32000 {
        let cut = text.take(32000);
        lemma_last_space_bound(cut);
        match last_space(cut) {
            Some(i) => {
                assert(cut.take(i) =~= text.take(i));
            },
            None => {},
        }
    }
}

pub fn truncate_for_prompt(text: &str) -> (r: String)
    ensures
        r@ == truncated_for_prompt(text@),
{
    let cs = chars_of(text);
    if cs.len() <= MAX_PROMPT_CHARS {
        return text.to_owned();
    }
    let ghost cut = cs@.take(32000);
    let mut end: usize = MAX_PROMPT_CHARS;
    while end > 0 && !is_whitespace(cs[end - 1])
        invariant
            end <= 32000,
            32000 < cs@.len(),
            cut == cs@.take(32000),
            last_space(cut) == last_space(cut.take(end as int)),
        decreases end,
    {
        assert(cut.take(end as int).drop_last() =~= cut.take(end - 1));
        end -= 1;
    }
    proof {
        lemma_last_space_bound(cut);
    }
    let keep: usize = if end == 0 {
        assert(cut.take(0) =~= seq![]);
        MAX_PROMPT_CHARS
    } else {
        assert(last_space(cut.take(end as int)) == Some(end - 1));
        end - 1
    };
    let mut out: Vec<char> = Vec::new();
    let mut i: usize = 0;
    while i < keep
        invariant
            i <= keep,
            keep <= 32000,
            32000 < cs@.len(),
            out@ == cs@.take(i as int),
        decreases keep - i,
    {
        out.push(cs[i]);
        assert(cs@.take(i + 1) =~= cs@.take(i as int).push(cs@[i as int]));
        i += 1;
    }
    let mut s = string_of(&out);
    push_str(&mut s, "\n[... page text truncated ...]");
    assert(out@ =~= match last_space(cut) {
        Some(j) => cut.take(j),
        None => cut,
    });
    s
}

/// The `<title>` of a page, whitespace collapsed; empty when there is none.
pub open spec fn title_of(html: Seq<char>) -> Seq<char> {
    let l = lowered(html);
    match first_at(l, "<title"@, 0) {
        None => seq![],
        Some(open) => match first_at(l, ">"@, open) {
            None => seq![],
            Some(e) => {
                let start = e + 1;
                let end = match first_at(l, "</title"@, start) {
                    Some(o) => o,
                    None => html.len() as int,
                };
                collapse_spaces(html.subrange(start, end))
            },
        },
    }
}

fn lower_chars(h: &Vec<char>) -> (r: Vec<char>)
    ensures
        r@ == lowered(h@),
{
    let mut l: Vec<char> = Vec::new();
    let mut i: usize = 0;
    while i < h.len()
        invariant
            i <= h@.len(),
            l@ == lowered(h@.take(i as int)),
        decreases h@.len() - i,
    {
        l.push(crate::text::to_ascii_lowercase(h[i]));
        assert(lowered(h@.take(i + 1)) =~= lowered(h@.take(i as int)).push(
            crate::text::ascii_lower(h@[i as int]),
        ));
        i += 1;
    }
    assert(h@.take(i as int) =~= h@);
    l
}

fn find_in(hay: &Vec<char>, needle: &str, from: usize) -> (r: Option<usize>)
    ensures
        match r {
            Some(at) => first_at(hay@, needle@, from as int) == Some(at as int),
            None => first_at(hay@, needle@, from as int) is None,
        },
{
    let n = chars_of(needle);
    let r = crate::text::find_from(hay, &n, from);
    proof {
        match r {
            Some(at) => crate::html::lemma_first_at_found(hay@, needle@, from as int, at as int),
            None => crate::html::lemma_first_at_absent(hay@, needle@, from as int),
        }
    }
    r
}

fn sub_of(s: &Vec<char>, from: usize, to: usize) -> (r: Vec<char>)
    requires
        from <= to <= s@.len(),
    ensures
        r@ == s@.subrange(from as int, to as int),
{
    let mut out: Vec<char> = Vec::new();
    let mut i = from;
    while i < to
        invariant
            from <= i <= to,
            to <= s@.len(),
            out@ == s@.subrange(from as int, i as int),
        decreases to - i,
    {
        out.push(s[i]);
        assert(s@.subrange(from as int, i + 1) =~= s@.subrange(from as int, i as int).push(s@[i as int]));
        i += 1;
    }
    out
}

pub fn page_title(html: &str) -> (r: String)
    ensures
        r@ == title_of(html@),
{
    let h = chars_of(html);
    let l = lower_chars(&h);
    let open = match find_in(&l, "<title", 0) {
        Some(o) => o,
        None => {
            return String::new();
        },
    };
    proof {
        lemma_first_at_bounds(l@, "<title"@, 0);
        lemma_first_at_bounds(l@, ">"@, open as int);
    }
    let e = match find_in(&l, ">", open) {
        Some(e) => e,
        None => {
            return String::new();
        },
    };
    assert(crate::text::occurs_at(l@, ">"@, e as int));
    assert(e < l@.len()) by {
        reveal_strlit(">");
    }
    let len = l.len();
    assert(e < len);
    let start = e + 1;
    proof {
        lemma_first_at_bounds(l@, "</title"@, start as int);
    }
    let end = match find_in(&l, "</title", start) {
        Some(o) => o,
        None => h.len(),
    };
    assert(start <= end <= h@.len());
    string_of(&collapse_whitespace(&sub_of(&h, start, end)))
}

// ---------------------------------------------------------------- extraction prompt

pub const EXTRACTION_RULES: &'static str = "Recover the job posting from the text below, which was taken from a web page.\n\
         Copy the posting's own wording into description. Do not summarize, shorten, paraphrase, or translate it.\n\
         Return description as plain text: no HTML tags and no Markdown. Separate sections and list items with newlines, one line per list item.\n\
         Include the responsibilities and the requirements in full. Those carry the ATS signal, and anything you leave out cannot be matched later.\n\
         Leave out site navigation, cookie notices, boilerplate that is not part of the posting, similar-jobs lists, and application forms.\n\
         Write every field in the same language as the posting itself. Do not translate it into English or any other language.\n\
         Do not invent a title, company, location, salary, or requirement the text does not state. Return null for anything absent.\n\
         For job_type use exactly one of: Full-time, Part-time, Contract, Internship, Temporary, Unknown.\n\
         Set extraction_confidence to low when the text is fragmentary or you had to guess where the posting begins and ends.\n\
         If this text is not a single job posting - a search results page, a login wall, an error page, a company home page - set is_job_posting to false and leave the other fields empty.\n\n";

/// The extraction prompt: the rules, the source URL when there is one, and the page text.
pub open spec fn extraction_prompt(source_url: Option<Seq<char>>, body: Seq<char>) -> Seq<char> {
    let source_line = match source_url {
        Some(u) => if u.len() > 0 {
            "Source URL: "@ + u + "\n"@
        } else {
            seq![]
        },
        None => seq![],
    };
    EXTRACTION_RULES@ + source_line + "Page text:\n"@ + body
}

pub fn build_extraction_prompt(source_url: Option<&str>, body: &str) -> (r: String)
    ensures
        r@ == extraction_prompt(
            match source_url {
                Some(u) => Some(u@),
                None => None,
            },
            body@,
        ),
{
    let mut out = String::new();
    push_str(&mut out, EXTRACTION_RULES);
    match source_url {
        Some(u) => {
            if chars_of(u).len() > 0 {
                push_str(&mut out, "Source URL: ");
                push_str(&mut out, u);
                push_str(&mut out, "\n");
            }
        },
        None => {},
    }
    push_str(&mut out, "Page text:\n");
    push_str(&mut out, body);
    out
}

// ------------------------------------------------------------------- JSON-LD

/// The bodies of the `<script type="application/ld+json">` blocks from `cursor` on.
pub open spec fn ld_blocks_from(h: Seq<char>, l: Seq<char>, cursor: int) -> Seq<Seq<char>>
    decreases h.len() - cursor,
{
    if cursor < 0 || cursor >= h.len() {
        seq![]
    } else {
        match first_at(l, "<script"@, cursor) {
            None => seq![],
            Some(open) => match first_at(l, ">"@, open) {
                None => seq![],
                Some(e) => match first_at(l, "</script"@, e + 1) {
                    None => seq![],
                    Some(close) => {
                        proof {
                            lemma_first_at_bounds(l, "<script"@, cursor);
                            lemma_first_at_bounds(l, ">"@, open);
                            lemma_first_at_bounds(l, "</script"@, e + 1);
                        }
                        let here = if contains_seq(l.subrange(open, e + 1), "application/ld+json"@) {
                            seq![h.subrange(e + 1, close)]
                        } else {
                            seq![]
                        };
                        here + ld_blocks_from(h, l, clamp(close + 1, h.len() as int))
                    },
                },
            },
        }
    }
}

pub open spec fn ld_blocks(html: Seq<char>) -> Seq<Seq<char>> {
    ld_blocks_from(html, lowered(html), 0)
}

proof fn lemma_ld_none(h: Seq<char>, l: Seq<char>, cursor: int)
    requires
        0 <= cursor < h.len(),
        first_at(l, "<script"@, cursor) is None || (first_at(l, "<script"@, cursor) matches Some(
            open,
        ) && (first_at(l, ">"@, open) is None || (first_at(l, ">"@, open) matches Some(e)
            && first_at(l, "</script"@, e + 1) is None))),
    ensures
        ld_blocks_from(h, l, cursor) == Seq::<Seq<char>>::empty(),
{
}

proof fn lemma_ld_step(h: Seq<char>, l: Seq<char>, cursor: int, open: int, e: int, close: int)
    requires
        0 <= cursor < h.len(),
        first_at(l, "<script"@, cursor) == Some(open),
        first_at(l, ">"@, open) == Some(e),
        first_at(l, "</script"@, e + 1) == Some(close),
        close + 1 <= h.len(),
    ensures
        ld_blocks_from(h, l, cursor) == (if contains_seq(
            l.subrange(open, e + 1),
            "application/ld+json"@,
        ) {
            seq![h.subrange(e + 1, close)]
        } else {
            Seq::<Seq<char>>::empty()
        }) + ld_blocks_from(h, l, close + 1),
{
}

/// The body of every JSON-LD script block on the page, in page order.
pub fn json_ld_blocks(html: &str) -> (r: Vec<String>)
    ensures
        crate::text::strs(r@) == ld_blocks(html@),
{
    let h = chars_of(html);
    let l = lower_chars(&h);
    let ghost hv = h@;
    let ghost lv = l@;
    let mut blocks: Vec<String> = Vec::new();
    let mut cursor: usize = 0;
    while cursor < h.len()
        invariant
            hv == h@,
            lv == l@,
            lv == lowered(hv),
            lv.len() == hv.len(),
            cursor <= hv.len(),
            html@ == hv,
            crate::text::strs(blocks@) + ld_blocks_from(hv, lv, cursor as int) == ld_blocks(html@),
        decreases hv.len() - cursor,
    {
        let ghost before = crate::text::strs(blocks@);
        let ghost c0 = cursor as int;
        let open = match find_in(&l, "<script", cursor) {
            Some(o) => o,
            None => {
                proof {
                    lemma_ld_none(hv, lv, c0);
                }
                assert(before =~= before + ld_blocks_from(hv, lv, c0));
                return blocks;
            },
        };
        let e = match find_in(&l, ">", open) {
            Some(e) => e,
            None => {
                proof {
                    lemma_ld_none(hv, lv, c0);
                }
                assert(before =~= before + ld_blocks_from(hv, lv, c0));
                return blocks;
            },
        };
        proof {
            lemma_first_at_bounds(lv, "<script"@, cursor as int);
            lemma_first_at_bounds(lv, ">"@, open as int);
        }
        assert(e < lv.len()) by {
            reveal_strlit(">");
        }
        let len = l.len();
        assert(e < len);
        let tag_end = e + 1;
        let close = match find_in(&l, "</script", tag_end) {
            Some(c) => c,
            None => {
                proof {
                    lemma_ld_none(hv, lv, c0);
                }
                assert(before =~= before + ld_blocks_from(hv, lv, c0));
                return blocks;
            },
        };
        proof {
            lemma_first_at_bounds(lv, "</script"@, tag_end as int);
        }
        assert(close < lv.len()) by {
            reveal_strlit("</script");
        }
        proof {
            lemma_ld_step(hv, lv, c0, open as int, e as int, close as int);
        }
        let is_json_ld = contains(&sub_of(&l, open, tag_end), &chars_of("application/ld+json"));
        if is_json_ld {
            let ghost b0 = blocks@;
            blocks.push(string_of(&sub_of(&h, tag_end, close)));
            assert(crate::text::strs(blocks@) =~= crate::text::strs(b0).push(hv.subrange(
                tag_end as int,
                close as int,
            )));
        }
        cursor = close + 1;
        assert(crate::text::strs(blocks@) + ld_blocks_from(hv, lv, cursor as int) =~= before
            + ld_blocks_from(hv, lv, c0));
    }
    assert(ld_blocks_from(hv, lv, cursor as int) =~= seq![]);
    assert(crate::text::strs(blocks@) =~= crate::text::strs(blocks@) + ld_blocks_from(hv, lv, cursor as int));
    blocks
}


/// A JSON-LD node typed `JobPosting`, directly or among an array of types.
pub open spec fn is_job_posting_node(ms: Seq<(Seq<char>, JsonView)>) -> bool {
    match member_lookup(ms, "@type"@) {
        Some(JsonView::Str(name)) => name == "JobPosting"@,
        Some(JsonView::Array(names)) => exists|i: int|
            0 <= i < names.len() && names[i] == JsonView::Str("JobPosting"@),
        _ => false,
    }
}

/// The first `JobPosting` in a JSON-LD document: the node itself, the first match in an
/// array, or the first match under an object's `@graph`.
pub open spec fn posting_in(j: JsonView) -> Option<JsonView>
    decreases j,
{
    match j {
        JsonView::Array(xs) => posting_in_all(xs),
        JsonView::Object(ms) => if is_job_posting_node(ms) {
            Some(j)
        } else {
            posting_in_graph(ms)
        },
        _ => None,
    }
}

pub open spec fn posting_in_all(xs: Seq<JsonView>) -> Option<JsonView>
    decreases xs,
{
    if xs.len() == 0 {
        None
    } else {
        match posting_in(xs[0]) {
            Some(p) => Some(p),
            None => posting_in_all(xs.drop_first()),
        }
    }
}

/// The search continues under the first `@graph` member.
pub open spec fn posting_in_graph(ms: Seq<(Seq<char>, JsonView)>) -> Option<JsonView>
    decreases ms,
{
    if ms.len() == 0 {
        None
    } else if ms[0].0 == "@graph"@ {
        posting_in(ms[0].1)
    } else {
        posting_in_graph(ms.drop_first())
    }
}

fn has_posting_type(ms: &Vec<(String, Json)>) -> (r: bool)
    ensures
        r == is_job_posting_node(member_views(ms@)),
{
    let holder = Json::Object(Vec::new());
    let t = match crate::tailoring::lookup_member_in(ms, "@type") {
        Some(v) => v,
        None => {
            return false;
        },
    };
    match t {
        Json::Str(name) => str_eq(name.as_str(), "JobPosting"),
        Json::Array(names) => {
            proof {
                lemma_views_of(names@);
            }
            let mut i: usize = 0;
            while i < names.len()
                invariant
                    i <= names@.len(),
                    member_lookup(member_views(ms@), "@type"@) == Some(JsonView::Array(views_of(names@))),
                    views_of(names@).len() == names@.len(),
                    forall|k: int| 0 <= k < names@.len() ==> #[trigger] views_of(names@)[k] == names@[k]@,
                    forall|k: int| 0 <= k < i ==> views_of(names@)[k] != JsonView::Str("JobPosting"@),
                decreases names@.len() - i,
            {
                let hit = match &names[i] {
                    Json::Str(n) => str_eq(n.as_str(), "JobPosting"),
                    _ => false,
                };
                if hit {
                    assert(views_of(names@)[i as int] == JsonView::Str("JobPosting"@));
                    return true;
                }
                i += 1;
            }
            false
        },
        _ => false,
    }
}

/// The first `JobPosting` in a parsed JSON-LD document.
#[verifier::loop_isolation(false)]
pub fn search_job_posting(node: &Json) -> (r: Option<Json>)
    ensures
        match r {
            Some(p) => posting_in(node@) == Some(p@),
            None => posting_in(node@) is None,
        },
    decreases node,
{
    match node {
        Json::Array(items) => {
            proof {
                lemma_views_of(items@);
            }
            let ghost xs = views_of(items@);
            assert(xs.skip(0) =~= xs);
            let mut i: usize = 0;
            while i < items.len()
                invariant
                    i <= items@.len(),
                    xs == views_of(items@),
                    xs.len() == items@.len(),
                    forall|k: int| 0 <= k < items@.len() ==> #[trigger] xs[k] == items@[k]@,
                    posting_in_all(xs) == posting_in_all(xs.skip(i as int)),
                decreases items@.len() - i,
            {
                assert(xs.skip(i as int)[0] == xs[i as int]);
                assert(xs.skip(i as int).drop_first() =~= xs.skip(i + 1));
                assert(decreases_to!(*node => (*node)->Array_0));
                assert(decreases_to!(*items => items@));
                assert(decreases_to!(items@ => items@[i as int]));
                match search_job_posting(&items[i]) {
                    Some(p) => {
                        return Some(p);
                    },
                    None => {},
                }
                i += 1;
            }
            None
        },
        Json::Object(members) => {
            if has_posting_type(members) {
                return Some(node.deep_copy());
            }
            proof {
                lemma_member_views(members@);
            }
            let ghost ms = member_views(members@);
            assert(ms.skip(0) =~= ms);
            let mut i: usize = 0;
            while i < members.len()
                invariant
                    i <= members@.len(),
                    ms == member_views(members@),
                    ms.len() == members@.len(),
                    forall|k: int|
                        0 <= k < members@.len() ==> #[trigger] ms[k] == (
                            members@[k].0@,
                            view_of(members@[k].1),
                        ),
                    posting_in_graph(ms) == posting_in_graph(ms.skip(i as int)),
                decreases members@.len() - i,
            {
                assert(ms.skip(i as int)[0] == ms[i as int]);
                if str_eq(members[i].0.as_str(), "@graph") {
                    assert(decreases_to!(*node => (*node)->Object_0));
                    assert(decreases_to!(*members => members@));
                    assert(decreases_to!(members@ => members@[i as int]));
                    assert(decreases_to!(members@[i as int] => members@[i as int].1));
                    return search_job_posting(&members[i].1);
                }
                assert(ms.skip(i as int).drop_first() =~= ms.skip(i + 1));
                i += 1;
            }
            None
        },
        _ => None,
    }
}

/// The first posting among the page's parsed JSON-LD documents (blocks that failed to parse
/// are left out by the caller).
pub open spec fn posting_among(docs: Seq<JsonView>) -> Option<JsonView>
    decreases docs.len(),
{
    if docs.len() == 0 {
        None
    } else {
        match posting_in(docs[0]) {
            Some(p) => Some(p),
            None => posting_among(docs.drop_first()),
        }
    }
}

pub fn job_posting_from_documents(docs: &Vec<Json>) -> (r: Option<Json>)
    ensures
        match r {
            Some(p) => posting_among(views_of(docs@)) == Some(p@),
            None => posting_among(views_of(docs@)) is None,
        },
{
    proof {
        lemma_views_of(docs@);
    }
    let ghost ds = views_of(docs@);
    assert(ds.skip(0) =~= ds);
    let mut i: usize = 0;
    while i < docs.len()
        invariant
            i <= docs@.len(),
            ds == views_of(docs@),
            ds.len() == docs@.len(),
            forall|k: int| 0 <= k < docs@.len() ==> #[trigger] ds[k] == docs@[k]@,
            posting_among(ds) == posting_among(ds.skip(i as int)),
        decreases docs@.len() - i,
    {
        assert(ds.skip(i as int)[0] == ds[i as int]);
        assert(ds.skip(i as int).drop_first() =~= ds.skip(i + 1));
        match search_job_posting(&docs[i]) {
            Some(p) => {
                return Some(p);
            },
            None => {},
        }
        i += 1;
    }
    None
}

/// A recovered posting is worth using when it has a non-blank title and description.
pub open spec fn usable_posting(posting: JsonView) -> bool {
    (match text_of(field(posting, "title"@)) {
        Some(t) => trimmed(t).len() > 0,
        None => false,
    }) && (match text_of(field(posting, "description"@)) {
        Some(t) => trimmed(t).len() > 0,
        None => false,
    })
}

fn filled(posting: &Json, key: &str) -> (r: bool)
    ensures
        r == match text_of(field(posting@, key@)) {
            Some(t) => trimmed(t).len() > 0,
            None => false,
        },
{
    match posting.get(key) {
        Some(v) => match v.as_str() {
            Some(t) => trim_str(t).len() > 0,
            None => false,
        },
        None => false,
    }
}

pub fn json_ld_is_usable(posting: &Json) -> (r: bool)
    ensures
        r == usable_posting(posting@),
{
    filled(posting, "title") && filled(posting, "description")
}

// --------------------------------------------------------------------- payload

pub open spec fn str_json(s: Seq<char>) -> JsonView {
    JsonView::Str(s)
}

/// The capture payload of an import, keys in `serde_json`'s sorted order.
pub open spec fn payload_of(
    mode: ImportMode,
    extraction: Extraction,
    source_url: Seq<char>,
    page_title: Option<Seq<char>>,
    source_text: Seq<char>,
    job: JsonView,
    imported_at_ms: u64,
) -> JsonView {
    JsonView::Object(payload_members(mode, extraction, source_url, page_title, source_text, job, imported_at_ms))
}

pub open spec fn payload_members(
    mode: ImportMode,
    extraction: Extraction,
    source_url: Seq<char>,
    page_title: Option<Seq<char>>,
    source_text: Seq<char>,
    job: JsonView,
    imported_at_ms: u64,
) -> Seq<(Seq<char>, JsonView)> {
    seq![
            ("extraction"@, str_json(match extraction {
                Extraction::JsonLd => "json_ld"@,
                Extraction::Llm => "llm"@,
            })),
            ("importedAtMs"@, JsonView::Number(crate::text::decimal(imported_at_ms as nat))),
            ("json"@, job),
            ("pageTitle"@, str_json(match page_title {
                Some(t) => t,
                None => ""@,
            })),
            ("source"@, str_json(match mode {
                ImportMode::Url => "url_import"@,
                ImportMode::Text => "text_import"@,
            })),
            ("sourceText"@, str_json(source_text)),
            ("sourceUrl"@, str_json(source_url)),
        ]
}

/// Assembles the capture payload; the only place the routing labels are written. The import
/// time comes from the caller's clock.
pub fn build_payload(
    mode: ImportMode,
    extraction: Extraction,
    source_url: &str,
    page_title: Option<&str>,
    source_text: &str,
    job: Json,
    imported_at_ms: u64,
) -> (r: Json)
    ensures
        r@ == payload_of(
            mode,
            extraction,
            source_url@,
            match page_title {
                Some(t) => Some(t@),
                None => None,
            },
            source_text@,
            job@,
            imported_at_ms,
        ),
{
    let mut ms: Vec<(String, Json)> = Vec::new();
    let ghost jv = job@;
    ms.push(("extraction".to_owned(), Json::Str(extraction.label().to_owned())));
    let mut n = String::new();
    push_decimal(&mut n, imported_at_ms);
    ms.push(("importedAtMs".to_owned(), Json::Number(n)));
    ms.push(("json".to_owned(), job));
    let title = match page_title {
        Some(t) => t.to_owned(),
        None => "".to_owned(),
    };
    ms.push(("pageTitle".to_owned(), Json::Str(title)));
    ms.push(("source".to_owned(), Json::Str(mode.source().to_owned())));
    ms.push(("sourceText".to_owned(), Json::Str(source_text.to_owned())));
    ms.push(("sourceUrl".to_owned(), Json::Str(source_url.to_owned())));
    proof {
        lemma_member_views(ms@);
    }
    let ghost mv = member_views(ms@);
    let r = Json::Object(ms);
    assert(r@ == JsonView::Object(mv));
    assert(mv =~= seq![
        ("extraction"@, str_json(match extraction {
            Extraction::JsonLd => "json_ld"@,
            Extraction::Llm => "llm"@,
        })),
        ("importedAtMs"@, JsonView::Number(crate::text::decimal(imported_at_ms as nat))),
        ("json"@, jv),
        ("pageTitle"@, str_json(match page_title {
            Some(t) => t@,
            None => ""@,
        })),
        ("source"@, str_json(match mode {
            ImportMode::Url => "url_import"@,
            ImportMode::Text => "text_import"@,
        })),
        ("sourceText"@, str_json(source_text@)),
        ("sourceUrl"@, str_json(source_url@)),
    ]);
    let ghost pt = match page_title {
        Some(t) => Some(t@),
        None => None,
    };
    assert(match pt {
        Some(t) => t,
        None => ""@,
    } == match page_title {
        Some(t) => t@,
        None => ""@,
    });
    assert(mv =~= payload_members(mode, extraction, source_url@, pt, source_text@, jv, imported_at_ms));
    r
}


// ------------------------------------------------------------------ fetched responses

/// A fetched page larger than this many bytes is cut to it.
pub const MAX_HTML_BYTES: usize = 4194304;

/// A response announcing more than this many bytes is refused unread.
pub const REFUSE_CONTENT_LENGTH_ABOVE: u64 = 16777216;

/// A status a site answers robots with.
pub open spec fn refuses_robots(status: u16) -> bool {
    status == 401 || status == 403 || status == 429
}

/// A status that says the post is gone.
pub open spec fn post_gone(status: u16) -> bool {
    status == 404 || status == 410
}

/// The import error for a fetched page's HTTP status, or nothing when it succeeded: a site
/// that refuses robots, a post that is gone, or some other failure.
pub fn response_status_error(status: u16) -> (r: Option<ImportError>)
    ensures
        200 <= status <= 299 ==> r is None,
        refuses_robots(status) ==> (r matches Some(ImportError::Blocked { status: t }) && t
            == status),
        post_gone(status) ==> (r matches Some(ImportError::NotFound { status: t }) && t == status),
        !(200 <= status <= 299) && !refuses_robots(status) && !post_gone(status) ==> (r matches Some(
            ImportError::HttpStatus { status: t },
        ) && t == status),
{
    if 200 <= status && status <= 299 {
        None
    } else if status == 401 || status == 403 || status == 429 {
        Some(ImportError::Blocked { status })
    } else if status == 404 || status == 410 {
        Some(ImportError::NotFound { status })
    } else {
        Some(ImportError::HttpStatus { status })
    }
}

/// The media type of a `Content-Type` header: the part before any `;`, trimmed and in ASCII
/// lower case.
pub open spec fn media_type_of(content_type: Seq<char>) -> Seq<char> {
    let head = match first_at(content_type, seq![';'], 0) {
        Some(at) => content_type.take(at),
        None => content_type,
    };
    trimmed(head).map_values(|c: char| crate::text::ascii_lower(c))
}

pub fn media_type(content_type: &str) -> (r: String)
    ensures
        r@ == media_type_of(content_type@),
{
    let cs = chars_of(content_type);
    let semi: Vec<char> = vec![';'];
    let end = match crate::html::find_first(cs.as_slice(), semi.as_slice(), 0) {
        Some(at) => {
            proof {
                lemma_first_at_bounds(cs@, semi@, 0);
            }
            at
        },
        None => cs.len(),
    };
    assert(semi@ == seq![';']);
    let head = crate::text::chars_from(&cs.as_slice()[0..end], 0);
    assert(head@ =~= match first_at(cs@, seq![';'], 0) {
        Some(at) => cs@.take(at),
        None => cs@,
    });
    let t = crate::text::trim_chars(head.as_slice());
    let mut out = String::new();
    let mut i: usize = 0;
    while i < t.len()
        invariant
            i <= t@.len(),
            out@ == t@.take(i as int).map_values(|c: char| crate::text::ascii_lower(c)),
        decreases t@.len() - i,
    {
        push_char(&mut out, crate::text::to_ascii_lowercase(t[i]));
        assert(t@.take(i + 1).map_values(|c: char| crate::text::ascii_lower(c)) =~= t@.take(
            i as int,
        ).map_values(|c: char| crate::text::ascii_lower(c)).push(crate::text::ascii_lower(t@[i as int])));
        i += 1;
    }
    assert(t@.take(i as int) =~= t@);
    out
}

/// The media types a page is read from.
pub open spec fn readable_media(media: Seq<char>) -> bool {
    media == "text/html"@ || media == "application/xhtml+xml"@ || media == "text/plain"@
        || media == "application/xml"@ || media == "text/xml"@
}

/// Refuses a response whose media type is named and is not one a page is read from.
pub fn check_media_type(media: &str) -> (r: Result<(), ImportError>)
    ensures
        match r {
            Ok(()) => media@.len() == 0 || readable_media(media@),
            Err(ImportError::NotHtml { content_type }) => media@.len() > 0 && !readable_media(
                media@,
            ) && content_type@ == media@,
            Err(_) => false,
        },
{
    if media.is_empty() || str_eq(media, "text/html") || str_eq(media, "application/xhtml+xml")
        || str_eq(media, "text/plain") || str_eq(media, "application/xml") || str_eq(
        media,
        "text/xml",
    ) {
        Ok(())
    } else {
        Err(ImportError::NotHtml { content_type: media.to_string() })
    }
}

pub const TOO_LARGE_DOCUMENT: &'static str = "a document too large to read";

/// Refuses a response that announces more than `REFUSE_CONTENT_LENGTH_ABOVE` bytes.
pub fn check_content_length(length: Option<u64>) -> (r: Result<(), ImportError>)
    ensures
        match r {
            Ok(()) => !(length matches Some(n) && n > REFUSE_CONTENT_LENGTH_ABOVE),
            Err(ImportError::NotHtml { content_type }) => (length matches Some(n) && n
                > REFUSE_CONTENT_LENGTH_ABOVE) && content_type@ == TOO_LARGE_DOCUMENT@,
            Err(_) => false,
        },
{
    match length {
        Some(n) => if n > REFUSE_CONTENT_LENGTH_ABOVE {
            Err(ImportError::NotHtml { content_type: TOO_LARGE_DOCUMENT.to_string() })
        } else {
            Ok(())
        },
        None => Ok(()),
    }
}

/// How many leading characters of `s` fit in `budget` bytes of UTF-8.
pub open spec fn fitting_prefix(s: Seq<char>, budget: int) -> nat
    decreases s.len(),
{
    if s.len() == 0 || crate::text::char_utf8_len(s[0]) > budget {
        0
    } else {
        1 + fitting_prefix(s.drop_first(), budget - crate::text::char_utf8_len(s[0]))
    }
}

fn utf8_width(c: char) -> (r: usize)
    ensures
        r == crate::text::char_utf8_len(c),
{
    let n = c as u32;
    if n < 0x80 {
        1
    } else if n < 0x800 {
        2
    } else if n < 0x10000 {
        3
    } else {
        4
    }
}

/// A fetched page cut to at most `MAX_HTML_BYTES` bytes, on a character boundary: the
/// longest prefix that fits.
pub fn capped_html(html: &str) -> (r: String)
    ensures
        r@ == html@.take(fitting_prefix(html@, MAX_HTML_BYTES as int) as int),
{
    let cs = chars_of(html);
    let budget: usize = MAX_HTML_BYTES;
    let mut used: usize = 0;
    let mut i: usize = 0;
    assert(cs@.skip(0) =~= cs@);
    while i < cs.len()
        invariant_except_break
            i <= cs@.len(),
            used <= budget,
            budget == MAX_HTML_BYTES,
            fitting_prefix(cs@, budget as int) == i + fitting_prefix(cs@.skip(i as int), budget - used),
        ensures
            i <= cs@.len(),
            fitting_prefix(cs@, budget as int) == i,
        decreases cs@.len() - i,
    {
        let w = utf8_width(cs[i]);
        assert(cs@.skip(i as int)[0] == cs@[i as int]);
        if w > budget - used {
            break;
        }
        assert(cs@.skip(i as int).drop_first() =~= cs@.skip(i + 1));
        used = used + w;
        i += 1;
    }
    let mut out = String::new();
    let mut k: usize = 0;
    while k < i
        invariant
            k <= i,
            i <= cs@.len(),
            out@ == cs@.take(k as int),
        decreases i - k,
    {
        push_char(&mut out, cs[k]);
        assert(cs@.take(k + 1) =~= cs@.take(k as int).push(cs@[k as int]));
        k += 1;
    }
    out
}

/// The host a failed fetch names: the URL's host, or `the site` when it has none.
pub open spec fn fetch_host_of(url: Seq<char>) -> Seq<char> {
    match url_parse(url) {
        Some((_, Some(h), _)) => h,
        _ => "the site"@,
    }
}

pub fn fetch_host(url: &str) -> (r: String)
    ensures
        r@ == fetch_host_of(url@),
{
    match parse_url(url) {
        Some(u) => match u.host {
            Some(h) => h,
            None => "the site".to_string(),
        },
        None => "the site".to_string(),
    }
}

} // verus!
