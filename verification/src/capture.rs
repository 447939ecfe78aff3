//! Captured job posts: the per-board parsers that turn what the browser extension or an
//! import sends into one flat record, and the view of that record a prompt is given.

use vstd::prelude::*;
use crate::text::{chars_of, contains, contains_seq, str_eq, string_of, strs, trim_chars, trim_str, trimmed};
use crate::json::{
    field, idx, index_key, json_eq, lemma_member_views, lemma_views_of, member_views,
    push_member, view_of, views_of, Json, JsonView,
};
use crate::html::{html_text, html_to_text};
use crate::tailoring::{arr, comma_fragments, split_commas};
use crate::tokens::tv;

verus! {

broadcast use vstd::seq_lib::group_seq_properties;

// ------------------------------------------------------------------ reading helpers

/// The text of `v`, or `default` when it is not a string.
pub open spec fn str_or(v: JsonView, default: Seq<char>) -> Seq<char> {
    match v {
        JsonView::Str(s) => s,
        _ => default,
    }
}

fn text_or<'a>(v: &'a Json, default: &'a str) -> (r: &'a str)
    ensures
        r@ == str_or(v@, default@),
{
    match v {
        Json::Str(s) => s.as_str(),
        _ => default,
    }
}

/// `v` when it is a string, else `null`.
pub open spec fn str_or_null(v: JsonView) -> JsonView {
    match v {
        JsonView::Str(s) => JsonView::Str(s),
        _ => JsonView::Null,
    }
}

fn str_or_null_json(v: &Json) -> (r: Json)
    ensures
        r@ == str_or_null(v@),
{
    match v {
        Json::Str(s) => Json::Str(s.clone()),
        _ => Json::Null,
    }
}

/// A list of strings as a JSON array.
pub open spec fn strings_view(ws: Seq<Seq<char>>) -> JsonView {
    JsonView::Array(ws.map_values(|w: Seq<char>| JsonView::Str(w)))
}

fn strings_json(ws: &Vec<String>) -> (r: Json)
    ensures
        r@ == strings_view(strs(ws@)),
{
    let ghost ss = strs(ws@);
    let mut items: Vec<Json> = Vec::new();
    let mut i: usize = 0;
    while i < ws.len()
        invariant
            i <= ws@.len(),
            ss == strs(ws@),
            views_of(items@) == ss.take(i as int).map_values(|w: Seq<char>| JsonView::Str(w)),
        decreases ws@.len() - i,
    {
        let ghost before = items@;
        items.push(Json::Str(ws[i].clone()));
        proof {
            lemma_views_of(before);
            lemma_views_of(items@);
            assert(views_of(items@) =~= views_of(before).push(JsonView::Str(ss[i as int])));
            assert(ss.take(i + 1).map_values(|w: Seq<char>| JsonView::Str(w)) =~= ss.take(
                i as int,
            ).map_values(|w: Seq<char>| JsonView::Str(w)).push(JsonView::Str(ss[i as int])));
        }
        i += 1;
    }
    assert(ss.take(i as int) =~= ss);
    Json::Array(items)
}

/// The "Missing field" warnings of a parsed post, in the order title, description, company.
pub open spec fn missing_warnings(
    no_title: bool,
    no_description: bool,
    no_company: bool,
    description_label: Seq<char>,
) -> Seq<Seq<char>> {
    let w1: Seq<Seq<char>> = if no_title {
        seq!["Missing field: title"@]
    } else {
        seq![]
    };
    let w2 = if no_description {
        w1.push("Missing field: "@ + description_label)
    } else {
        w1
    };
    if no_company {
        w2.push("Missing field: company"@)
    } else {
        w2
    }
}

fn push_missing_warnings(
    warnings: &mut Vec<String>,
    no_title: bool,
    no_description: bool,
    no_company: bool,
    description_label: &str,
)
    requires
        old(warnings)@.len() == 0,
    ensures
        strs(final(warnings)@) == missing_warnings(
            no_title,
            no_description,
            no_company,
            description_label@,
        ),
{
    proof {
        reveal_strlit("Missing field: ");
    }
    if no_title {
        warnings.push("Missing field: title".to_string());
    }
    if no_description {
        let mut w = "Missing field: ".to_string();
        crate::text::push_str(&mut w, description_label);
        warnings.push(w);
    }
    if no_company {
        warnings.push("Missing field: company".to_string());
    }
    assert(strs(warnings@) =~= missing_warnings(
        no_title,
        no_description,
        no_company,
        description_label@,
    ));
}

/// The strings among the elements of `v`, in order; nothing when `v` is not an array.
pub open spec fn collected_names(v: JsonView) -> Seq<Seq<char>> {
    crate::commands::string_items(arr(v))
}

/// The string each element of `v` holds under `key`, in order, skipping the others.
pub open spec fn collected_field(xs: Seq<JsonView>, key: Seq<char>) -> Seq<Seq<char>>
    decreases xs.len(),
{
    if xs.len() == 0 {
        seq![]
    } else {
        let rest = collected_field(xs.drop_last(), key);
        match idx(xs.last(), key) {
            JsonView::Str(t) => rest.push(t),
            _ => rest,
        }
    }
}

fn array_elements<'a>(v: &'a Json, empty: &'a Vec<Json>) -> (r: &'a Vec<Json>)
    requires
        empty@.len() == 0,
    ensures
        views_of(r@) == arr(v@),
        views_of(r@).len() == r@.len(),
        forall|k: int| 0 <= k < r@.len() ==> #[trigger] views_of(r@)[k] == r@[k]@,
{
    proof {
        lemma_views_of(empty@);
    }
    let r = match v.as_array() {
        Some(xs) => xs,
        None => {
            assert(views_of(empty@) =~= arr(v@));
            empty
        },
    };
    proof {
        lemma_views_of(r@);
    }
    r
}

/// The string elements of `v`.
pub fn collect_names(v: &Json) -> (r: Vec<String>)
    ensures
        strs(r@) == collected_names(v@),
{
    let empty: Vec<Json> = Vec::new();
    let xs = array_elements(v, &empty);
    let ghost vs = views_of(xs@);
    let mut out: Vec<String> = Vec::new();
    let mut i: usize = 0;
    while i < xs.len()
        invariant
            i <= xs@.len(),
            vs == views_of(xs@),
            vs == arr(v@),
            vs.len() == xs@.len(),
            forall|k: int| 0 <= k < xs@.len() ==> #[trigger] vs[k] == xs@[k]@,
            strs(out@) == crate::commands::string_items(vs.take(i as int)),
        decreases xs@.len() - i,
    {
        assert(vs.take(i + 1).drop_last() =~= vs.take(i as int));
        assert(vs.take(i + 1).last() == vs[i as int]);
        let ghost before = strs(out@);
        match &xs[i] {
            Json::Str(t) => {
                out.push(t.clone());
                assert(strs(out@) =~= before.push(t@));
            },
            _ => {},
        }
        i += 1;
    }
    assert(vs.take(i as int) =~= vs);
    out
}

fn collect_field(v: &Json, key: &str) -> (r: Vec<String>)
    ensures
        strs(r@) == collected_field(arr(v@), key@),
{
    let empty: Vec<Json> = Vec::new();
    let null = Json::Null;
    let xs = array_elements(v, &empty);
    let ghost vs = views_of(xs@);
    let mut out: Vec<String> = Vec::new();
    let mut i: usize = 0;
    while i < xs.len()
        invariant
            i <= xs@.len(),
            vs == views_of(xs@),
            vs == arr(v@),
            vs.len() == xs@.len(),
            null@ == JsonView::Null,
            forall|k: int| 0 <= k < xs@.len() ==> #[trigger] vs[k] == xs@[k]@,
            strs(out@) == collected_field(vs.take(i as int), key@),
        decreases xs@.len() - i,
    {
        assert(vs.take(i + 1).drop_last() =~= vs.take(i as int));
        assert(vs.take(i + 1).last() == vs[i as int]);
        let ghost before = strs(out@);
        match index_key(&xs[i], key, &null) {
            Json::Str(t) => {
                out.push(t.clone());
                assert(strs(out@) =~= before.push(t@));
            },
            _ => {},
        }
        i += 1;
    }
    assert(vs.take(i as int) =~= vs);
    out
}

/// The `displayName` of each element of `v`.
pub fn collect_display(v: &Json) -> (r: Vec<String>)
    ensures
        strs(r@) == collected_field(arr(v@), "displayName"@),
{
    collect_field(v, "displayName")
}

/// The `label` of each element of `v`.
pub fn collect_label(v: &Json) -> (r: Vec<String>)
    ensures
        strs(r@) == collected_field(arr(v@), "label"@),
{
    collect_field(v, "label")
}

// ------------------------------------------------------------------ prompt view

/// Fields that carry no ATS signal or repeat one the model already gets.
pub const PROMPT_IRRELEVANT_FIELDS: [&'static str; 5] = [
    "description_html",
    "raw",
    "company_logo",
    "parsed",
    "warnings",
];

pub open spec fn prompt_irrelevant(key: Seq<char>) -> bool {
    key == "description_html"@ || key == "raw"@ || key == "company_logo"@ || key == "parsed"@
        || key == "warnings"@
}

/// The members a prompt keeps: neither irrelevant nor null.
pub open spec fn prompt_members(ms: Seq<(Seq<char>, JsonView)>) -> Seq<(Seq<char>, JsonView)>
    decreases ms.len(),
{
    if ms.len() == 0 {
        seq![]
    } else {
        let rest = prompt_members(ms.drop_last());
        if prompt_irrelevant(ms.last().0) || ms.last().1 is Null {
            rest
        } else {
            rest.push(ms.last())
        }
    }
}

/// The view of a parsed capture that goes into a prompt: an object without the irrelevant
/// fields and without nulls; anything else as it is.
pub open spec fn prompt_view_of(parsed: JsonView) -> JsonView {
    match parsed {
        JsonView::Object(ms) => JsonView::Object(prompt_members(ms)),
        _ => parsed,
    }
}

pub fn prompt_job_view(parsed: &Json) -> (r: Json)
    ensures
        r@ == prompt_view_of(parsed@),
{
    let members = match parsed {
        Json::Object(ms) => ms,
        _ => {
            return parsed.deep_copy();
        },
    };
    proof {
        lemma_member_views(members@);
    }
    let ghost mv = member_views(members@);
    let mut out: Vec<(String, Json)> = Vec::new();
    let mut i: usize = 0;
    while i < members.len()
        invariant
            i <= members@.len(),
            mv == member_views(members@),
            mv.len() == members@.len(),
            forall|k: int| 0 <= k < members@.len() ==> #[trigger] mv[k] == (members@[k].0@, view_of(members@[k].1)),
            member_views(out@) == prompt_members(mv.take(i as int)),
        decreases members@.len() - i,
    {
        assert(mv.take(i + 1).drop_last() =~= mv.take(i as int));
        assert(mv.take(i + 1).last() == mv[i as int]);
        let key = members[i].0.as_str();
        let irrelevant = str_eq(key, "description_html") || str_eq(key, "raw") || str_eq(
            key,
            "company_logo",
        ) || str_eq(key, "parsed") || str_eq(key, "warnings");
        let is_null = match &members[i].1 {
            Json::Null => true,
            _ => false,
        };
        if !irrelevant && !is_null {
            push_member(&mut out, key, members[i].1.deep_copy());
        }
        i += 1;
    }
    assert(mv.take(i as int) =~= mv);
    Json::Object(out)
}


// ------------------------------------------------------------------ schema.org JobPosting

/// How a schema.org `employmentType` reads.
pub open spec fn employment_label(t: Seq<char>) -> Seq<char> {
    if t == "FULL_TIME"@ {
        "Full-time"@
    } else if t == "PART_TIME"@ {
        "Part-time"@
    } else if t == "CONTRACTOR"@ {
        "Contract"@
    } else if t == "INTERN"@ {
        "Internship"@
    } else if t == "TEMPORARY"@ {
        "Temporary"@
    } else {
        "Unknown"@
    }
}

fn employment_label_of(t: &str) -> (r: String)
    ensures
        r@ == employment_label(t@),
{
    if str_eq(t, "FULL_TIME") {
        "Full-time".to_string()
    } else if str_eq(t, "PART_TIME") {
        "Part-time".to_string()
    } else if str_eq(t, "CONTRACTOR") {
        "Contract".to_string()
    } else if str_eq(t, "INTERN") {
        "Internship".to_string()
    } else if str_eq(t, "TEMPORARY") {
        "Temporary".to_string()
    } else {
        "Unknown".to_string()
    }
}

/// A postal address as `city` or `city, country`; none without a city.
pub open spec fn city_country(address: JsonView) -> Option<Seq<char>> {
    match idx(address, "addressLocality"@) {
        JsonView::Str(city) => {
            let country = str_or(idx(address, "addressCountry"@), seq![]);
            Some(
                if country.len() == 0 {
                    city
                } else {
                    city + ", "@ + country
                },
            )
        },
        _ => None,
    }
}

fn city_country_of(address: &Json) -> (r: Option<String>)
    ensures
        match r {
            Some(t) => city_country(address@) == Some(t@),
            None => city_country(address@) is None,
        },
{
    let null = Json::Null;
    let city = match index_key(address, "addressLocality", &null) {
        Json::Str(c) => c,
        _ => {
            return None;
        },
    };
    proof {
        reveal_strlit("");
    }
    let country = text_or(index_key(address, "addressCountry", &null), "");
    if country.is_empty() {
        Some(city.clone())
    } else {
        let mut t = city.clone();
        crate::text::push_str(&mut t, ", ");
        crate::text::push_str(&mut t, country);
        Some(t)
    }
}

/// The places of a posting's `jobLocation` entries that name a city.
pub open spec fn location_texts(xs: Seq<JsonView>) -> Seq<Seq<char>>
    decreases xs.len(),
{
    if xs.len() == 0 {
        seq![]
    } else {
        let rest = location_texts(xs.drop_last());
        match city_country(idx(xs.last(), "address"@)) {
            Some(t) => rest.push(t),
            None => rest,
        }
    }
}

fn locations_of(v: &Json) -> (r: Vec<String>)
    ensures
        strs(r@) == location_texts(arr(v@)),
{
    let empty: Vec<Json> = Vec::new();
    let null = Json::Null;
    let xs = array_elements(v, &empty);
    let ghost vs = views_of(xs@);
    let mut out: Vec<String> = Vec::new();
    let mut i: usize = 0;
    while i < xs.len()
        invariant
            i <= xs@.len(),
            vs == views_of(xs@),
            vs == arr(v@),
            vs.len() == xs@.len(),
            null@ == JsonView::Null,
            forall|k: int| 0 <= k < xs@.len() ==> #[trigger] vs[k] == xs@[k]@,
            strs(out@) == location_texts(vs.take(i as int)),
        decreases xs@.len() - i,
    {
        assert(vs.take(i + 1).drop_last() =~= vs.take(i as int));
        assert(vs.take(i + 1).last() == vs[i as int]);
        let ghost before = strs(out@);
        match city_country_of(index_key(&xs[i], "address", &null)) {
            Some(t) => {
                out.push(t);
                assert(strs(out@) =~= before.push(location_texts(vs.take(i + 1)).last()));
            },
            None => {},
        }
        i += 1;
    }
    assert(vs.take(i as int) =~= vs);
    out
}

/// The non-blank comma-separated pieces of `s`, each trimmed.
pub open spec fn nonblank_trimmed(ps: Seq<Seq<char>>) -> Seq<Seq<char>>
    decreases ps.len(),
{
    if ps.len() == 0 {
        seq![]
    } else {
        let rest = nonblank_trimmed(ps.drop_last());
        if trimmed(ps.last()).len() == 0 {
            rest
        } else {
            rest.push(trimmed(ps.last()))
        }
    }
}

pub open spec fn industry_tags_of(industry: Seq<char>) -> Seq<Seq<char>> {
    nonblank_trimmed(comma_fragments(industry))
}

fn industry_tags(industry: &str) -> (r: Vec<String>)
    ensures
        strs(r@) == industry_tags_of(industry@),
{
    let cs = chars_of(industry);
    let pieces = split_commas(cs.as_slice());
    let ghost ps = tv(pieces@);
    let mut out: Vec<String> = Vec::new();
    let mut i: usize = 0;
    while i < pieces.len()
        invariant
            i <= pieces@.len(),
            ps == tv(pieces@),
            ps == comma_fragments(industry@),
            strs(out@) == nonblank_trimmed(ps.take(i as int)),
        decreases pieces@.len() - i,
    {
        assert(ps.take(i + 1).drop_last() =~= ps.take(i as int));
        assert(ps.take(i + 1).last() == ps[i as int]);
        let t = trim_chars(pieces[i].as_slice());
        if t.len() > 0 {
            let ghost before = strs(out@);
            out.push(string_of(&t));
            assert(strs(out@) =~= before.push(t@));
        }
        i += 1;
    }
    assert(ps.take(i as int) =~= ps);
    out
}

/// The prose of a posting's description: its HTML read as text, and read once more when
/// the feed escaped it twice and markup is still showing.
pub open spec fn posting_description(html: Seq<char>) -> Seq<char> {
    let once = html_text(html);
    if contains_seq(once, "</"@) {
        html_text(once)
    } else {
        once
    }
}

pub open spec fn opt_text_view(o: Option<Seq<char>>) -> JsonView {
    match o {
        Some(t) => JsonView::Str(t),
        None => JsonView::Null,
    }
}

/// The flat record of a schema.org `JobPosting` capture from `domain`.
pub open spec fn schema_org_record(payload: JsonView, domain: Seq<char>) -> JsonView {
    let job = idx(payload, "json"@);
    let org = idx(job, "hiringOrganization"@);
    let title = str_or(idx(job, "title"@), seq![]);
    let description_html = str_or(idx(job, "description"@), seq![]);
    let company = str_or(idx(org, "name"@), seq![]);
    JsonView::Object(
        seq![
            ("company"@, JsonView::Str(company)),
            ("company_hq"@, opt_text_view(city_country(idx(org, "address"@)))),
            ("company_logo"@, str_or_null(idx(org, "logo"@))),
            ("company_website"@, str_or_null(idx(org, "sameAs"@))),
            ("date_posted"@, str_or_null(idx(job, "datePosted"@))),
            ("description"@, JsonView::Str(posting_description(description_html))),
            ("description_html"@, JsonView::Str(description_html)),
            ("domain"@, JsonView::Str(domain)),
            (
                "education_requirement"@,
                str_or_null(idx(idx(job, "educationRequirements"@), "credentialCategory"@)),
            ),
            ("industry_tags"@, strings_view(industry_tags_of(str_or(idx(job, "industry"@), seq![])))),
            ("job_type"@, JsonView::Str(employment_label(str_or(idx(job, "employmentType"@), seq![])))),
            ("locations"@, strings_view(location_texts(arr(idx(job, "jobLocation"@))))),
            ("parsed"@, JsonView::Bool(true)),
            ("qualifications"@, str_or_null(idx(job, "qualifications"@))),
            ("title"@, JsonView::Str(title)),
            ("url"@, JsonView::Str(str_or(idx(payload, "sourceUrl"@), seq![]))),
            ("valid_through"@, str_or_null(idx(job, "validThrough"@))),
            (
                "warnings"@,
                strings_view(
                    missing_warnings(
                        title.len() == 0,
                        description_html.len() == 0,
                        company.len() == 0,
                        "description_html"@,
                    ),
                ),
            ),
        ],
    )
}

fn posting_description_of(html: &str) -> (r: String)
    ensures
        r@ == posting_description(html@),
{
    let once = html_to_text(html);
    let close = chars_of("</");
    proof {
        reveal_strlit("</");
    }
    if contains(chars_of(once.as_str()).as_slice(), close.as_slice()) {
        html_to_text(once.as_str())
    } else {
        once
    }
}

/// Parses a schema.org `JobPosting` capture from `domain`.
#[verifier::rlimit(40)]
pub fn parse_schema_org_job_posting(payload: &Json, domain: &str) -> (r: Json)
    ensures
        r@ == schema_org_record(payload@, domain@),
{
    let ghost expected = crate::tailoring::obj(schema_org_record(payload@, domain@));
    let null = Json::Null;
    proof {
        reveal_strlit("");
        assert(""@ =~= Seq::<char>::empty());
    }
    let job = index_key(payload, "json", &null);
    let org = index_key(job, "hiringOrganization", &null);
    let title = text_or(index_key(job, "title", &null), "");
    let description_html = text_or(index_key(job, "description", &null), "");
    let company = text_or(index_key(org, "name", &null), "");
    let mut warnings: Vec<String> = Vec::new();
    push_missing_warnings(
        &mut warnings,
        title.is_empty(),
        description_html.is_empty(),
        company.is_empty(),
        "description_html",
    );
    let hq = match city_country_of(index_key(org, "address", &null)) {
        Some(t) => Json::Str(t),
        None => Json::Null,
    };
    let mut m: Vec<(String, Json)> = Vec::new();
    push_member(&mut m, "company", Json::Str(company.to_string()));
    push_member(&mut m, "company_hq", hq);
    push_member(&mut m, "company_logo", str_or_null_json(index_key(org, "logo", &null)));
    push_member(&mut m, "company_website", str_or_null_json(index_key(org, "sameAs", &null)));
    push_member(&mut m, "date_posted", str_or_null_json(index_key(job, "datePosted", &null)));
    push_member(&mut m, "description", Json::Str(posting_description_of(description_html)));
    push_member(&mut m, "description_html", Json::Str(description_html.to_string()));
    push_member(&mut m, "domain", Json::Str(domain.to_string()));
    push_member(
        &mut m,
        "education_requirement",
        str_or_null_json(
            index_key(index_key(job, "educationRequirements", &null), "credentialCategory", &null),
        ),
    );
    let tags = industry_tags(text_or(index_key(job, "industry", &null), ""));
    push_member(&mut m, "industry_tags", strings_json(&tags));
    push_member(
        &mut m,
        "job_type",
        Json::Str(employment_label_of(text_or(index_key(job, "employmentType", &null), ""))),
    );
    let locations = locations_of(index_key(job, "jobLocation", &null));
    push_member(&mut m, "locations", strings_json(&locations));
    push_member(&mut m, "parsed", Json::Bool(true));
    push_member(&mut m, "qualifications", str_or_null_json(index_key(job, "qualifications", &null)));
    push_member(&mut m, "title", Json::Str(title.to_string()));
    push_member(
        &mut m,
        "url",
        Json::Str(text_or(index_key(payload, "sourceUrl", &null), "").to_string()),
    );
    push_member(&mut m, "valid_through", str_or_null_json(index_key(job, "validThrough", &null)));
    push_member(&mut m, "warnings", strings_json(&warnings));
    assert(member_views(m@) =~= expected);
    Json::Object(m)
}

// ------------------------------------------------------------------ Indeed

/// `s` without trailing copies of `suffix`, as `str::trim_end_matches` removes them.
pub open spec fn trim_end_matches(s: Seq<char>, suffix: Seq<char>) -> Seq<char>
    decreases s.len(),
{
    if suffix.len() > 0 && suffix.len() <= s.len() && s.subrange(s.len() - suffix.len(), s.len() as int) == suffix {
        trim_end_matches(s.subrange(0, s.len() - suffix.len()), suffix)
    } else {
        s
    }
}

fn trim_end_matches_of(s: &[char], suffix: &[char]) -> (r: Vec<char>)
    ensures
        r@ == trim_end_matches(s@, suffix@),
{
    let mut end = s.len();
    let ghost sv = s@;
    assert(sv.subrange(0, end as int) =~= sv);
    while suffix.len() > 0 && suffix.len() <= end && crate::text::matches_at(
        s,
        suffix,
        end - suffix.len(),
    )
        invariant
            end <= s@.len(),
            sv == s@,
            trim_end_matches(sv.subrange(0, end as int), suffix@) == trim_end_matches(sv, suffix@),
        decreases end,
    {
        let ghost cur = sv.subrange(0, end as int);
        assert(cur.subrange(cur.len() - suffix@.len(), cur.len() as int) =~= sv.subrange(
            end - suffix@.len(),
            end as int,
        ));
        assert(cur.subrange(0, cur.len() - suffix@.len()) =~= sv.subrange(0, end - suffix@.len()));
        end = end - suffix.len();
    }
    let ghost cur = sv.subrange(0, end as int);
    proof {
        if suffix@.len() > 0 && suffix@.len() <= end {
            assert(cur.subrange(cur.len() - suffix@.len(), cur.len() as int) =~= sv.subrange(
                end - suffix@.len(),
                end as int,
            ));
        }
    }
    crate::text::chars_from(&s[0..end], 0)
}

/// The flat record of an Indeed capture.
pub open spec fn indeed_record(payload: JsonView) -> JsonView {
    let job = idx(payload, "json"@);
    let title = trimmed(trim_end_matches(str_or(idx(job, "title"@), seq![]), " - job post"@));
    let description = str_or(idx(job, "description"@), seq![]);
    let company = str_or(idx(job, "company"@), seq![]);
    JsonView::Object(
        seq![
            ("company"@, JsonView::Str(company)),
            ("description"@, JsonView::Str(description)),
            ("domain"@, JsonView::Str("indeed"@)),
            ("location"@, str_or_null(idx(job, "location"@))),
            ("parsed"@, JsonView::Bool(true)),
            ("title"@, JsonView::Str(title)),
            ("url"@, JsonView::Str(str_or(idx(payload, "sourceUrl"@), seq![]))),
            (
                "warnings"@,
                strings_view(
                    missing_warnings(
                        title.len() == 0,
                        description.len() == 0,
                        company.len() == 0,
                        "description"@,
                    ),
                ),
            ),
        ],
    )
}

/// Parses an Indeed capture.
pub fn parse_indeed(payload: &Json) -> (r: Json)
    ensures
        r@ == indeed_record(payload@),
{
    let ghost expected = crate::tailoring::obj(indeed_record(payload@));
    let null = Json::Null;
    proof {
        reveal_strlit("");
        assert(""@ =~= Seq::<char>::empty());
    }
    let job = index_key(payload, "json", &null);
    let raw_title = chars_of(text_or(index_key(job, "title", &null), ""));
    let suffix = chars_of(" - job post");
    let title = trim_chars(trim_end_matches_of(raw_title.as_slice(), suffix.as_slice()).as_slice());
    let description = text_or(index_key(job, "description", &null), "");
    let company = text_or(index_key(job, "company", &null), "");
    let mut warnings: Vec<String> = Vec::new();
    push_missing_warnings(
        &mut warnings,
        title.len() == 0,
        description.is_empty(),
        company.is_empty(),
        "description",
    );
    let mut m: Vec<(String, Json)> = Vec::new();
    push_member(&mut m, "company", Json::Str(company.to_string()));
    push_member(&mut m, "description", Json::Str(description.to_string()));
    push_member(&mut m, "domain", Json::Str("indeed".to_string()));
    push_member(&mut m, "location", str_or_null_json(index_key(job, "location", &null)));
    push_member(&mut m, "parsed", Json::Bool(true));
    push_member(&mut m, "title", Json::Str(string_of(&title)));
    push_member(
        &mut m,
        "url",
        Json::Str(text_or(index_key(payload, "sourceUrl", &null), "").to_string()),
    );
    push_member(&mut m, "warnings", strings_json(&warnings));
    assert(member_views(m@) =~= expected);
    Json::Object(m)
}

// ------------------------------------------------------------------ imported captures

/// The label an imported capture carries as its `domain`: `pasted-text` without a source
/// URL, else the URL's host, else `imported` when it has none or does not parse.
pub open spec fn imported_label(payload: JsonView) -> Seq<char> {
    let source = trimmed(str_or(idx(payload, "sourceUrl"@), seq![]));
    if source.len() == 0 {
        "pasted-text"@
    } else {
        match crate::job_import::url_parse(source) {
            Some((_, Some(host), _)) => host,
            _ => "imported"@,
        }
    }
}

pub fn imported_domain_label(payload: &Json) -> (r: String)
    ensures
        r@ == imported_label(payload@),
{
    let null = Json::Null;
    proof {
        reveal_strlit("");
    }
    let source = string_of(&trim_str(text_or(index_key(payload, "sourceUrl", &null), "")));
    if source.as_str().is_empty() {
        return "pasted-text".to_string();
    }
    match crate::job_import::parse_url(source.as_str()) {
        Some(u) => match u.host {
            Some(h) => h,
            None => "imported".to_string(),
        },
        None => "imported".to_string(),
    }
}


// ------------------------------------------------------------------ AI-extracted captures

pub const TEXT_IMPORT_NOTE: &'static str = "Imported by AI from pasted text - check the details against the original post.";

pub const PAGE_IMPORT_NOTE: &'static str = "Imported by AI from the page text - check the details against the original post.";

pub const LOW_CONFIDENCE_NOTE: &'static str = "The AI was not confident about this extraction.";

/// The members that are not `null`.
pub open spec fn drop_nulls(ms: Seq<(Seq<char>, JsonView)>) -> Seq<(Seq<char>, JsonView)>
    decreases ms.len(),
{
    if ms.len() == 0 {
        seq![]
    } else {
        let rest = drop_nulls(ms.drop_last());
        if ms.last().1 is Null {
            rest
        } else {
            rest.push(ms.last())
        }
    }
}

fn drop_null_members(ms: Vec<(String, Json)>) -> (r: Vec<(String, Json)>)
    ensures
        member_views(r@) == drop_nulls(member_views(ms@)),
{
    proof {
        lemma_member_views(ms@);
    }
    let ghost mv = member_views(ms@);
    let mut out: Vec<(String, Json)> = Vec::new();
    let mut i: usize = 0;
    while i < ms.len()
        invariant
            i <= ms@.len(),
            mv == member_views(ms@),
            mv.len() == ms@.len(),
            forall|k: int| 0 <= k < ms@.len() ==> #[trigger] mv[k] == (ms@[k].0@, view_of(ms@[k].1)),
            member_views(out@) == drop_nulls(mv.take(i as int)),
        decreases ms@.len() - i,
    {
        assert(mv.take(i + 1).drop_last() =~= mv.take(i as int));
        assert(mv.take(i + 1).last() == mv[i as int]);
        let is_null = match &ms[i].1 {
            Json::Null => true,
            _ => false,
        };
        if !is_null {
            push_member(&mut out, ms[i].0.as_str(), ms[i].1.deep_copy());
        }
        i += 1;
    }
    assert(mv.take(i as int) =~= mv);
    out
}

/// The warnings of an AI-extracted capture: the missing fields, a notice that a model wrote
/// it (naming pasted text or the page), and a note when the model was not confident.
pub open spec fn extracted_warnings(payload: JsonView, title: Seq<char>, description: Seq<char>, company: Seq<char>) -> Seq<Seq<char>> {
    let job = idx(payload, "json"@);
    let w = missing_warnings(title.len() == 0, description.len() == 0, company.len() == 0, "description"@);
    let w2 = w.push(
        if text_of_view(idx(payload, "source"@)) == Some("text_import"@) {
            TEXT_IMPORT_NOTE@
        } else {
            PAGE_IMPORT_NOTE@
        },
    );
    if str_or(idx(job, "extraction_confidence"@), "high"@) != "high"@ {
        w2.push(LOW_CONFIDENCE_NOTE@)
    } else {
        w2
    }
}

pub open spec fn text_of_view(v: JsonView) -> Option<Seq<char>> {
    match v {
        JsonView::Str(s) => Some(s),
        _ => None,
    }
}

/// The flat record of a capture the AI extracted, before nulls are dropped.
pub open spec fn extracted_members(payload: JsonView, domain: Seq<char>) -> Seq<(Seq<char>, JsonView)> {
    let job = idx(payload, "json"@);
    let title = trimmed(str_or(idx(job, "title"@), seq![]));
    let description = trimmed(str_or(idx(job, "description"@), seq![]));
    let company = trimmed(str_or(idx(job, "company"@), seq![]));
    seq![
        ("company"@, JsonView::Str(company)),
        ("company_description"@, idx(job, "company_description"@)),
        ("company_hq"@, idx(job, "company_hq"@)),
        ("compensation"@, idx(job, "compensation"@)),
        ("date_posted"@, idx(job, "date_posted"@)),
        ("description"@, JsonView::Str(description)),
        ("domain"@, JsonView::Str(domain)),
        ("education_requirement"@, idx(job, "education_requirement"@)),
        ("industry_tags"@, idx(job, "industry_tags"@)),
        ("job_type"@, idx(job, "job_type"@)),
        ("location"@, idx(job, "location"@)),
        ("locations"@, idx(job, "locations"@)),
        ("parsed"@, JsonView::Bool(true)),
        ("qualifications"@, idx(job, "qualifications"@)),
        ("remote"@, idx(job, "remote"@)),
        ("skills"@, idx(job, "skills"@)),
        ("title"@, JsonView::Str(title)),
        ("url"@, JsonView::Str(str_or(idx(payload, "sourceUrl"@), seq![]))),
        ("warnings"@, strings_view(extracted_warnings(payload, title, description, company))),
        ("years_experience_max"@, idx(job, "years_experience_max"@)),
        ("years_experience_min"@, idx(job, "years_experience_min"@)),
    ]
}

/// The record of an AI-extracted capture: the members without nulls.
pub open spec fn extracted_record(payload: JsonView, domain: Seq<char>) -> JsonView {
    JsonView::Object(drop_nulls(extracted_members(payload, domain)))
}

fn copy_field(j: &Json, key: &str) -> (r: Json)
    ensures
        r@ == idx(j@, key@),
{
    let null = Json::Null;
    index_key(j, key, &null).deep_copy()
}

fn extracted_warning_list(payload: &Json, title: &String, description: &String, company: &String) -> (r: Vec<String>)
    ensures
        strs(r@) == extracted_warnings(payload@, title@, description@, company@),
{
    let null = Json::Null;
    proof {
        reveal_strlit("high");
        reveal_strlit("text_import");
    }
    let job = index_key(payload, "json", &null);
    let mut warnings: Vec<String> = Vec::new();
    push_missing_warnings(
        &mut warnings,
        title.as_str().is_empty(),
        description.as_str().is_empty(),
        company.as_str().is_empty(),
        "description",
    );
    let from_text = match index_key(payload, "source", &null) {
        Json::Str(s) => str_eq(s.as_str(), "text_import"),
        _ => false,
    };
    if from_text {
        warnings.push(TEXT_IMPORT_NOTE.to_string());
    } else {
        warnings.push(PAGE_IMPORT_NOTE.to_string());
    }
    let confidence = text_or(index_key(job, "extraction_confidence", &null), "high");
    if !str_eq(confidence, "high") {
        warnings.push(LOW_CONFIDENCE_NOTE.to_string());
    }
    assert(strs(warnings@) =~= extracted_warnings(payload@, title@, description@, company@));
    warnings
}

/// Parses a capture the app extracted with the AI layer.
#[verifier::rlimit(40)]
pub fn parse_extracted_job(payload: &Json, domain: &str) -> (r: Json)
    ensures
        r@ == extracted_record(payload@, domain@),
{
    let ghost expected = extracted_members(payload@, domain@);
    let null = Json::Null;
    proof {
        reveal_strlit("");
        reveal_strlit("high");
        reveal_strlit("text_import");
        assert(""@ =~= Seq::<char>::empty());
    }
    let job = index_key(payload, "json", &null);
    let title = string_of(&trim_str(text_or(index_key(job, "title", &null), "")));
    let description = string_of(&trim_str(text_or(index_key(job, "description", &null), "")));
    let company = string_of(&trim_str(text_or(index_key(job, "company", &null), "")));
    let warnings = extracted_warning_list(payload, &title, &description, &company);
    let mut m: Vec<(String, Json)> = Vec::new();
    push_member(&mut m, "company", Json::Str(company));
    push_member(&mut m, "company_description", copy_field(job, "company_description"));
    push_member(&mut m, "company_hq", copy_field(job, "company_hq"));
    push_member(&mut m, "compensation", copy_field(job, "compensation"));
    push_member(&mut m, "date_posted", copy_field(job, "date_posted"));
    push_member(&mut m, "description", Json::Str(description));
    push_member(&mut m, "domain", Json::Str(domain.to_string()));
    push_member(&mut m, "education_requirement", copy_field(job, "education_requirement"));
    push_member(&mut m, "industry_tags", copy_field(job, "industry_tags"));
    push_member(&mut m, "job_type", copy_field(job, "job_type"));
    push_member(&mut m, "location", copy_field(job, "location"));
    push_member(&mut m, "locations", copy_field(job, "locations"));
    push_member(&mut m, "parsed", Json::Bool(true));
    push_member(&mut m, "qualifications", copy_field(job, "qualifications"));
    push_member(&mut m, "remote", copy_field(job, "remote"));
    push_member(&mut m, "skills", copy_field(job, "skills"));
    push_member(&mut m, "title", Json::Str(title));
    push_member(
        &mut m,
        "url",
        Json::Str(text_or(index_key(payload, "sourceUrl", &null), "").to_string()),
    );
    push_member(&mut m, "warnings", strings_json(&warnings));
    push_member(&mut m, "years_experience_max", copy_field(job, "years_experience_max"));
    push_member(&mut m, "years_experience_min", copy_field(job, "years_experience_min"));
    assert(member_views(m@) =~= expected);
    Json::Object(drop_null_members(m))
}


// ------------------------------------------------------------------ Wellfound

/// How a Wellfound company-size code reads; an unknown code as it is.
pub open spec fn company_size_label(code: Seq<char>) -> Seq<char> {
    if code == "SIZE_1_10"@ {
        "1-10"@
    } else if code == "SIZE_11_50"@ {
        "11-50"@
    } else if code == "SIZE_51_200"@ {
        "51-200"@
    } else if code == "SIZE_201_500"@ {
        "201-500"@
    } else if code == "SIZE_501_1000"@ {
        "501-1000"@
    } else if code == "SIZE_1001_PLUS"@ {
        "1001+"@
    } else {
        code
    }
}

fn company_size_of(code: &str) -> (r: String)
    ensures
        r@ == company_size_label(code@),
{
    if str_eq(code, "SIZE_1_10") {
        "1-10".to_string()
    } else if str_eq(code, "SIZE_11_50") {
        "11-50".to_string()
    } else if str_eq(code, "SIZE_51_200") {
        "51-200".to_string()
    } else if str_eq(code, "SIZE_201_500") {
        "201-500".to_string()
    } else if str_eq(code, "SIZE_501_1000") {
        "501-1000".to_string()
    } else if str_eq(code, "SIZE_1001_PLUS") {
        "1001+".to_string()
    } else {
        code.to_string()
    }
}

/// How a Wellfound job type reads.
pub open spec fn job_type_label(t: Seq<char>) -> Seq<char> {
    if t == "full_time"@ {
        "Full-time"@
    } else if t == "part_time"@ {
        "Part-time"@
    } else if t == "contract"@ {
        "Contract"@
    } else if t == "internship"@ {
        "Internship"@
    } else {
        "Unknown"@
    }
}

fn job_type_of(t: &str) -> (r: String)
    ensures
        r@ == job_type_label(t@),
{
    if str_eq(t, "full_time") {
        "Full-time".to_string()
    } else if str_eq(t, "part_time") {
        "Part-time".to_string()
    } else if str_eq(t, "contract") {
        "Contract".to_string()
    } else if str_eq(t, "internship") {
        "Internship".to_string()
    } else {
        "Unknown".to_string()
    }
}

pub open spec fn bool_or_false(v: JsonView) -> bool {
    match v {
        JsonView::Bool(b) => b,
        _ => false,
    }
}

fn bool_of(v: &Json) -> (r: bool)
    ensures
        r == bool_or_false(v@),
{
    match v {
        Json::Bool(b) => *b,
        _ => false,
    }
}

/// The company half of a Wellfound record, members in key order.
pub open spec fn wellfound_company(startup: JsonView, company: Seq<char>) -> Seq<(Seq<char>, JsonView)> {
    let displays = collected_field(arr(idx(startup, "locationTaggings"@)), "displayName"@);
    seq![
        ("company"@, JsonView::Str(company)),
        ("company_badges"@, strings_view(collected_field(arr(idx(startup, "badges"@)), "label"@))),
        ("company_description"@, str_or_null(idx(startup, "highConcept"@))),
        ("company_hq"@, if displays.len() > 0 { JsonView::Str(displays[0]) } else { JsonView::Null }),
        ("company_logo"@, str_or_null(idx(startup, "logoUrl"@))),
        ("company_size"@, match idx(startup, "companySize"@) {
            JsonView::Str(c) => JsonView::Str(company_size_label(c)),
            _ => JsonView::Null,
        }),
        ("company_tags"@, strings_view(collected_field(arr(idx(startup, "marketTaggings"@)), "displayName"@))),
        (
            "company_type_tags"@,
            strings_view(collected_field(arr(idx(startup, "companyTypeTaggings"@)), "displayName"@)),
        ),
    ]
}

fn push_wellfound_company(m: &mut Vec<(String, Json)>, startup: &Json, company: &str)
    ensures
        member_views(final(m)@) == member_views(old(m)@) + wellfound_company(startup@, company@),
{
    let ghost start = member_views(m@);
    let null = Json::Null;
    let displays = collect_display(index_key(startup, "locationTaggings", &null));
    let hq = if displays.len() > 0 {
        Json::Str(displays[0].clone())
    } else {
        Json::Null
    };
    let size = match index_key(startup, "companySize", &null) {
        Json::Str(c) => Json::Str(company_size_of(c.as_str())),
        _ => Json::Null,
    };
    push_member(m, "company", Json::Str(company.to_string()));
    push_member(m, "company_badges", strings_json(&collect_label(index_key(startup, "badges", &null))));
    push_member(m, "company_description", str_or_null_json(index_key(startup, "highConcept", &null)));
    push_member(m, "company_hq", hq);
    push_member(m, "company_logo", str_or_null_json(index_key(startup, "logoUrl", &null)));
    push_member(m, "company_size", size);
    push_member(
        m,
        "company_tags",
        strings_json(&collect_display(index_key(startup, "marketTaggings", &null))),
    );
    push_member(
        m,
        "company_type_tags",
        strings_json(&collect_display(index_key(startup, "companyTypeTaggings", &null))),
    );
    assert(member_views(m@) =~= start + wellfound_company(startup@, company@));
}

/// The job half of a Wellfound record up to the primary role, members in key order.
pub open spec fn wellfound_job_head(payload: JsonView) -> Seq<(Seq<char>, JsonView)> {
    let job = idx(payload, "json"@);
    seq![
        ("compensation"@, match idx(job, "compensation"@) {
            JsonView::Str(c) => if c.len() > 0 { JsonView::Str(c) } else { JsonView::Null },
            _ => JsonView::Null,
        }),
        ("description"@, JsonView::Str(str_or(idx(job, "description"@), seq![]))),
        ("domain"@, JsonView::Str("wellfound"@)),
        ("equity"@, idx(job, "equity"@)),
        ("job_type"@, JsonView::Str(job_type_label(str_or(idx(job, "jobType"@), seq![])))),
        ("listing_id"@, JsonView::Str(str_or(idx(job, "id"@), seq![]))),
        ("locations"@, strings_view(collected_names(idx(job, "locationNames"@)))),
        ("parsed"@, JsonView::Bool(true)),
        ("primary_role"@, JsonView::Str(str_or(idx(job, "primaryRoleTitle"@), seq![]))),
    ]
}

/// The rest of the job half of a Wellfound record, members in key order.
pub open spec fn wellfound_job_tail(payload: JsonView, company: Seq<char>) -> Seq<(Seq<char>, JsonView)> {
    let job = idx(payload, "json"@);
    let title = str_or(idx(job, "title"@), seq![]);
    let description = str_or(idx(job, "description"@), seq![]);
    seq![
        ("remote"@, JsonView::Bool(bool_or_false(idx(job, "remote"@)))),
        (
            "remote_locations"@,
            strings_view(collected_names(idx(job, "acceptedRemoteLocationNames"@))),
        ),
        ("skills"@, strings_view(collected_names(idx(job, "skills"@)))),
        ("title"@, JsonView::Str(title)),
        ("url"@, JsonView::Str(str_or(idx(payload, "sourceUrl"@), seq![]))),
        ("visa_sponsorship"@, JsonView::Bool(bool_or_false(idx(job, "visaSponsorship"@)))),
        (
            "warnings"@,
            strings_view(
                missing_warnings(
                    title.len() == 0,
                    description.len() == 0,
                    company.len() == 0,
                    "description"@,
                ),
            ),
        ),
        ("years_experience_max"@, idx(job, "yearsExperienceMax"@)),
        ("years_experience_min"@, idx(job, "yearsExperienceMin"@)),
    ]
}

/// The flat record of a Wellfound capture.
pub open spec fn wellfound_record(payload: JsonView) -> JsonView {
    let job = idx(payload, "json"@);
    let startup = idx(job, "startup"@);
    let company = str_or(idx(startup, "name"@), seq![]);
    JsonView::Object(
        seq![("allow_relocation"@, JsonView::Bool(bool_or_false(idx(job, "allowRelocation"@))))]
            + wellfound_company(startup, company) + wellfound_job_head(payload)
            + wellfound_job_tail(payload, company),
    )
}

fn push_wellfound_job_head(m: &mut Vec<(String, Json)>, payload: &Json)
    ensures
        member_views(final(m)@) == member_views(old(m)@) + wellfound_job_head(payload@),
{
    let ghost start = member_views(m@);
    let null = Json::Null;
    proof {
        reveal_strlit("");
        assert(""@ =~= Seq::<char>::empty());
    }
    let job = index_key(payload, "json", &null);
    let compensation = match index_key(job, "compensation", &null) {
        Json::Str(c) => if c.as_str().is_empty() {
            Json::Null
        } else {
            Json::Str(c.clone())
        },
        _ => Json::Null,
    };
    push_member(m, "compensation", compensation);
    push_member(
        m,
        "description",
        Json::Str(text_or(index_key(job, "description", &null), "").to_string()),
    );
    push_member(m, "domain", Json::Str("wellfound".to_string()));
    push_member(m, "equity", copy_field(job, "equity"));
    push_member(
        m,
        "job_type",
        Json::Str(job_type_of(text_or(index_key(job, "jobType", &null), ""))),
    );
    push_member(m, "listing_id", Json::Str(text_or(index_key(job, "id", &null), "").to_string()));
    push_member(m, "locations", strings_json(&collect_names(index_key(job, "locationNames", &null))));
    push_member(m, "parsed", Json::Bool(true));
    push_member(
        m,
        "primary_role",
        Json::Str(text_or(index_key(job, "primaryRoleTitle", &null), "").to_string()),
    );
    assert(member_views(m@) =~= start + wellfound_job_head(payload@));
}

#[verifier::rlimit(100)]
fn push_wellfound_job_tail(m: &mut Vec<(String, Json)>, payload: &Json, company: &str)
    ensures
        member_views(final(m)@) == member_views(old(m)@) + wellfound_job_tail(payload@, company@),
{
    let ghost start = member_views(m@);
    let null = Json::Null;
    proof {
        reveal_strlit("");
        assert(""@ =~= Seq::<char>::empty());
    }
    let job = index_key(payload, "json", &null);
    let title = text_or(index_key(job, "title", &null), "");
    let description = text_or(index_key(job, "description", &null), "");
    let mut warnings: Vec<String> = Vec::new();
    push_missing_warnings(
        &mut warnings,
        title.is_empty(),
        description.is_empty(),
        company.is_empty(),
        "description",
    );
    push_member(m, "remote", Json::Bool(bool_of(index_key(job, "remote", &null))));
    push_member(
        m,
        "remote_locations",
        strings_json(&collect_names(index_key(job, "acceptedRemoteLocationNames", &null))),
    );
    push_member(m, "skills", strings_json(&collect_names(index_key(job, "skills", &null))));
    push_member(m, "title", Json::Str(title.to_string()));
    push_member(
        m,
        "url",
        Json::Str(text_or(index_key(payload, "sourceUrl", &null), "").to_string()),
    );
    push_member(m, "visa_sponsorship", Json::Bool(bool_of(index_key(job, "visaSponsorship", &null))));
    push_member(m, "warnings", strings_json(&warnings));
    push_member(m, "years_experience_max", copy_field(job, "yearsExperienceMax"));
    push_member(m, "years_experience_min", copy_field(job, "yearsExperienceMin"));
    assert(member_views(m@) =~= start + wellfound_job_tail(payload@, company@));
}

/// Parses a Wellfound capture.
pub fn parse_wellfound(payload: &Json) -> (r: Json)
    ensures
        r@ == wellfound_record(payload@),
{
    let null = Json::Null;
    proof {
        reveal_strlit("");
        assert(""@ =~= Seq::<char>::empty());
    }
    let job = index_key(payload, "json", &null);
    let startup = index_key(job, "startup", &null);
    let company = text_or(index_key(startup, "name", &null), "");
    let mut m: Vec<(String, Json)> = Vec::new();
    push_member(&mut m, "allow_relocation", Json::Bool(bool_of(index_key(job, "allowRelocation", &null))));
    let ghost first = member_views(m@);
    push_wellfound_company(&mut m, startup, company);
    push_wellfound_job_head(&mut m, payload);
    push_wellfound_job_tail(&mut m, payload, company);
    assert(member_views(m@) =~= crate::tailoring::obj(wellfound_record(payload@)));
    Json::Object(m)
}

// ------------------------------------------------------------------ dispatch

/// The record of a capture from an unknown board: the raw payload kept beside a best effort
/// at the title, description and company.
pub open spec fn unknown_record(payload: JsonView) -> JsonView {
    let job = idx(payload, "json"@);
    let title = str_or(idx(job, "title"@), seq![]);
    let description = match idx(job, "description"@) {
        JsonView::Str(d) => d,
        _ => str_or(idx(job, "jobDescription"@), seq![]),
    };
    let company = match idx(job, "company"@) {
        JsonView::Str(c) => c,
        _ => str_or(idx(idx(job, "hiringOrganization"@), "name"@), seq![]),
    };
    JsonView::Object(
        seq![
            ("company"@, JsonView::Str(company)),
            ("description"@, JsonView::Str(description)),
            ("domain"@, JsonView::Str("unknown"@)),
            ("location"@, str_or_null(idx(job, "location"@))),
            ("parsed"@, JsonView::Bool(false)),
            ("raw"@, payload),
            ("title"@, JsonView::Str(title)),
            ("url"@, JsonView::Str(str_or(idx(payload, "sourceUrl"@), seq![]))),
            (
                "warnings"@,
                strings_view(
                    missing_warnings(
                        title.len() == 0,
                        description.len() == 0,
                        company.len() == 0,
                        "description"@,
                    ),
                ),
            ),
        ],
    )
}

fn parse_unknown(payload: &Json) -> (r: Json)
    ensures
        r@ == unknown_record(payload@),
{
    let ghost expected = crate::tailoring::obj(unknown_record(payload@));
    let null = Json::Null;
    proof {
        reveal_strlit("");
        assert(""@ =~= Seq::<char>::empty());
    }
    let job = index_key(payload, "json", &null);
    let title = text_or(index_key(job, "title", &null), "");
    let description = match index_key(job, "description", &null) {
        Json::Str(d) => d.as_str(),
        _ => text_or(index_key(job, "jobDescription", &null), ""),
    };
    let company = match index_key(job, "company", &null) {
        Json::Str(c) => c.as_str(),
        _ => text_or(index_key(index_key(job, "hiringOrganization", &null), "name", &null), ""),
    };
    let mut warnings: Vec<String> = Vec::new();
    push_missing_warnings(
        &mut warnings,
        title.is_empty(),
        description.is_empty(),
        company.is_empty(),
        "description",
    );
    let mut m: Vec<(String, Json)> = Vec::new();
    push_member(&mut m, "company", Json::Str(company.to_string()));
    push_member(&mut m, "description", Json::Str(description.to_string()));
    push_member(&mut m, "domain", Json::Str("unknown".to_string()));
    push_member(&mut m, "location", str_or_null_json(index_key(job, "location", &null)));
    push_member(&mut m, "parsed", Json::Bool(false));
    push_member(&mut m, "raw", payload.deep_copy());
    push_member(&mut m, "title", Json::Str(title.to_string()));
    push_member(
        &mut m,
        "url",
        Json::Str(text_or(index_key(payload, "sourceUrl", &null), "").to_string()),
    );
    push_member(&mut m, "warnings", strings_json(&warnings));
    assert(member_views(m@) =~= expected);
    Json::Object(m)
}

/// Which parser a payload gets: an import names its own (schema.org when it came from
/// JSON-LD, the AI extraction otherwise) before any board is considered; then the board its
/// source URL names; then the unknown-board record.
pub open spec fn parsed_record(payload: JsonView) -> JsonView {
    let source = text_of_view(idx(payload, "source"@));
    if source == Some("url_import"@) || source == Some("text_import"@) {
        let domain = imported_label(payload);
        if text_of_view(idx(payload, "extraction"@)) == Some("json_ld"@) {
            schema_org_record(payload, domain)
        } else {
            extracted_record(payload, domain)
        }
    } else {
        let url = str_or(idx(payload, "sourceUrl"@), seq![]);
        if contains_seq(url, "wellfound.com"@) {
            wellfound_record(payload)
        } else if contains_seq(url, "welcometothejungle.com"@) {
            schema_org_record(payload, "welcometothejungle"@)
        } else if contains_seq(url, "indeed.com"@) {
            indeed_record(payload)
        } else {
            unknown_record(payload)
        }
    }
}

/// Parses a capture into its flat record.
pub fn parse_job_data(payload: &Json) -> (r: Json)
    ensures
        r@ == parsed_record(payload@),
{
    let null = Json::Null;
    proof {
        reveal_strlit("");
        assert(""@ =~= Seq::<char>::empty());
    }
    let imported = match index_key(payload, "source", &null) {
        Json::Str(s) => str_eq(s.as_str(), "url_import") || str_eq(s.as_str(), "text_import"),
        _ => false,
    };
    if imported {
        let domain = imported_domain_label(payload);
        let json_ld = match index_key(payload, "extraction", &null) {
            Json::Str(e) => str_eq(e.as_str(), "json_ld"),
            _ => false,
        };
        return if json_ld {
            parse_schema_org_job_posting(payload, domain.as_str())
        } else {
            parse_extracted_job(payload, domain.as_str())
        };
    }
    let url = chars_of(text_or(index_key(payload, "sourceUrl", &null), ""));
    if contains(url.as_slice(), chars_of("wellfound.com").as_slice()) {
        parse_wellfound(payload)
    } else if contains(url.as_slice(), chars_of("welcometothejungle.com").as_slice()) {
        parse_schema_org_job_posting(payload, "welcometothejungle")
    } else if contains(url.as_slice(), chars_of("indeed.com").as_slice()) {
        parse_indeed(payload)
    } else {
        parse_unknown(payload)
    }
}

} // verus!
