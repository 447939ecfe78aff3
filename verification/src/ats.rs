//! Deterministic ATS coverage scoring: the weighted term ledger checked against the text of
//! the document that was actually produced.
//!
//! Coverage ratios are exact fractions (tokens found over tokens in the form); weights earned
//! at a ratio are rounded to the nearest whole unit, halves up.

use vstd::prelude::*;
use crate::text::{chars_of, decimal, lex_less, lex_less_exec, push_decimal, push_str, str_eq, string_of, strs, trim_str, trimmed};
use crate::json::{
    elements_of, field, lemma_member_views, lemma_views_of, member_views, members_of, text_of,
    view_of, views_of, Json, JsonView,
};
use crate::evidence::{
    analysis_candidates, cand_views, consolidate, equivalent, equivalent_terms, ledger,
    raw_candidates, token_set, token_set_of, CandView, Candidate,
};
use crate::tokens::{count_common, distinct, insert_token, lemma_tset_finite, lemma_tset_len, tset, tv};
use crate::analysis::{JobAnalysis, TermVariants};
use crate::bank::EntryView;
use crate::preflight::{
    cand_term, item_term, item_views, lemma_preflight_terms, preflight_view, ItemView, PreflightItem,
};
use crate::search::{
    first_where, in_order, insertion_sorted, labels, lemma_first_where, lemma_first_where_at,
    lemma_insertion_sorted_in_order, lemma_insertion_sorted_labels, lemma_insertion_sorted_len,
    lemma_labels_map, precedes,
};

verus! {

broadcast use vstd::seq_lib::group_seq_properties;

// ------------------------------------------------------------------------ regions

/// One addressable piece of resume text: where it sits, its tokens, and whether tailoring
/// may rewrite it.
pub struct RegionView {
    pub path: Seq<char>,
    pub tokens: Set<Seq<char>>,
    pub editable: bool,
}

pub open spec fn region_of(path: Seq<char>, text: Seq<char>, editable: bool) -> RegionView {
    RegionView { path, tokens: token_set_of(text), editable }
}

/// A region for `v` when it is a string, none otherwise.
pub open spec fn string_region(path: Seq<char>, v: Option<JsonView>, editable: bool) -> Seq<
    RegionView,
> {
    match text_of(v) {
        Some(t) => seq![region_of(path, t, editable)],
        None => seq![],
    }
}

pub open spec fn bullet_path(job: nat, bullet: nat) -> Seq<char> {
    "experience."@ + decimal(job) + ".bullets."@ + decimal(bullet)
}

pub open spec fn job_field_path(job: nat, name: Seq<char>) -> Seq<char> {
    "experience."@ + decimal(job) + "."@ + name
}

/// The bullets of job `job`, each string one an editable region.
pub open spec fn bullet_regions(bullets: Seq<JsonView>, job: nat) -> Seq<RegionView>
    decreases bullets.len(),
{
    if bullets.len() == 0 {
        seq![]
    } else {
        bullet_regions(bullets.drop_last(), job) + string_region(
            bullet_path(job, (bullets.len() - 1) as nat),
            Some(bullets.last()),
            true,
        )
    }
}

/// The locked facts of a job: company, location, title, dates.
pub open spec fn job_field_regions(j: JsonView, job: nat) -> Seq<RegionView> {
    string_region(job_field_path(job, "company"@), field(j, "company"@), false) + string_region(
        job_field_path(job, "location"@),
        field(j, "location"@),
        false,
    ) + string_region(job_field_path(job, "title"@), field(j, "title"@), false) + string_region(
        job_field_path(job, "dates"@),
        field(j, "dates"@),
        false,
    )
}

pub open spec fn experience_regions(jobs: Seq<JsonView>) -> Seq<RegionView>
    decreases jobs.len(),
{
    if jobs.len() == 0 {
        seq![]
    } else {
        let k = (jobs.len() - 1) as nat;
        experience_regions(jobs.drop_last()) + bullet_regions(
            elements_of(field(jobs.last(), "bullets"@)),
            k,
        ) + job_field_regions(jobs.last(), k)
    }
}

pub open spec fn skill_regions(ms: Seq<(Seq<char>, JsonView)>) -> Seq<RegionView>
    decreases ms.len(),
{
    if ms.len() == 0 {
        seq![]
    } else {
        skill_regions(ms.drop_last()) + string_region(
            "skills."@ + ms.last().0,
            Some(ms.last().1),
            true,
        )
    }
}

pub open spec fn locked_lines(key: Seq<char>, lines: Seq<JsonView>) -> Seq<RegionView>
    decreases lines.len(),
{
    if lines.len() == 0 {
        seq![]
    } else {
        locked_lines(key, lines.drop_last()) + string_region(
            key + "."@ + decimal((lines.len() - 1) as nat),
            Some(lines.last()),
            false,
        )
    }
}

pub open spec fn locked_regions(ms: Seq<(Seq<char>, JsonView)>) -> Seq<RegionView>
    decreases ms.len(),
{
    if ms.len() == 0 {
        seq![]
    } else {
        locked_regions(ms.drop_last()) + locked_lines(ms.last().0, elements_of(Some(ms.last().1)))
    }
}

/// Every piece of text an ATS would read: the summary, each bullet and locked job field,
/// each skills line, and each line of the never-tailored sections.
pub open spec fn regions_of(content: JsonView, locked: Option<JsonView>) -> Seq<RegionView> {
    string_region("summary"@, field(content, "summary"@), true) + experience_regions(elements_of(field(content, "experience"@))) + skill_regions(
        members_of(field(content, "skills"@)),
    ) + locked_regions(members_of(locked))
}

pub struct Region {
    pub path: String,
    pub tokens: Vec<Vec<char>>,
    pub editable: bool,
}

impl View for Region {
    type V = RegionView;

    open spec fn view(&self) -> RegionView {
        RegionView { path: self.path@, tokens: tset(self.tokens@), editable: self.editable }
    }
}

pub open spec fn region_views(v: Seq<Region>) -> Seq<RegionView> {
    v.map_values(|r: Region| r@)
}

pub open spec fn regions_wf(v: Seq<Region>) -> bool {
    forall|i: int| 0 <= i < v.len() ==> distinct(#[trigger] v[i].tokens@)
}

fn opt_view(v: Option<&Json>) -> (r: Ghost<Option<JsonView>>)
    ensures
        r@ == match v {
            Some(j) => Some(j@),
            None => None,
        },
{
    Ghost(
        match v {
            Some(j) => Some(j@),
            None => None,
        },
    )
}

fn push_string_region(out: &mut Vec<Region>, path: String, v: Option<&Json>, editable: bool)
    requires
        regions_wf(old(out)@),
    ensures
        regions_wf(final(out)@),
        region_views(final(out)@) == region_views(old(out)@) + string_region(
            path@,
            match v {
                Some(j) => Some(j@),
                None => None,
            },
            editable,
        ),
{
    let ghost before = out@;
    let text = match v {
        Some(j) => j.as_str(),
        None => None,
    };
    match text {
        Some(t) => {
            let tokens = token_set(t);
            out.push(Region { path, tokens, editable });
            assert(region_views(out@) =~= region_views(before) + seq![
                region_of(path@, t@, editable),
            ]);
        },
        None => {
            assert(region_views(out@) =~= region_views(before) + seq![]);
        },
    }
}

fn bullet_path_string(job: usize, bullet: usize) -> (r: String)
    ensures
        r@ == bullet_path(job as nat, bullet as nat),
{
    let mut s = String::new();
    push_str(&mut s, "experience.");
    push_decimal(&mut s, job as u64);
    push_str(&mut s, ".bullets.");
    push_decimal(&mut s, bullet as u64);
    s
}

fn job_field_path_string(job: usize, name: &str) -> (r: String)
    ensures
        r@ == job_field_path(job as nat, name@),
{
    let mut s = String::new();
    push_str(&mut s, "experience.");
    push_decimal(&mut s, job as u64);
    push_str(&mut s, ".");
    push_str(&mut s, name);
    s
}

fn push_bullet_regions(out: &mut Vec<Region>, bullets_value: Option<&Json>, k: usize)
    requires
        regions_wf(old(out)@),
    ensures
        regions_wf(final(out)@),
        region_views(final(out)@) == region_views(old(out)@) + bullet_regions(
            elements_of(
                match bullets_value {
                    Some(j) => Some(j@),
                    None => None,
                },
            ),
            k as nat,
        ),
{
    let ghost start = region_views(out@);
    let arr = match bullets_value {
        Some(bv) => bv.as_array(),
        None => None,
    };
    match arr {
        Some(bullets) => {
            proof {
                lemma_views_of(bullets@);
            }
            let ghost bs = views_of(bullets@);
            let mut b: usize = 0;
            while b < bullets.len()
                invariant
                    b <= bullets@.len(),
                    bs == views_of(bullets@),
                    bs.len() == bullets@.len(),
                    forall|i: int| 0 <= i < bullets@.len() ==> #[trigger] bs[i] == bullets@[i]@,
                    regions_wf(out@),
                    region_views(out@) == start + bullet_regions(bs.take(b as int), k as nat),
                decreases bullets@.len() - b,
            {
                assert(bs.take(b + 1).drop_last() =~= bs.take(b as int));
                let path = bullet_path_string(k, b);
                push_string_region(out, path, Some(&bullets[b]), true);
                b += 1;
            }
            assert(bs.take(b as int) =~= bs);
        },
        None => {
            let ghost bv = match bullets_value {
                Some(j) => Some(j@),
                None => None,
            };
            assert(elements_of(bv).len() == 0);
            assert(region_views(out@) =~= start + bullet_regions(elements_of(bv), k as nat));
        },
    }
}

#[verifier::spinoff_prover]
#[verifier::rlimit(40)]
fn push_job_regions(out: &mut Vec<Region>, job: &Json, k: usize)
    requires
        regions_wf(old(out)@),
    ensures
        regions_wf(final(out)@),
        region_views(final(out)@) == region_views(old(out)@) + bullet_regions(
            elements_of(field(job@, "bullets"@)),
            k as nat,
        ) + job_field_regions(job@, k as nat),
{
    let ghost start = region_views(out@);
    push_bullet_regions(out, job.get("bullets"), k);
    let ghost mid = region_views(out@);
    push_string_region(out, job_field_path_string(k, "company"), job.get("company"), false);
    push_string_region(out, job_field_path_string(k, "location"), job.get("location"), false);
    push_string_region(out, job_field_path_string(k, "title"), job.get("title"), false);
    push_string_region(out, job_field_path_string(k, "dates"), job.get("dates"), false);
    assert(region_views(out@) =~= mid + job_field_regions(job@, k as nat));
}

fn push_experience_regions(out: &mut Vec<Region>, content: &Json)
    requires
        regions_wf(old(out)@),
    ensures
        regions_wf(final(out)@),
        region_views(final(out)@) == region_views(old(out)@) + experience_regions(
            elements_of(field(content@, "experience"@)),
        ),
{
    let ghost start = region_views(out@);
    match content.get("experience") {
        Some(ev) => match ev.as_array() {
            Some(jobs) => {
                proof {
                    lemma_views_of(jobs@);
                }
                let ghost js = views_of(jobs@);
                let mut k: usize = 0;
                while k < jobs.len()
                    invariant
                        k <= jobs@.len(),
                        js == views_of(jobs@),
                        js.len() == jobs@.len(),
                        forall|i: int| 0 <= i < jobs@.len() ==> #[trigger] js[i] == jobs@[i]@,
                        regions_wf(out@),
                        region_views(out@) == start + experience_regions(js.take(k as int)),
                    decreases jobs@.len() - k,
                {
                    assert(js.take(k + 1).drop_last() =~= js.take(k as int));
                    push_job_regions(out, &jobs[k], k);
                    k += 1;
                }
                assert(js.take(k as int) =~= js);
            },
            None => {
                assert(region_views(out@) =~= start + experience_regions(
                    elements_of(field(content@, "experience"@)),
                ));
            },
        },
        None => {
            assert(region_views(out@) =~= start + experience_regions(
                elements_of(field(content@, "experience"@)),
            ));
        },
    }
}

fn push_skill_regions(out: &mut Vec<Region>, content: &Json)
    requires
        regions_wf(old(out)@),
    ensures
        regions_wf(final(out)@),
        region_views(final(out)@) == region_views(old(out)@) + skill_regions(
            members_of(field(content@, "skills"@)),
        ),
{
    let ghost start = region_views(out@);
    match content.get("skills") {
        Some(sv) => match sv.as_object() {
            Some(members) => {
                proof {
                    lemma_member_views(members@);
                }
                let ghost ms = member_views(members@);
                let mut i: usize = 0;
                while i < members.len()
                    invariant
                        i <= members@.len(),
                        ms == member_views(members@),
                        ms.len() == members@.len(),
                        forall|k: int|
                            0 <= k < members@.len() ==> #[trigger] ms[k] == (
                                members@[k].0@,
                                view_of(members@[k].1),
                            ),
                        regions_wf(out@),
                        region_views(out@) == start + skill_regions(ms.take(i as int)),
                    decreases members@.len() - i,
                {
                    assert(ms.take(i + 1).drop_last() =~= ms.take(i as int));
                    let mut path = String::new();
                    push_str(&mut path, "skills.");
                    push_str(&mut path, members[i].0.as_str());
                    push_string_region(out, path, Some(&members[i].1), true);
                    i += 1;
                }
                assert(ms.take(i as int) =~= ms);
            },
            None => {
                assert(region_views(out@) =~= start + skill_regions(
                    members_of(field(content@, "skills"@)),
                ));
            },
        },
        None => {
            assert(region_views(out@) =~= start + skill_regions(
                members_of(field(content@, "skills"@)),
            ));
        },
    }
}

fn push_locked_lines(out: &mut Vec<Region>, key: &str, value: &Json)
    requires
        regions_wf(old(out)@),
    ensures
        regions_wf(final(out)@),
        region_views(final(out)@) == region_views(old(out)@) + locked_lines(
            key@,
            elements_of(Some(value@)),
        ),
{
    let ghost start = region_views(out@);
    match value.as_array() {
        Some(lines) => {
            proof {
                lemma_views_of(lines@);
            }
            let ghost ls = views_of(lines@);
            let mut i: usize = 0;
            while i < lines.len()
                invariant
                    i <= lines@.len(),
                    ls == views_of(lines@),
                    ls.len() == lines@.len(),
                    forall|k: int| 0 <= k < lines@.len() ==> #[trigger] ls[k] == lines@[k]@,
                    regions_wf(out@),
                    region_views(out@) == start + locked_lines(key@, ls.take(i as int)),
                decreases lines@.len() - i,
            {
                assert(ls.take(i + 1).drop_last() =~= ls.take(i as int));
                let mut path = String::new();
                push_str(&mut path, key);
                push_str(&mut path, ".");
                push_decimal(&mut path, i as u64);
                push_string_region(out, path, Some(&lines[i]), false);
                i += 1;
            }
            assert(ls.take(i as int) =~= ls);
        },
        None => {
            assert(region_views(out@) =~= start + locked_lines(key@, elements_of(Some(value@))));
        },
    }
}

fn push_locked_regions(out: &mut Vec<Region>, locked: Option<&Json>)
    requires
        regions_wf(old(out)@),
    ensures
        regions_wf(final(out)@),
        region_views(final(out)@) == region_views(old(out)@) + locked_regions(
            members_of(
                match locked {
                    Some(j) => Some(j@),
                    None => None,
                },
            ),
        ),
{
    let ghost start = region_views(out@);
    let members_opt = match locked {
        Some(j) => j.as_object(),
        None => None,
    };
    match members_opt {
        Some(members) => {
            proof {
                lemma_member_views(members@);
            }
            let ghost ms = member_views(members@);
            let mut i: usize = 0;
            while i < members.len()
                invariant
                    i <= members@.len(),
                    ms == member_views(members@),
                    ms.len() == members@.len(),
                    forall|k: int|
                        0 <= k < members@.len() ==> #[trigger] ms[k] == (
                            members@[k].0@,
                            view_of(members@[k].1),
                        ),
                    regions_wf(out@),
                    region_views(out@) == start + locked_regions(ms.take(i as int)),
                decreases members@.len() - i,
            {
                assert(ms.take(i + 1).drop_last() =~= ms.take(i as int));
                push_locked_lines(out, members[i].0.as_str(), &members[i].1);
                i += 1;
            }
            assert(ms.take(i as int) =~= ms);
        },
        None => {
            assert(region_views(out@) =~= start + locked_regions(
                members_of(
                    match locked {
                        Some(j) => Some(j@),
                        None => None,
                    },
                ),
            ));
        },
    }
}

/// The regions of a tailored document and its locked sections, in reading order.
pub fn regions(content: &Json, locked: Option<&Json>) -> (r: Vec<Region>)
    ensures
        regions_wf(r@),
        region_views(r@) == regions_of(
            content@,
            match locked {
                Some(j) => Some(j@),
                None => None,
            },
        ),
{
    let mut out: Vec<Region> = Vec::new();
    push_string_region(&mut out, "summary".to_owned(), content.get("summary"), true);
    push_experience_regions(&mut out, content);
    push_skill_regions(&mut out, content);
    push_locked_regions(&mut out, locked);
    let ghost lv = match locked {
        Some(j) => Some(j@),
        None => None,
    };
    assert(region_views(out@) =~= regions_of(content@, lv));
    out
}

// ------------------------------------------------------------------------ forms

/// The non-blank entries of `vs`, in order.
pub open spec fn nonblank(vs: Seq<Seq<char>>) -> Seq<Seq<char>>
    decreases vs.len(),
{
    if vs.len() == 0 {
        seq![]
    } else if trimmed(vs.last()).len() > 0 {
        nonblank(vs.drop_last()).push(vs.last())
    } else {
        nonblank(vs.drop_last())
    }
}

/// The non-blank variants of every variant entry whose term is equivalent to `term`.
pub open spec fn variant_forms(tvs: Seq<TermVariants>, term: Seq<char>) -> Seq<Seq<char>>
    decreases tvs.len(),
{
    if tvs.len() == 0 {
        seq![]
    } else {
        variant_forms(tvs.drop_last(), term) + if equivalent_terms(tvs.last().term@, term) {
            nonblank(strs(tvs.last().variants@))
        } else {
            seq![]
        }
    }
}

/// Every written form that counts as `term`: the term itself, then the alternates the
/// analysis collected for it ("K8s" for "Kubernetes").
pub open spec fn matchable(a: JobAnalysis, term: Seq<char>) -> Seq<Seq<char>> {
    seq![term] + variant_forms(a.term_variants@, term)
}

fn push_nonblank(out: &mut Vec<String>, vs: &Vec<String>)
    ensures
        strs(final(out)@) == strs(old(out)@) + nonblank(strs(vs@)),
{
    let ghost start = strs(out@);
    let ghost sv = strs(vs@);
    let mut i: usize = 0;
    while i < vs.len()
        invariant
            i <= vs@.len(),
            sv == strs(vs@),
            strs(out@) == start + nonblank(sv.take(i as int)),
        decreases vs@.len() - i,
    {
        assert(sv.take(i + 1).drop_last() =~= sv.take(i as int));
        assert(sv.take(i + 1).last() == vs@[i as int]@);
        if trim_str(vs[i].as_str()).len() > 0 {
            let ghost before = out@;
            out.push(vs[i].clone());
            assert(strs(out@) =~= strs(before).push(vs@[i as int]@));
        }
        i += 1;
    }
    assert(sv.take(i as int) =~= sv);
}

pub fn matchable_forms(analysis: &JobAnalysis, term: &str) -> (r: Vec<String>)
    ensures
        strs(r@) == matchable(*analysis, term@),
{
    let mut forms: Vec<String> = Vec::new();
    forms.push(term.to_owned());
    let ghost tvs = analysis.term_variants@;
    assert(strs(forms@) =~= seq![term@] + variant_forms(tvs.take(0), term@));
    let mut i: usize = 0;
    while i < analysis.term_variants.len()
        invariant
            i <= tvs.len(),
            tvs == analysis.term_variants@,
            strs(forms@) == seq![term@] + variant_forms(tvs.take(i as int), term@),
        decreases tvs.len() - i,
    {
        assert(tvs.take(i + 1).drop_last() =~= tvs.take(i as int));
        let entry = &analysis.term_variants[i];
        let ghost before = strs(forms@);
        if equivalent(entry.term.as_str(), term) {
            push_nonblank(&mut forms, &entry.variants);
        }
        assert(strs(forms@) =~= seq![term@] + variant_forms(tvs.take(i + 1), term@));
        i += 1;
    }
    assert(tvs.take(i as int) =~= tvs);
    forms
}

/// The token sets of the forms, empty ones dropped.
pub open spec fn form_sets(forms: Seq<Seq<char>>) -> Seq<Set<Seq<char>>>
    decreases forms.len(),
{
    if forms.len() == 0 {
        seq![]
    } else if token_set_of(forms.last()).len() > 0 {
        form_sets(forms.drop_last()).push(token_set_of(forms.last()))
    } else {
        form_sets(forms.drop_last())
    }
}

pub open spec fn fsets(v: Seq<Vec<Vec<char>>>) -> Seq<Set<Seq<char>>> {
    v.map_values(|f: Vec<Vec<char>>| tset(f@))
}

pub open spec fn forms_wf(v: Seq<Vec<Vec<char>>>) -> bool {
    forall|i: int| 0 <= i < v.len() ==> distinct(#[trigger] v[i]@)
}

fn form_token_sets(forms: &Vec<String>) -> (r: Vec<Vec<Vec<char>>>)
    ensures
        forms_wf(r@),
        fsets(r@) == form_sets(strs(forms@)),
{
    let ghost fs = strs(forms@);
    let mut out: Vec<Vec<Vec<char>>> = Vec::new();
    let mut i: usize = 0;
    while i < forms.len()
        invariant
            i <= forms@.len(),
            fs == strs(forms@),
            forms_wf(out@),
            fsets(out@) == form_sets(fs.take(i as int)),
        decreases forms@.len() - i,
    {
        assert(fs.take(i + 1).drop_last() =~= fs.take(i as int));
        assert(fs.take(i + 1).last() == forms@[i as int]@);
        let t = token_set(forms[i].as_str());
        proof {
            lemma_tset_len(t@);
        }
        if t.len() > 0 {
            let ghost before = out@;
            out.push(t);
            assert(fsets(out@) =~= fsets(before).push(token_set_of(forms@[i as int]@)));
        }
        i += 1;
    }
    assert(fs.take(i as int) =~= fs);
    out
}

// ------------------------------------------------------------------------ ratios

/// How much of form `f` the pool carries: (tokens found, tokens in the form).
pub open spec fn ratio_of(f: Set<Seq<char>>, avail: Set<Seq<char>>) -> (nat, nat) {
    (f.intersect(avail).len(), f.len())
}

/// `a` is a strictly larger fraction than `b` (denominators positive).
pub open spec fn ratio_gt(a: (nat, nat), b: (nat, nat)) -> bool {
    a.0 * b.1 > b.0 * a.1
}

/// The best ratio any form reaches; 0/1 when there is no form.
pub open spec fn best_ratio_of(fs: Seq<Set<Seq<char>>>, avail: Set<Seq<char>>) -> (nat, nat)
    decreases fs.len(),
{
    if fs.len() == 0 {
        (0, 1)
    } else {
        let p = best_ratio_of(fs.drop_last(), avail);
        let r = ratio_of(fs.last(), avail);
        if ratio_gt(r, p) {
            r
        } else {
            p
        }
    }
}

/// A fraction with a positive denominator and a numerator no larger than it.
pub open spec fn proper(r: (nat, nat)) -> bool {
    0 < r.1 && r.0 <= r.1
}

pub open spec fn sets_nonempty_finite(fs: Seq<Set<Seq<char>>>) -> bool {
    forall|i: int| 0 <= i < fs.len() ==> (#[trigger] fs[i]).finite() && fs[i].len() > 0
}

pub proof fn lemma_best_ratio_proper(fs: Seq<Set<Seq<char>>>, avail: Set<Seq<char>>)
    requires
        sets_nonempty_finite(fs),
    ensures
        proper(best_ratio_of(fs, avail)),
    decreases fs.len(),
{
    if fs.len() > 0 {
        lemma_best_ratio_proper(fs.drop_last(), avail);
        vstd::set_lib::lemma_len_intersect(fs.last(), avail);
    }
}

proof fn lemma_product_fits(x: nat, y: nat)
    requires
        x <= 0xffff_ffff_ffff_ffff,
        y <= 0xffff_ffff_ffff_ffff,
    ensures
        x * y <= 0xffff_ffff_ffff_fffe_0000_0000_0000_0001,
{
    assert(x * y <= 0xffff_ffff_ffff_ffff * 0xffff_ffff_ffff_ffff) by (nonlinear_arith)
        requires
            x <= 0xffff_ffff_ffff_ffff,
            y <= 0xffff_ffff_ffff_ffff,
    ;
}

fn ratio_exceeds(a: (usize, usize), b: (usize, usize)) -> (r: bool)
    ensures
        r == ratio_gt((a.0 as nat, a.1 as nat), (b.0 as nat, b.1 as nat)),
{
    proof {
        lemma_product_fits(a.0 as nat, b.1 as nat);
        lemma_product_fits(b.0 as nat, a.1 as nat);
    }
    let lhs: u128 = (a.0 as u128) * (b.1 as u128);
    let rhs: u128 = (b.0 as u128) * (a.1 as u128);
    lhs > rhs
}

fn best_ratio(forms: &Vec<Vec<Vec<char>>>, avail: &Vec<Vec<char>>) -> (r: (usize, usize))
    requires
        forms_wf(forms@),
    ensures
        (r.0 as nat, r.1 as nat) == best_ratio_of(fsets(forms@), tset(avail@)),
{
    let ghost fs = fsets(forms@);
    let mut best: (usize, usize) = (0, 1);
    let mut i: usize = 0;
    while i < forms.len()
        invariant
            i <= forms@.len(),
            fs == fsets(forms@),
            forms_wf(forms@),
            (best.0 as nat, best.1 as nat) == best_ratio_of(fs.take(i as int), tset(avail@)),
        decreases forms@.len() - i,
    {
        assert(fs.take(i + 1).drop_last() =~= fs.take(i as int));
        assert(fs.take(i + 1).last() == tset(forms@[i as int]@));
        let f = &forms[i];
        proof {
            lemma_tset_len(f@);
        }
        let found = count_common(f, avail);
        let r = (found, f.len());
        if ratio_exceeds(r, best) {
            best = r;
        }
        i += 1;
    }
    assert(fs.take(i as int) =~= fs);
    best
}

/// Weight earned at ratio `r`: `w * r` rounded to the nearest whole unit, halves up.
pub open spec fn earned(w: nat, r: (nat, nat)) -> nat {
    if r.1 == 0 {
        0
    } else {
        (2 * w * r.0 + r.1) / (2 * r.1)
    }
}

pub proof fn lemma_earned_bound(w: nat, r: (nat, nat))
    requires
        proper(r),
    ensures
        earned(w, r) <= w,
{
    assert((2 * w * r.0 + r.1) / (2 * r.1) <= w) by (nonlinear_arith)
        requires
            0 < r.1,
            r.0 <= r.1,
    {
        assert(2 * w * r.0 <= 2 * w * r.1);
        assert(2 * w * r.0 + r.1 < (w + 1) * (2 * r.1));
    }
}

pub(crate) fn weighted(weight: u8, r: (usize, usize)) -> (e: u32)
    requires
        proper((r.0 as nat, r.1 as nat)),
    ensures
        e == earned(weight as nat, (r.0 as nat, r.1 as nat)),
        e <= weight,
{
    proof {
        lemma_earned_bound(weight as nat, (r.0 as nat, r.1 as nat));
        lemma_product_fits(2 * weight as nat, r.0 as nat);
    }
    let num: u128 = 2 * (weight as u128) * (r.0 as u128) + (r.1 as u128);
    let den: u128 = 2 * (r.1 as u128);
    (num / den) as u32
}

// ---------------------------------------------------------------- token pools

/// The union of the token sets of the regions (of the editable ones only, if asked).
pub open spec fn pool(rs: Seq<RegionView>, editable_only: bool) -> Set<Seq<char>>
    decreases rs.len(),
{
    if rs.len() == 0 {
        Set::empty()
    } else if !editable_only || rs.last().editable {
        pool(rs.drop_last(), editable_only).union(rs.last().tokens)
    } else {
        pool(rs.drop_last(), editable_only)
    }
}

fn token_pool(regions: &Vec<Region>, editable_only: bool) -> (r: Vec<Vec<char>>)
    requires
        regions_wf(regions@),
    ensures
        distinct(r@),
        tset(r@) == pool(region_views(regions@), editable_only),
{
    let ghost rv = region_views(regions@);
    let mut acc: Vec<Vec<char>> = Vec::new();
    assert(tset(acc@) =~= Set::<Seq<char>>::empty());
    let mut i: usize = 0;
    while i < regions.len()
        invariant
            i <= regions@.len(),
            rv == region_views(regions@),
            regions_wf(regions@),
            distinct(acc@),
            tset(acc@) == pool(rv.take(i as int), editable_only),
        decreases regions@.len() - i,
    {
        assert(rv.take(i + 1).drop_last() =~= rv.take(i as int));
        let region = &regions[i];
        if !editable_only || region.editable {
            let ghost base = tset(acc@);
            let mut j: usize = 0;
            while j < region.tokens.len()
                invariant
                    j <= region.tokens@.len(),
                    distinct(acc@),
                    tset(acc@) == base.union(tv(region.tokens@).take(j as int).to_set()),
                decreases region.tokens@.len() - j,
            {
                let ghost before = tset(acc@);
                insert_token(&mut acc, region.tokens[j].clone());
                assert(tv(region.tokens@).take(j + 1) =~= tv(region.tokens@).take(j as int).push(
                    region.tokens@[j as int]@,
                ));
                assert(tset(acc@) =~= base.union(tv(region.tokens@).take(j + 1).to_set()));
                j += 1;
            }
            assert(tv(region.tokens@).take(j as int) =~= tv(region.tokens@));
            assert(tset(acc@) =~= pool(rv.take(i + 1), editable_only));
        } else {
            assert(tset(acc@) =~= pool(rv.take(i + 1), editable_only));
        }
        i += 1;
    }
    assert(rv.take(i as int) =~= rv);
    acc
}

// ------------------------------------------------------------------------ terms

/// Why a ledger term did not reach the document.
#[derive(Clone, Copy, Debug, PartialEq, Eq, Structural)]
pub enum MissReason {
    /// Nothing in the base resume or the evidence bank supports the claim.
    NoEvidence,
    /// The preflight found the claim already supported and it still was not placed.
    EvidenceNotPlaced,
}

/// How one ledger term fared against the document.
#[derive(Clone, Debug)]
pub struct TermCoverage {
    pub term: String,
    pub kind: String,
    pub group: String,
    pub weight: u8,
    pub covered: bool,
    /// Tokens of the best form found in the document.
    pub coverage_matched: usize,
    /// Tokens in that form; the coverage ratio is `coverage_matched / coverage_size`.
    pub coverage_size: usize,
    /// The region carrying the most of the term, e.g. `experience.2.bullets.0`.
    pub matched_in: Option<String>,
    /// False when the term is only carried by locked text: a company name, a title, a date.
    pub in_editable_surface: bool,
    pub miss_reason: Option<MissReason>,
}

pub struct TermView {
    pub term: Seq<char>,
    pub kind: Seq<char>,
    pub group: Seq<char>,
    pub weight: u8,
    pub covered: bool,
    pub ratio: (nat, nat),
    pub matched_in: Option<Seq<char>>,
    pub in_editable_surface: bool,
    pub miss_reason: Option<MissReason>,
}

pub open spec fn opt_string_view(o: Option<String>) -> Option<Seq<char>> {
    match o {
        Some(s) => Some(s@),
        None => None,
    }
}

impl View for TermCoverage {
    type V = TermView;

    open spec fn view(&self) -> TermView {
        TermView {
            term: self.term@,
            kind: self.kind@,
            group: self.group@,
            weight: self.weight,
            covered: self.covered,
            ratio: (self.coverage_matched as nat, self.coverage_size as nat),
            matched_in: opt_string_view(self.matched_in),
            in_editable_surface: self.in_editable_surface,
            miss_reason: self.miss_reason,
        }
    }
}

pub open spec fn term_views(v: Seq<TermCoverage>) -> Seq<TermView> {
    v.map_values(|t: TermCoverage| t@)
}

/// The weight a ledger term carries: its importance, at least one.
pub open spec fn weight_of(c: CandView) -> u8 {
    if c.importance < 1 {
        1
    } else {
        c.importance
    }
}

/// The region carrying the most of the forms, with a later region winning a tie and an
/// editable one beating a locked one at the same ratio; regions carrying nothing are skipped.
pub open spec fn best_region_of(rs: Seq<RegionView>, fs: Seq<Set<Seq<char>>>) -> Option<
    ((nat, nat), bool, Seq<char>),
>
    decreases rs.len(),
{
    if rs.len() == 0 {
        None
    } else {
        let p = best_region_of(rs.drop_last(), fs);
        let r = best_ratio_of(fs, rs.last().tokens);
        let e = rs.last().editable;
        if r.0 == 0 {
            p
        } else {
            match p {
                None => Some((r, e, rs.last().path)),
                Some(b) => if ratio_gt(b.0, r) || (!ratio_gt(r, b.0) && b.1 && !e) {
                    p
                } else {
                    Some((r, e, rs.last().path))
                },
            }
        }
    }
}

/// A preflight item that judged `term` claimable without further attestation.
pub open spec fn available_for(term: Seq<char>) -> spec_fn(ItemView) -> bool {
    |i: ItemView| i.resolution == "auto_available"@ && equivalent_terms(i.term, term)
}

pub open spec fn evidence_available(items: Seq<ItemView>, term: Seq<char>) -> bool {
    first_where(items, available_for(term)) < items.len()
}

pub fn evidence_is_available(preflight: &[PreflightItem], term: &str) -> (r: bool)
    ensures
        r == evidence_available(item_views(preflight@), term@),
{
    let ghost its = item_views(preflight@);
    let ghost p = available_for(term@);
    let mut j: usize = 0;
    while j < preflight.len()
        invariant
            j <= preflight@.len(),
            its == item_views(preflight@),
            p == available_for(term@),
            forall|k: int| 0 <= k < j ==> !p(#[trigger] its[k]),
        decreases preflight@.len() - j,
    {
        let item = &preflight[j];
        if str_eq(item.resolution, "auto_available") && equivalent(item.term.as_str(), term) {
            proof {
                lemma_first_where_at(its, p, j as int);
            }
            return true;
        }
        j += 1;
    }
    proof {
        lemma_first_where_at(its, p, j as int);
    }
    false
}

pub open spec fn term_forms(a: JobAnalysis, term: Seq<char>) -> Seq<Set<Seq<char>>> {
    form_sets(matchable(a, term))
}

/// The coverage of one ledger term. The document is read as one text: a term is covered when
/// some form has every token somewhere in it.
pub open spec fn term_coverage_of(
    c: CandView,
    a: JobAnalysis,
    rs: Seq<RegionView>,
    items: Seq<ItemView>,
) -> TermView {
    let fs = term_forms(a, c.term);
    let doc = best_ratio_of(fs, pool(rs, false));
    let ed = best_ratio_of(fs, pool(rs, true));
    let covered = doc.0 >= doc.1;
    TermView {
        term: c.term,
        kind: c.kind,
        group: c.group,
        weight: weight_of(c),
        covered,
        ratio: doc,
        matched_in: if doc.0 > 0 {
            match best_region_of(rs, fs) {
                Some(b) => Some(b.2),
                None => None,
            }
        } else {
            None
        },
        in_editable_surface: ed.0 >= ed.1,
        miss_reason: if covered {
            None
        } else if evidence_available(items, c.term) {
            Some(MissReason::EvidenceNotPlaced)
        } else {
            Some(MissReason::NoEvidence)
        },
    }
}

/// Weight earned from text tailoring may rewrite.
pub open spec fn editable_earned(c: CandView, a: JobAnalysis, rs: Seq<RegionView>) -> nat {
    earned(weight_of(c) as nat, best_ratio_of(term_forms(a, c.term), pool(rs, true)))
}

pub proof fn lemma_form_sets_nonempty(forms: Seq<Seq<char>>)
    ensures
        sets_nonempty_finite(form_sets(forms)),
    decreases forms.len(),
{
    if forms.len() > 0 {
        lemma_form_sets_nonempty(forms.drop_last());
        crate::evidence::lemma_token_set_finite(forms.last());
    }
}

fn best_region(
    regions: &Vec<Region>,
    forms: &Vec<Vec<Vec<char>>>,
) -> (r: Option<usize>)
    requires
        forms_wf(forms@),
        regions_wf(regions@),
        sets_nonempty_finite(fsets(forms@)),
    ensures
        match (r, best_region_of(region_views(regions@), fsets(forms@))) {
            (None, None) => true,
            (Some(k), Some(b)) => k < regions@.len() && regions@[k as int].path@ == b.2,
            _ => false,
        },
{
    let ghost rv = region_views(regions@);
    let ghost fs = fsets(forms@);
    let mut best: Option<(usize, usize, bool, usize)> = None;
    let mut i: usize = 0;
    while i < regions.len()
        invariant
            i <= regions@.len(),
            rv == region_views(regions@),
            fs == fsets(forms@),
            forms_wf(forms@),
            sets_nonempty_finite(fs),
            match (best, best_region_of(rv.take(i as int), fs)) {
                (None, None) => true,
                (Some(b), Some(s)) => b.3 < i && (b.0 as nat, b.1 as nat) == s.0 && b.2 == s.1
                    && regions@[b.3 as int].path@ == s.2,
                _ => false,
            },
        decreases regions@.len() - i,
    {
        assert(rv.take(i + 1).drop_last() =~= rv.take(i as int));
        assert(rv.take(i + 1).last() == regions@[i as int]@);
        let region = &regions[i];
        let r = best_ratio(forms, &region.tokens);
        if r.0 > 0 {
            let e = region.editable;
            let keep = match best {
                None => false,
                Some(b) => ratio_exceeds((b.0, b.1), r) || (!ratio_exceeds(r, (b.0, b.1)) && b.2
                    && !e),
            };
            if !keep {
                best = Some((r.0, r.1, e, i));
            }
        }
        i += 1;
    }
    assert(rv.take(i as int) =~= rv);
    match best {
        Some(b) => Some(b.3),
        None => None,
    }
}

fn cover_term(
    c: &Candidate,
    analysis: &JobAnalysis,
    regions: &Vec<Region>,
    doc_pool: &Vec<Vec<char>>,
    edit_pool: &Vec<Vec<char>>,
    preflight: &[PreflightItem],
) -> (r: (TermCoverage, u32))
    requires
        regions_wf(regions@),
        tset(doc_pool@) == pool(region_views(regions@), false),
        tset(edit_pool@) == pool(region_views(regions@), true),
    ensures
        r.0@ == term_coverage_of(c@, *analysis, region_views(regions@), item_views(preflight@)),
        r.1 == editable_earned(c@, *analysis, region_views(regions@)),
        r.1 <= weight_of(c@),
        r.0.weight == weight_of(c@),
        proper(r.0@.ratio),
{
    let forms_text = matchable_forms(analysis, c.term.as_str());
    let forms = form_token_sets(&forms_text);
    proof {
        lemma_form_sets_nonempty(strs(forms_text@));
        lemma_best_ratio_proper(fsets(forms@), pool(region_views(regions@), false));
        lemma_best_ratio_proper(fsets(forms@), pool(region_views(regions@), true));
    }
    let doc = best_ratio(&forms, doc_pool);
    let ed = best_ratio(&forms, edit_pool);
    let weight: u8 = if c.importance < 1 {
        1
    } else {
        c.importance
    };
    let covered = doc.0 >= doc.1;
    let matched_in = if doc.0 > 0 {
        match best_region(regions, &forms) {
            Some(k) => Some(regions[k].path.clone()),
            None => None,
        }
    } else {
        None
    };
    let miss_reason = if covered {
        None
    } else if evidence_is_available(preflight, c.term.as_str()) {
        Some(MissReason::EvidenceNotPlaced)
    } else {
        Some(MissReason::NoEvidence)
    };
    let editable = weighted(weight, ed);
    (
        TermCoverage {
            term: c.term.clone(),
            kind: c.kind.clone(),
            group: c.group.to_owned(),
            weight,
            covered,
            coverage_matched: doc.0,
            coverage_size: doc.1,
            matched_in,
            in_editable_surface: ed.0 >= ed.1,
            miss_reason,
        },
        editable,
    )
}

// ---------------------------------------------------------------------- ordering

/// Misses first, heavier first, less covered first, then by term.
pub open spec fn term_before(x: TermView, y: TermView) -> bool {
    (!x.covered && y.covered) || (x.covered == y.covered && (x.weight > y.weight || (x.weight
        == y.weight && (ratio_gt(y.ratio, x.ratio) || (!ratio_gt(x.ratio, y.ratio) && lex_less(
        x.term,
        y.term,
    ))))))
}

pub open spec fn term_order() -> spec_fn(TermView, TermView) -> bool {
    |x: TermView, y: TermView| term_before(x, y)
}

fn term_precedes(x: &TermCoverage, y: &TermCoverage) -> (r: bool)
    ensures
        r == term_before(x@, y@),
{
    if x.covered != y.covered {
        return !x.covered;
    }
    if x.weight != y.weight {
        return x.weight > y.weight;
    }
    let xr = (x.coverage_matched, x.coverage_size);
    let yr = (y.coverage_matched, y.coverage_size);
    if ratio_exceeds(yr, xr) {
        return true;
    }
    if ratio_exceeds(xr, yr) {
        return false;
    }
    lex_less_exec(&chars_of(x.term.as_str()), &chars_of(y.term.as_str()))
}

fn term_insertion_point(out: &Vec<TermCoverage>, t: &TermCoverage) -> (r: usize)
    ensures
        r == first_where(term_views(out@), precedes(t@, term_order())),
{
    let ghost vs = term_views(out@);
    let ghost p = precedes(t@, term_order());
    let mut k: usize = 0;
    while k < out.len()
        invariant
            k <= out@.len(),
            vs == term_views(out@),
            p == precedes(t@, term_order()),
            forall|j: int| 0 <= j < k ==> !p(#[trigger] vs[j]),
        decreases out@.len() - k,
    {
        if term_precedes(t, &out[k]) {
            proof {
                lemma_first_where_at(vs, p, k as int);
            }
            return k;
        }
        k += 1;
    }
    proof {
        lemma_first_where_at(vs, p, k as int);
    }
    k
}

fn insert_term(out: &mut Vec<TermCoverage>, t: TermCoverage)
    ensures
        term_views(final(out)@) == term_views(old(out)@).insert(
            first_where(term_views(old(out)@), precedes(t@, term_order())),
            t@,
        ),
{
    let ghost vs = term_views(out@);
    let k = term_insertion_point(out, &t);
    proof {
        lemma_first_where(vs, precedes(t@, term_order()));
    }
    let ghost x = t@;
    out.insert(k, t);
    assert(term_views(out@) =~= vs.insert(k as int, x));
}

// ------------------------------------------------------------------- categories

/// The order categories are reported in.
pub const CATEGORY_ORDER: [&'static str; 6] = [
    "required",
    "core",
    "tools",
    "responsibilities",
    "preferred",
    "domain",
];

pub open spec fn category_names() -> Seq<Seq<char>> {
    CATEGORY_ORDER@.map_values(|g: &'static str| g@)
}

/// The coverage of one requirement group.
#[derive(Clone, Debug, PartialEq, Eq)]
pub struct CategoryCoverage {
    pub group: String,
    /// Terms the document carries in full.
    pub covered: u32,
    /// Terms the document carries in part.
    pub partial: u32,
    pub total: u32,
    pub covered_weight: u32,
    pub total_weight: u32,
}

pub struct CategoryView {
    pub group: Seq<char>,
    pub covered: nat,
    pub partial: nat,
    pub total: nat,
    pub covered_weight: nat,
    pub total_weight: nat,
}

impl View for CategoryCoverage {
    type V = CategoryView;

    open spec fn view(&self) -> CategoryView {
        CategoryView {
            group: self.group@,
            covered: self.covered as nat,
            partial: self.partial as nat,
            total: self.total as nat,
            covered_weight: self.covered_weight as nat,
            total_weight: self.total_weight as nat,
        }
    }
}

pub open spec fn category_views(v: Seq<CategoryCoverage>) -> Seq<CategoryView> {
    v.map_values(|c: CategoryCoverage| c@)
}

/// (covered, partial, total, weight earned, weight) over the terms of group `g`.
pub open spec fn tally(ts: Seq<TermView>, g: Seq<char>) -> (nat, nat, nat, nat, nat)
    decreases ts.len(),
{
    if ts.len() == 0 {
        (0, 0, 0, 0, 0)
    } else {
        let p = tally(ts.drop_last(), g);
        let t = ts.last();
        if t.group == g {
            (
                p.0 + if t.covered {
                    1nat
                } else {
                    0nat
                },
                p.1 + if !t.covered && t.ratio.0 > 0 {
                    1nat
                } else {
                    0nat
                },
                p.2 + 1,
                p.3 + earned(t.weight as nat, t.ratio),
                p.4 + t.weight as nat,
            )
        } else {
            p
        }
    }
}

/// One entry per group of `gs` that has terms, in the order of `gs`.
pub open spec fn categories_of(ts: Seq<TermView>, gs: Seq<Seq<char>>) -> Seq<CategoryView>
    decreases gs.len(),
{
    if gs.len() == 0 {
        seq![]
    } else {
        let p = categories_of(ts, gs.drop_last());
        let t = tally(ts, gs.last());
        if t.2 > 0 {
            p.push(
                CategoryView {
                    group: gs.last(),
                    covered: t.0,
                    partial: t.1,
                    total: t.2,
                    covered_weight: t.3,
                    total_weight: t.4,
                },
            )
        } else {
            p
        }
    }
}

pub open spec fn terms_wf(ts: Seq<TermView>) -> bool {
    forall|i: int| 0 <= i < ts.len() ==> proper((#[trigger] ts[i]).ratio)
}

pub proof fn lemma_tally_bound(ts: Seq<TermView>, g: Seq<char>)
    requires
        terms_wf(ts),
    ensures
        tally(ts, g).0 <= ts.len(),
        tally(ts, g).1 <= ts.len(),
        tally(ts, g).2 <= ts.len(),
        tally(ts, g).3 <= 255 * ts.len(),
        tally(ts, g).4 <= 255 * ts.len(),
    decreases ts.len(),
{
    if ts.len() > 0 {
        lemma_tally_bound(ts.drop_last(), g);
        lemma_earned_bound(ts.last().weight as nat, ts.last().ratio);
    }
}

fn tally_group(terms: &Vec<TermCoverage>, g: &str) -> (r: (u32, u32, u32, u32, u32))
    requires
        terms_wf(term_views(terms@)),
        terms@.len() <= 16_000_000,
    ensures
        (r.0 as nat, r.1 as nat, r.2 as nat, r.3 as nat, r.4 as nat) == tally(
            term_views(terms@),
            g@,
        ),
{
    let ghost ts = term_views(terms@);
    let mut acc: (u32, u32, u32, u32, u32) = (0, 0, 0, 0, 0);
    let mut i: usize = 0;
    while i < terms.len()
        invariant
            i <= terms@.len(),
            terms@.len() <= 16_000_000,
            ts == term_views(terms@),
            terms_wf(ts),
            (acc.0 as nat, acc.1 as nat, acc.2 as nat, acc.3 as nat, acc.4 as nat) == tally(
                ts.take(i as int),
                g@,
            ),
        decreases terms@.len() - i,
    {
        assert(ts.take(i + 1).drop_last() =~= ts.take(i as int));
        assert(ts.take(i + 1).last() == terms@[i as int]@);
        assert(terms_wf(ts.take(i + 1)));
        proof {
            lemma_tally_bound(ts.take(i + 1), g@);
        }
        let t = &terms[i];
        if str_eq(t.group.as_str(), g) {
            assert(proper(ts[i as int].ratio));
            let e = weighted(t.weight, (t.coverage_matched, t.coverage_size));
            acc = (
                acc.0 + if t.covered {
                    1
                } else {
                    0
                },
                acc.1 + if !t.covered && t.coverage_matched > 0 {
                    1
                } else {
                    0
                },
                acc.2 + 1,
                acc.3 + e,
                acc.4 + t.weight as u32,
            );
        }
        i += 1;
    }
    assert(ts.take(i as int) =~= ts);
    acc
}

pub(crate) fn categories(terms: &Vec<TermCoverage>) -> (r: Vec<CategoryCoverage>)
    requires
        terms_wf(term_views(terms@)),
        terms@.len() <= 16_000_000,
    ensures
        category_views(r@) == categories_of(term_views(terms@), category_names()),
{
    let ghost gs = category_names();
    let mut out: Vec<CategoryCoverage> = Vec::new();
    let mut i: usize = 0;
    while i < CATEGORY_ORDER.len()
        invariant
            i <= 6,
            gs == category_names(),
            gs.len() == 6,
            terms_wf(term_views(terms@)),
            terms@.len() <= 16_000_000,
            category_views(out@) == categories_of(term_views(terms@), gs.take(i as int)),
        decreases 6 - i,
    {
        assert(gs.take(i + 1).drop_last() =~= gs.take(i as int));
        assert(gs.take(i + 1).last() == CATEGORY_ORDER@[i as int]@);
        let g = CATEGORY_ORDER[i];
        let t = tally_group(terms, g);
        if t.2 > 0 {
            let ghost before = out@;
            out.push(
                CategoryCoverage {
                    group: g.to_owned(),
                    covered: t.0,
                    partial: t.1,
                    total: t.2,
                    covered_weight: t.3,
                    total_weight: t.4,
                },
            );
            assert(category_views(out@) =~= categories_of(term_views(terms@), gs.take(i + 1)));
        }
        i += 1;
    }
    assert(gs.take(6) =~= gs);
    out
}

// ------------------------------------------------------------------------- score

/// `covered` out of `total` as a whole percentage, rounded half up and capped at 100. An
/// empty ledger scores 0: there is nothing to cover, and a perfect score for it would mislead.
pub open spec fn percent(covered: nat, total: nat) -> nat {
    if total == 0 {
        0
    } else if (covered * 100 + total / 2) / total > 100 {
        100
    } else {
        (covered * 100 + total / 2) / total
    }
}

pub fn percentage(covered: u32, total: u32) -> (r: u8)
    ensures
        r == percent(covered as nat, total as nat),
{
    if total == 0 {
        return 0;
    }
    let score: u64 = ((covered as u64) * 100 + (total as u64) / 2) / (total as u64);
    if score > 100 {
        100
    } else {
        score as u8
    }
}

// ---------------------------------------------------------------------- scoring

/// How a produced document covers what the job post asked for.
#[derive(Clone, Debug)]
pub struct AtsCoverage {
    /// 0..=100, weighted by how strongly the post asked for each term.
    pub score: u8,
    /// Weight earned, counting partial matches proportionally.
    pub covered_weight: u32,
    pub total_weight: u32,
    /// Weight earned from text tailoring may rewrite: the part of the score tailoring moves.
    pub editable_covered_weight: u32,
    pub categories: Vec<CategoryCoverage>,
    pub terms: Vec<TermCoverage>,
}

pub struct AtsView {
    pub score: u8,
    pub covered_weight: nat,
    pub total_weight: nat,
    pub editable_covered_weight: nat,
    pub categories: Seq<CategoryView>,
    pub terms: Seq<TermView>,
}

impl View for AtsCoverage {
    type V = AtsView;

    open spec fn view(&self) -> AtsView {
        AtsView {
            score: self.score,
            covered_weight: self.covered_weight as nat,
            total_weight: self.total_weight as nat,
            editable_covered_weight: self.editable_covered_weight as nat,
            categories: category_views(self.categories@),
            terms: term_views(self.terms@),
        }
    }
}

/// The coverage of every ledger term, in ledger order.
pub open spec fn ledger_terms(
    cs: Seq<CandView>,
    a: JobAnalysis,
    rs: Seq<RegionView>,
    items: Seq<ItemView>,
) -> Seq<TermView> {
    cs.map_values(|c: CandView| term_coverage_of(c, a, rs, items))
}

pub open spec fn total_weight_of(cs: Seq<CandView>) -> nat
    decreases cs.len(),
{
    if cs.len() == 0 {
        0
    } else {
        total_weight_of(cs.drop_last()) + weight_of(cs.last()) as nat
    }
}

pub open spec fn earned_weight_of(ts: Seq<TermView>) -> nat
    decreases ts.len(),
{
    if ts.len() == 0 {
        0
    } else {
        earned_weight_of(ts.drop_last()) + earned(ts.last().weight as nat, ts.last().ratio)
    }
}

pub open spec fn editable_weight_of(cs: Seq<CandView>, a: JobAnalysis, rs: Seq<RegionView>) -> nat
    decreases cs.len(),
{
    if cs.len() == 0 {
        0
    } else {
        editable_weight_of(cs.drop_last(), a, rs) + editable_earned(cs.last(), a, rs)
    }
}

/// The coverage report for an analysis, a tailored document, its locked sections and the
/// preflight that came before it.
pub open spec fn coverage_of(
    a: JobAnalysis,
    content: JsonView,
    locked: Option<JsonView>,
    items: Seq<ItemView>,
) -> AtsView {
    let rs = regions_of(content, locked);
    let cs = ledger(a);
    let ts = ledger_terms(cs, a, rs, items);
    let sorted = insertion_sorted(ts, term_order());
    AtsView {
        score: percent(earned_weight_of(ts), total_weight_of(cs)) as u8,
        covered_weight: earned_weight_of(ts),
        total_weight: total_weight_of(cs),
        editable_covered_weight: editable_weight_of(cs, a, rs),
        categories: categories_of(sorted, category_names()),
        terms: sorted,
    }
}

proof fn lemma_weights_bounded(cs: Seq<CandView>, a: JobAnalysis, rs: Seq<RegionView>, items: Seq<ItemView>)
    ensures
        earned_weight_of(ledger_terms(cs, a, rs, items)) <= total_weight_of(cs),
        editable_weight_of(cs, a, rs) <= total_weight_of(cs),
    decreases cs.len(),
{
    if cs.len() > 0 {
        let c = cs.last();
        lemma_weights_bounded(cs.drop_last(), a, rs, items);
        assert(ledger_terms(cs, a, rs, items).drop_last() =~= ledger_terms(cs.drop_last(), a, rs, items));
        assert(ledger_terms(cs, a, rs, items).last() == term_coverage_of(c, a, rs, items));
        lemma_form_sets_nonempty(matchable(a, c.term));
        lemma_best_ratio_proper(term_forms(a, c.term), pool(rs, false));
        lemma_best_ratio_proper(term_forms(a, c.term), pool(rs, true));
        lemma_earned_bound(weight_of(c) as nat, best_ratio_of(term_forms(a, c.term), pool(rs, false)));
        lemma_earned_bound(weight_of(c) as nat, best_ratio_of(term_forms(a, c.term), pool(rs, true)));
    }
}

/// A coverage report never claims more than the post asked for: the score is at most 100,
/// and the covered weight and the editable covered weight are each at most the total weight.
pub proof fn lemma_coverage_bounds(
    a: JobAnalysis,
    content: JsonView,
    locked: Option<JsonView>,
    items: Seq<ItemView>,
)
    ensures
        coverage_of(a, content, locked, items).score <= 100,
        coverage_of(a, content, locked, items).covered_weight <= coverage_of(
            a,
            content,
            locked,
            items,
        ).total_weight,
        coverage_of(a, content, locked, items).editable_covered_weight <= coverage_of(
            a,
            content,
            locked,
            items,
        ).total_weight,
{
    let rs = regions_of(content, locked);
    lemma_weights_bounded(ledger(a), a, rs, items);
    let p = percent(earned_weight_of(ledger_terms(ledger(a), a, rs, items)), total_weight_of(ledger(a)));
    assert(p <= 100);
    assert(p as u8 == p);
}

/// How many terms the analysis lists, before duplicates are folded together.
pub open spec fn listed_terms(a: JobAnalysis) -> nat {
    a.core_keywords@.len() + a.required_skills@.len() + a.preferred_skills@.len()
        + a.tools_and_platforms@.len() + a.domain_terms@.len() + a.responsibility_phrases@.len()
}

proof fn lemma_ratio_gt_chain(a: (nat, nat), b: (nat, nat), c: (nat, nat))
    by (nonlinear_arith)
    requires
        a.1 > 0,
        b.1 > 0,
        c.1 > 0,
    ensures
        ratio_gt(a, b) && ratio_gt(b, c) ==> ratio_gt(a, c),
        ratio_gt(a, b) && b.0 * c.1 == c.0 * b.1 ==> ratio_gt(a, c),
        a.0 * b.1 == b.0 * a.1 && ratio_gt(b, c) ==> ratio_gt(a, c),
        a.0 * b.1 == b.0 * a.1 && b.0 * c.1 == c.0 * b.1 ==> a.0 * c.1 == c.0 * a.1,
{
}

pub(crate) proof fn lemma_term_before_transitive(x: TermView, y: TermView, z: TermView)
    requires
        proper(x.ratio),
        proper(y.ratio),
        proper(z.ratio),
        term_before(x, y),
        term_before(y, z),
    ensures
        term_before(x, z),
{
    lemma_ratio_gt_chain(z.ratio, y.ratio, x.ratio);
    lemma_ratio_gt_chain(x.ratio, y.ratio, z.ratio);
    if lex_less(x.term, y.term) && lex_less(y.term, z.term) {
        crate::text::lemma_lex_less_transitive(x.term, y.term, z.term);
    }
}

/// The measured terms come misses first, then heavier before lighter, then less covered
/// before more, then by term: no term is listed after one it should come before.
pub proof fn lemma_misses_are_listed_first(
    a: JobAnalysis,
    content: JsonView,
    locked: Option<JsonView>,
    items: Seq<ItemView>,
)
    ensures
        in_order(coverage_of(a, content, locked, items).terms, term_order()),
{
    let rs = regions_of(content, locked);
    let ts = ledger_terms(ledger(a), a, rs, items);
    let ok = |t: TermView| proper(t.ratio);
    assert forall|i: int| 0 <= i < ts.len() implies ok(#[trigger] ts[i]) by {
        let c = ledger(a)[i];
        lemma_form_sets_nonempty(matchable(a, c.term));
        lemma_best_ratio_proper(term_forms(a, c.term), pool(rs, false));
    }
    assert forall|t: TermView| #[trigger] ok(t) implies !term_order()(t, t) by {
        crate::text::lemma_lex_less_irreflexive(t.term);
    }
    assert forall|x: TermView, y: TermView, z: TermView|
        ok(x) && ok(y) && ok(z) && #[trigger] term_order()(x, y) && #[trigger] term_order()(y, z)
            implies term_order()(x, z) by {
        lemma_term_before_transitive(x, y, z);
    }
    lemma_insertion_sorted_in_order(ts, term_order(), ok);
}

/// The label of a measured term: its term.
pub open spec fn measured_term() -> spec_fn(TermView) -> Seq<char> {
    |t: TermView| t.term
}

/// The preflight asks about exactly the terms the score later measures: both read the one
/// ledger of the analysis, so every labelled term appears in each, as often in one as in the
/// other, whatever the base resume, bank, document and locked sections.
pub proof fn lemma_preflight_and_score_share_the_ledger(
    a: JobAnalysis,
    base: JsonView,
    bank: Seq<EntryView>,
    content: JsonView,
    locked: Option<JsonView>,
    items: Seq<ItemView>,
)
    ensures
        labels(preflight_view(a, base, bank), item_term()) == labels(
            coverage_of(a, content, locked, items).terms,
            measured_term(),
        ),
{
    let rs = regions_of(content, locked);
    let cs = ledger(a);
    let f = |c: CandView| term_coverage_of(c, a, rs, items);
    lemma_preflight_terms(a, base, bank);
    lemma_insertion_sorted_labels(ledger_terms(cs, a, rs, items), term_order(), measured_term());
    assert forall|c: CandView| #[trigger] measured_term()(f(c)) == cand_term()(c) by {}
    lemma_labels_map(cs, f, cand_term(), measured_term());
    assert(ledger_terms(cs, a, rs, items) == cs.map_values(f));
}

pub proof fn lemma_consolidate_len(cs: Seq<CandView>)
    ensures
        consolidate(cs).len() <= cs.len(),
    decreases cs.len(),
{
    if cs.len() > 0 {
        lemma_consolidate_len(cs.drop_last());
        crate::evidence::lemma_first_equiv_bound(consolidate(cs.drop_last()), cs.last().term);
    }
}

pub proof fn lemma_ledger_len(a: JobAnalysis)
    ensures
        ledger(a).len() <= listed_terms(a),
{
    lemma_consolidate_len(raw_candidates(a));
}

proof fn lemma_insert_keeps_wf(vs: Seq<TermView>, k: int, x: TermView)
    requires
        terms_wf(vs),
        proper(x.ratio),
        0 <= k <= vs.len(),
    ensures
        terms_wf(vs.insert(k, x)),
{
    assert forall|i: int| 0 <= i < vs.insert(k, x).len() implies proper(
        (#[trigger] vs.insert(k, x)[i]).ratio,
    ) by {
        if i < k {
            assert(vs.insert(k, x)[i] == vs[i]);
        } else if i > k {
            assert(vs.insert(k, x)[i] == vs[i - 1]);
        }
    }
}

/// Scores a tailored document against the analysis ledger. The document is read as one text,
/// as an applicant tracking system reads it; the report lists misses first and heaviest first.
pub fn score_ats_coverage(
    analysis: &JobAnalysis,
    content: &Json,
    locked: Option<&Json>,
    preflight: &[PreflightItem],
) -> (r: AtsCoverage)
    requires
        listed_terms(*analysis) <= 16_000_000,
    ensures
        r@ == coverage_of(
            *analysis,
            content@,
            match locked {
                Some(j) => Some(j@),
                None => None,
            },
            item_views(preflight@),
        ),
{
    let regions = regions(content, locked);
    let doc_pool = token_pool(&regions, false);
    let edit_pool = token_pool(&regions, true);
    let candidates = analysis_candidates(analysis);
    proof {
        lemma_ledger_len(*analysis);
    }
    let ghost cs = cand_views(candidates@);
    let ghost rs = region_views(regions@);
    let ghost items = item_views(preflight@);
    let mut terms: Vec<TermCoverage> = Vec::new();
    let mut total_weight: u32 = 0;
    let mut covered_weight: u32 = 0;
    let mut editable_covered_weight: u32 = 0;
    let mut i: usize = 0;
    while i < candidates.len()
        invariant
            i <= candidates@.len(),
            candidates@.len() <= 16_000_000,
            cs == cand_views(candidates@),
            rs == region_views(regions@),
            items == item_views(preflight@),
            regions_wf(regions@),
            tset(doc_pool@) == pool(rs, false),
            tset(edit_pool@) == pool(rs, true),
            terms@.len() == i,
            terms_wf(term_views(terms@)),
            term_views(terms@) == insertion_sorted(
                ledger_terms(cs.take(i as int), *analysis, rs, items),
                term_order(),
            ),
            total_weight as nat == total_weight_of(cs.take(i as int)),
            covered_weight as nat == earned_weight_of(
                ledger_terms(cs.take(i as int), *analysis, rs, items),
            ),
            editable_covered_weight as nat == editable_weight_of(cs.take(i as int), *analysis, rs),
            total_weight <= 255 * i,
            covered_weight <= 255 * i,
            editable_covered_weight <= 255 * i,
        decreases candidates@.len() - i,
    {
        let c = &candidates[i];
        let ghost prefix = cs.take(i + 1);
        assert(prefix.drop_last() =~= cs.take(i as int));
        assert(prefix.last() == c@);
        let ghost lt = ledger_terms(prefix, *analysis, rs, items);
        assert(lt.drop_last() =~= ledger_terms(cs.take(i as int), *analysis, rs, items));
        let (t, e) = cover_term(c, analysis, &regions, &doc_pool, &edit_pool, preflight);
        assert(lt.last() == t@);
        let earned_here = weighted(t.weight, (t.coverage_matched, t.coverage_size));
        total_weight = total_weight + t.weight as u32;
        covered_weight = covered_weight + earned_here;
        editable_covered_weight = editable_covered_weight + e;
        let ghost before = term_views(terms@);
        proof {
            lemma_first_where(before, precedes(t@, term_order()));
            lemma_insert_keeps_wf(before, first_where(before, precedes(t@, term_order())), t@);
        }
        insert_term(&mut terms, t);
        i += 1;
    }
    assert(cs.take(i as int) =~= cs);
    proof {
        lemma_insertion_sorted_len(ledger_terms(cs, *analysis, rs, items), term_order());
    }
    let categories = categories(&terms);
    AtsCoverage {
        score: percentage(covered_weight, total_weight),
        covered_weight,
        total_weight,
        editable_covered_weight,
        categories,
        terms,
    }
}

/// The terms of the report the document covers, and those it does not, in report order.
pub open spec fn covered_terms(ts: Seq<TermView>, covered: bool) -> Seq<Seq<char>>
    decreases ts.len(),
{
    if ts.len() == 0 {
        seq![]
    } else if ts.last().covered == covered {
        covered_terms(ts.drop_last(), covered).push(ts.last().term)
    } else {
        covered_terms(ts.drop_last(), covered)
    }
}

pub fn covered_and_omitted(coverage: &AtsCoverage) -> (r: (Vec<String>, Vec<String>))
    ensures
        strs(r.0@) == covered_terms(term_views(coverage.terms@), true),
        strs(r.1@) == covered_terms(term_views(coverage.terms@), false),
{
    let ghost ts = term_views(coverage.terms@);
    let mut covered: Vec<String> = Vec::new();
    let mut omitted: Vec<String> = Vec::new();
    let mut i: usize = 0;
    while i < coverage.terms.len()
        invariant
            i <= coverage.terms@.len(),
            ts == term_views(coverage.terms@),
            strs(covered@) == covered_terms(ts.take(i as int), true),
            strs(omitted@) == covered_terms(ts.take(i as int), false),
        decreases coverage.terms@.len() - i,
    {
        assert(ts.take(i + 1).drop_last() =~= ts.take(i as int));
        assert(ts.take(i + 1).last() == coverage.terms@[i as int]@);
        let t = &coverage.terms[i];
        if t.covered {
            let ghost before = covered@;
            covered.push(t.term.clone());
            assert(strs(covered@) =~= strs(before).push(t.term@));
        } else {
            let ghost before = omitted@;
            omitted.push(t.term.clone());
            assert(strs(omitted@) =~= strs(before).push(t.term@));
        }
        i += 1;
    }
    assert(ts.take(i as int) =~= ts);
    (covered, omitted)
}

} // verus!
