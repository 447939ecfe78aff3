//! Laws of the checks a tailored resume passes: what a passing resume is, stated as the plain
//! conditions the checks test, and what an accepted bullet audit guarantees.

use vstd::prelude::*;
use crate::json::{idx, JsonView};
use crate::tailoring::{
    all_changed, any_blank, arr, audit_problem, blank_text, content_problem, decision_paths,
    decision_problem, decisions_problem, duplicated_before, first_blank_skill, has_pair,
    is_array, job_problem, jobs_problem, keys_of, language_supported, obj, pair_changed,
    pair_paths, replaced_only, rewrite_problem, skills_problem, tailored_ok, BulletRewriteOutcome,
    DecisionView, PairView,
};

verus! {

/// One tailored job keeps its base job's locked fields and bullet count, and every bullet is
/// non-blank text.
pub open spec fn job_kept(bj: JsonView, tj: JsonView) -> bool {
    &&& idx(bj, "company"@) == idx(tj, "company"@)
    &&& idx(bj, "location"@) == idx(tj, "location"@)
    &&& idx(bj, "title"@) == idx(tj, "title"@)
    &&& idx(bj, "dates"@) == idx(tj, "dates"@)
    &&& is_array(idx(bj, "bullets"@))
    &&& is_array(idx(tj, "bullets"@))
    &&& arr(idx(bj, "bullets"@)).len() == arr(idx(tj, "bullets"@)).len()
    &&& forall|k: int|
        0 <= k < arr(idx(tj, "bullets"@)).len() ==> !blank_text(#[trigger] arr(idx(tj, "bullets"@))[k])
}

/// A tailored resume that keeps its base: the same meta (in the requested language), a
/// non-blank summary, the same jobs one for one, the same skill keys, every skill line text.
pub open spec fn content_kept(language: Seq<char>, base: JsonView, tailored: JsonView) -> bool {
    let bm = idx(base, "meta"@);
    let tm = idx(tailored, "meta"@);
    let bx = arr(idx(base, "experience"@));
    let tx = arr(idx(tailored, "experience"@));
    let bsk = idx(base, "skills"@);
    let tsk = idx(tailored, "skills"@);
    &&& idx(bm, "language"@) == idx(tm, "language"@)
    &&& idx(tm, "language"@) == JsonView::Str(language)
    &&& idx(bm, "type"@) == idx(tm, "type"@)
    &&& idx(bm, "template"@) == idx(tm, "template"@)
    &&& !blank_text(idx(tailored, "summary"@))
    &&& is_array(idx(base, "experience"@))
    &&& is_array(idx(tailored, "experience"@))
    &&& bx.len() == tx.len()
    &&& forall|i: int| 0 <= i < bx.len() ==> job_kept(#[trigger] bx[i], tx[i])
    &&& bsk is Object
    &&& tsk is Object
    &&& keys_of(obj(bsk)) == keys_of(obj(tsk))
    &&& forall|k: int| 0 <= k < obj(tsk).len() ==> !blank_text(#[trigger] obj(tsk)[k].1)
}

proof fn lemma_job_problem(bj: JsonView, tj: JsonView, i: nat)
    ensures
        job_problem(bj, tj, i) is None <==> job_kept(bj, tj),
{
    let ts = arr(idx(tj, "bullets"@));
    if any_blank(ts) {
        let k = choose|k: int| 0 <= k < ts.len() && blank_text(#[trigger] ts[k]);
        assert(!job_kept(bj, tj) || blank_text(ts[k]));
    }
}

proof fn lemma_jobs_problem(bs: Seq<JsonView>, ts: Seq<JsonView>)
    requires
        bs.len() == ts.len(),
    ensures
        jobs_problem(bs, ts) is None <==> forall|i: int| 0 <= i < bs.len() ==> job_kept(
            #[trigger] bs[i],
            ts[i],
        ),
    decreases bs.len(),
{
    if bs.len() > 0 {
        let n = bs.len() - 1;
        lemma_jobs_problem(bs.drop_last(), ts.drop_last());
        lemma_job_problem(bs.last(), ts.last(), n as nat);
        if jobs_problem(bs, ts) is None {
            assert forall|i: int| 0 <= i < bs.len() implies job_kept(#[trigger] bs[i], ts[i]) by {
                if i < n {
                    assert(bs.drop_last()[i] == bs[i] && ts.drop_last()[i] == ts[i]);
                }
            }
        } else {
            if forall|i: int| 0 <= i < bs.len() ==> job_kept(#[trigger] bs[i], ts[i]) {
                assert forall|i: int| 0 <= i < bs.drop_last().len() implies job_kept(
                    #[trigger] bs.drop_last()[i],
                    ts.drop_last()[i],
                ) by {
                    assert(bs.drop_last()[i] == bs[i] && ts.drop_last()[i] == ts[i]);
                }
                assert(job_kept(bs[n], ts[n]));
            }
        }
    }
}

proof fn lemma_first_blank_skill(ms: Seq<(Seq<char>, JsonView)>)
    ensures
        first_blank_skill(ms) is None <==> forall|k: int| 0 <= k < ms.len() ==> !blank_text(
            #[trigger] ms[k].1,
        ),
    decreases ms.len(),
{
    if ms.len() > 0 {
        let t = ms.drop_last();
        lemma_first_blank_skill(t);
        if first_blank_skill(ms) is None {
            assert forall|k: int| 0 <= k < ms.len() implies !blank_text(#[trigger] ms[k].1) by {
                if k < t.len() {
                    assert(t[k] == ms[k]);
                }
            }
        } else if forall|k: int| 0 <= k < ms.len() ==> !blank_text(#[trigger] ms[k].1) {
            assert forall|k: int| 0 <= k < t.len() implies !blank_text(#[trigger] t[k].1) by {
                assert(t[k] == ms[k]);
            }
            assert(!blank_text(ms[ms.len() - 1].1));
        }
    }
}

/// A tailored resume passes `validate_tailored_content` exactly when the language is English
/// or French and the resume keeps its base as `content_kept` lists it.
pub proof fn lemma_validation_conditions(language: Seq<char>, base: JsonView, tailored: JsonView)
    ensures
        content_problem(language, base, tailored) is None <==> content_kept(language, base, tailored),
        tailored_ok(language, base, tailored) <==> language_supported(language) && content_kept(
            language,
            base,
            tailored,
        ),
{
    let bx = arr(idx(base, "experience"@));
    let tx = arr(idx(tailored, "experience"@));
    if bx.len() == tx.len() {
        lemma_jobs_problem(bx, tx);
    }
    lemma_first_blank_skill(obj(idx(tailored, "skills"@)));
    assert(skills_problem(base, tailored) is None <==> {
        &&& idx(base, "skills"@) is Object
        &&& idx(tailored, "skills"@) is Object
        &&& keys_of(obj(idx(base, "skills"@))) == keys_of(obj(idx(tailored, "skills"@)))
        &&& first_blank_skill(obj(idx(tailored, "skills"@))) is None
    });
}

proof fn lemma_decision_problem_prefix(ds: Seq<DecisionView>, k: int, ps: Seq<PairView>)
    requires
        0 <= k < ds.len() - 1,
    ensures
        decision_problem(ds.drop_last(), k, ps) == decision_problem(ds, k, ps),
{
    let t = ds.drop_last();
    assert(t[k] == ds[k]);
    assert(duplicated_before(t, k) == duplicated_before(ds, k)) by {
        if duplicated_before(ds, k) {
            let j = choose|j: int|
                0 <= j < k && (#[trigger] ds[j]).experience_index == ds[k].experience_index
                    && ds[j].bullet_index == ds[k].bullet_index;
            assert(t[j] == ds[j]);
        }
        if duplicated_before(t, k) {
            let j = choose|j: int|
                0 <= j < k && (#[trigger] t[j]).experience_index == t[k].experience_index
                    && t[j].bullet_index == t[k].bullet_index;
            assert(t[j] == ds[j]);
        }
    }
}

proof fn lemma_decisions_problem(ds: Seq<DecisionView>, ps: Seq<PairView>)
    ensures
        decisions_problem(ds, ps) is None <==> forall|k: int| 0 <= k < ds.len() ==> (
        #[trigger] decision_problem(ds, k, ps)) is None,
    decreases ds.len(),
{
    if ds.len() > 0 {
        let t = ds.drop_last();
        lemma_decisions_problem(t, ps);
        assert forall|k: int| 0 <= k < t.len() implies decision_problem(t, k, ps) == #[trigger] decision_problem(
            ds,
            k,
            ps,
        ) by {
            lemma_decision_problem_prefix(ds, k, ps);
        }
        if !(decisions_problem(ds, ps) is None) && forall|k: int|
            0 <= k < ds.len() ==> (#[trigger] decision_problem(ds, k, ps)) is None {
            assert forall|k: int| 0 <= k < t.len() implies (#[trigger] decision_problem(t, k, ps)) is None by {
                assert(decision_problem(t, k, ps) == decision_problem(ds, k, ps));
            }
            assert(decision_problem(ds, ds.len() - 1, ps) is None);
        }
        if decisions_problem(ds, ps) is None {
            assert forall|k: int| 0 <= k < ds.len() implies (#[trigger] decision_problem(ds, k, ps)) is None by {
                if k < t.len() {
                    assert(decision_problem(t, k, ps) == decision_problem(ds, k, ps));
                }
            }
        }
    }
}

/// The skills-only refusal.
pub open spec fn skills_only_message() -> Seq<char> {
    "every experience bullet must be rewritten; skills-only tailoring is not accepted"@
}

/// The rule `validate_full_bullet_rewrites` enforces: it passes exactly when every bullet
/// changed, the decisions name each bullet once and only bullets that exist, and no decision
/// says a bullet had nothing relevant; an unchanged bullet is refused as skills-only.
pub proof fn lemma_full_rewrite_rule(ps: Seq<PairView>, ds: Seq<DecisionView>)
    ensures
        audit_problem(ps, ds) is None <==> {
            &&& all_changed(ps)
            &&& decision_paths(ds) == pair_paths(ps)
            &&& forall|k: int|
                0 <= k < ds.len() ==> !duplicated_before(ds, k) && (#[trigger] ds[k]).outcome
                    != BulletRewriteOutcome::NoRelevantMatch
        },
        !all_changed(ps) ==> audit_problem(ps, ds) == Some(skills_only_message()),
{
    lemma_decisions_problem(ds, ps);
    let f = |d: DecisionView| (d.experience_index, d.bullet_index);
    let g = |p: PairView| (p.experience_index, p.bullet_index);
    assert(decision_paths(ds) == ds.map_values(f).to_set());
    assert(pair_paths(ps) == ps.map_values(g).to_set());
    if all_changed(ps) && decision_paths(ds) == pair_paths(ps) {
        assert forall|k: int| 0 <= k < ds.len() implies has_pair(
            ps,
            (#[trigger] ds[k]).experience_index,
            ds[k].bullet_index,
        ) && pair_changed(ps, ds[k].experience_index, ds[k].bullet_index) by {
            assert(ds.map_values(f)[k] == f(ds[k]));
            assert(ds.map_values(f).contains(f(ds[k])));
            assert(pair_paths(ps).contains(f(ds[k])));
            let m = choose|m: int| 0 <= m < ps.map_values(g).len() && ps.map_values(g)[m] == f(ds[k]);
            assert(ps.map_values(g)[m] == g(ps[m]));
            assert(ps[m].before != ps[m].after);
        }
    }
    if audit_problem(ps, ds) is None {
        assert forall|k: int| 0 <= k < ds.len() implies !duplicated_before(ds, k) && (
        #[trigger] ds[k]).outcome != BulletRewriteOutcome::NoRelevantMatch by {
            assert(decision_problem(ds, k, ps) is None);
            let m = choose|m: int|
                0 <= m < ps.len() && (#[trigger] ps[m]).experience_index == ds[k].experience_index
                    && ps[m].bullet_index == ds[k].bullet_index;
            assert(ps[m].before != ps[m].after);
        }
    } else if all_changed(ps) && decision_paths(ds) == pair_paths(ps) && forall|k: int|
        0 <= k < ds.len() ==> !duplicated_before(ds, k) && (#[trigger] ds[k]).outcome
            != BulletRewriteOutcome::NoRelevantMatch {
        assert forall|k: int| 0 <= k < ds.len() implies (#[trigger] decision_problem(ds, k, ps)) is None by {
            assert(has_pair(ps, ds[k].experience_index, ds[k].bullet_index));
            assert(pair_changed(ps, ds[k].experience_index, ds[k].bullet_index));
        }
    }
}

proof fn lemma_replaced_only_members(ds: Seq<DecisionView>)
    ensures
        replaced_only(ds).len() > 0 ==> exists|k: int|
            0 <= k < ds.len() && (#[trigger] ds[k]).outcome == BulletRewriteOutcome::Replaced,
    decreases ds.len(),
{
    if ds.len() > 0 {
        lemma_replaced_only_members(ds.drop_last());
        if replaced_only(ds.drop_last()).len() > 0 {
            let k = choose|k: int|
                0 <= k < ds.drop_last().len() && (#[trigger] ds.drop_last()[k]).outcome
                    == BulletRewriteOutcome::Replaced;
            assert(ds[k] == ds.drop_last()[k]);
        } else if ds.last().outcome == BulletRewriteOutcome::Replaced {
            assert(ds[ds.len() - 1].outcome == BulletRewriteOutcome::Replaced);
        }
    }
}

/// A bullet audit the rewrite rules accept (as `review_attempt` requires before it accepts a
/// response) has every experience bullet changed and at least one bullet marked replaced.
pub proof fn lemma_accepted_rewrites(base: JsonView, tailored: JsonView, ds: Seq<DecisionView>)
    requires
        rewrite_problem(base, tailored, ds) is None,
    ensures
        all_changed(crate::tailoring::pairs_of(base, tailored)),
        exists|k: int| 0 <= k < ds.len() && (#[trigger] ds[k]).outcome == BulletRewriteOutcome::Replaced,
{
    lemma_replaced_only_members(ds);
}

} // verus!
