//! Laws of the content diff the result screen shows.

use vstd::prelude::*;
use crate::json::{idx, JsonView};
use crate::tailoring::{
    bullet_changes, content_changes_of, diffable, lookup_or_null, obj, pairs_of, skill_changes,
    summary_change, text_or_empty, ChangeView, PairView,
};
use crate::text::decimal;

verus! {

/// A change the diff reports: a value of one editable kind whose text differs.
pub open spec fn real_edit(c: ChangeView, kind: Seq<char>) -> bool {
    &&& c.before != c.after
    &&& crate::text::starts_with(c.path, kind)
}

proof fn lemma_prefix_path(kind: Seq<char>, rest: Seq<char>)
    ensures
        crate::text::starts_with(kind + rest, kind),
{
    assert((kind + rest).subrange(0, kind.len() as int) =~= kind);
}

proof fn lemma_bullet_changes_real(ps: Seq<PairView>)
    requires
        forall|k: int|
            0 <= k < ps.len() && (#[trigger] ps[k]).before != ps[k].after ==> ps[k].before is Str
                && ps[k].after is Str,
    ensures
        forall|k: int|
            0 <= k < bullet_changes(ps).len() ==> real_edit(
                #[trigger] bullet_changes(ps)[k],
                "/experience/"@,
            ),
    decreases ps.len(),
{
    if ps.len() > 0 {
        let t = ps.drop_last();
        assert forall|k: int|
            0 <= k < t.len() && (#[trigger] t[k]).before != t[k].after implies t[k].before is Str
                && t[k].after is Str by {
            assert(t[k] == ps[k]);
        }
        lemma_bullet_changes_real(t);
        let p = ps.last();
        assert(ps[ps.len() - 1] == p);
        let prev = bullet_changes(t);
        if p.before != p.after {
            let rest = decimal(p.experience_index) + "/bullets/"@ + decimal(p.bullet_index);
            lemma_prefix_path("/experience/"@, rest);
            let path = "/experience/"@ + decimal(p.experience_index) + "/bullets/"@ + decimal(
                p.bullet_index,
            );
            assert(path =~= "/experience/"@ + rest);
            let c = ChangeView { path, before: text_or_empty(p.before), after: text_or_empty(p.after) };
            assert(bullet_changes(ps) == prev.push(c));
            assert forall|k: int| 0 <= k < prev.push(c).len() implies real_edit(
                #[trigger] prev.push(c)[k],
                "/experience/"@,
            ) by {
                if k < prev.len() {
                    assert(prev.push(c)[k] == prev[k]);
                }
            }
        }
    }
}

proof fn lemma_skill_changes_real(bms: Seq<(Seq<char>, JsonView)>, tms: Seq<(Seq<char>, JsonView)>)
    requires
        forall|k: int|
            0 <= k < bms.len() ==> ((#[trigger] bms[k]).1 != lookup_or_null(tms, bms[k].0)
                ==> bms[k].1 is Str && lookup_or_null(tms, bms[k].0) is Str),
    ensures
        forall|k: int|
            0 <= k < skill_changes(bms, tms).len() ==> real_edit(
                #[trigger] skill_changes(bms, tms)[k],
                "/skills/"@,
            ),
    decreases bms.len(),
{
    if bms.len() > 0 {
        let t = bms.drop_last();
        assert forall|k: int| 0 <= k < t.len() implies ((#[trigger] t[k]).1 != lookup_or_null(
            tms,
            t[k].0,
        ) ==> t[k].1 is Str && lookup_or_null(tms, t[k].0) is Str) by {
            assert(t[k] == bms[k]);
        }
        lemma_skill_changes_real(t, tms);
        let m = bms.last();
        assert(bms[bms.len() - 1] == m);
        lemma_prefix_path("/skills/"@, m.0);
        let prev = skill_changes(t, tms);
        let after = lookup_or_null(tms, m.0);
        if m.1 != after {
            let c = ChangeView { path: "/skills/"@ + m.0, before: text_or_empty(m.1), after: text_or_empty(after) };
            assert(skill_changes(bms, tms) == prev.push(c));
            assert forall|k: int| 0 <= k < prev.push(c).len() implies real_edit(
                #[trigger] prev.push(c)[k],
                "/skills/"@,
            ) by {
                if k < prev.len() {
                    assert(prev.push(c)[k] == prev[k]);
                }
            }
        }
    }
}

/// On documents the diff can read, every reported change is an editable value whose text
/// really differs: the summary, an experience bullet, or a skill line.
pub proof fn lemma_changes_are_real_edits(base: JsonView, tailored: JsonView)
    requires
        diffable(base, tailored),
    ensures
        forall|k: int|
            0 <= k < content_changes_of(base, tailored).len() ==> {
                let c = #[trigger] content_changes_of(base, tailored)[k];
                ||| c.path == "/summary"@ && c.before != c.after
                ||| real_edit(c, "/experience/"@)
                ||| real_edit(c, "/skills/"@)
            },
{
    let s = summary_change(base, tailored);
    let b = bullet_changes(pairs_of(base, tailored));
    let k = skill_changes(obj(idx(base, "skills"@)), obj(idx(tailored, "skills"@)));
    lemma_bullet_changes_real(pairs_of(base, tailored));
    lemma_skill_changes_real(obj(idx(base, "skills"@)), obj(idx(tailored, "skills"@)));
    let all = content_changes_of(base, tailored);
    assert(all == s + b + k);
    assert forall|i: int| 0 <= i < all.len() implies {
        let c = #[trigger] all[i];
        ||| c.path == "/summary"@ && c.before != c.after
        ||| real_edit(c, "/experience/"@)
        ||| real_edit(c, "/skills/"@)
    } by {
        if i < s.len() {
            assert(all[i] == s[i]);
        } else if i < s.len() + b.len() {
            assert(all[i] == b[i - s.len()]);
        } else {
            assert(all[i] == k[i - s.len() - b.len()]);
        }
    }
}

} // verus!
