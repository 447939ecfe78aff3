//! JSON values as the library reads them: resume content, job payloads, API envelopes.
//!
//! Objects keep their members in the order they were read; the application builds them from
//! parsed documents, whose members come out sorted by key.

use vstd::prelude::*;
use crate::text::{str_eq, strs};

verus! {

broadcast use vstd::std_specs::vec::group_vec_axioms;

#[derive(Debug)]
pub enum Json {
    Null,
    Bool(bool),
    /// A number, held as its JSON text.
    Number(String),
    Str(String),
    Array(Vec<Json>),
    /// Members as (key, value) pairs.
    Object(Vec<(String, Json)>),
}

/// The mathematical value of a JSON document.
pub enum JsonView {
    Null,
    Bool(bool),
    Number(Seq<char>),
    Str(Seq<char>),
    Array(Seq<JsonView>),
    Object(Seq<(Seq<char>, JsonView)>),
}

pub open spec fn view_of(j: Json) -> JsonView
    decreases j,
{
    match j {
        Json::Null => JsonView::Null,
        Json::Bool(b) => JsonView::Bool(b),
        Json::Number(n) => JsonView::Number(n@),
        Json::Str(s) => JsonView::Str(s@),
        Json::Array(items) => JsonView::Array(views_of(items@)),
        Json::Object(members) => JsonView::Object(member_views(members@)),
    }
}

pub open spec fn views_of(items: Seq<Json>) -> Seq<JsonView>
    decreases items,
{
    if items.len() == 0 {
        seq![]
    } else {
        seq![view_of(items[0])] + views_of(items.drop_first())
    }
}

pub open spec fn member_views(members: Seq<(String, Json)>) -> Seq<(Seq<char>, JsonView)>
    decreases members,
{
    if members.len() == 0 {
        seq![]
    } else {
        seq![(members[0].0@, view_of(members[0].1))] + member_views(members.drop_first())
    }
}

impl View for Json {
    type V = JsonView;

    open spec fn view(&self) -> JsonView {
        view_of(*self)
    }
}

pub proof fn lemma_views_of(items: Seq<Json>)
    ensures
        views_of(items).len() == items.len(),
        forall|i: int| 0 <= i < items.len() ==> #[trigger] views_of(items)[i] == view_of(items[i]),
    decreases items.len(),
{
    if items.len() > 0 {
        lemma_views_of(items.drop_first());
        assert forall|i: int| 0 <= i < items.len() implies #[trigger] views_of(items)[i] == view_of(
            items[i],
        ) by {
            if i > 0 {
                assert(items.drop_first()[i - 1] == items[i]);
            }
        }
    }
}

pub proof fn lemma_member_views(members: Seq<(String, Json)>)
    ensures
        member_views(members).len() == members.len(),
        forall|i: int|
            0 <= i < members.len() ==> #[trigger] member_views(members)[i] == (
                members[i].0@,
                view_of(members[i].1),
            ),
    decreases members.len(),
{
    if members.len() > 0 {
        lemma_member_views(members.drop_first());
        assert forall|i: int| 0 <= i < members.len() implies #[trigger] member_views(members)[i]
            == (members[i].0@, view_of(members[i].1)) by {
            if i > 0 {
                assert(members.drop_first()[i - 1] == members[i]);
            }
        }
    }
}

/// Every string value of a document, depth first, members in their stored order.
pub open spec fn strings_in(j: JsonView) -> Seq<Seq<char>>
    decreases j,
{
    match j {
        JsonView::Str(s) => seq![s],
        JsonView::Array(xs) => strings_in_all(xs),
        JsonView::Object(ms) => strings_in_members(ms),
        _ => seq![],
    }
}

pub open spec fn strings_in_all(xs: Seq<JsonView>) -> Seq<Seq<char>>
    decreases xs,
{
    if xs.len() == 0 {
        seq![]
    } else {
        strings_in_all(xs.drop_last()) + strings_in(xs.last())
    }
}

pub open spec fn strings_in_members(ms: Seq<(Seq<char>, JsonView)>) -> Seq<Seq<char>>
    decreases ms,
{
    if ms.len() == 0 {
        seq![]
    } else {
        strings_in_members(ms.drop_last()) + strings_in(ms.last().1)
    }
}

#[verifier::loop_isolation(false)]
fn collect_strings(value: &Json, out: &mut Vec<String>)
    ensures
        strs(final(out)@) == strs(old(out)@) + strings_in(value@),
    decreases value,
{
    match value {
        Json::Str(s) => {
            let ghost before = out@;
            out.push(s.clone());
            assert(strs(out@) =~= strs(before) + seq![s@]);
        },
        Json::Array(items) => {
            proof {
                lemma_views_of(items@);
            }
            let ghost start = strs(out@);
            let ghost vs = views_of(items@);
            let mut i: usize = 0;
            while i < items.len()
                invariant
                    i <= items@.len(),
                    vs.len() == items@.len(),
                    vs == views_of(items@),
                    forall|k: int| 0 <= k < items@.len() ==> #[trigger] vs[k] == view_of(items@[k]),
                    strs(out@) == start + strings_in_all(vs.take(i as int)),
                decreases items@.len() - i,
            {
                assert(decreases_to!(*value => (*value)->Array_0));
                assert(decreases_to!(*items => items@));
                assert(decreases_to!(items@ => items@[i as int]));
                collect_strings(&items[i], out);
                assert(vs.take(i + 1).drop_last() =~= vs.take(i as int));
                assert(vs.take(i + 1).last() == view_of(items@[i as int]));
                i += 1;
            }
            assert(vs.take(i as int) =~= vs);
        },
        Json::Object(members) => {
            proof {
                lemma_member_views(members@);
            }
            let ghost start = strs(out@);
            let ghost ms = member_views(members@);
            let mut i: usize = 0;
            while i < members.len()
                invariant
                    i <= members@.len(),
                    ms.len() == members@.len(),
                    ms == member_views(members@),
                    forall|k: int|
                        0 <= k < members@.len() ==> #[trigger] ms[k] == (
                            members@[k].0@,
                            view_of(members@[k].1),
                        ),
                    strs(out@) == start + strings_in_members(ms.take(i as int)),
                decreases members@.len() - i,
            {
                assert(decreases_to!(*value => (*value)->Object_0));
                assert(decreases_to!(*members => members@));
                assert(decreases_to!(members@ => members@[i as int]));
                assert(decreases_to!(members@[i as int] => members@[i as int].1));
                collect_strings(&members[i].1, out);
                assert(ms.take(i + 1).drop_last() =~= ms.take(i as int));
                assert(ms.take(i + 1).last() == ms[i as int]);
                i += 1;
            }
            assert(ms.take(i as int) =~= ms);
        },
        _ => {
            assert(strs(out@) =~= strs(out@) + strings_in(value@));
        },
    }
}

/// Every string value of `value`, depth first, object members in their stored order.
pub fn json_strings(value: &Json) -> (r: Vec<String>)
    ensures
        strs(r@) == strings_in(value@),
{
    let mut out: Vec<String> = Vec::new();
    collect_strings(value, &mut out);
    assert(strs(out@) =~= strings_in(value@));
    out
}

// ------------------------------------------------------------------ reading values

/// The value stored under `key` among `ms`: the first member with that key.
pub open spec fn member_lookup(ms: Seq<(Seq<char>, JsonView)>, key: Seq<char>) -> Option<JsonView>
    decreases ms.len(),
{
    if ms.len() == 0 {
        None
    } else if ms[0].0 == key {
        Some(ms[0].1)
    } else {
        member_lookup(ms.drop_first(), key)
    }
}

/// `j[key]` when `j` is an object holding `key`.
pub open spec fn field(j: JsonView, key: Seq<char>) -> Option<JsonView> {
    match j {
        JsonView::Object(ms) => member_lookup(ms, key),
        _ => None,
    }
}

/// The text of a string value.
pub open spec fn text_of(j: Option<JsonView>) -> Option<Seq<char>> {
    match j {
        Some(JsonView::Str(s)) => Some(s),
        _ => None,
    }
}

/// The elements of an array value; nothing for any other value.
pub open spec fn elements_of(j: Option<JsonView>) -> Seq<JsonView> {
    match j {
        Some(JsonView::Array(xs)) => xs,
        _ => seq![],
    }
}

/// The members of an object value; nothing for any other value.
pub open spec fn members_of(j: Option<JsonView>) -> Seq<(Seq<char>, JsonView)> {
    match j {
        Some(JsonView::Object(ms)) => ms,
        _ => seq![],
    }
}

pub open spec fn opt_str_view(o: Option<&str>) -> Option<Seq<char>> {
    match o {
        Some(s) => Some(s@),
        None => None,
    }
}

impl Json {
    /// The value under `key`, when this is an object that has it.
    pub fn get(&self, key: &str) -> (r: Option<&Json>)
        ensures
            match r {
                Some(v) => field(self@, key@) == Some(v@),
                None => field(self@, key@) is None,
            },
    {
        match self {
            Json::Object(members) => {
                proof {
                    lemma_member_views(members@);
                }
                let ghost ms = member_views(members@);
                assert(ms.skip(0) =~= ms);
                let mut i: usize = 0;
                while i < members.len()
                    invariant
                        i <= members@.len(),
                        ms == member_views(members@),
                        self@ == JsonView::Object(ms),
                        ms.len() == members@.len(),
                        forall|k: int|
                            0 <= k < members@.len() ==> #[trigger] ms[k] == (
                                members@[k].0@,
                                view_of(members@[k].1),
                            ),
                        member_lookup(ms, key@) == member_lookup(ms.skip(i as int), key@),
                    decreases members@.len() - i,
                {
                    assert(ms.skip(i as int)[0] == ms[i as int]);
                    if str_eq(members[i].0.as_str(), key) {
                        return Some(&members[i].1);
                    }
                    assert(ms.skip(i as int).drop_first() =~= ms.skip(i + 1));
                    i += 1;
                }
                assert(ms.skip(i as int).len() == 0);
                None
            },
            _ => None,
        }
    }

    /// The text, when this is a string.
    pub fn as_str(&self) -> (r: Option<&str>)
        ensures
            opt_str_view(r) == text_of(Some(self@)),
    {
        match self {
            Json::Str(s) => Some(s.as_str()),
            _ => None,
        }
    }

    /// The elements, when this is an array.
    pub fn as_array(&self) -> (r: Option<&Vec<Json>>)
        ensures
            match r {
                Some(v) => self@ == JsonView::Array(views_of(v@)),
                None => !(self@ is Array),
            },
    {
        match self {
            Json::Array(items) => Some(items),
            _ => None,
        }
    }

    /// The members, when this is an object.
    pub fn as_object(&self) -> (r: Option<&Vec<(String, Json)>>)
        ensures
            match r {
                Some(v) => self@ == JsonView::Object(member_views(v@)),
                None => !(self@ is Object),
            },
    {
        match self {
            Json::Object(members) => Some(members),
            _ => None,
        }
    }
}

/// `j[key]` as `serde_json` indexes: `Null` when `j` is not an object or lacks `key`.
pub open spec fn idx(j: JsonView, key: Seq<char>) -> JsonView {
    match field(j, key) {
        Some(v) => v,
        None => JsonView::Null,
    }
}

/// `j[i]`: `Null` when `j` is not an array or is too short.
pub open spec fn at(j: JsonView, i: int) -> JsonView {
    match j {
        JsonView::Array(xs) => if 0 <= i < xs.len() {
            xs[i]
        } else {
            JsonView::Null
        },
        _ => JsonView::Null,
    }
}

/// Structural equality of two documents.
#[verifier::loop_isolation(false)]
pub fn json_eq(a: &Json, b: &Json) -> (r: bool)
    ensures
        r == (a@ == b@),
    decreases a,
{
    match (a, b) {
        (Json::Null, Json::Null) => true,
        (Json::Bool(x), Json::Bool(y)) => *x == *y,
        (Json::Number(x), Json::Number(y)) => str_eq(x.as_str(), y.as_str()),
        (Json::Str(x), Json::Str(y)) => str_eq(x.as_str(), y.as_str()),
        (Json::Array(xs), Json::Array(ys)) => {
            proof {
                lemma_views_of(xs@);
                lemma_views_of(ys@);
            }
            if xs.len() != ys.len() {
                return false;
            }
            let mut i: usize = 0;
            while i < xs.len()
                invariant
                    i <= xs@.len(),
                    xs@.len() == ys@.len(),
                    forall|k: int| 0 <= k < i ==> view_of(#[trigger] xs@[k]) == view_of(ys@[k]),
                decreases xs@.len() - i,
            {
                assert(decreases_to!(*a => (*a)->Array_0));
                assert(decreases_to!(*xs => xs@));
                assert(decreases_to!(xs@ => xs@[i as int]));
                if !json_eq(&xs[i], &ys[i]) {
                    assert(views_of(xs@)[i as int] != views_of(ys@)[i as int]);
                    return false;
                }
                i += 1;
            }
            assert(views_of(xs@) =~= views_of(ys@));
            true
        },
        (Json::Object(xs), Json::Object(ys)) => {
            proof {
                lemma_member_views(xs@);
                lemma_member_views(ys@);
            }
            if xs.len() != ys.len() {
                return false;
            }
            let mut i: usize = 0;
            while i < xs.len()
                invariant
                    i <= xs@.len(),
                    xs@.len() == ys@.len(),
                    forall|k: int|
                        0 <= k < i ==> #[trigger] member_views(xs@)[k] == member_views(ys@)[k],
                decreases xs@.len() - i,
            {
                if !str_eq(xs[i].0.as_str(), ys[i].0.as_str()) {
                    assert(member_views(xs@)[i as int] != member_views(ys@)[i as int]);
                    return false;
                }
                assert(decreases_to!(*a => (*a)->Object_0));
                assert(decreases_to!(*xs => xs@));
                assert(decreases_to!(xs@ => xs@[i as int]));
                assert(decreases_to!(xs@[i as int] => xs@[i as int].1));
                if !json_eq(&xs[i].1, &ys[i].1) {
                    assert(member_views(xs@)[i as int] != member_views(ys@)[i as int]);
                    return false;
                }
                i += 1;
            }
            assert(member_views(xs@) =~= member_views(ys@));
            true
        },
        _ => false,
    }
}

/// `j[key]`, `Null` when absent.
pub fn index_key<'a>(j: &'a Json, key: &str, null: &'a Json) -> (r: &'a Json)
    requires
        null@ == JsonView::Null,
    ensures
        r@ == idx(j@, key@),
{
    match j.get(key) {
        Some(v) => v,
        None => null,
    }
}

impl Json {
    /// A copy of the whole document.
    #[verifier::loop_isolation(false)]
    pub fn deep_copy(&self) -> (r: Json)
        ensures
            r@ == self@,
        decreases self,
    {
        match self {
            Json::Null => Json::Null,
            Json::Bool(b) => Json::Bool(*b),
            Json::Number(n) => Json::Number(n.clone()),
            Json::Str(s) => Json::Str(s.clone()),
            Json::Array(xs) => {
                proof {
                    lemma_views_of(xs@);
                }
                let mut out: Vec<Json> = Vec::new();
                let mut i: usize = 0;
                while i < xs.len()
                    invariant
                        i <= xs@.len(),
                        out@.len() == i,
                        forall|k: int| 0 <= k < i ==> (#[trigger] out@[k])@ == xs@[k]@,
                    decreases xs@.len() - i,
                {
                    assert(decreases_to!(*self => (*self)->Array_0));
                    assert(decreases_to!(*xs => xs@));
                    assert(decreases_to!(xs@ => xs@[i as int]));
                    let c = xs[i].deep_copy();
                    out.push(c);
                    i += 1;
                }
                proof {
                    lemma_views_of(out@);
                    assert(views_of(out@) =~= views_of(xs@));
                }
                Json::Array(out)
            },
            Json::Object(ms) => {
                proof {
                    lemma_member_views(ms@);
                }
                let mut out: Vec<(String, Json)> = Vec::new();
                let mut i: usize = 0;
                while i < ms.len()
                    invariant
                        i <= ms@.len(),
                        out@.len() == i,
                        forall|k: int|
                            0 <= k < i ==> (#[trigger] out@[k]).0@ == ms@[k].0@ && out@[k].1@
                                == ms@[k].1@,
                    decreases ms@.len() - i,
                {
                    assert(decreases_to!(*self => (*self)->Object_0));
                    assert(decreases_to!(*ms => ms@));
                    assert(decreases_to!(ms@ => ms@[i as int]));
                    assert(decreases_to!(ms@[i as int] => ms@[i as int].1));
                    let v = ms[i].1.deep_copy();
                    out.push((ms[i].0.clone(), v));
                    i += 1;
                }
                proof {
                    lemma_member_views(out@);
                    assert(member_views(out@) =~= member_views(ms@));
                }
                Json::Object(out)
            },
        }
    }
}

/// Appends the member `key: value` to an object's members.
pub fn push_member(out: &mut Vec<(String, Json)>, key: &str, value: Json)
    ensures
        member_views(final(out)@) == member_views(old(out)@).push((key@, value@)),
{
    let ghost before = out@;
    out.push((key.to_string(), value));
    proof {
        lemma_member_views(before);
        lemma_member_views(out@);
        assert(member_views(out@) =~= member_views(before).push((key@, value@)));
    }
}

} // verus!
