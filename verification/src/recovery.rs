//! Which saved variant a lost run is recovered from.

use vstd::prelude::*;
use crate::text::{chars_of, ends_with, has_suffix};

verus! {

/// A directory under the variants folder, as a scan of it reports it: its name, whether it is
/// a directory, and when its `variant.json` was last written (milliseconds since the epoch),
/// when that could be read.
pub struct VariantEntry {
    pub name: String,
    pub is_dir: bool,
    pub modified_ms: Option<u128>,
}

/// A candidate for recovery: a directory of the run's language whose variant was written no
/// earlier than the capture that started the run.
pub open spec fn recoverable(e: VariantEntry, language: Seq<char>, capture_id: u64) -> bool {
    &&& e.is_dir
    &&& ends_with(e.name@, seq!['-'] + language)
    &&& e.modified_ms matches Some(m) && m >= capture_id
}

pub open spec fn written_at(e: VariantEntry) -> u128 {
    match e.modified_ms {
        Some(m) => m,
        None => 0,
    }
}

/// The index of the candidate written last; of several written at the same moment, the one
/// listed last. `None` when no entry is a candidate.
pub fn newest_variant(entries: &[VariantEntry], language: &str, capture_id: u64) -> (r: Option<usize>)
    ensures
        match r {
            None => forall|j: int|
                0 <= j < entries@.len() ==> !recoverable(#[trigger] entries@[j], language@, capture_id),
            Some(i) => {
                &&& i < entries@.len()
                &&& recoverable(entries@[i as int], language@, capture_id)
                &&& forall|j: int|
                    0 <= j < entries@.len() && recoverable(#[trigger] entries@[j], language@, capture_id)
                        ==> written_at(entries@[j]) <= written_at(entries@[i as int])
                &&& forall|j: int|
                    i < j < entries@.len() && recoverable(#[trigger] entries@[j], language@, capture_id)
                        ==> written_at(entries@[j]) < written_at(entries@[i as int])
            },
        },
{
    let lang = chars_of(language);
    let mut suffix: Vec<char> = Vec::new();
    suffix.push('-');
    let mut k: usize = 0;
    while k < lang.len()
        invariant
            k <= lang@.len(),
            lang@ == language@,
            suffix@ == seq!['-'] + lang@.take(k as int),
        decreases lang@.len() - k,
    {
        suffix.push(lang[k]);
        assert(seq!['-'] + lang@.take(k + 1) =~= (seq!['-'] + lang@.take(k as int)).push(lang@[k as int]));
        k += 1;
    }
    assert(lang@.take(k as int) =~= lang@);
    let mut best: Option<usize> = None;
    let mut i: usize = 0;
    while i < entries.len()
        invariant
            i <= entries@.len(),
            suffix@ == seq!['-'] + language@,
            match best {
                None => forall|j: int|
                    0 <= j < i ==> !recoverable(#[trigger] entries@[j], language@, capture_id),
                Some(b) => {
                    &&& b < i
                    &&& recoverable(entries@[b as int], language@, capture_id)
                    &&& forall|j: int|
                        0 <= j < i && recoverable(#[trigger] entries@[j], language@, capture_id)
                            ==> written_at(entries@[j]) <= written_at(entries@[b as int])
                    &&& forall|j: int|
                        b < j < i && recoverable(#[trigger] entries@[j], language@, capture_id)
                            ==> written_at(entries@[j]) < written_at(entries@[b as int])
                },
            },
        decreases entries@.len() - i,
    {
        let e = &entries[i];
        let name = chars_of(e.name.as_str());
        let modified = match e.modified_ms {
            Some(m) => if e.is_dir && m >= capture_id as u128 && has_suffix(name.as_slice(), suffix.as_slice()) {
                Some(m)
            } else {
                None
            },
            None => None,
        };
        match modified {
            Some(m) => {
                let take = match best {
                    None => true,
                    Some(b) => match entries[b].modified_ms {
                        Some(bm) => m >= bm,
                        None => true,
                    },
                };
                if take {
                    best = Some(i);
                }
            },
            None => {},
        }
        i += 1;
    }
    best
}

} // verus!
