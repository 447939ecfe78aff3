//! Evidence preflight: the term matchers, the candidate ledger, and the evidence bank.

use vstd::prelude::*;
use crate::text::{
    char_is_alphabetic, char_is_alphanumeric, chars_of, contains_any, contains_seq, count_words,
    ends_with, ends_with_any, equals_any, is_alphabetic, is_alphanumeric, lowercase, starts_with,
    starts_with_any, str_eq, string_of, to_lowercase, trim_str, trimmed, word_count,
};
use crate::analysis::{JobAnalysis, KeywordSignal};
use crate::text::{utf8_len, utf8_len_of};
use crate::tokens::{
    count_common, distinct, has_token, insert_token, is_subset, lemma_tset_finite, lemma_tset_len,
    same_tokens, tset, tv,
};

verus! {

broadcast use vstd::seq_lib::group_seq_properties;

/// Words that carry no matching signal, in English and French. `text_supports` demands every
/// token of a term, so an unfiltered article would sink a genuine match.
pub const STOP_WORDS: [&'static str; 64] = [
    "a", "an", "and", "the", "of", "to", "for", "with", "in", "on", "or", "your", "strong",
    "proven", "significant", "experience", "experienced", "knowledge", "ability", "skills",
    "skill", "current", "modern", "professional", "written", "spoken", "fluency", "fluent",
    "practices", "principles", "behind", "such", "as", "de", "des", "du", "le", "la", "les",
    "un", "une", "et", "ou", "au", "aux", "pour", "avec", "dans", "sur", "vos", "votre",
    "solide", "bonne", "bonnes", "connaissance", "connaissances", "maîtrise", "capacité",
    "compétence", "compétences", "expérience", "expériences", "professionnel",
    "professionnelle",
];

/// Wrapper words that surround a claim the user asked to have placed in a role.
pub const PLACEMENT_WRAPPERS: [&'static str; 20] = [
    "practice", "practical", "experience", "experienced", "pratique", "expérience", "dans",
    "dan", "du", "de", "des", "la", "le", "les", "l", "d", "en", "au", "aux", "maîtrise",
];

pub open spec fn in_list<const N: usize>(w: Seq<char>, list: [&'static str; N]) -> bool {
    exists|i: int| 0 <= i < list@.len() && w == list@[i]@
}

// ------------------------------------------------------------------ normalize

pub open spec fn keep_alnum(s: Seq<char>) -> Seq<char>
    decreases s.len(),
{
    if s.len() == 0 {
        seq![]
    } else if char_is_alphanumeric(s.last()) {
        keep_alnum(s.drop_last()).push(s.last())
    } else {
        keep_alnum(s.drop_last())
    }
}

/// Lowercase, letters and digits only: the strictest form two terms can be compared in.
pub open spec fn normalized(value: Seq<char>) -> Seq<char> {
    keep_alnum(lowercase(value))
}

pub fn normalize(value: &str) -> (r: Vec<char>)
    ensures
        r@ == normalized(value@),
{
    let lower = chars_of(to_lowercase(value).as_str());
    let mut out: Vec<char> = Vec::new();
    let mut i: usize = 0;
    while i < lower.len()
        invariant
            i <= lower@.len(),
            out@ == keep_alnum(lower@.take(i as int)),
        decreases lower@.len() - i,
    {
        assert(lower@.take(i + 1).drop_last() =~= lower@.take(i as int));
        if is_alphanumeric(lower[i]) {
            out.push(lower[i]);
        }
        i += 1;
    }
    assert(lower@.take(lower@.len() as int) =~= lower@);
    out
}

// ------------------------------------------------ French inclusive-writing suffixes

pub open spec fn is_inclusive_mark(c: char) -> bool {
    c == '·' || c == '‧' || c == '•'
}

/// How many letters follow position `i` without a break.
pub open spec fn alpha_run(s: Seq<char>, i: int) -> nat
    decreases s.len() - i,
{
    if 0 <= i < s.len() && char_is_alphabetic(s[i]) {
        1 + alpha_run(s, i + 1)
    } else {
        0
    }
}

pub proof fn lemma_alpha_run_bound(s: Seq<char>, i: int)
    ensures
        0 <= i <= s.len() ==> i + alpha_run(s, i) <= s.len(),
    decreases s.len() - i,
{
    if 0 <= i < s.len() && char_is_alphabetic(s[i]) {
        lemma_alpha_run_bound(s, i + 1);
    }
}

/// `s` from position `i` with every short suffix after a middle dot removed ("référent·e"
/// reads "référent"), and any other middle dot turned into a space.
pub open spec fn strip_from(s: Seq<char>, i: int) -> Seq<char>
    decreases s.len() - i,
{
    if i < 0 || i >= s.len() {
        seq![]
    } else if !is_inclusive_mark(s[i]) {
        seq![s[i]] + strip_from(s, i + 1)
    } else if 0 < alpha_run(s, i + 1) <= 5 {
        proof {
            lemma_alpha_run_bound(s, i + 1);
        }
        strip_from(s, i + 1 + alpha_run(s, i + 1))
    } else {
        seq![' '] + strip_from(s, i + 1)
    }
}

pub open spec fn stripped(s: Seq<char>) -> Seq<char> {
    strip_from(s, 0)
}

fn count_letters_from(s: &Vec<char>, start: usize) -> (r: usize)
    requires
        start <= s@.len(),
    ensures
        r == alpha_run(s@, start as int),
        start + r <= s@.len(),
{
    let mut j = start;
    while j < s.len() && is_alphabetic(s[j])
        invariant
            start <= j <= s@.len(),
            alpha_run(s@, start as int) == (j - start) + alpha_run(s@, j as int),
        decreases s@.len() - j,
    {
        j += 1;
    }
    j - start
}

pub fn strip_inclusive_suffixes(s: &Vec<char>) -> (r: Vec<char>)
    ensures
        r@ == stripped(s@),
{
    let mut out: Vec<char> = Vec::new();
    let mut index: usize = 0;
    while index < s.len()
        invariant
            index <= s@.len(),
            out@ + strip_from(s@, index as int) == stripped(s@),
        decreases s@.len() - index,
    {
        let c = s[index];
        if !(c == '·' || c == '‧' || c == '•') {
            out.push(c);
            index += 1;
            assert(out@ + strip_from(s@, index as int) =~= stripped(s@));
        } else {
            let suffix = count_letters_from(s, index + 1);
            if suffix > 0 && suffix <= 5 {
                index += 1 + suffix;
            } else {
                out.push(' ');
                index += 1;
                assert(out@ + strip_from(s@, index as int) =~= stripped(s@));
            }
        }
    }
    assert(out@ =~= stripped(s@));
    out
}

// ---------------------------------------------------------------- tokenizer

/// Characters that end a word: anything but letters, digits and the three marks that belong
/// to technology names ("C++", "C#", "Node.js").
pub open spec fn is_token_sep(c: char) -> bool {
    !char_is_alphanumeric(c) && c != '+' && c != '#' && c != '.'
}

/// The pieces between separators, empty ones included, as `str::split` yields them.
pub open spec fn split_words(s: Seq<char>) -> Seq<Seq<char>>
    decreases s.len(),
{
    if s.len() == 0 {
        seq![seq![]]
    } else {
        let prev = split_words(s.drop_last());
        if is_token_sep(s.last()) {
            prev.push(seq![])
        } else {
            prev.drop_last().push(prev.last().push(s.last()))
        }
    }
}

pub proof fn lemma_split_nonempty(s: Seq<char>)
    ensures
        split_words(s).len() >= 1,
    decreases s.len(),
{
    if s.len() > 0 {
        lemma_split_nonempty(s.drop_last());
    }
}

pub open spec fn trim_start_char(w: Seq<char>, c: char) -> Seq<char>
    decreases w.len(),
{
    if w.len() > 0 && w[0] == c {
        trim_start_char(w.drop_first(), c)
    } else {
        w
    }
}

pub open spec fn trim_end_char(w: Seq<char>, c: char) -> Seq<char>
    decreases w.len(),
{
    if w.len() > 0 && w.last() == c {
        trim_end_char(w.drop_last(), c)
    } else {
        w
    }
}

pub open spec fn dot_trimmed(w: Seq<char>) -> Seq<char> {
    trim_start_char(trim_end_char(w, '.'), '.')
}

pub open spec fn is_stop_word(w: Seq<char>) -> bool {
    in_list(w, STOP_WORDS)
}

/// A split piece contributes a token unless it is empty or a stop word once its dots go.
pub open spec fn keeps_word(w: Seq<char>) -> bool {
    dot_trimmed(w).len() > 0 && !is_stop_word(dot_trimmed(w))
}

/// The token a kept piece contributes: dots trimmed, then every trailing `s` (a crude plural).
pub open spec fn token_of(w: Seq<char>) -> Seq<char> {
    trim_end_char(dot_trimmed(w), 's')
}

pub open spec fn word_tokens(ws: Seq<Seq<char>>) -> Set<Seq<char>>
    decreases ws.len(),
{
    if ws.len() == 0 {
        Set::empty()
    } else if keeps_word(ws.last()) {
        word_tokens(ws.drop_last()).insert(token_of(ws.last()))
    } else {
        word_tokens(ws.drop_last())
    }
}

pub proof fn lemma_word_tokens_finite(ws: Seq<Seq<char>>)
    ensures
        word_tokens(ws).finite(),
    decreases ws.len(),
{
    if ws.len() > 0 {
        lemma_word_tokens_finite(ws.drop_last());
    }
}

pub proof fn lemma_token_set_finite(value: Seq<char>)
    ensures
        token_set_of(value).finite(),
{
    lemma_word_tokens_finite(split_words(stripped(lowercase(value))));
}

/// The comparable token set of a text: lowercased, inclusive suffixes removed, split into
/// words, stop words dropped, plurals folded.
pub open spec fn token_set_of(value: Seq<char>) -> Set<Seq<char>> {
    word_tokens(split_words(stripped(lowercase(value))))
}

pub fn trim_end_in_place(w: &mut Vec<char>, c: char)
    ensures
        final(w)@ == trim_end_char(old(w)@, c),
{
    while w.len() > 0 && w[w.len() - 1] == c
        invariant
            trim_end_char(w@, c) == trim_end_char(old(w)@, c),
        decreases w@.len(),
    {
        let ghost before = w@;
        w.pop();
        assert(w@ =~= before.drop_last());
    }
}

pub fn trim_start_copy(w: &Vec<char>, c: char) -> (r: Vec<char>)
    ensures
        r@ == trim_start_char(w@, c),
{
    let mut start: usize = 0;
    while start < w.len() && w[start] == c
        invariant
            start <= w@.len(),
            trim_start_char(w@.subrange(start as int, w@.len() as int), c) == trim_start_char(
                w@,
                c,
            ),
        decreases w@.len() - start,
    {
        assert(w@.subrange(start as int, w@.len() as int).drop_first() =~= w@.subrange(
            start + 1,
            w@.len() as int,
        ));
        start += 1;
    }
    let mut out: Vec<char> = Vec::new();
    let mut i = start;
    while i < w.len()
        invariant
            start <= i <= w@.len(),
            out@ == w@.subrange(start as int, i as int),
        decreases w@.len() - i,
    {
        out.push(w[i]);
        i += 1;
        assert(out@ =~= w@.subrange(start as int, i as int));
    }
    out
}

/// The token a split piece contributes, if any.
fn word_token(word: &Vec<char>) -> (r: Option<Vec<char>>)
    ensures
        match r {
            Some(t) => keeps_word(word@) && t@ == token_of(word@),
            None => !keeps_word(word@),
        },
{
    let mut end_trimmed = word.clone();
    trim_end_in_place(&mut end_trimmed, '.');
    let mut trimmed = trim_start_copy(&end_trimmed, '.');
    if trimmed.len() == 0 {
        return None;
    }
    if equals_any(&trimmed, STOP_WORDS.as_slice()) {
        return None;
    }
    trim_end_in_place(&mut trimmed, 's');
    Some(trimmed)
}

/// Splits text into the comparable token set used by every matcher in this module.
pub fn token_set(value: &str) -> (r: Vec<Vec<char>>)
    ensures
        distinct(r@),
        tset(r@) == token_set_of(value@),
{
    let lower = chars_of(to_lowercase(value).as_str());
    let s = strip_inclusive_suffixes(&lower);
    let mut tokens: Vec<Vec<char>> = Vec::new();
    let mut current: Vec<char> = Vec::new();
    let mut i: usize = 0;
    proof {
        assert(s@.take(0) =~= Seq::<char>::empty());
        assert(split_words(s@.take(0)).drop_last() =~= Seq::<Seq<char>>::empty());
        assert(tset(tokens@) =~= Set::<Seq<char>>::empty());
    }
    while i < s.len()
        invariant
            i <= s@.len(),
            distinct(tokens@),
            split_words(s@.take(i as int)).len() >= 1,
            current@ == split_words(s@.take(i as int)).last(),
            tset(tokens@) == word_tokens(split_words(s@.take(i as int)).drop_last()),
        decreases s@.len() - i,
    {
        let c = s[i];
        let ghost prev = split_words(s@.take(i as int));
        assert(s@.take(i + 1).drop_last() =~= s@.take(i as int));
        assert(s@.take(i + 1).last() == c);
        if !is_alphanumeric(c) && c != '+' && c != '#' && c != '.' {
            assert(split_words(s@.take(i + 1)) == prev.push(seq![]));
            assert(prev.push(seq![]).drop_last() =~= prev);
            assert(prev.drop_last().push(prev.last()) =~= prev);
            match word_token(&current) {
                Some(t) => {
                    insert_token(&mut tokens, t);
                },
                None => {},
            }
            current = Vec::new();
        } else {
            assert(split_words(s@.take(i + 1)) == prev.drop_last().push(prev.last().push(c)));
            assert(prev.drop_last().push(prev.last().push(c)).drop_last() =~= prev.drop_last());
            current.push(c);
        }
        i += 1;
        proof {
            lemma_split_nonempty(s@.take(i as int));
        }
    }
    assert(s@.take(s@.len() as int) =~= s@);
    let ghost ws = split_words(s@);
    assert(ws.drop_last().push(ws.last()) =~= ws);
    match word_token(&current) {
        Some(t) => {
            insert_token(&mut tokens, t);
        },
        None => {},
    }
    tokens
}

// ------------------------------------------------------------------ matchers

/// Every token of `term` appears in `text`.
pub open spec fn supports(text: Seq<char>, term: Seq<char>) -> bool {
    token_set_of(term).len() > 0 && token_set_of(term).subset_of(token_set_of(text))
}

pub fn text_supports(text: &str, term: &str) -> (r: bool)
    ensures
        r == supports(text@, term@),
{
    let text_tokens = token_set(text);
    let term_tokens = token_set(term);
    proof {
        lemma_tset_len(term_tokens@);
    }
    term_tokens.len() > 0 && is_subset(&term_tokens, &text_tokens)
}

/// Two terms name the same thing: equal once normalized, or the same token set, or the
/// smaller set (of at least two tokens) lying wholly in the larger with at most a quarter of
/// the larger left over.
pub open spec fn equivalent_terms(left: Seq<char>, right: Seq<char>) -> bool {
    normalized(left) == normalized(right) || {
        let a = token_set_of(left);
        let b = token_set_of(right);
        let smaller = if a.len() <= b.len() {
            a.len()
        } else {
            b.len()
        };
        let larger = if a.len() <= b.len() {
            b.len()
        } else {
            a.len()
        };
        a.len() > 0 && b.len() > 0 && (a == b || (smaller >= 2 && a.intersect(b).len() == smaller
            && smaller * 4 >= larger * 3))
    }
}

/// Naming the same thing does not depend on the order of the two terms, and every term names
/// itself.
pub proof fn lemma_equivalent_terms_symmetric(left: Seq<char>, right: Seq<char>)
    ensures
        equivalent_terms(left, right) == equivalent_terms(right, left),
        equivalent_terms(left, left),
        placement_equivalent(left, right) == placement_equivalent(right, left),
{
    assert(token_set_of(left).intersect(token_set_of(right)) =~= token_set_of(right).intersect(
        token_set_of(left),
    ));
}

pub fn equivalent(left: &str, right: &str) -> (r: bool)
    ensures
        r == equivalent_terms(left@, right@),
{
    let l = normalize(left);
    let rr = normalize(right);
    if crate::text::chars_eq(&l, &rr) {
        return true;
    }
    let a = token_set(left);
    let b = token_set(right);
    proof {
        lemma_tset_len(a@);
        lemma_tset_len(b@);
    }
    if a.len() == 0 || b.len() == 0 {
        return false;
    }
    if same_tokens(&a, &b) {
        return true;
    }
    let overlap = count_common(&a, &b);
    let smaller = if a.len() <= b.len() {
        a.len()
    } else {
        b.len()
    };
    let larger = if a.len() <= b.len() {
        b.len()
    } else {
        a.len()
    };
    smaller >= 2 && overlap == smaller && (smaller as u128) * 4 >= (larger as u128) * 3
}

pub open spec fn is_wrapper_word(t: Seq<char>) -> bool {
    in_list(t, PLACEMENT_WRAPPERS)
}

/// The tokens of a placement request with its wrapper words ("dans l'expérience") removed.
pub open spec fn placement_set_of(value: Seq<char>) -> Set<Seq<char>> {
    token_set_of(value).filter(|t: Seq<char>| !is_wrapper_word(t))
}

pub fn placement_token_set(value: &str) -> (r: Vec<Vec<char>>)
    ensures
        distinct(r@),
        tset(r@) == placement_set_of(value@),
{
    let all = token_set(value);
    let mut out: Vec<Vec<char>> = Vec::new();
    let mut i: usize = 0;
    while i < all.len()
        invariant
            i <= all@.len(),
            distinct(out@),
            tset(out@) == tv(all@).take(i as int).to_set().filter(
                |t: Seq<char>| !is_wrapper_word(t),
            ),
        decreases all@.len() - i,
    {
        let ghost before = out@;
        assert(tv(all@).take(i + 1) =~= tv(all@).take(i as int).push(all@[i as int]@));
        assert(tv(all@).take(i + 1).to_set() =~= tv(all@).take(i as int).to_set().insert(
            all@[i as int]@,
        ));
        if !equals_any(&all[i], PLACEMENT_WRAPPERS.as_slice()) {
            insert_token(&mut out, all[i].clone());
            assert(tset(out@) =~= tv(all@).take(i + 1).to_set().filter(
                |t: Seq<char>| !is_wrapper_word(t),
            ));
        } else {
            assert(tset(out@) =~= tv(all@).take(i + 1).to_set().filter(
                |t: Seq<char>| !is_wrapper_word(t),
            ));
        }
        i += 1;
    }
    assert(tv(all@).take(all@.len() as int) =~= tv(all@));
    out
}

/// A placement claim lands in `text` when its non-wrapper tokens all appear there.
pub open spec fn placement_covered(text: Seq<char>, term: Seq<char>) -> bool {
    placement_set_of(term).len() > 0 && placement_set_of(term).subset_of(token_set_of(text))
}

pub fn placement_term_is_covered(text: &str, term: &str) -> (r: bool)
    ensures
        r == placement_covered(text@, term@),
{
    let text_tokens = token_set(text);
    let term_tokens = placement_token_set(term);
    proof {
        lemma_tset_len(term_tokens@);
    }
    term_tokens.len() > 0 && is_subset(&term_tokens, &text_tokens)
}

/// The claim lands inside a single one of `texts`; words scattered across several do not count.
pub fn placement_term_is_covered_in_any(texts: &Vec<String>, term: &str) -> (r: bool)
    ensures
        r == exists|i: int| 0 <= i < texts@.len() && placement_covered(texts@[i]@, term@),
{
    let mut i: usize = 0;
    while i < texts.len()
        invariant
            i <= texts@.len(),
            forall|j: int| 0 <= j < i ==> !placement_covered(#[trigger] texts@[j]@, term@),
        decreases texts@.len() - i,
    {
        if placement_term_is_covered(texts[i].as_str(), term) {
            return true;
        }
        i += 1;
    }
    false
}

/// Two placement claims name the same capability once wrapper words are set aside.
pub open spec fn placement_equivalent(left: Seq<char>, right: Seq<char>) -> bool {
    placement_set_of(left).len() > 0 && placement_set_of(left) == placement_set_of(right)
}

pub fn placement_equivalent_terms(left: &str, right: &str) -> (r: bool)
    ensures
        r == placement_equivalent(left@, right@),
{
    let a = placement_token_set(left);
    let b = placement_token_set(right);
    proof {
        lemma_tset_len(a@);
    }
    a.len() > 0 && same_tokens(&a, &b)
}

// ------------------------------------------------------------------ term kinds

/// Leading verbs that make a phrase a responsibility rather than a skill.
pub const RESPONSIBILITY_PREFIXES: [&'static str; 39] = [
    "build ", "design ", "manage ", "lead ", "own ", "collaborate ", "ensure ", "implement ",
    "contribute ", "participate ", "create ", "define ", "support ", "translate ", "review ",
    "prioritize ", "report ", "raise ", "bring ", "identify ", "construire ", "concevoir ",
    "développer ", "gérer ", "diriger ", "piloter ", "encadrer ", "assurer ", "mettre en ",
    "participer ", "contribuer ", "collaborer ", "définir ", "créer ", "maintenir ",
    "accompagner ", "améliorer ", "identifier ", "déployer ",
];

/// Words that mark a working method or quality attribute rather than a tool.
pub const METHOD_MARKERS: [&'static str; 27] = [
    "ownership", "reliability", "maintainability", "scalability", "collaboration",
    "secure coding", "technical debt", "automated testing", "agile", "scrum", "kanban",
    "operational excellence", "stakeholder management", "system design",
    "architecture discussion", "ai fluency", "fiabilité", "maintenabilité", "évolutivité",
    "scalabilité", "dette technique", "tests automatisés", "revue de code", "conception système",
    "méthodologie agile", "accessibilité", "qualité de code",
];

/// Soft-skill boilerplate that reads as a requirement but carries no keyword value.
pub const GENERIC_TRAITS: [&'static str; 20] = [
    "curiosity", "interest in", "getting things done", "track record", "strong communication",
    "ability to prioritize", "fast-paced", "high-stakes", "added-value", "curiosité",
    "esprit d'équipe", "esprit d’équipe", "autonomie", "rigueur", "force de proposition",
    "aisance relationnelle", "sens du service", "intérêt pour", "environnement dynamique",
    "valeur ajoutée",
];

pub const TITLE_SUFFIXES: [&'static str; 11] = [
    " engineer", " developer", " manager", " architect", " specialist", " ingénieur",
    " développeur", " développeuse", " architecte", " responsable", " consultant",
];

/// French titles lead with the role word rather than trailing it.
pub const TITLE_PREFIXES: [&'static str; 6] = [
    "ingénieur ", "développeur ", "développeuse ", "architecte ", "chef de projet", "responsable ",
];

pub const RESPONSIBILITY_MARKERS: [&'static str; 19] = [
    "manage ", "lead ", "own ", "operate ", "deploy", "security", "compliance", "budget", "hire",
    "mentor", "direct reports", "gérer", "diriger", "piloter", "encadrer", "déployer", "sécurité",
    "conformité", "recruter",
];

pub open spec fn starts_with_listed<const N: usize>(v: Seq<char>, list: [&'static str; N]) -> bool {
    exists|i: int| 0 <= i < list@.len() && starts_with(v, list@[i]@)
}

pub open spec fn contains_listed<const N: usize>(v: Seq<char>, list: [&'static str; N]) -> bool {
    exists|i: int| 0 <= i < list@.len() && contains_seq(v, list@[i]@)
}

pub open spec fn ends_with_listed<const N: usize>(v: Seq<char>, list: [&'static str; N]) -> bool {
    exists|i: int| 0 <= i < list@.len() && ends_with(v, list@[i]@)
}

/// The kind a term reads as: a leading verb makes it a responsibility, a method word makes it
/// a method or domain, and otherwise the caller's fallback stands.
pub open spec fn inferred_kind_of(term: Seq<char>, fallback: Seq<char>) -> Seq<char> {
    let value = lowercase(trimmed(term));
    if starts_with_listed(value, RESPONSIBILITY_PREFIXES) {
        "responsibility"@
    } else if contains_listed(value, METHOD_MARKERS) {
        "method_domain"@
    } else {
        fallback
    }
}

fn lowered_trimmed(term: &str) -> (r: Vec<char>)
    ensures
        r@ == lowercase(trimmed(term@)),
{
    let trimmed_chars = trim_str(term);
    let trimmed_string = string_of(&trimmed_chars);
    chars_of(to_lowercase(trimmed_string.as_str()).as_str())
}

pub fn inferred_kind(term: &str, fallback: &str) -> (r: String)
    ensures
        r@ == inferred_kind_of(term@, fallback@),
{
    let value = lowered_trimmed(term);
    if starts_with_any(&value, RESPONSIBILITY_PREFIXES.as_slice()) {
        "responsibility".to_owned()
    } else if contains_any(&value, METHOD_MARKERS.as_slice()) {
        "method_domain".to_owned()
    } else {
        fallback.to_owned()
    }
}

/// The kind an analysis category names.
pub open spec fn group_kind_of(category: Seq<char>) -> Seq<char> {
    let value = lowercase(category);
    if contains_seq(value, "responsib"@) {
        "responsibility"@
    } else if contains_seq(value, "domain"@) || contains_seq(value, "method"@) {
        "method_domain"@
    } else {
        "technology"@
    }
}

pub fn group_kind(category: &str) -> (r: String)
    ensures
        r@ == group_kind_of(category@),
{
    let value = chars_of(to_lowercase(category).as_str());
    if crate::text::contains(&value, &chars_of("responsib")) {
        "responsibility".to_owned()
    } else if crate::text::contains(&value, &chars_of("domain")) || crate::text::contains(
        &value,
        &chars_of("method"),
    ) {
        "method_domain".to_owned()
    } else {
        "technology".to_owned()
    }
}

pub open spec fn is_generic(term: Seq<char>) -> bool {
    contains_listed(lowercase(term), GENERIC_TRAITS)
}

pub fn is_generic_trait(term: &str) -> (r: bool)
    ensures
        r == is_generic(term@),
{
    let value = chars_of(to_lowercase(term).as_str());
    contains_any(&value, GENERIC_TRAITS.as_slice())
}

/// Short phrases that end (English) or begin (French) with a role word.
pub open spec fn is_title(term: Seq<char>) -> bool {
    let value = lowercase(trimmed(term));
    word_count(value) <= 6 && (ends_with_listed(value, TITLE_SUFFIXES) || starts_with_listed(
        value,
        TITLE_PREFIXES,
    ))
}

pub fn is_job_title(term: &str) -> (r: bool)
    ensures
        r == is_title(term@),
{
    let value = lowered_trimmed(term);
    count_words(&value) <= 6 && (ends_with_any(&value, TITLE_SUFFIXES.as_slice()) || starts_with_any(
        &value,
        TITLE_PREFIXES.as_slice(),
    ))
}

pub open spec fn is_specific(term: Seq<char>) -> bool {
    contains_listed(lowercase(term), RESPONSIBILITY_MARKERS)
}

pub fn is_specific_responsibility(term: &str) -> (r: bool)
    ensures
        r == is_specific(term@),
{
    let value = chars_of(to_lowercase(term).as_str());
    contains_any(&value, RESPONSIBILITY_MARKERS.as_slice())
}

pub open spec fn kind_rank(kind: Seq<char>) -> int {
    if kind == "responsibility"@ {
        3
    } else if kind == "method_domain"@ {
        2
    } else {
        1
    }
}

/// Of two kinds, the more specific: responsibility over method or domain over anything else.
pub open spec fn merged_kind(left: Seq<char>, right: Seq<char>) -> Seq<char> {
    if kind_rank(right) > kind_rank(left) {
        right
    } else {
        left
    }
}

fn rank_of(kind: &str) -> (r: u8)
    ensures
        r == kind_rank(kind@),
{
    if str_eq(kind, "responsibility") {
        3
    } else if str_eq(kind, "method_domain") {
        2
    } else {
        1
    }
}

pub fn merge_kind(left: &str, right: &str) -> (r: String)
    ensures
        r@ == merged_kind(left@, right@),
{
    if rank_of(right) > rank_of(left) {
        right.to_owned()
    } else {
        left.to_owned()
    }
}

// ---------------------------------------------------------------- candidate ledger

/// One term the job post asks for, with how strongly it asks and where it asked.
#[derive(Clone, Debug)]
pub struct Candidate {
    pub term: String,
    pub kind: String,
    pub importance: u8,
    /// `core`, `required`, `preferred`, `tools`, `domain`, or `responsibilities`.
    pub group: &'static str,
}

pub struct CandView {
    pub term: Seq<char>,
    pub kind: Seq<char>,
    pub importance: u8,
    pub group: Seq<char>,
}

impl View for Candidate {
    type V = CandView;

    open spec fn view(&self) -> CandView {
        CandView { term: self.term@, kind: self.kind@, importance: self.importance, group: self.group@ }
    }
}

pub open spec fn cand_views(v: Seq<Candidate>) -> Seq<CandView> {
    v.map_values(|c: Candidate| c@)
}

pub open spec fn core_cand(s: KeywordSignal) -> CandView {
    CandView {
        term: s.term@,
        kind: inferred_kind_of(s.term@, group_kind_of(s.category@)),
        importance: s.importance,
        group: "core"@,
    }
}

pub open spec fn listed_cand(
    term: Seq<char>,
    base_kind: Seq<char>,
    infer: bool,
    importance: u8,
    group: Seq<char>,
) -> CandView {
    CandView {
        term: trimmed(term),
        kind: if infer {
            inferred_kind_of(term, base_kind)
        } else {
            base_kind
        },
        importance,
        group,
    }
}

pub open spec fn listed_cands(
    terms: Seq<String>,
    base_kind: Seq<char>,
    infer: bool,
    importance: u8,
    group: Seq<char>,
) -> Seq<CandView> {
    terms.map_values(|t: String| listed_cand(t@, base_kind, infer, importance, group))
}

/// Every term of the analysis, in the order the groups are read, before consolidation.
pub open spec fn raw_candidates(a: JobAnalysis) -> Seq<CandView> {
    a.core_keywords@.map_values(|s: KeywordSignal| core_cand(s)) + listed_cands(
        a.required_skills@,
        "technology"@,
        true,
        5,
        "required"@,
    ) + listed_cands(a.preferred_skills@, "technology"@, true, 3, "preferred"@) + listed_cands(
        a.tools_and_platforms@,
        "technology"@,
        false,
        4,
        "tools"@,
    ) + listed_cands(a.domain_terms@, "method_domain"@, false, 3, "domain"@) + listed_cands(
        a.responsibility_phrases@,
        "responsibility"@,
        false,
        4,
        "responsibilities"@,
    )
}

/// The index of the first entry equivalent to `term`, or the length when there is none.
pub open spec fn first_equiv(v: Seq<CandView>, term: Seq<char>) -> int
    decreases v.len(),
{
    if v.len() == 0 {
        0
    } else if equivalent_terms(v[0].term, term) {
        0
    } else {
        1 + first_equiv(v.drop_first(), term)
    }
}

/// `a` reads better than `b` as the label of a term: at most six words first, then shorter.
pub open spec fn displays_better(a: Seq<char>, b: Seq<char>) -> bool {
    let qa = word_count(a) <= 6;
    let qb = word_count(b) <= 6;
    (qa && !qb) || (qa == qb && utf8_len(a) < utf8_len(b))
}

/// Folds a later duplicate into the entry it duplicates: the heavier importance (and the group
/// that asked for it that strongly), the more specific kind, and the better label.
pub open spec fn merge_into(e: CandView, c: CandView) -> CandView {
    CandView {
        term: if displays_better(c.term, e.term) {
            c.term
        } else {
            e.term
        },
        kind: merged_kind(e.kind, c.kind),
        importance: if c.importance > e.importance {
            c.importance
        } else {
            e.importance
        },
        group: if c.importance > e.importance {
            c.group
        } else {
            e.group
        },
    }
}

pub open spec fn consolidate(cs: Seq<CandView>) -> Seq<CandView>
    decreases cs.len(),
{
    if cs.len() == 0 {
        seq![]
    } else {
        let prev = consolidate(cs.drop_last());
        let c = cs.last();
        let k = first_equiv(prev, c.term);
        if k < prev.len() {
            prev.update(k, merge_into(prev[k], c))
        } else {
            prev.push(c)
        }
    }
}

/// The weighted, de-duplicated set of terms a job post asks for. The preflight and the ATS
/// scorer both read this one ledger.
pub open spec fn ledger(a: JobAnalysis) -> Seq<CandView> {
    consolidate(raw_candidates(a))
}

pub proof fn lemma_first_equiv_bound(v: Seq<CandView>, term: Seq<char>)
    ensures
        0 <= first_equiv(v, term) <= v.len(),
        first_equiv(v, term) < v.len() ==> equivalent_terms(v[first_equiv(v, term)].term, term),
    decreases v.len(),
{
    if v.len() > 0 && !equivalent_terms(v[0].term, term) {
        lemma_first_equiv_bound(v.drop_first(), term);
    }
}

fn display_better(a: &str, b: &str) -> (r: bool)
    ensures
        r == displays_better(a@, b@),
{
    let ac = chars_of(a);
    let bc = chars_of(b);
    let qa = count_words(&ac) <= 6;
    let qb = count_words(&bc) <= 6;
    (qa && !qb) || (qa == qb && utf8_len_of(&ac) < utf8_len_of(&bc))
}

fn find_equivalent(v: &Vec<Candidate>, term: &str) -> (r: usize)
    ensures
        r == first_equiv(cand_views(v@), term@),
{
    let mut j: usize = 0;
    while j < v.len()
        invariant
            j <= v@.len(),
            first_equiv(cand_views(v@), term@) == j + first_equiv(
                cand_views(v@).skip(j as int),
                term@,
            ),
        decreases v@.len() - j,
    {
        assert(cand_views(v@).skip(j as int)[0] == v@[j as int]@);
        if equivalent(v[j].term.as_str(), term) {
            return j;
        }
        assert(cand_views(v@).skip(j as int).drop_first() =~= cand_views(v@).skip(j + 1));
        j += 1;
    }
    assert(cand_views(v@).skip(j as int).len() == 0);
    j
}

fn make_candidate(term: String, kind: String, importance: u8, group: &'static str) -> (r: Candidate)
    ensures
        r@ == (CandView { term: term@, kind: kind@, importance, group: group@ }),
{
    Candidate { term, kind, importance, group }
}

/// Folds each candidate into the first earlier one it is equivalent to.
pub fn consolidate_candidates(candidates: Vec<Candidate>) -> (r: Vec<Candidate>)
    ensures
        cand_views(r@) == consolidate(cand_views(candidates@)),
{
    let mut out: Vec<Candidate> = Vec::new();
    let mut i: usize = 0;
    while i < candidates.len()
        invariant
            i <= candidates@.len(),
            cand_views(out@) == consolidate(cand_views(candidates@).take(i as int)),
        decreases candidates@.len() - i,
    {
        let c = &candidates[i];
        assert(cand_views(candidates@).take(i + 1).drop_last() =~= cand_views(candidates@).take(
            i as int,
        ));
        assert(cand_views(candidates@).take(i + 1).last() == c@);
        let k = find_equivalent(&out, c.term.as_str());
        proof {
            lemma_first_equiv_bound(cand_views(out@), c.term@);
        }
        if k < out.len() {
            let e = &out[k];
            let term = if display_better(c.term.as_str(), e.term.as_str()) {
                c.term.clone()
            } else {
                e.term.clone()
            };
            let kind = merge_kind(e.kind.as_str(), c.kind.as_str());
            let heavier = c.importance > e.importance;
            let importance = if heavier {
                c.importance
            } else {
                e.importance
            };
            let group = if heavier {
                c.group
            } else {
                e.group
            };
            let merged = make_candidate(term, kind, importance, group);
            let ghost before = out@;
            out.set(k, merged);
            assert(cand_views(out@) =~= cand_views(before).update(
                k as int,
                merge_into(cand_views(before)[k as int], c@),
            ));
        } else {
            let copy = make_candidate(c.term.clone(), c.kind.clone(), c.importance, c.group);
            let ghost before = out@;
            out.push(copy);
            assert(cand_views(out@) =~= cand_views(before).push(c@));
        }
        i += 1;
    }
    assert(cand_views(candidates@).take(candidates@.len() as int) =~= cand_views(candidates@));
    out
}

fn push_listed(
    raw: &mut Vec<Candidate>,
    terms: &Vec<String>,
    base_kind: &str,
    infer: bool,
    importance: u8,
    group: &'static str,
)
    ensures
        cand_views(final(raw)@) == cand_views(old(raw)@) + listed_cands(
            terms@,
            base_kind@,
            infer,
            importance,
            group@,
        ),
{
    let ghost start = cand_views(raw@);
    let mut i: usize = 0;
    while i < terms.len()
        invariant
            i <= terms@.len(),
            cand_views(raw@) == start + listed_cands(
                terms@,
                base_kind@,
                infer,
                importance,
                group@,
            ).take(i as int),
        decreases terms@.len() - i,
    {
        let term = terms[i].as_str();
        let kind = if infer {
            inferred_kind(term, base_kind)
        } else {
            base_kind.to_owned()
        };
        let trimmed_term = string_of(&trim_str(term));
        let ghost before = raw@;
        raw.push(make_candidate(trimmed_term, kind, importance, group));
        let ghost expected = listed_cand(terms@[i as int]@, base_kind@, infer, importance, group@);
        assert(cand_views(raw@) =~= cand_views(before).push(expected));
        assert(listed_cands(terms@, base_kind@, infer, importance, group@).take(i + 1)
            =~= listed_cands(terms@, base_kind@, infer, importance, group@).take(i as int).push(
            expected,
        ));
        assert(cand_views(raw@) =~= start + listed_cands(
            terms@,
            base_kind@,
            infer,
            importance,
            group@,
        ).take(i + 1));
        i += 1;
    }
    assert(listed_cands(terms@, base_kind@, infer, importance, group@).take(
        terms@.len() as int,
    ) =~= listed_cands(terms@, base_kind@, infer, importance, group@));
}

/// The weighted, de-duplicated set of terms a job post asks for.
pub fn analysis_candidates(analysis: &JobAnalysis) -> (r: Vec<Candidate>)
    ensures
        cand_views(r@) == ledger(*analysis),
{
    let mut raw: Vec<Candidate> = Vec::new();
    let mut i: usize = 0;
    while i < analysis.core_keywords.len()
        invariant
            i <= analysis.core_keywords@.len(),
            cand_views(raw@) == analysis.core_keywords@.map_values(
                |s: KeywordSignal| core_cand(s),
            ).take(i as int),
        decreases analysis.core_keywords@.len() - i,
    {
        let signal = &analysis.core_keywords[i];
        let group_kind_value = group_kind(signal.category.as_str());
        let kind = inferred_kind(signal.term.as_str(), group_kind_value.as_str());
        let ghost before = raw@;
        raw.push(make_candidate(signal.term.clone(), kind, signal.importance, "core"));
        assert(cand_views(raw@) =~= cand_views(before).push(core_cand(*signal)));
        assert(analysis.core_keywords@.map_values(|s: KeywordSignal| core_cand(s)).take(i + 1)
            =~= analysis.core_keywords@.map_values(|s: KeywordSignal| core_cand(s)).take(
            i as int,
        ).push(core_cand(*signal)));
        assert(cand_views(raw@) =~= analysis.core_keywords@.map_values(
            |s: KeywordSignal| core_cand(s),
        ).take(i + 1));
        i += 1;
    }
    assert(analysis.core_keywords@.map_values(|s: KeywordSignal| core_cand(s)).take(
        analysis.core_keywords@.len() as int,
    ) =~= analysis.core_keywords@.map_values(|s: KeywordSignal| core_cand(s)));
    push_listed(&mut raw, &analysis.required_skills, "technology", true, 5, "required");
    push_listed(&mut raw, &analysis.preferred_skills, "technology", true, 3, "preferred");
    push_listed(&mut raw, &analysis.tools_and_platforms, "technology", false, 4, "tools");
    push_listed(&mut raw, &analysis.domain_terms, "method_domain", false, 3, "domain");
    push_listed(
        &mut raw,
        &analysis.responsibility_phrases,
        "responsibility",
        false,
        4,
        "responsibilities",
    );
    consolidate_candidates(raw)
}

} // verus!
