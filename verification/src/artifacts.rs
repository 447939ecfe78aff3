//! Rules for publishing a variant's documents, and the law that every variant the tailoring
//! run names passes them.

use vstd::prelude::*;
use crate::evidence::{trim_end_char, trim_start_char};
use crate::json::JsonView;
use crate::tailoring::{
    bounded, company_role, dash_trimmed, date_prefix, hex_digit, hex_digits, lemma_slug_path_safe,
    lemma_trim_end_shape, lemma_trim_start_shape, padded, slug_char, slug_of,
};
use crate::text::{chars_of, decimal, digit_char, str_eq};

verus! {

/// Where a verified artifact was published and how it was checked.
#[derive(Clone, Debug, PartialEq, Eq)]
pub struct ArtifactProvenance {
    pub variant_slug: String,
    pub format: String,
    pub source_path: String,
    pub downloads_path: String,
    pub sha256: String,
    pub manifest_path: String,
    pub verification_status: String,
}

/// The lowercase hexadecimal SHA-256 digest of `bytes`.
pub uninterp spec fn sha256_hex_of(bytes: Seq<u8>) -> Seq<char>;

/// `sha2::Sha256::digest` of `bytes`, printed with `{:x}`: the digest as lowercase hex. The
/// digest depends on the bytes alone; its value is left to the name.
#[verifier::external_body]
fn sha256_hex(bytes: &[u8]) -> (r: String)
    ensures
        r@ == sha256_hex_of(bytes@),
{
    format!("{:x}", <sha2::Sha256 as sha2::Digest>::digest(bytes))
}

/// The refusal of a published copy whose digest differs from its source's.
pub const COPY_MISMATCH_MESSAGE: &'static str = "Downloads artifact hash did not match the selected variant; the copy was removed.";

/// The digest of a published copy, when it matches its source's: `None` when the two differ.
pub fn checked_copy_digest(source: &[u8], copy: &[u8]) -> (r: Option<String>)
    ensures
        r is Some <==> sha256_hex_of(source@) == sha256_hex_of(copy@),
        r matches Some(d) ==> d@ == sha256_hex_of(source@),
{
    let expected = sha256_hex(source);
    let actual = sha256_hex(copy);
    if str_eq(expected.as_str(), actual.as_str()) {
        Some(expected)
    } else {
        None
    }
}

/// The digests the manifest records: of the DOCX, and of the PDF when there is one.
pub fn manifest_digests(docx: &[u8], pdf: Option<&[u8]>) -> (r: (String, Option<String>))
    ensures
        r.0@ == sha256_hex_of(docx@),
        match pdf {
            Some(p) => r.1 matches Some(d) && d@ == sha256_hex_of(p@),
            None => r.1 is None,
        },
{
    let docx_digest = sha256_hex(docx);
    let pdf_digest = match pdf {
        Some(p) => Some(sha256_hex(p)),
        None => None,
    };
    (docx_digest, pdf_digest)
}

/// The record of a published artifact. It is marked `verified` only when the copy's digest
/// equals the source's, and it records that digest; a mismatch gives `None`.
pub fn verified_provenance(
    variant_slug: String,
    format: String,
    source_path: String,
    downloads_path: String,
    source: &[u8],
    copy: &[u8],
    manifest_path: String,
) -> (r: Option<ArtifactProvenance>)
    ensures
        r is Some <==> sha256_hex_of(source@) == sha256_hex_of(copy@),
        r matches Some(p) ==> {
            &&& p.variant_slug == variant_slug
            &&& p.format == format
            &&& p.source_path == source_path
            &&& p.downloads_path == downloads_path
            &&& p.sha256@ == sha256_hex_of(source@)
            &&& p.manifest_path == manifest_path
            &&& p.verification_status@ == "verified"@
        },
{
    match checked_copy_digest(source, copy) {
        Some(sha256) => Some(
            ArtifactProvenance {
                variant_slug,
                format,
                source_path,
                downloads_path,
                sha256,
                manifest_path,
                verification_status: "verified".to_string(),
            },
        ),
        None => None,
    }
}

/// A variant name the publication step accepts: not empty, and only lowercase ASCII letters,
/// digits and dashes, so it cannot leave the variants directory.
pub open spec fn publishable_slug(s: Seq<char>) -> bool {
    s.len() > 0 && forall|i: int| 0 <= i < s.len() ==> slug_char(#[trigger] s[i])
}

/// Whether a variant name may be published.
pub fn is_publishable_slug(slug: &str) -> (r: bool)
    ensures
        r == publishable_slug(slug@),
{
    let cs = chars_of(slug);
    if cs.len() == 0 {
        return false;
    }
    let mut i: usize = 0;
    while i < cs.len()
        invariant
            i <= cs@.len(),
            cs@ == slug@,
            forall|k: int| 0 <= k < i ==> slug_char(#[trigger] cs@[k]),
        decreases cs@.len() - i,
    {
        let c = cs[i];
        if !(('a' <= c && c <= 'z') || ('0' <= c && c <= '9') || c == '-') {
            return false;
        }
        i += 1;
    }
    true
}

/// The two document formats a variant can publish.
pub open spec fn artifact_format(format: Seq<char>) -> bool {
    format == "pdf"@ || format == "docx"@
}

pub fn is_artifact_format(format: &str) -> (r: bool)
    ensures
        r == artifact_format(format@),
{
    str_eq(format, "pdf") || str_eq(format, "docx")
}

/// The fit status a published DOCX carries: a PDF beside it means the page fit failed;
/// without one, the fit was never checked.
pub open spec fn docx_fit_status_of(pdf_exists: bool) -> Seq<char> {
    if pdf_exists {
        "failed"@
    } else {
        "not_run"@
    }
}

pub fn docx_fit_status(pdf_exists: bool) -> (r: &'static str)
    ensures
        r@ == docx_fit_status_of(pdf_exists),
{
    if pdf_exists {
        "failed"
    } else {
        "not_run"
    }
}

proof fn lemma_digit_char(d: nat)
    requires
        d < 10,
    ensures
        '0' <= digit_char(d) <= '9',
{
    assert(digit_char(d) as u32 == d + 48);
}

proof fn lemma_decimal_digits(n: nat)
    ensures
        forall|i: int| 0 <= i < decimal(n).len() ==> '0' <= #[trigger] decimal(n)[i] <= '9',
    decreases n,
{
    if n < 10 {
        lemma_digit_char(n);
    } else {
        lemma_decimal_digits(n / 10);
        lemma_digit_char(n % 10);
        let p = decimal(n / 10);
        assert forall|i: int| 0 <= i < decimal(n).len() implies '0' <= #[trigger] decimal(n)[i]
            <= '9' by {
            if i < p.len() {
                assert(decimal(n)[i] == p[i]);
            }
        }
    }
}

proof fn lemma_padded_digits(n: nat, width: nat)
    ensures
        forall|i: int| 0 <= i < padded(n, width).len() ==> '0' <= #[trigger] padded(n, width)[i] <= '9',
{
    lemma_decimal_digits(n);
    let d = decimal(n);
    if d.len() < width {
        let z = Seq::new((width - d.len()) as nat, |i: int| '0');
        assert forall|i: int| 0 <= i < padded(n, width).len() implies '0' <= #[trigger] padded(
            n,
            width,
        )[i] <= '9' by {
            if i < z.len() {
                assert(padded(n, width)[i] == z[i]);
            } else {
                assert(padded(n, width)[i] == d[i - z.len()]);
            }
        }
    }
}

proof fn lemma_hex_digits_slug(n: nat, count: nat)
    ensures
        forall|i: int| 0 <= i < hex_digits(n, count).len() ==> slug_char(#[trigger] hex_digits(n, count)[i]),
    decreases count,
{
    if count > 0 {
        lemma_hex_digits_slug(n / 16, (count - 1) as nat);
        let m = n % 16;
        if m < 10 {
            lemma_digit_char(m);
        } else {
            assert(hex_digit(m) as u32 == m + 87);
        }
        let p = hex_digits(n / 16, (count - 1) as nat);
        assert forall|i: int| 0 <= i < hex_digits(n, count).len() implies slug_char(
            #[trigger] hex_digits(n, count)[i],
        ) by {
            if i < p.len() {
                assert(hex_digits(n, count)[i] == p[i]);
            }
        }
    }
}

proof fn lemma_bounded_slug_chars(slug: Seq<char>, max_len: nat)
    requires
        publishable_slug(slug),
    ensures
        publishable_slug(bounded(slug, max_len)),
{
    if slug.len() > max_len {
        let prefix_len: nat = if max_len >= 9 {
            (max_len - 9) as nat
        } else {
            0
        };
        let prefix = slug.take(prefix_len as int);
        lemma_trim_end_shape(prefix, '-');
        let e = trim_end_char(prefix, '-');
        lemma_trim_start_shape(e, '-');
        let t = trim_start_char(e, '-');
        let ke = choose|k: int| 0 <= k <= prefix.len() && e == prefix.take(k);
        let ks = choose|k: int| 0 <= k <= e.len() && t == e.subrange(k, e.len() as int);
        assert(dash_trimmed(prefix) == t);
        let h = hex_digits(crate::tailoring::fnv1a(crate::tailoring::ascii_bytes(slug)) as nat, 8);
        lemma_hex_digits_slug(crate::tailoring::fnv1a(crate::tailoring::ascii_bytes(slug)) as nat, 8);
        reveal_strlit("-");
        let r = t + "-"@ + h;
        assert(bounded(slug, max_len) == r);
        assert forall|i: int| 0 <= i < r.len() implies slug_char(#[trigger] r[i]) by {
            if i < t.len() {
                assert(r[i] == t[i]);
                assert(t[i] == e[ks + i]);
                assert(e[ks + i] == prefix[ks + i]);
                assert(prefix[ks + i] == slug[ks + i]);
            } else if i == t.len() {
                assert(r[i] == '-');
            } else {
                assert(r[i] == h[i - t.len() - 1]);
            }
        }
    }
}

/// The name a tailoring run gives its variant: the day, the company and role, the language.
pub open spec fn variant_name(days: int, job: JsonView, role_target: Seq<char>, language: Seq<char>) -> Seq<
    char,
> {
    date_prefix(days) + "-"@ + company_role(job, role_target, language)
}

/// Every variant a run in English or French names is one the publication step accepts,
/// whatever the job, the role and the day.
pub proof fn lemma_variant_names_are_publishable(
    days: int,
    job: JsonView,
    role_target: Seq<char>,
    language: Seq<char>,
)
    requires
        language == "en"@ || language == "fr"@,
    ensures
        publishable_slug(variant_name(days, job, role_target, language)),
{
    reveal_strlit("-");
    reveal_strlit("en");
    reveal_strlit("fr");
    let company = crate::tailoring::text_or(crate::json::field(job, "company"@), "unknown-company"@);
    let role = if crate::text::trimmed(role_target).len() == 0 {
        crate::tailoring::text_or(crate::json::field(job, "title"@), "unknown-role"@)
    } else {
        role_target
    };
    let slug = slug_of(company + "-"@ + role);
    lemma_slug_path_safe(company + "-"@ + role);
    let suffix = "-"@ + language;
    let limit: nat = if crate::text::utf8_len(suffix) <= 64 {
        (64 - crate::text::utf8_len(suffix)) as nat
    } else {
        0
    };
    lemma_bounded_slug_chars(slug, limit);
    let b = bounded(slug, limit);
    let cr = b + suffix;
    assert(company_role(job, role_target, language) == cr);
    let (y, m, d) = crate::tailoring::civil_from_days(days);
    let py = padded(y as nat, 4);
    let pm = padded(m as nat, 2);
    let pd = padded(d as nat, 2);
    lemma_padded_digits(y as nat, 4);
    lemma_padded_digits(m as nat, 2);
    lemma_padded_digits(d as nat, 2);
    let dp = py + "-"@ + pm + "-"@ + pd;
    assert(date_prefix(days) == dp);
    let name = dp + "-"@ + cr;
    assert(variant_name(days, job, role_target, language) == name);
    assert forall|i: int| 0 <= i < dp.len() implies slug_char(#[trigger] dp[i]) by {
        if i < py.len() {
            assert(dp[i] == py[i]);
        } else if i == py.len() {
            assert(dp[i] == '-');
        } else if i < py.len() + 1 + pm.len() {
            assert(dp[i] == pm[i - py.len() - 1]);
        } else if i == py.len() + 1 + pm.len() {
            assert(dp[i] == '-');
        } else {
            assert(dp[i] == pd[i - py.len() - 2 - pm.len()]);
        }
    }
    assert forall|i: int| 0 <= i < suffix.len() implies slug_char(#[trigger] suffix[i]) by {}
    assert forall|i: int| 0 <= i < cr.len() implies slug_char(#[trigger] cr[i]) by {
        if i < b.len() {
            assert(cr[i] == b[i]);
        } else {
            assert(cr[i] == suffix[i - b.len()]);
        }
    }
    assert forall|i: int| 0 <= i < name.len() implies slug_char(#[trigger] name[i]) by {
        if i < dp.len() {
            assert(name[i] == dp[i]);
        } else if i == dp.len() {
            assert(name[i] == '-');
        } else {
            assert(name[i] == cr[i - dp.len() - 1]);
        }
    }
}

} // verus!
