//! The license field of a paragraph: license expressions combined with OR,
//! normalised by the SPDX expression parser, and named the Debian way.

use vstd::prelude::*;
use crate::cleanup::{bsd3_debian, bsd3_spdx, expat, licenses_spdx_to_debian, mit, replace_all};
use crate::text::{chars_of, join_texts, join_with, push_all, string_of, views_of_texts};
use crate::tree::texts_of;

verus! {

/// The number of distinct license identifiers that the SPDX expression `s`
/// names, if it parses (the exception of a `WITH` expression is not counted).
pub uninterp spec fn spdx_license_count(s: Seq<char>) -> Option<nat>;

/// The SPDX expression `s` as the SPDX parser writes it back, if it parses.
pub uninterp spec fn spdx_rendering(s: Seq<char>) -> Option<Seq<char>>;

/// A character that the SPDX parser takes as part of an identifier.
pub open spec fn id_char(c: char) -> bool {
    ('a' <= c && c <= 'z') || ('A' <= c && c <= 'Z') || ('0' <= c && c <= '9') || c == '-' || c
        == '.'
}

pub open spec fn document_ref() -> Seq<char> {
    "DocumentRef-"@
}

/// `s` has a "DocumentRef-" whose identifier runs to the very end of the
/// text: there the SPDX parser asks for more input (the ':' that should
/// follow) and panics instead of failing.
pub open spec fn dangling_document_ref(s: Seq<char>) -> bool {
    exists|k: int|
        0 <= k && k + document_ref().len() < s.len() && #[trigger] s.subrange(
            k,
            k + document_ref().len(),
        ) == document_ref() && forall|m: int|
            k + document_ref().len() <= m < s.len() ==> id_char(#[trigger] s[m])
}

/// The SPDX parser returns on `s`.
pub open spec fn spdx_parsable(s: Seq<char>) -> bool {
    !dangling_document_ref(s)
}

/// The license count of `s`, where the parser can be asked; else nothing.
pub open spec fn safe_license_count(s: Seq<char>) -> Option<nat> {
    if spdx_parsable(s) {
        spdx_license_count(s)
    } else {
        None
    }
}

/// The rendering of `s`, where the parser can be asked; else nothing.
pub open spec fn safe_rendering(s: Seq<char>) -> Option<Seq<char>> {
    if spdx_parsable(s) {
        spdx_rendering(s)
    } else {
        None
    }
}

fn is_id_char(c: char) -> (r: bool)
    ensures
        r == id_char(c),
{
    ('a' <= c && c <= 'z') || ('A' <= c && c <= 'Z') || ('0' <= c && c <= '9') || c == '-' || c
        == '.'
}

/// Can the SPDX parser be asked about `text` without panicking?
pub fn spdx_parse_is_safe(text: &str) -> (r: bool)
    ensures
        r == spdx_parsable(text@),
{
    let s = chars_of(text);
    let p = chars_of("DocumentRef-");
    let n = s.len();
    let mut j: usize = n;
    while j > 0 && is_id_char(s[j - 1])
        invariant
            j <= n,
            n == s@.len(),
            forall|m: int| j <= m < n ==> id_char(#[trigger] s@[m]),
        decreases j,
    {
        j -= 1;
    }
    let mut k: usize = 0;
    while k < n
        invariant
            k <= n,
            n == s@.len(),
            p@ == document_ref(),
            s@ == text@,
            j <= n,
            j == 0 || !id_char(s@[j - 1]),
            forall|m: int| j <= m < n ==> id_char(#[trigger] s@[m]),
            forall|kk: int|
                0 <= kk < k ==> !(kk + document_ref().len() < s@.len() && #[trigger] s@.subrange(
                    kk,
                    kk + document_ref().len(),
                ) == document_ref() && forall|m: int|
                    kk + document_ref().len() <= m < s@.len() ==> id_char(#[trigger] s@[m])),
        decreases n - k,
    {
        if p.len() < n - k && k + p.len() >= j && crate::cleanup::matches_at(&s, k, &p) {
            proof {
                let kk = k as int;
                assert(s@.subrange(kk, kk + document_ref().len()) == document_ref());
                assert(forall|m: int|
                    kk + document_ref().len() <= m < s@.len() ==> id_char(#[trigger] s@[m]));
                assert(dangling_document_ref(s@));
                assert(!spdx_parsable(text@));
            }
            return false;
        }
        proof {
            if k + p@.len() < n && s@.subrange(k as int, k + p@.len()) == p@ {
                assert(k + p@.len() < j);
                assert(!id_char(s@[j - 1]));
            }
        }
        k += 1;
    }
    true
}

/// Relies on spdx_rs's `SpdxExpression::parse` and `SpdxExpression::licenses`:
/// how many license identifiers the parsed expression names, if it parses.
/// The parser panics on a dangling "DocumentRef-", which is left out.
#[verifier::external_body]
fn license_count(expression: &str) -> (r: Option<usize>)
    requires
        spdx_parsable(expression@),
    ensures
        match r {
            Some(n) => spdx_license_count(expression@) == Some(n as nat),
            None => spdx_license_count(expression@) is None,
        },
{
    spdx_rs::models::SpdxExpression::parse(expression).ok().map(|e| e.licenses().len())
}

/// Relies on spdx_rs's `SpdxExpression::parse` and its `Display`: the
/// parsed expression written back, if it parses. The parser panics on a
/// dangling "DocumentRef-", which is left out.
#[verifier::external_body]
fn normalized_expression(expression: &str) -> (r: Option<String>)
    requires
        spdx_parsable(expression@),
    ensures
        match r {
            Some(t) => spdx_rendering(expression@) == Some(t@),
            None => spdx_rendering(expression@) is None,
        },
{
    spdx_rs::models::SpdxExpression::parse(expression).ok().map(|e| e.to_string())
}

/// One expression as a term of an OR: in parentheses unless it names
/// exactly one license.
pub open spec fn license_term(e: Seq<char>, count: Option<nat>) -> Seq<char> {
    if count == Some(1nat) {
        e
    } else {
        seq!['('] + e + seq![')']
    }
}

pub open spec fn or_separator() -> Seq<char> {
    seq![' ', 'O', 'R', ' ']
}

/// The expressions combined with OR.
pub open spec fn combined_licenses(ls: Seq<Seq<char>>) -> Seq<char> {
    join_with(ls.map_values(|e: Seq<char>| license_term(e, safe_license_count(e))), or_separator())
}

/// The Debian names in the normalised form of `combined`, where the SPDX
/// parser gives one (`rendering`), else in `combined` itself.
pub open spec fn license_field_from(combined: Seq<char>, rendering: Option<Seq<char>>) -> Seq<char> {
    let chosen = match rendering {
        Some(t) => t,
        None => combined,
    };
    replace_all(replace_all(chosen, mit(), expat()), bsd3_spdx(), bsd3_debian())
}

/// The license field for the expressions `ls`.
pub open spec fn license_field(ls: Seq<Seq<char>>) -> Seq<char> {
    license_field_from(combined_licenses(ls), safe_rendering(combined_licenses(ls)))
}

/// One expression as a term of an OR, given how many identifiers the SPDX
/// parser found in it.
pub fn license_term_text(expression: &str, count: Option<usize>) -> (r: Vec<char>)
    ensures
        r@ == license_term(expression@, match count {
            Some(n) => Some(n as nat),
            None => None,
        }),
{
    let e = chars_of(expression);
    match count {
        Some(n) if n == 1 => e,
        _ => {
            let mut t: Vec<char> = vec!['('];
            push_all(&mut t, &e);
            t.push(')');
            assert(t@ =~= seq!['('] + e@ + seq![')']);
            t
        },
    }
}

/// The license field from the combined expressions and what the SPDX
/// parser made of them.
pub fn license_field_of(combined: &str, rendering: Option<String>) -> (r: String)
    ensures
        r@ == license_field_from(combined@, match rendering {
            Some(t) => Some(t@),
            None => None,
        }),
{
    match rendering {
        Some(t) => licenses_spdx_to_debian(t.as_str()),
        None => licenses_spdx_to_debian(combined),
    }
}

/// The license field for the expressions `license`.
pub fn license_field_text(license: &Vec<String>) -> (r: String)
    ensures
        r@ == license_field(texts_of(license@)),
{
    let ghost ls = texts_of(license@);
    let mut terms: Vec<Vec<char>> = Vec::new();
    let mut i: usize = 0;
    while i < license.len()
        invariant
            i <= license@.len(),
            ls == texts_of(license@),
            views_of_texts(terms@) == ls.take(i as int).map_values(
                |e: Seq<char>| license_term(e, safe_license_count(e)),
            ),
        decreases license@.len() - i,
    {
        let count = if spdx_parse_is_safe(license[i].as_str()) {
            license_count(license[i].as_str())
        } else {
            None
        };
        let term = license_term_text(license[i].as_str(), count);
        proof {
            assert(ls[i as int] == license@[i as int]@);
            assert(term@ =~= license_term(ls[i as int], safe_license_count(ls[i as int])));
            assert(ls.take(i + 1).map_values(|e: Seq<char>| license_term(e, safe_license_count(e)))
                =~= ls.take(i as int).map_values(
                |e: Seq<char>| license_term(e, safe_license_count(e)),
            ).push(term@));
        }
        let ghost before = terms@;
        terms.push(term);
        assert(views_of_texts(terms@) =~= views_of_texts(before).push(term@));
        i += 1;
    }
    assert(ls.take(license@.len() as int) =~= ls);
    let sep: Vec<char> = vec![' ', 'O', 'R', ' '];
    assert(sep@ =~= or_separator());
    let combined = string_of(join_texts(&terms, &sep).as_slice());
    let rendering = if spdx_parse_is_safe(combined.as_str()) {
        normalized_expression(combined.as_str())
    } else {
        None
    };
    license_field_of(combined.as_str(), rendering)
}

} // verus!
