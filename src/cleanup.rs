//! Cleaning up copyright text, and rewriting license identifiers between
//! their SPDX and Debian names.

use vstd::prelude::*;
use crate::summary::dedup_sorted;
use crate::text::{
    chars_of, slice_of, sort_texts, sorted_texts, split_chars, split_on, string_of, trim, trimmed,
    views_of_texts,
};

verus! {

/// `s` with every occurrence of `from` replaced by `to`, scanning left to
/// right without overlaps, as `str::replace` does.
pub open spec fn replace_all(s: Seq<char>, from: Seq<char>, to: Seq<char>) -> Seq<char>
    decreases s.len(),
{
    if from.len() == 0 || s.len() < from.len() {
        s
    } else if s.take(from.len() as int) == from {
        to + replace_all(s.skip(from.len() as int), from, to)
    } else {
        seq![s[0]] + replace_all(s.skip(1), from, to)
    }
}

pub open spec fn expat() -> Seq<char> {
    seq!['E', 'x', 'p', 'a', 't']
}

pub open spec fn mit() -> Seq<char> {
    seq!['M', 'I', 'T']
}

pub open spec fn bsd3_debian() -> Seq<char> {
    seq!['B', 'S', 'D', '-', '3', '-', 'c', 'l', 'a', 'u', 's', 'e']
}

pub open spec fn bsd3_spdx() -> Seq<char> {
    seq!['B', 'S', 'D', '-', '3', '-', 'C', 'l', 'a', 'u', 's', 'e']
}

pub(crate) fn matches_at(s: &Vec<char>, i: usize, w: &Vec<char>) -> (r: bool)
    requires
        i <= s@.len(),
    ensures
        r == (w@.len() <= s@.len() - i && s@.subrange(i as int, i + w@.len()) == w@),
{
    if w.len() > s.len() - i {
        return false;
    }
    let mut k: usize = 0;
    while k < w.len()
        invariant
            i + w@.len() <= s@.len() <= usize::MAX,
            k <= w@.len(),
            forall|m: int| 0 <= m < k ==> s@[i + m] == w@[m],
        decreases w@.len() - k,
    {
        if s[i + k] != w[k] {
            assert(s@.subrange(i as int, i + w@.len())[k as int] != w@[k as int]);
            return false;
        }
        k += 1;
    }
    assert(s@.subrange(i as int, i + w@.len()) =~= w@);
    true
}

/// `s` with every occurrence of `from` replaced by `to`.
pub fn replace_chars(s: &Vec<char>, from: &Vec<char>, to: &Vec<char>) -> (r: Vec<char>)
    ensures
        r@ == replace_all(s@, from@, to@),
{
    let mut out: Vec<char> = Vec::new();
    let mut i: usize = 0;
    assert(s@.skip(0) =~= s@);
    if from.len() == 0 {
        return crate::text::slice_of(s, 0, s.len());
    }
    while i < s.len()
        invariant
            from@.len() > 0,
            i <= s@.len(),
            out@ + replace_all(s@.skip(i as int), from@, to@) == replace_all(s@, from@, to@),
        decreases s@.len() - i,
    {
        let ghost t = s@.skip(i as int);
        if matches_at(s, i, from) {
            assert(t.take(from@.len() as int) =~= s@.subrange(i as int, i + from@.len()));
            assert(t.skip(from@.len() as int) =~= s@.skip(i + from@.len()));
            let ghost before = out@;
            crate::text::push_all(&mut out, to);
            assert(out@ + replace_all(s@.skip(i + from@.len()), from@, to@) =~= before + (to@
                + replace_all(t.skip(from@.len() as int), from@, to@)));
            i += from.len();
        } else {
            proof {
                if t.len() >= from@.len() {
                    assert(t.take(from@.len() as int) =~= s@.subrange(i as int, i + from@.len()));
                }
                assert(t.skip(1) =~= s@.skip(i + 1));
            }
            let ghost before = out@;
            out.push(s[i]);
            assert(out@ + replace_all(s@.skip(i + 1), from@, to@) =~= before + (seq![t[0]]
                + replace_all(t.skip(1), from@, to@)));
            i += 1;
        }
    }
    assert(out@ + replace_all(s@.skip(i as int), from@, to@) == out@ + s@.skip(i as int));
    assert(out@ =~= out@ + s@.skip(i as int));
    out
}

/// Debian's license names rewritten to SPDX's: "Expat" becomes "MIT",
/// then "BSD-3-clause" becomes "BSD-3-Clause".
pub fn licenses_debian_to_spdx(text: &str) -> (r: String)
    ensures
        r@ == replace_all(replace_all(text@, expat(), mit()), bsd3_debian(), bsd3_spdx()),
{
    let s = chars_of(text);
    let a = replace_chars(&s, &vec!['E', 'x', 'p', 'a', 't'], &vec!['M', 'I', 'T']);
    let b = replace_chars(
        &a,
        &vec!['B', 'S', 'D', '-', '3', '-', 'c', 'l', 'a', 'u', 's', 'e'],
        &vec!['B', 'S', 'D', '-', '3', '-', 'C', 'l', 'a', 'u', 's', 'e'],
    );
    string_of(b.as_slice())
}

/// SPDX's license names rewritten to Debian's: "MIT" becomes "Expat",
/// then "BSD-3-Clause" becomes "BSD-3-clause".
pub fn licenses_spdx_to_debian(text: &str) -> (r: String)
    ensures
        r@ == replace_all(replace_all(text@, mit(), expat()), bsd3_spdx(), bsd3_debian()),
{
    let s = chars_of(text);
    let a = replace_chars(&s, &vec!['M', 'I', 'T'], &vec!['E', 'x', 'p', 'a', 't']);
    let b = replace_chars(
        &a,
        &vec!['B', 'S', 'D', '-', '3', '-', 'C', 'l', 'a', 'u', 's', 'e'],
        &vec!['B', 'S', 'D', '-', '3', '-', 'c', 'l', 'a', 'u', 's', 'e'],
    );
    string_of(b.as_slice())
}

/// What `Regex::new(pattern)` and then `replace(text, replacement)` give:
/// the text with its leftmost-first match replaced once; nothing where the
/// pattern does not compile.
pub uninterp spec fn regex_replaced_first(
    pattern: Seq<char>,
    text: Seq<char>,
    replacement: Seq<char>,
) -> Option<Seq<char>>;

/// Relies on regex's `Regex::new` and `Regex::replace`: the first match
/// of `pattern` in `text` replaced by `replacement`, if the pattern compiles.
#[verifier::external_body]
fn replace_first_match(pattern: &str, text: &str, replacement: &str) -> (r: Option<String>)
    ensures
        match r {
            Some(t) => regex_replaced_first(pattern@, text@, replacement@) == Some(t@),
            None => regex_replaced_first(pattern@, text@, replacement@) is None,
        },
{
    regex::Regex::new(pattern).ok().map(|re| re.replace(text, replacement).into_owned())
}

/// What a copyright line must not end with: a license identifier tag, a run
/// of line breaks, commas or quotes, or a row of semicolons.
pub open spec fn trailing_noise() -> Seq<char> {
    "(SPDX-License-Identifier:.*|(\\n|,|')+|.*;;;;;;;;;;;;;)$"@
}

/// `s` after the prefix `p`, trimmed, where `s` starts with `p`.
pub open spec fn without_prefix(s: Seq<char>, p: Seq<char>) -> Seq<char> {
    if p.len() <= s.len() && s.take(p.len() as int) == p {
        trimmed(s.skip(p.len() as int))
    } else {
        s
    }
}

/// `s` before the suffix `p`, trimmed, where `s` ends with `p`.
pub open spec fn without_suffix(s: Seq<char>, p: Seq<char>) -> Seq<char> {
    if p.len() <= s.len() && s.skip(s.len() - p.len()) == p {
        trimmed(s.take(s.len() - p.len()))
    } else {
        s
    }
}

/// A line of copyright text with its decoration removed: the tag and the
/// word "Copyright" with its sign in front, quotes and an escaped line
/// break behind, and trailing noise.
pub open spec fn clean_line(line: Seq<char>) -> Seq<char> {
    let a = without_prefix(trimmed(line), "SPDX-FileCopyrightText:"@);
    let b = without_prefix(a, "Copyright"@);
    let c = without_prefix(b, ":"@);
    let d = without_prefix(c, "Copyright"@);
    let e = without_prefix(d, "(c)"@);
    let f = without_prefix(e, "(C)"@);
    let g = without_suffix(f, "'"@);
    let h = without_suffix(g, "\""@);
    let i = without_suffix(h, "\\n"@);
    match regex_replaced_first(trailing_noise(), i, ""@) {
        Some(t) => t,
        None => i,
    }
}

/// The non-empty texts of `s`, in order.
pub open spec fn non_empty(s: Seq<Seq<char>>) -> Seq<Seq<char>>
    decreases s.len(),
{
    if s.len() == 0 {
        s
    } else if s.last().len() == 0 {
        non_empty(s.drop_last())
    } else {
        non_empty(s.drop_last()).push(s.last())
    }
}

/// The cleaned, non-empty lines of the text, sorted, each kept once.
pub open spec fn cleaned_lines(text: Option<Seq<char>>) -> Seq<Seq<char>> {
    match text {
        None => seq![],
        Some(t) => dedup_sorted(
            sorted_texts(non_empty(split_on(t, '\n').map_values(|l: Seq<char>| clean_line(l)))),
        ),
    }
}

fn strip_prefix_if_present(s: String, prefix: &str) -> (r: String)
    ensures
        r@ == without_prefix(s@, prefix@),
{
    let chars = chars_of(s.as_str());
    let p = chars_of(prefix);
    if matches_at(&chars, 0, &p) {
        assert(chars@.subrange(0, p@.len() as int) =~= chars@.take(p@.len() as int));
        let rest = string_of(slice_of(&chars, p.len(), chars.len()).as_slice());
        assert(chars@.subrange(p@.len() as int, chars@.len() as int) =~= chars@.skip(p@.len() as int));
        trim(rest.as_str()).to_owned()
    } else {
        proof {
            if p@.len() <= chars@.len() {
                assert(chars@.subrange(0, p@.len() as int) =~= chars@.take(p@.len() as int));
            }
        }
        s
    }
}

fn strip_suffix_if_present(s: String, suffix: &str) -> (r: String)
    ensures
        r@ == without_suffix(s@, suffix@),
{
    let chars = chars_of(s.as_str());
    let p = chars_of(suffix);
    if p.len() <= chars.len() && matches_at(&chars, chars.len() - p.len(), &p) {
        assert(chars@.subrange(chars@.len() - p@.len(), chars@.len() as int) =~= chars@.skip(
            chars@.len() - p@.len(),
        ));
        let rest = string_of(slice_of(&chars, 0, chars.len() - p.len()).as_slice());
        assert(chars@.subrange(0, chars@.len() - p@.len()) =~= chars@.take(chars@.len() - p@.len()));
        trim(rest.as_str()).to_owned()
    } else {
        proof {
            if p@.len() <= chars@.len() {
                assert(chars@.subrange(chars@.len() - p@.len(), chars@.len() as int) =~= chars@.skip(
                    chars@.len() - p@.len(),
                ));
            }
        }
        s
    }
}

/// A line of copyright text with its decoration removed.
pub fn clean_copyright_line(line: &str) -> (r: String)
    ensures
        r@ == clean_line(line@),
{
    let s = trim(line).to_owned();
    let s = strip_prefix_if_present(s, "SPDX-FileCopyrightText:");
    let s = strip_prefix_if_present(s, "Copyright");
    let s = strip_prefix_if_present(s, ":");
    let s = strip_prefix_if_present(s, "Copyright");
    let s = strip_prefix_if_present(s, "(c)");
    let s = strip_prefix_if_present(s, "(C)");
    let s = strip_suffix_if_present(s, "'");
    let s = strip_suffix_if_present(s, "\"");
    let s = strip_suffix_if_present(s, "\\n");
    match replace_first_match("(SPDX-License-Identifier:.*|(\\n|,|')+|.*;;;;;;;;;;;;;)$", s.as_str(), "") {
        Some(t) => t,
        None => s,
    }
}

/// The cleaned, non-empty lines of the text, sorted, each kept once.
pub fn cleanup_copyright_text(text: &Option<String>) -> (r: Vec<String>)
    ensures
        r@.map_values(|l: String| l@) == cleaned_lines(match text {
            Some(t) => Some(t@),
            None => None,
        }),
{
    let t = match text {
        None => {
            let r: Vec<String> = Vec::new();
            assert(r@.map_values(|l: String| l@) =~= Seq::<Seq<char>>::empty());
            return r;
        },
        Some(t) => t,
    };
    let chars = chars_of(t.as_str());
    let pieces = split_chars(&chars, '\n');
    let ghost ls = split_on(t@, '\n').map_values(|l: Seq<char>| clean_line(l));
    let mut kept: Vec<Vec<char>> = Vec::new();
    let mut i: usize = 0;
    assert(ls.take(0) =~= Seq::<Seq<char>>::empty());
    while i < pieces.len()
        invariant
            i <= pieces@.len(),
            pieces@.map_values(|p: Vec<char>| p@) == split_on(t@, '\n'),
            ls == split_on(t@, '\n').map_values(|l: Seq<char>| clean_line(l)),
            views_of_texts(kept@) == non_empty(ls.take(i as int)),
        decreases pieces@.len() - i,
    {
        let line = string_of(pieces[i].as_slice());
        let cleaned = chars_of(clean_copyright_line(line.as_str()).as_str());
        proof {
            assert(pieces@[i as int]@ == split_on(t@, '\n')[i as int]);
            assert(ls.take(i + 1).drop_last() =~= ls.take(i as int));
            assert(ls.take(i + 1).last() == cleaned@);
        }
        if cleaned.len() > 0 {
            let ghost before = kept@;
            kept.push(cleaned);
            assert(views_of_texts(kept@) =~= views_of_texts(before).push(cleaned@));
        }
        i += 1;
    }
    assert(ls.take(pieces@.len() as int) =~= ls);
    let sorted = sort_texts(kept);
    let ghost st = views_of_texts(sorted@);
    let mut out: Vec<String> = Vec::new();
    let mut last: Vec<char> = Vec::new();
    let mut j: usize = 0;
    assert(st.take(0) =~= Seq::<Seq<char>>::empty());
    assert(out@.map_values(|l: String| l@) =~= Seq::<Seq<char>>::empty());
    while j < sorted.len()
        invariant
            j <= sorted@.len(),
            st == views_of_texts(sorted@),
            out@.map_values(|l: String| l@) == dedup_sorted(st.take(j as int)),
            out@.len() > 0 ==> last@ == out@.last()@,
        decreases sorted@.len() - j,
    {
        proof {
            assert(st.take(j + 1).drop_last() =~= st.take(j as int));
            assert(st.take(j + 1).last() == sorted@[j as int]@);
        }
        let n = out.len();
        let keep = n == 0 || !crate::text::same_text(string_of(last.as_slice()).as_str(), string_of(sorted[j].as_slice()).as_str());
        if keep {
            let x = string_of(sorted[j].as_slice());
            last = slice_of(&sorted[j], 0, sorted[j].len());
            assert(last@ =~= sorted@[j as int]@);
            let ghost before = out@;
            out.push(x);
            assert(out@.map_values(|l: String| l@) =~= before.map_values(|l: String| l@).push(x@));
        }
        j += 1;
    }
    assert(st.take(sorted@.len() as int) =~= st);
    out
}

} // verus!
