//! Identifier canonicalization and external-tag derivation.
//!
//! Raw identifiers from the header are rewritten into the two canonical
//! casing conventions (upper-camel for type and variant names, lower-snake
//! for field names), Hungarian-notation prefixes are stripped, reserved
//! words are disambiguated, and the globally unique variant handle is
//! derived from a declaration's original name.

use vstd::prelude::*;
use crate::text::{alpha_char, chars_eq, is_alpha, match_at, matches_at, sub_vec};

verus! {

/// The upper-camel rendering of a character sequence, as produced by the
/// case-conversion library. The result depends on the characters alone.
pub uninterp spec fn upper_camel_of(s: Seq<char>) -> Seq<char>;

/// The lower-snake rendering of a character sequence, as produced by the
/// case-conversion library. The result depends on the characters alone.
pub uninterp spec fn snake_of(s: Seq<char>) -> Seq<char>;

/// Relies on heck::AsUpperCamelCase: converts an identifier to
/// UpperCamelCase; the result is a function of the input characters alone.
#[verifier::external_body]
pub(crate) fn to_upper_camel(s: &Vec<char>) -> (r: Vec<char>)
    ensures
        r@ == upper_camel_of(s@),
{
    let text: String = s.iter().collect();
    heck::AsUpperCamelCase(text.as_str()).to_string().chars().collect()
}

/// Relies on heck::AsSnakeCase: converts an identifier to snake_case; the
/// result is a function of the input characters alone.
#[verifier::external_body]
pub(crate) fn to_snake(s: &Vec<char>) -> (r: Vec<char>)
    ensures
        r@ == snake_of(s@),
{
    let text: String = s.iter().collect();
    heck::AsSnakeCase(text.as_str()).to_string().chars().collect()
}

/// Relies on str::chars: yields the characters of the string in order.
#[verifier::external_body]
pub(crate) fn str_to_chars(s: &str) -> (v: Vec<char>)
    ensures
        v@ == s@,
{
    s.chars().collect()
}

/// A short Hungarian-notation prefix (a single letter followed by an
/// underscore) is removed; other identifiers are unchanged.
pub open spec fn hungarian_stripped(s: Seq<char>) -> Seq<char> {
    if s.len() >= 2 && is_alpha(s[0]) && s[1] == '_' {
        s.skip(2)
    } else {
        s
    }
}

/// The canonical field name: strip a Hungarian prefix, render in
/// lower-snake, and append an underscore when the result collides with a
/// reserved word.
pub open spec fn mapped_field_name(raw: Seq<char>) -> Seq<char> {
    let c = snake_of(hungarian_stripped(raw));
    if c == "type"@ || c == "move"@ {
        c + "_"@
    } else {
        c
    }
}

pub fn map_field_name(raw: &Vec<char>) -> (r: Vec<char>)
    ensures
        r@ == mapped_field_name(raw@),
{
    let stripped: Vec<char> = if raw.len() >= 2 && alpha_char(raw[0]) && raw[1] == '_' {
        sub_vec(raw, 2, raw.len())
    } else {
        sub_vec(raw, 0, raw.len())
    };
    proof {
        assert(raw@.subrange(0, raw@.len() as int) =~= raw@);
        assert(raw@.len() >= 2 && is_alpha(raw@[0]) && raw@[1] == '_' ==> raw@.subrange(
            2,
            raw@.len() as int,
        ) =~= raw@.skip(2));
    }
    let mut c = to_snake(&stripped);
    let reserved = chars_eq(&c, &str_to_chars("type")) || chars_eq(&c, &str_to_chars("move"));
    if reserved {
        let suffix = str_to_chars("_");
        crate::text::append_chars(&mut c, &suffix);
    }
    c
}

/// Index of the last separator (underscore) in `s`, or -1 when none occurs.
pub open spec fn last_sep_pos(s: Seq<char>) -> int
    decreases s.len(),
{
    if s.len() == 0 {
        -1
    } else if s[s.len() - 1] == '_' {
        s.len() - 1
    } else {
        last_sep_pos(s.drop_last())
    }
}

/// The last separator of `s`, if any, replaced by the joining character.
pub open spec fn replace_last_sep(s: Seq<char>) -> Seq<char> {
    if last_sep_pos(s) < 0 {
        s
    } else {
        s.update(last_sep_pos(s), '.')
    }
}

proof fn lemma_last_sep_at(s: Seq<char>, k: int)
    requires
        0 <= k < s.len(),
        s[k] == '_',
        forall|j: int| k < j < s.len() ==> s[j] != '_',
    ensures
        last_sep_pos(s) == k,
    decreases s.len(),
{
    if k == s.len() - 1 {
    } else {
        lemma_last_sep_at(s.drop_last(), k);
    }
}

proof fn lemma_last_sep_none(s: Seq<char>)
    requires
        forall|j: int| 0 <= j < s.len() ==> s[j] != '_',
    ensures
        last_sep_pos(s) == -1,
    decreases s.len(),
{
    if s.len() > 0 {
        lemma_last_sep_none(s.drop_last());
    }
}

pub fn replace_last_underscore(s: &Vec<char>) -> (r: Vec<char>)
    ensures
        r@ == replace_last_sep(s@),
{
    let mut i: usize = s.len();
    while i > 0
        invariant
            i <= s@.len(),
            forall|j: int| i <= j < s@.len() ==> s@[j] != '_',
        decreases i,
    {
        if s[i - 1] == '_' {
            let mut r = sub_vec(s, 0, s.len());
            proof {
                assert(s@.subrange(0, s@.len() as int) =~= s@);
                lemma_last_sep_at(s@, i - 1);
            }
            r.set(i - 1, '.');
            return r;
        }
        i = i - 1;
    }
    proof {
        lemma_last_sep_none(s@);
        assert(s@.subrange(0, s@.len() as int) =~= s@);
    }
    sub_vec(s, 0, s.len())
}

/// True when `pat` occurs somewhere in `s`.
pub open spec fn contains_sub(s: Seq<char>, pat: Seq<char>) -> bool {
    exists|i: int| matches_at(s, i, pat)
}

pub fn contains_chars(s: &Vec<char>, pat: &Vec<char>) -> (r: bool)
    ensures
        r == contains_sub(s@, pat@),
{
    if pat.len() > s.len() {
        proof {
            assert(forall|i: int| !matches_at(s@, i, pat@));
        }
        return false;
    }
    if pat.len() == 0 {
        proof {
            assert(s@.subrange(0, 0) =~= pat@);
            assert(matches_at(s@, 0, pat@));
        }
        return true;
    }
    let mut i: usize = 0;
    let last = s.len() - pat.len();
    while i <= last
        invariant
            1 <= pat@.len() <= s@.len() <= usize::MAX,
            last == s@.len() - pat@.len(),
            i <= last + 1,
            forall|j: int| 0 <= j < i ==> !matches_at(s@, j, pat@),
        decreases last + 1 - i,
    {
        if match_at(s, i, pat) {
            return true;
        }
        i = i + 1;
    }
    proof {
        assert(forall|j: int| !matches_at(s@, j, pat@)) by {
            assert(forall|j: int| j > last ==> !matches_at(s@, j, pat@));
        }
    }
    false
}

/// The one original name whose handle is passed through unchanged.
pub open spec fn handle_exception() -> Seq<char> {
    "eParticleEmitterBoxEntity"@
}

/// The external string tag derived from a declaration's original name:
/// the last separator is replaced by the joining character, except for the
/// one named exception, which is passed through unchanged.
pub open spec fn variant_handle_of(original: Seq<char>) -> Seq<char> {
    if contains_sub(original, handle_exception()) {
        original
    } else {
        replace_last_sep(original)
    }
}

pub fn variant_handle(original: &Vec<char>) -> (r: Vec<char>)
    ensures
        r@ == variant_handle_of(original@),
{
    let exception = str_to_chars("eParticleEmitterBoxEntity");
    if contains_chars(original, &exception) {
        sub_vec(original, 0, original.len())
    } else {
        replace_last_underscore(original)
    }
}

} // verus!

verus! {

proof fn lemma_last_sep_props(s: Seq<char>)
    ensures
        -1 <= last_sep_pos(s) < s.len(),
        last_sep_pos(s) >= 0 ==> s[last_sep_pos(s)] == '_',
        forall|q: int| last_sep_pos(s) < q < s.len() ==> s[q] != '_',
    decreases s.len(),
{
    if s.len() > 0 && s[s.len() - 1] != '_' {
        lemma_last_sep_props(s.drop_last());
        assert forall|q: int| last_sep_pos(s) < q < s.len() implies s[q] != '_' by {
            if q < s.len() - 1 {
                assert(s.drop_last()[q] == s[q]);
            }
        }
    }
}

/// Handle derivation: an original name containing the named exception is
/// passed through unchanged; otherwise the last underscore, when one
/// occurs, is replaced by the joining character, and a name without an
/// underscore is passed through.
pub proof fn lemma_handle_derivation(original: Seq<char>)
    ensures
        contains_sub(original, handle_exception()) ==> variant_handle_of(original) == original,
        !contains_sub(original, handle_exception()) && last_sep_pos(original) >= 0 ==> {
            let p = last_sep_pos(original);
            &&& variant_handle_of(original) == original.update(p, '.')
            &&& original[p] == '_'
            &&& forall|q: int| p < q < original.len() ==> original[q] != '_'
        },
        !contains_sub(original, handle_exception()) && last_sep_pos(original) < 0 ==> {
            &&& variant_handle_of(original) == original
            &&& forall|q: int| 0 <= q < original.len() ==> original[q] != '_'
        },
{
    lemma_last_sep_props(original);
}

} // verus!
