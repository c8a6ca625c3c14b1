//! Declaration extraction from a full header.
//!
//! Two passes run over the same header text: one collects `enum class`
//! declarations, the other plain `class` declarations. Each pass locates a
//! declaration keyword, reads the declaration name, and hands the
//! brace-delimited body to the enum or class extractor. A declaration whose
//! body is missing or never closed is skipped.

use vstd::prelude::*;
use crate::classes::{class_fields_spec, digits_end, field_views, FieldDeclaration, FieldShape};
use crate::enums::{enum_variants_spec, variant_views, EnumVariant, VariantShape};
use crate::names::{str_to_chars, upper_camel_of};
use crate::scanner::block_of;
use crate::text::{
    chars_eq, is_word, lemma_word_end_bounds, lemma_ws_end_bounds, match_at, matches_at, sub_vec,
    word_end, ws_end,
};
use crate::types::views_of;

verus! {

/// One extracted enum declaration.
pub struct EnumDeclaration {
    pub original: Vec<char>,
    pub canonical: Vec<char>,
    pub variants: Vec<EnumVariant>,
}

/// The mathematical content of an enum declaration.
pub struct EnumDeclShape {
    pub original: Seq<char>,
    pub canonical: Seq<char>,
    pub variants: Seq<VariantShape>,
}

impl View for EnumDeclaration {
    type V = EnumDeclShape;

    open spec fn view(&self) -> EnumDeclShape {
        EnumDeclShape {
            original: self.original@,
            canonical: self.canonical@,
            variants: variant_views(self.variants@),
        }
    }
}

/// One extracted class declaration.
pub struct ClassDeclaration {
    pub original: Vec<char>,
    pub canonical: Vec<char>,
    pub fields: Vec<FieldDeclaration>,
}

/// The mathematical content of a class declaration.
pub struct ClassDeclShape {
    pub original: Seq<char>,
    pub canonical: Seq<char>,
    pub fields: Seq<FieldShape>,
}

impl View for ClassDeclaration {
    type V = ClassDeclShape;

    open spec fn view(&self) -> ClassDeclShape {
        ClassDeclShape {
            original: self.original@,
            canonical: self.canonical@,
            fields: field_views(self.fields@),
        }
    }
}

pub open spec fn enum_decl_views(ds: Seq<EnumDeclaration>) -> Seq<EnumDeclShape> {
    Seq::new(ds.len(), |i: int| ds[i]@)
}

pub open spec fn class_decl_views(ds: Seq<ClassDeclaration>) -> Seq<ClassDeclShape> {
    Seq::new(ds.len(), |i: int| ds[i]@)
}

/// The enum declarations found from position `i` on. `seen` holds the
/// canonical names already produced: a declaration whose canonical name was
/// seen is skipped entirely, and a name is recorded whether or not the
/// declaration's body was found.
pub open spec fn scan_enums(h: Seq<char>, i: int, seen: Seq<Seq<char>>) -> Seq<EnumDeclShape>
    decreases h.len() - i,
        when 0 <= i <= h.len()
        via scan_enums_dec
{
    if i + 10 > h.len() {
        Seq::empty()
    } else if h.subrange(i, i + 10) == "enum class"@ {
        let j = ws_end(h, i + 10);
        let k = word_end(h, j);
        if k == j {
            scan_enums(h, i + 1, seen)
        } else {
            let orig = h.subrange(j, k);
            let canon = upper_camel_of(orig);
            if seen.contains(canon) {
                scan_enums(h, k, seen)
            } else {
                match block_of(h, k) {
                    Some(p) => seq![
                        EnumDeclShape {
                            original: orig,
                            canonical: canon,
                            variants: enum_variants_spec(h.subrange(p.0, p.1)),
                        },
                    ] + scan_enums(h, k, seen.push(canon)),
                    None => scan_enums(h, k, seen.push(canon)),
                }
            }
        }
    } else {
        scan_enums(h, i + 1, seen)
    }
}

#[via_fn]
proof fn scan_enums_dec(h: Seq<char>, i: int, seen: Seq<Seq<char>>) {
    if i + 10 <= h.len() {
        lemma_ws_end_bounds(h, i + 10);
        lemma_word_end_bounds(h, ws_end(h, i + 10));
    }
}

/// All enum declarations of the header.
pub open spec fn header_enums(h: Seq<char>) -> Seq<EnumDeclShape> {
    scan_enums(h, 0, Seq::empty())
}

fn seen_contains(seen: &Vec<Vec<char>>, canon: &Vec<char>) -> (r: bool)
    ensures
        r == views_of(seen@).contains(canon@),
{
    let mut k: usize = 0;
    while k < seen.len()
        invariant
            k <= seen@.len(),
            forall|j: int| 0 <= j < k ==> (#[trigger] views_of(seen@)[j]) != canon@,
        decreases seen@.len() - k,
    {
        if chars_eq(&seen[k], canon) {
            proof {
                assert(views_of(seen@)[k as int] == canon@);
            }
            return true;
        }
        k = k + 1;
    }
    proof {
        assert(forall|j: int|
            0 <= j < views_of(seen@).len() ==> (#[trigger] views_of(seen@)[j]) != canon@);
    }
    false
}

/// Collects the enum declarations of a header.
pub fn extract_header_enums(h: &Vec<char>) -> (out: Vec<EnumDeclaration>)
    ensures
        enum_decl_views(out@) == header_enums(h@),
{
    let n = h.len();
    let pat = str_to_chars("enum class");
    let mut out: Vec<EnumDeclaration> = Vec::new();
    let mut seen: Vec<Vec<char>> = Vec::new();
    let mut i: usize = 0;
    proof {
        reveal_strlit("enum class");
        assert(enum_decl_views(out@) =~= Seq::<EnumDeclShape>::empty());
        assert(views_of(seen@) =~= Seq::<Seq<char>>::empty());
        assert(enum_decl_views(out@) + scan_enums(h@, 0, views_of(seen@)) =~= header_enums(h@));
    }
    while n >= 10 && i <= n - 10
        invariant
            i <= n == h@.len(),
            pat@ == "enum class"@,
            enum_decl_views(out@) + scan_enums(h@, i as int, views_of(seen@)) == header_enums(h@),
        decreases n - i,
    {
        proof {
            reveal_strlit("enum class");
        }
        let ghost old_out = enum_decl_views(out@);
        let ghost old_seen = views_of(seen@);
        if match_at(h, i, &pat) {
            let j = crate::text::skip_ws(h, i + 10);
            let k = crate::text::skip_word(h, j);
            if k == j {
                proof {
                    assert(scan_enums(h@, i as int, old_seen) == scan_enums(
                        h@,
                        i + 1,
                        old_seen,
                    ));
                }
                i = i + 1;
            } else {
                let orig = sub_vec(h, j, k);
                let canon = crate::names::to_upper_camel(&orig);
                let ghost gorig = orig@;
                let ghost gcanon = canon@;
                if seen_contains(&seen, &canon) {
                    proof {
                        assert(scan_enums(h@, i as int, old_seen) == scan_enums(
                            h@,
                            k as int,
                            old_seen,
                        ));
                    }
                    i = k;
                } else {
                    match crate::scanner::find_block(h, k) {
                        Some((a, b)) => {
                            let body = sub_vec(h, a, b);
                            let variants = crate::enums::extract_enum_variants(&body);
                            let canon_copy = sub_vec(&canon, 0, canon.len());
                            proof {
                                assert(canon@.subrange(0, canon@.len() as int) =~= canon@);
                            }
                            let d = EnumDeclaration {
                                original: orig,
                                canonical: canon_copy,
                                variants,
                            };
                            let ghost gd = d@;
                            out.push(d);
                            seen.push(canon);
                            proof {
                                assert(views_of(seen@) =~= old_seen.push(gcanon));
                                assert(enum_decl_views(out@) =~= old_out.push(gd));
                                assert(gd == EnumDeclShape {
                                    original: gorig,
                                    canonical: gcanon,
                                    variants: enum_variants_spec(h@.subrange(a as int, b as int)),
                                });
                                assert(scan_enums(h@, i as int, old_seen) == seq![gd] + scan_enums(
                                    h@,
                                    k as int,
                                    old_seen.push(gcanon),
                                ));
                                assert(old_out.push(gd) + scan_enums(h@, k as int, old_seen.push(gcanon))
                                    =~= old_out + (seq![gd] + scan_enums(
                                    h@,
                                    k as int,
                                    old_seen.push(gcanon),
                                )));
                            }
                            i = k;
                        },
                        None => {
                            seen.push(canon);
                            proof {
                                assert(views_of(seen@) =~= old_seen.push(gcanon));
                                assert(scan_enums(h@, i as int, old_seen) == scan_enums(
                                    h@,
                                    k as int,
                                    old_seen.push(gcanon),
                                ));
                            }
                            i = k;
                        },
                    }
                }
            }
        } else {
            proof {
                assert(h@.subrange(i as int, i + 10) != "enum class"@);
                assert(scan_enums(h@, i as int, old_seen) == scan_enums(h@, i + 1, old_seen));
            }
            i = i + 1;
        }
    }
    proof {
        assert(scan_enums(h@, i as int, views_of(seen@)) == Seq::<EnumDeclShape>::empty());
        assert(enum_decl_views(out@) + Seq::<EnumDeclShape>::empty() =~= enum_decl_views(out@));
    }
    out
}

} // verus!

verus! {

/// End of an alignment comment of the exact form `/* alignas(N) */`
/// starting at `j`, or `j` itself when no such comment starts there.
pub open spec fn alignas_end(h: Seq<char>, j: int) -> int {
    if matches_at(h, j, "/*"@) {
        let m = ws_end(h, j + 2);
        if matches_at(h, m, "alignas("@) {
            let d = m + 8;
            let e = digits_end(h, d);
            if e > d && e < h.len() && h[e] == ')' {
                let w = ws_end(h, e + 1);
                if matches_at(h, w, "*/"@) {
                    w + 2
                } else {
                    j
                }
            } else {
                j
            }
        } else {
            j
        }
    } else {
        j
    }
}

pub proof fn lemma_alignas_end_bounds(h: Seq<char>, j: int)
    requires
        0 <= j <= h.len(),
    ensures
        j <= alignas_end(h, j) <= h.len(),
{
    reveal_strlit("/*");
    reveal_strlit("alignas(");
    reveal_strlit("*/");
    if matches_at(h, j, "/*"@) {
        lemma_ws_end_bounds(h, j + 2);
        let m = ws_end(h, j + 2);
        if matches_at(h, m, "alignas("@) {
            let d = m + 8;
            crate::classes::lemma_digits_end_bounds(h, d);
            let e = digits_end(h, d);
            if e > d && e < h.len() && h[e] == ')' {
                lemma_ws_end_bounds(h, e + 1);
            }
        }
    }
}

/// Skips an alignment comment.
pub fn skip_alignas(h: &Vec<char>, j: usize) -> (r: usize)
    requires
        j <= h@.len(),
    ensures
        r == alignas_end(h@, j as int),
        j <= r <= h@.len(),
{
    proof {
        reveal_strlit("/*");
        reveal_strlit("alignas(");
        reveal_strlit("*/");
        lemma_alignas_end_bounds(h@, j as int);
    }
    let n = h.len();
    if !crate::text::match_at(h, j, &str_to_chars("/*")) {
        return j;
    }
    let m = crate::text::skip_ws(h, j + 2);
    if !crate::text::match_at(h, m, &str_to_chars("alignas(")) {
        return j;
    }
    let d = m + 8;
    let e = crate::classes::skip_digits(h, d);
    if !(e > d && e < n && h[e] == ')') {
        return j;
    }
    let w = crate::text::skip_ws(h, e + 1);
    if !crate::text::match_at(h, w, &str_to_chars("*/")) {
        return j;
    }
    w + 2
}

/// The class declarations found from position `i` on. A `class` keyword on
/// a word boundary opens a declaration unless it is part of `enum class`;
/// an alignment comment may stand between the keyword and the name.
pub open spec fn scan_classes(h: Seq<char>, i: int) -> Seq<ClassDeclShape>
    decreases h.len() - i,
        when 0 <= i <= h.len()
        via scan_classes_dec
{
    if i + 5 > h.len() {
        Seq::empty()
    } else if h.subrange(i, i + 5) == "class"@ && (i == 0 || !is_word(h[i - 1])) {
        let j = ws_end(h, alignas_end(h, ws_end(h, i + 5)));
        let k = word_end(h, j);
        if k == j {
            scan_classes(h, i + 1)
        } else if i >= 5 && h.subrange(i - 5, i) == "enum "@ {
            scan_classes(h, k)
        } else {
            let orig = h.subrange(j, k);
            let canon = upper_camel_of(orig);
            match block_of(h, k) {
                Some(p) => seq![
                    ClassDeclShape {
                        original: orig,
                        canonical: canon,
                        fields: class_fields_spec(canon, h.subrange(p.0, p.1)),
                    },
                ] + scan_classes(h, k),
                None => scan_classes(h, k),
            }
        }
    } else {
        scan_classes(h, i + 1)
    }
}

#[via_fn]
proof fn scan_classes_dec(h: Seq<char>, i: int) {
    if i + 5 <= h.len() {
        lemma_ws_end_bounds(h, i + 5);
        lemma_alignas_end_bounds(h, ws_end(h, i + 5));
        lemma_ws_end_bounds(h, alignas_end(h, ws_end(h, i + 5)));
        lemma_word_end_bounds(h, ws_end(h, alignas_end(h, ws_end(h, i + 5))));
    }
}

/// All class declarations of the header.
pub open spec fn header_classes(h: Seq<char>) -> Seq<ClassDeclShape> {
    scan_classes(h, 0)
}

/// Collects the class declarations of a header.
pub fn extract_header_classes(h: &Vec<char>) -> (out: Vec<ClassDeclaration>)
    ensures
        class_decl_views(out@) == header_classes(h@),
{
    let n = h.len();
    let pat = str_to_chars("class");
    let enum_pat = str_to_chars("enum ");
    let mut out: Vec<ClassDeclaration> = Vec::new();
    let mut i: usize = 0;
    proof {
        reveal_strlit("class");
        reveal_strlit("enum ");
        assert(class_decl_views(out@) =~= Seq::<ClassDeclShape>::empty());
        assert(class_decl_views(out@) + scan_classes(h@, 0) =~= header_classes(h@));
    }
    while n >= 5 && i <= n - 5
        invariant
            i <= n == h@.len(),
            pat@ == "class"@,
            enum_pat@ == "enum "@,
            class_decl_views(out@) + scan_classes(h@, i as int) == header_classes(h@),
        decreases n - i,
    {
        proof {
            reveal_strlit("class");
            reveal_strlit("enum ");
        }
        let ghost old_out = class_decl_views(out@);
        let boundary = i == 0 || !crate::text::word_char(h[i - 1]);
        if match_at(h, i, &pat) && boundary {
            let j0 = crate::text::skip_ws(h, i + 5);
            let j1 = skip_alignas(h, j0);
            let j = crate::text::skip_ws(h, j1);
            let k = crate::text::skip_word(h, j);
            if k == j {
                proof {
                    assert(scan_classes(h@, i as int) == scan_classes(h@, i + 1));
                }
                i = i + 1;
            } else if i >= 5 && match_at(h, i - 5, &enum_pat) {
                proof {
                    assert(h@.subrange(i - 5, i as int) == "enum "@);
                    assert(scan_classes(h@, i as int) == scan_classes(h@, k as int));
                }
                i = k;
            } else {
                proof {
                    if i >= 5 {
                        assert(h@.subrange(i - 5, i as int) != "enum "@);
                    }
                }
                let orig = sub_vec(h, j, k);
                let canon = crate::names::to_upper_camel(&orig);
                let ghost gorig = orig@;
                let ghost gcanon = canon@;
                match crate::scanner::find_block(h, k) {
                    Some((a, b)) => {
                        let body = sub_vec(h, a, b);
                        let fields = crate::classes::extract_class_fields(&canon, &body);
                        let d = ClassDeclaration { original: orig, canonical: canon, fields };
                        let ghost gd = d@;
                        out.push(d);
                        proof {
                            assert(class_decl_views(out@) =~= old_out.push(gd));
                            assert(gd == ClassDeclShape {
                                original: gorig,
                                canonical: gcanon,
                                fields: class_fields_spec(gcanon, h@.subrange(a as int, b as int)),
                            });
                            assert(scan_classes(h@, i as int) == seq![gd] + scan_classes(
                                h@,
                                k as int,
                            ));
                            assert(old_out.push(gd) + scan_classes(h@, k as int) =~= old_out + (
                            seq![gd] + scan_classes(h@, k as int)));
                        }
                        i = k;
                    },
                    None => {
                        proof {
                            assert(scan_classes(h@, i as int) == scan_classes(h@, k as int));
                        }
                        i = k;
                    },
                }
            }
        } else {
            proof {
                if i + 5 <= h@.len() {
                    assert(!(h@.subrange(i as int, i + 5) == "class"@ && (i == 0 || !is_word(
                        h@[i - 1],
                    ))));
                }
                assert(scan_classes(h@, i as int) == scan_classes(h@, i + 1));
            }
            i = i + 1;
        }
    }
    proof {
        assert(scan_classes(h@, i as int) == Seq::<ClassDeclShape>::empty());
        assert(class_decl_views(out@) + Seq::<ClassDeclShape>::empty() =~= class_decl_views(out@));
    }
    out
}

} // verus!

verus! {

proof fn lemma_scan_enums_unique(h: Seq<char>, i: int, seen: Seq<Seq<char>>)
    requires
        0 <= i <= h.len(),
    ensures
        ({
            let r = scan_enums(h, i, seen);
            &&& forall|a: int, b: int|
                0 <= a < b < r.len() ==> (#[trigger] r[a]).canonical != (#[trigger] r[b]).canonical
            &&& forall|a: int| 0 <= a < r.len() ==> !seen.contains((#[trigger] r[a]).canonical)
        }),
    decreases h.len() - i,
{
    let r = scan_enums(h, i, seen);
    if i + 10 > h.len() {
        assert(r =~= Seq::<EnumDeclShape>::empty());
    } else if h.subrange(i, i + 10) == "enum class"@ {
        lemma_ws_end_bounds(h, i + 10);
        let j = ws_end(h, i + 10);
        lemma_word_end_bounds(h, j);
        let k = word_end(h, j);
        if k == j {
            lemma_scan_enums_unique(h, i + 1, seen);
            assert(r == scan_enums(h, i + 1, seen));
        } else {
            let orig = h.subrange(j, k);
            let canon = upper_camel_of(orig);
            if seen.contains(canon) {
                lemma_scan_enums_unique(h, k, seen);
                assert(r == scan_enums(h, k, seen));
            } else {
                let seen2 = seen.push(canon);
                lemma_scan_enums_unique(h, k, seen2);
                let rest = scan_enums(h, k, seen2);
                assert(seen2[seen.len() as int] == canon);
                assert(seen2.contains(canon));
                assert(forall|a: int| 0 <= a < rest.len() ==> (#[trigger] rest[a]).canonical != canon);
                assert forall|a: int| 0 <= a < rest.len() implies !seen.contains(
                    (#[trigger] rest[a]).canonical,
                ) by {
                    if seen.contains(rest[a].canonical) {
                        let w = choose|w: int| 0 <= w < seen.len() && seen[w] == rest[a].canonical;
                        assert(seen2[w] == rest[a].canonical);
                        assert(seen2.contains(rest[a].canonical));
                    }
                }
                match block_of(h, k) {
                    Some(p) => {
                        assert(r == seq![
                            EnumDeclShape {
                                original: orig,
                                canonical: canon,
                                variants: enum_variants_spec(h.subrange(p.0, p.1)),
                            },
                        ] + rest);
                        assert(r[0].canonical == canon);
                        assert(forall|a: int| 0 < a < r.len() ==> r[a] == rest[a - 1]);
                    },
                    None => {
                        assert(r == rest);
                    },
                }
            }
        }
    } else {
        lemma_scan_enums_unique(h, i + 1, seen);
        assert(r == scan_enums(h, i + 1, seen));
    }
}

/// Canonical enum names are unique within an output namespace: of any two
/// extracted enum declarations, the canonical names differ, because a
/// later declaration whose canonical name was already produced is skipped.
pub proof fn lemma_header_enums_unique(h: Seq<char>)
    ensures
        forall|a: int, b: int|
            0 <= a < b < header_enums(h).len() ==> (#[trigger] header_enums(h)[a]).canonical != (
            #[trigger] header_enums(h)[b]).canonical,
{
    lemma_scan_enums_unique(h, 0, Seq::empty());
}

} // verus!
