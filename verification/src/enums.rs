//! Enum extraction.
//!
//! An enum body is read line by line; each line-level entry of the form
//! `name [= literal] [,] [// comment]` yields a variant. Variants whose
//! canonical names collide are skipped (first occurrence wins), repeated
//! literal values are rewritten, and a common raw-name prefix is stripped
//! from the canonical names.

use vstd::prelude::*;
use crate::names::{str_to_chars, upper_camel_of};
use crate::text::{
    alpha_char, chars_eq, is_alpha, is_digit, is_space, match_at, space_char, sub_vec, ws_end,
    word_end,
};
use crate::types::{trim_end_spec, views_of};

verus! {

/// Splits `s` into lines at newline characters. `cur` and `acc` accumulate
/// the line being read and the lines already read.
pub open spec fn split_lines_rec(s: Seq<char>, cur: Seq<char>, acc: Seq<Seq<char>>) -> Seq<
    Seq<char>,
>
    decreases s.len(),
{
    if s.len() == 0 {
        acc.push(cur)
    } else if s[0] == '\n' {
        split_lines_rec(s.skip(1), Seq::empty(), acc.push(cur))
    } else {
        split_lines_rec(s.skip(1), cur.push(s[0]), acc)
    }
}

/// The lines of `s`.
pub open spec fn split_lines(s: Seq<char>) -> Seq<Seq<char>> {
    split_lines_rec(s, Seq::empty(), Seq::empty())
}

/// Splits text into lines.
pub fn split_lines_chars(s: &Vec<char>) -> (parts: Vec<Vec<char>>)
    ensures
        views_of(parts@) == split_lines(s@),
{
    let n = s.len();
    let mut parts: Vec<Vec<char>> = Vec::new();
    let mut cur: Vec<char> = Vec::new();
    let mut i: usize = 0;
    proof {
        assert(s@.skip(0) =~= s@);
        assert(views_of(parts@) =~= Seq::<Seq<char>>::empty());
    }
    while i < n
        invariant
            i <= n == s@.len(),
            split_lines_rec(s@.skip(i as int), cur@, views_of(parts@)) == split_lines(s@),
        decreases n - i,
    {
        let ghost old_parts = parts@;
        let ghost old_cur = cur@;
        let c = s[i];
        if c == '\n' {
            parts.push(cur);
            cur = Vec::new();
            proof {
                assert(views_of(parts@) =~= views_of(old_parts).push(old_cur));
            }
        } else {
            cur.push(c);
        }
        proof {
            assert(s@.skip(i as int).skip(1) =~= s@.skip(i + 1));
            assert(s@.skip(i as int)[0] == s@[i as int]);
        }
        i = i + 1;
    }
    proof {
        assert(s@.skip(n as int) =~= Seq::<char>::empty());
    }
    let ghost old_parts = parts@;
    let ghost old_cur = cur@;
    parts.push(cur);
    proof {
        assert(views_of(parts@) =~= views_of(old_parts).push(old_cur));
    }
    parts
}

/// End of a literal value: the first comma or comment start at or after `i`.
pub open spec fn lit_end(s: Seq<char>, i: int) -> int
    decreases s.len() - i,
        when 0 <= i <= s.len()
{
    if i >= s.len() {
        i
    } else if s[i] == ',' || (s[i] == '/' && i + 1 < s.len() && s[i + 1] == '/') {
        i
    } else {
        lit_end(s, i + 1)
    }
}

fn find_lit_end(s: &Vec<char>, i: usize) -> (r: usize)
    requires
        i <= s@.len(),
    ensures
        r == lit_end(s@, i as int),
        i <= r <= s@.len(),
{
    let n = s.len();
    let mut j = i;
    while j < n && !(s[j] == ',' || (s[j] == '/' && j + 1 < n && s[j + 1] == '/'))
        invariant
            i <= j <= n == s@.len(),
            lit_end(s@, i as int) == lit_end(s@, j as int),
        decreases n - j,
    {
        j = j + 1;
    }
    j
}

/// What may follow a variant entry: an optional comma, whitespace, then
/// either the end of the line or a trailing comment.
pub open spec fn tail_ok(s: Seq<char>, i: int) -> bool {
    let j = if i < s.len() && s[i] == ',' {
        ws_end(s, i + 1)
    } else {
        i
    };
    j == s.len() || (j + 1 < s.len() && s[j] == '/' && s[j + 1] == '/')
}

fn check_tail(s: &Vec<char>, i: usize) -> (r: bool)
    requires
        i <= s@.len(),
    ensures
        r == tail_ok(s@, i as int),
{
    let n = s.len();
    let j = if i < n && s[i] == ',' {
        crate::text::skip_ws(s, i + 1)
    } else {
        i
    };
    j == n || (j + 1 < n && s[j] == '/' && s[j + 1] == '/')
}

/// The variant entry on a line: its raw name and optional literal value.
/// The literal runs from after the equals sign to the first comma or
/// comment start, with surrounding whitespace removed; an empty literal
/// makes the line invalid. `None` when the line is no variant entry.
pub open spec fn variant_of_line(line: Seq<char>) -> Option<(Seq<char>, Option<Seq<char>>)> {
    let p0 = ws_end(line, 0);
    if p0 < line.len() && (is_alpha(line[p0]) || line[p0] == '_') {
        let p1 = word_end(line, p0);
        let name = line.subrange(p0, p1);
        let p2 = ws_end(line, p1);
        if p2 < line.len() && line[p2] == '=' {
            let p3 = ws_end(line, p2 + 1);
            let lend = lit_end(line, p3);
            let lit = trim_end_spec(line.subrange(p3, lend));
            if lit.len() > 0 && tail_ok(line, lend) {
                Some((name, Some(lit)))
            } else {
                None
            }
        } else if tail_ok(line, p2) {
            Some((name, None))
        } else {
            None
        }
    } else {
        None
    }
}

/// Parses one line as a variant entry.
pub fn parse_variant_line(line: &Vec<char>) -> (r: Option<(Vec<char>, Option<Vec<char>>)>)
    ensures
        match r {
            Some(p) => variant_of_line(line@) == Some(
                (
                    p.0@,
                    match p.1 {
                        Some(l) => Some(l@),
                        None => None::<Seq<char>>,
                    },
                ),
            ),
            None => variant_of_line(line@) is None,
        },
{
    let n = line.len();
    let p0 = crate::text::skip_ws(line, 0);
    if !(p0 < n && (alpha_char(line[p0]) || line[p0] == '_')) {
        return None;
    }
    let p1 = crate::text::skip_word(line, p0);
    let name = sub_vec(line, p0, p1);
    let p2 = crate::text::skip_ws(line, p1);
    if p2 < n && line[p2] == '=' {
        let p3 = crate::text::skip_ws(line, p2 + 1);
        let lend = find_lit_end(line, p3);
        let raw_lit = sub_vec(line, p3, lend);
        let lit = trim_end_chars(&raw_lit);
        if lit.len() > 0 && check_tail(line, lend) {
            Some((name, Some(lit)))
        } else {
            None
        }
    } else if check_tail(line, p2) {
        Some((name, None))
    } else {
        None
    }
}

/// Removes trailing whitespace.
pub fn trim_end_chars(s: &Vec<char>) -> (r: Vec<char>)
    ensures
        r@ == trim_end_spec(s@),
{
    let n = s.len();
    let mut b: usize = n;
    while b > 0 && space_char(s[b - 1])
        invariant
            b <= n == s@.len(),
            forall|j: int| b <= j < n ==> is_space(s@[j]),
        decreases b,
    {
        b = b - 1;
    }
    proof {
        crate::types::lemma_trim_end_at(s@, b as int);
        assert(s@.take(b as int) =~= s@.subrange(0, b as int));
    }
    sub_vec(s, 0, b)
}

} // verus!

verus! {

/// One enum variant: raw source name, canonical name, optional literal.
pub struct EnumVariant {
    pub original: Vec<char>,
    pub canonical: Vec<char>,
    pub literal: Option<Vec<char>>,
}

/// The mathematical content of an enum variant.
pub struct VariantShape {
    pub original: Seq<char>,
    pub canonical: Seq<char>,
    pub literal: Option<Seq<char>>,
}

pub open spec fn opt_view(o: Option<Vec<char>>) -> Option<Seq<char>> {
    match o {
        Some(v) => Some(v@),
        None => None,
    }
}

impl View for EnumVariant {
    type V = VariantShape;

    open spec fn view(&self) -> VariantShape {
        VariantShape {
            original: self.original@,
            canonical: self.canonical@,
            literal: opt_view(self.literal),
        }
    }
}

/// The views of a sequence of variants.
pub open spec fn variant_views(vs: Seq<EnumVariant>) -> Seq<VariantShape> {
    Seq::new(vs.len(), |i: int| vs[i]@)
}

/// The views of a sequence of raw (name, literal) pairs.
pub open spec fn pair_views(ps: Seq<(Vec<char>, Option<Vec<char>>)>) -> Seq<
    (Seq<char>, Option<Seq<char>>),
> {
    Seq::new(ps.len(), |i: int| (ps[i].0@, opt_view(ps[i].1)))
}

/// The raw variant entries of a body's lines, in source order.
pub open spec fn raw_variants(lines: Seq<Seq<char>>) -> Seq<(Seq<char>, Option<Seq<char>>)>
    decreases lines.len(),
{
    if lines.len() == 0 {
        Seq::empty()
    } else {
        raw_variants(lines.drop_last()) + match variant_of_line(lines.last()) {
            Some(v) => seq![v],
            None => Seq::empty(),
        }
    }
}

/// Collects the raw variant entries of the given lines.
pub fn collect_raw_variants(lines: &Vec<Vec<char>>) -> (raws: Vec<(Vec<char>, Option<Vec<char>>)>)
    ensures
        pair_views(raws@) == raw_variants(views_of(lines@)),
{
    let mut raws: Vec<(Vec<char>, Option<Vec<char>>)> = Vec::new();
    let mut i: usize = 0;
    proof {
        assert(views_of(lines@).take(0) =~= Seq::<Seq<char>>::empty());
        assert(pair_views(raws@) =~= raw_variants(views_of(lines@).take(0)));
    }
    while i < lines.len()
        invariant
            i <= lines@.len(),
            pair_views(raws@) == raw_variants(views_of(lines@).take(i as int)),
        decreases lines@.len() - i,
    {
        let ghost old_raws = raws@;
        let ghost lv = views_of(lines@);
        proof {
            assert(lv.take(i + 1).drop_last() =~= lv.take(i as int));
            assert(lv.take(i + 1).last() == lv[i as int]);
        }
        match parse_variant_line(&lines[i]) {
            Some(p) => {
                raws.push(p);
                proof {
                    assert(pair_views(raws@) =~= pair_views(old_raws).push(
                        (raws@[old_raws.len() as int].0@, opt_view(raws@[old_raws.len() as int].1)),
                    ));
                    assert(pair_views(raws@) =~= raw_variants(lv.take(i + 1)));
                }
            },
            None => {
                proof {
                    assert(raw_variants(lv.take(i + 1)) =~= raw_variants(lv.take(i as int)));
                }
            },
        }
        i = i + 1;
    }
    proof {
        assert(views_of(lines@).take(lines@.len() as int) =~= views_of(lines@));
    }
    raws
}

/// Canonicalizes raw variants and skips later variants whose canonical
/// name was already produced: the first occurrence wins.
pub open spec fn dedup_variants(raws: Seq<(Seq<char>, Option<Seq<char>>)>) -> Seq<VariantShape>
    decreases raws.len(),
{
    if raws.len() == 0 {
        Seq::empty()
    } else {
        let prev = dedup_variants(raws.drop_last());
        let canon = upper_camel_of(raws.last().0);
        if exists|k: int| 0 <= k < prev.len() && (#[trigger] prev[k]).canonical == canon {
            prev
        } else {
            prev.push(
                VariantShape { original: raws.last().0, canonical: canon, literal: raws.last().1 },
            )
        }
    }
}

fn copy_chars(v: &Vec<char>) -> (r: Vec<char>)
    ensures
        r@ == v@,
{
    let r = sub_vec(v, 0, v.len());
    proof {
        assert(v@.subrange(0, v@.len() as int) =~= v@);
    }
    r
}

fn copy_opt_chars(o: &Option<Vec<char>>) -> (r: Option<Vec<char>>)
    ensures
        opt_view(r) == opt_view(*o),
{
    match o {
        Some(v) => Some(copy_chars(v)),
        None => None,
    }
}

fn copy_variant(v: &EnumVariant) -> (r: EnumVariant)
    ensures
        r@ == v@,
{
    EnumVariant {
        original: copy_chars(&v.original),
        canonical: copy_chars(&v.canonical),
        literal: copy_opt_chars(&v.literal),
    }
}

fn canonical_seen(vs: &Vec<EnumVariant>, canon: &Vec<char>) -> (r: bool)
    ensures
        r == exists|k: int|
            0 <= k < vs@.len() && (#[trigger] variant_views(vs@)[k]).canonical == canon@,
{
    let mut k: usize = 0;
    while k < vs.len()
        invariant
            k <= vs@.len(),
            forall|j: int| 0 <= j < k ==> (#[trigger] variant_views(vs@)[j]).canonical != canon@,
        decreases vs@.len() - k,
    {
        if chars_eq(&vs[k].canonical, canon) {
            proof {
                assert(variant_views(vs@)[k as int].canonical == canon@);
            }
            return true;
        }
        k = k + 1;
    }
    false
}

/// Canonicalizes and deduplicates raw variants.
pub fn dedup_raw_variants(raws: &Vec<(Vec<char>, Option<Vec<char>>)>) -> (out: Vec<EnumVariant>)
    ensures
        variant_views(out@) == dedup_variants(pair_views(raws@)),
{
    let mut out: Vec<EnumVariant> = Vec::new();
    let mut i: usize = 0;
    proof {
        assert(pair_views(raws@).take(0) =~= Seq::<(Seq<char>, Option<Seq<char>>)>::empty());
        assert(variant_views(out@) =~= dedup_variants(pair_views(raws@).take(0)));
    }
    while i < raws.len()
        invariant
            i <= raws@.len(),
            variant_views(out@) == dedup_variants(pair_views(raws@).take(i as int)),
        decreases raws@.len() - i,
    {
        let ghost pv = pair_views(raws@);
        let ghost old_out = out@;
        proof {
            assert(pv.take(i + 1).drop_last() =~= pv.take(i as int));
            assert(pv.take(i + 1).last() == pv[i as int]);
        }
        let canon = crate::names::to_upper_camel(&raws[i].0);
        if !canonical_seen(&out, &canon) {
            let v = EnumVariant {
                original: copy_chars(&raws[i].0),
                canonical: canon,
                literal: copy_opt_chars(&raws[i].1),
            };
            out.push(v);
            proof {
                assert(variant_views(out@) =~= variant_views(old_out).push(
                    out@[old_out.len() as int]@,
                ));
                assert(variant_views(out@) =~= dedup_variants(pv.take(i + 1)));
            }
        } else {
            proof {
                assert(variant_views(out@) =~= dedup_variants(pv.take(i + 1)));
            }
        }
        i = i + 1;
    }
    proof {
        assert(pair_views(raws@).take(raws@.len() as int) =~= pair_views(raws@));
    }
    out
}

/// Canonical names are unique after deduplication: of any two variants
/// whose canonical names coincide, only the first is kept.
pub proof fn lemma_dedup_unique(raws: Seq<(Seq<char>, Option<Seq<char>>)>)
    ensures
        forall|i: int, j: int|
            0 <= i < j < dedup_variants(raws).len() ==> (#[trigger] dedup_variants(raws)[i]).canonical
                != (#[trigger] dedup_variants(raws)[j]).canonical,
    decreases raws.len(),
{
    if raws.len() > 0 {
        lemma_dedup_unique(raws.drop_last());
    }
}

} // verus!

verus! {

/// Rewrites repeated literal values: a variant whose literal text equals
/// the literal text of any earlier variant has a minus sign prefixed, to
/// force distinct values. Only the repeated occurrence is rewritten; the
/// comparison is always against the original literal texts.
pub open spec fn rewrite_literals(vs: Seq<VariantShape>) -> Seq<VariantShape> {
    Seq::new(
        vs.len(),
        |i: int|
            VariantShape {
                original: vs[i].original,
                canonical: vs[i].canonical,
                literal: match vs[i].literal {
                    None => None,
                    Some(l) => if exists|j: int|
                        0 <= j < i && (#[trigger] vs[j]).literal == Some(l) {
                        Some("-"@ + l)
                    } else {
                        Some(l)
                    },
                },
            },
    )
}

fn literal_seen(vs: &Vec<EnumVariant>, upto: usize, l: &Vec<char>) -> (r: bool)
    requires
        upto <= vs@.len(),
    ensures
        r == exists|j: int|
            0 <= j < upto && (#[trigger] variant_views(vs@)[j]).literal == Some(l@),
{
    let mut j: usize = 0;
    while j < upto
        invariant
            j <= upto <= vs@.len(),
            forall|k: int| 0 <= k < j ==> (#[trigger] variant_views(vs@)[k]).literal != Some(l@),
        decreases upto - j,
    {
        let hit = match &vs[j].literal {
            Some(x) => chars_eq(x, l),
            None => false,
        };
        if hit {
            proof {
                assert(variant_views(vs@)[j as int].literal == Some(l@));
            }
            return true;
        }
        j = j + 1;
    }
    false
}

/// Applies the literal-collision rewrite.
pub fn rewrite_variant_literals(vs: &Vec<EnumVariant>) -> (out: Vec<EnumVariant>)
    ensures
        variant_views(out@) == rewrite_literals(variant_views(vs@)),
{
    let ghost target = rewrite_literals(variant_views(vs@));
    let mut out: Vec<EnumVariant> = Vec::new();
    let mut i: usize = 0;
    while i < vs.len()
        invariant
            i <= vs@.len(),
            out@.len() == i,
            target == rewrite_literals(variant_views(vs@)),
            forall|k: int| 0 <= k < i ==> (#[trigger] out@[k])@ == target[k],
        decreases vs@.len() - i,
    {
        let lit: Option<Vec<char>> = match &vs[i].literal {
            None => None,
            Some(l) => {
                if literal_seen(vs, i, l) {
                    let mut prefixed = str_to_chars("-");
                    crate::text::append_chars(&mut prefixed, l);
                    Some(prefixed)
                } else {
                    Some(copy_chars(l))
                }
            },
        };
        let v = EnumVariant {
            original: copy_chars(&vs[i].original),
            canonical: copy_chars(&vs[i].canonical),
            literal: lit,
        };
        let ghost gv = v@;
        out.push(v);
        proof {
            assert(out@[i as int]@ == gv);
            assert(gv == target[i as int]);
        }
        i = i + 1;
    }
    proof {
        assert forall|k: int| 0 <= k < variant_views(out@).len() implies variant_views(out@)[k]
            == target[k] by {
            assert(variant_views(out@)[k] == out@[k]@);
        }
        assert(variant_views(out@) =~= target);
    }
    out
}

/// `s` begins with `p`.
pub open spec fn starts_with(s: Seq<char>, p: Seq<char>) -> bool {
    s.len() >= p.len() && s.take(p.len() as int) == p
}

/// Position of the first underscore at or after `i`, or the length of the
/// input when there is none.
pub open spec fn find_underscore(s: Seq<char>, i: int) -> int
    decreases s.len() - i,
        when 0 <= i <= s.len()
{
    if i >= s.len() {
        i
    } else if s[i] == '_' {
        i
    } else {
        find_underscore(s, i + 1)
    }
}

fn find_underscore_exec(s: &Vec<char>, i: usize) -> (r: usize)
    requires
        i <= s@.len(),
    ensures
        r == find_underscore(s@, i as int),
        i <= r <= s@.len(),
{
    let mut j = i;
    while j < s.len() && s[j] != '_'
        invariant
            i <= j <= s@.len(),
            find_underscore(s@, i as int) == find_underscore(s@, j as int),
        decreases s@.len() - j,
    {
        j = j + 1;
    }
    j
}

/// One variant with the canonical prefix stripped, unless stripping would
/// leave a name that begins with a digit.
pub open spec fn strip_one(v: VariantShape, pu: Seq<char>) -> VariantShape {
    if starts_with(v.canonical, pu) {
        let stripped = v.canonical.skip(pu.len() as int);
        if stripped.len() > 0 && is_digit(stripped[0]) {
            v
        } else {
            VariantShape { original: v.original, canonical: stripped, literal: v.literal }
        }
    } else {
        v
    }
}

/// Strips a common raw-name prefix from the canonical variant names: when
/// the first variant's raw name has an underscore and every raw name starts
/// with the text before it, that prefix (rendered upper-camel) is removed
/// from each canonical name, except where removal would leave a name that
/// begins with a digit.
pub open spec fn strip_prefix_pass(vs: Seq<VariantShape>) -> Seq<VariantShape> {
    if vs.len() == 0 {
        vs
    } else {
        let u = find_underscore(vs[0].original, 0);
        if u == vs[0].original.len() {
            vs
        } else {
            let cand = vs[0].original.take(u);
            if forall|k: int| 0 <= k < vs.len() ==> starts_with((#[trigger] vs[k]).original, cand) {
                Seq::new(vs.len(), |i: int| strip_one(vs[i], upper_camel_of(cand)))
            } else {
                vs
            }
        }
    }
}

fn copy_variants(vs: &Vec<EnumVariant>) -> (out: Vec<EnumVariant>)
    ensures
        variant_views(out@) == variant_views(vs@),
{
    let mut out: Vec<EnumVariant> = Vec::new();
    let mut i: usize = 0;
    while i < vs.len()
        invariant
            i <= vs@.len(),
            out@.len() == i,
            forall|k: int| 0 <= k < i ==> (#[trigger] out@[k])@ == vs@[k]@,
        decreases vs@.len() - i,
    {
        let v = copy_variant(&vs[i]);
        let ghost gv = v@;
        out.push(v);
        proof {
            assert(out@[i as int]@ == gv);
        }
        i = i + 1;
    }
    proof {
        assert forall|k: int| 0 <= k < variant_views(out@).len() implies variant_views(out@)[k]
            == variant_views(vs@)[k] by {
            assert(variant_views(out@)[k] == out@[k]@);
            assert(variant_views(vs@)[k] == vs@[k]@);
        }
        assert(variant_views(out@) =~= variant_views(vs@));
    }
    out
}

/// Applies common-prefix stripping.
pub fn strip_common_prefix(vs: &Vec<EnumVariant>) -> (out: Vec<EnumVariant>)
    ensures
        variant_views(out@) == strip_prefix_pass(variant_views(vs@)),
{
    if vs.len() == 0 {
        return copy_variants(vs);
    }
    let u = find_underscore_exec(&vs[0].original, 0);
    if u == vs[0].original.len() {
        return copy_variants(vs);
    }
    let cand = sub_vec(&vs[0].original, 0, u);
    proof {
        assert(cand@ =~= variant_views(vs@)[0].original.take(u as int));
    }
    let mut all_share: bool = true;
    let mut k: usize = 0;
    while k < vs.len()
        invariant
            k <= vs@.len(),
            all_share == forall|j: int|
                0 <= j < k ==> starts_with((#[trigger] variant_views(vs@)[j]).original, cand@),
        decreases vs@.len() - k,
    {
        let sw = match_at(&vs[k].original, 0, &cand);
        proof {
            let o = vs@[k as int].original@;
            if cand@.len() <= o.len() {
                assert(o.subrange(0, cand@.len() as int) =~= o.take(cand@.len() as int));
            }
            assert(sw == starts_with(variant_views(vs@)[k as int].original, cand@));
        }
        all_share = all_share && sw;
        k = k + 1;
    }
    if !all_share {
        return copy_variants(vs);
    }
    let pu = crate::names::to_upper_camel(&cand);
    let mut out: Vec<EnumVariant> = Vec::new();
    let mut i: usize = 0;
    while i < vs.len()
        invariant
            i <= vs@.len(),
            out@.len() == i,
            pu@ == upper_camel_of(cand@),
            forall|k2: int| 0 <= k2 < i ==> (#[trigger] out@[k2])@ == strip_one(vs@[k2]@, pu@),
        decreases vs@.len() - i,
    {
        let can_strip = match_at(&vs[i].canonical, 0, &pu);
        proof {
            if pu@.len() <= vs@[i as int].canonical@.len() {
                assert(vs@[i as int].canonical@.subrange(0, pu@.len() as int) =~= vs@[
                    i as int
                ].canonical@.take(pu@.len() as int));
            }
        }
        if can_strip {
            let stripped = sub_vec(&vs[i].canonical, pu.len(), vs[i].canonical.len());
            proof {
                assert(stripped@ =~= variant_views(vs@)[i as int].canonical.skip(pu@.len() as int));
            }
            if stripped.len() > 0 && crate::text::digit_char(stripped[0]) {
                let v = copy_variant(&vs[i]);
                let ghost gv = v@;
                out.push(v);
                proof {
                    assert(out@[i as int]@ == gv);
                }
            } else {
                let v = EnumVariant {
                    original: copy_chars(&vs[i].original),
                    canonical: stripped,
                    literal: copy_opt_chars(&vs[i].literal),
                };
                let ghost gv = v@;
                out.push(v);
                proof {
                    assert(out@[i as int]@ == gv);
                }
            }
        } else {
            let v = copy_variant(&vs[i]);
            let ghost gv = v@;
            out.push(v);
            proof {
                assert(out@[i as int]@ == gv);
            }
        }
        i = i + 1;
    }
    proof {
        let target = strip_prefix_pass(variant_views(vs@));
        assert forall|k2: int| 0 <= k2 < variant_views(out@).len() implies variant_views(out@)[k2]
            == target[k2] by {
            assert(variant_views(out@)[k2] == out@[k2]@);
            assert(variant_views(vs@)[k2] == vs@[k2]@);
        }
        assert(variant_views(out@) =~= target);
    }
    out
}

/// The variants of an enum body: raw entries collected line by line,
/// canonicalized and deduplicated, literal collisions rewritten, and a
/// common prefix stripped.
pub open spec fn enum_variants_spec(body: Seq<char>) -> Seq<VariantShape> {
    strip_prefix_pass(rewrite_literals(dedup_variants(raw_variants(split_lines(body)))))
}

/// Extracts the variants of an enum body.
pub fn extract_enum_variants(body: &Vec<char>) -> (out: Vec<EnumVariant>)
    ensures
        variant_views(out@) == enum_variants_spec(body@),
{
    let lines = split_lines_chars(body);
    let raws = collect_raw_variants(&lines);
    let deduped = dedup_raw_variants(&raws);
    let rewritten = rewrite_variant_literals(&deduped);
    strip_common_prefix(&rewritten)
}

} // verus!

verus! {

/// Literal collision rewrite: a variant whose literal text already occurred
/// earlier in the enum has exactly one minus sign prefixed; a first
/// occurrence and a variant without a literal are unchanged. Names are
/// never affected.
pub proof fn lemma_literal_collision_rewrite(vs: Seq<VariantShape>, i: int)
    requires
        0 <= i < vs.len(),
    ensures
        rewrite_literals(vs).len() == vs.len(),
        rewrite_literals(vs)[i].original == vs[i].original,
        rewrite_literals(vs)[i].canonical == vs[i].canonical,
        vs[i].literal is None ==> rewrite_literals(vs)[i].literal is None,
        vs[i].literal matches Some(l) ==> rewrite_literals(vs)[i].literal == (if exists|j: int|
            0 <= j < i && (#[trigger] vs[j]).literal == Some(l) {
            Some("-"@ + l)
        } else {
            Some(l)
        }),
{
}

/// Prefix stripping: when the first variant's raw name has an underscore
/// and every raw name starts with the text before it, each canonical name
/// loses that prefix in canonical rendering, except where the remainder
/// would begin with a digit.
pub proof fn lemma_prefix_stripping(vs: Seq<VariantShape>, i: int)
    requires
        0 <= i < vs.len(),
        find_underscore(vs[0].original, 0) < vs[0].original.len(),
        forall|k: int|
            0 <= k < vs.len() ==> starts_with(
                (#[trigger] vs[k]).original,
                vs[0].original.take(find_underscore(vs[0].original, 0)),
            ),
    ensures
        strip_prefix_pass(vs).len() == vs.len(),
        strip_prefix_pass(vs)[i] == strip_one(
            vs[i],
            upper_camel_of(vs[0].original.take(find_underscore(vs[0].original, 0))),
        ),
{
}

} // verus!
