//! Class extraction.
//!
//! A class body is read line by line; each line-level entry of the form
//! `[scope::]type name; [// comment]` yields a field, in declaration order.
//! A fixed override forces the resolved type of one known class/field pair,
//! boolean fields receive the boolean name prefix, and large fixed-length
//! sequence fields are marked for wide-array serialization.

use vstd::prelude::*;
use crate::names::{mapped_field_name, str_to_chars};
use crate::text::{chars_eq, is_word, match_at, sub_vec, word_end, ws_end};
use crate::types::{translate_spec, views_of, GlacierType, TypeShape};

verus! {

/// The length threshold beyond which a fixed-length sequence field needs
/// the explicit wide-array serialization strategy.
pub open spec fn wide_array_threshold() -> int {
    32
}

/// End of the digit run starting at `i`.
pub open spec fn digits_end(s: Seq<char>, i: int) -> int
    decreases s.len() - i,
        when 0 <= i <= s.len()
{
    if i >= s.len() {
        i
    } else if crate::text::is_digit(s[i]) {
        digits_end(s, i + 1)
    } else {
        i
    }
}

pub proof fn lemma_digits_end_bounds(s: Seq<char>, i: int)
    requires
        0 <= i <= s.len(),
    ensures
        i <= digits_end(s, i) <= s.len(),
    decreases s.len() - i,
{
    if i < s.len() && crate::text::is_digit(s[i]) {
        lemma_digits_end_bounds(s, i + 1);
    }
}

pub fn skip_digits(s: &Vec<char>, i: usize) -> (r: usize)
    requires
        i <= s@.len(),
    ensures
        r == digits_end(s@, i as int),
        i <= r <= s@.len(),
{
    let mut j = i;
    while j < s.len() && crate::text::digit_char(s[j])
        invariant
            i <= j <= s@.len(),
            digits_end(s@, i as int) == digits_end(s@, j as int),
        decreases s@.len() - j,
    {
        j = j + 1;
    }
    j
}

/// Position of the closing angle bracket that returns the nesting counter
/// `d` to zero, scanning from `k`, or the length of the input when none.
pub open spec fn angle_close(s: Seq<char>, k: int, d: int) -> int
    decreases s.len() - k,
        when 0 <= k <= s.len()
{
    if k >= s.len() {
        s.len() as int
    } else if s[k] == '>' && d == 1 {
        k
    } else {
        angle_close(
            s,
            k + 1,
            d + if s[k] == '<' {
                1int
            } else if s[k] == '>' {
                -1int
            } else {
                0int
            },
        )
    }
}

fn find_angle_close(s: &Vec<char>, k: usize) -> (r: usize)
    requires
        1 <= k <= s@.len(),
    ensures
        r == angle_close(s@, k as int, 1),
        k <= r <= s@.len(),
{
    let n = s.len();
    let mut j = k;
    let mut d: usize = 1;
    while j < n
        invariant
            1 <= k <= j <= n == s@.len(),
            1 <= d <= j,
            angle_close(s@, k as int, 1) == angle_close(s@, j as int, d as int),
        decreases n - j,
    {
        let c = s[j];
        if c == '>' && d == 1 {
            return j;
        }
        if c == '<' {
            d = d + 1;
        } else if c == '>' {
            d = d - 1;
        }
        j = j + 1;
    }
    n
}

} // verus!

verus! {

/// The field entry on a line: the type expression as written (scope
/// dropped) and the raw field name. The type is an identifier optionally
/// followed by a balanced angle-bracket group; the name must be followed by
/// a semicolon and at most a trailing comment. `None` when the line is no
/// field entry.
pub open spec fn field_of_line(line: Seq<char>) -> Option<(Seq<char>, Seq<char>)> {
    let p0 = ws_end(line, 0);
    let q = word_end(line, p0);
    let t0 = if q > p0 && q + 1 < line.len() && line[q] == ':' && line[q + 1] == ':' {
        q + 2
    } else {
        p0
    };
    let tw = word_end(line, t0);
    if tw == t0 {
        None
    } else {
        let type_end = if tw < line.len() && line[tw] == '<' {
            let e = angle_close(line, tw + 1, 1);
            if e == line.len() {
                line.len() as int + 1
            } else {
                e + 1
            }
        } else {
            tw
        };
        if type_end > line.len() {
            None
        } else {
            let p2 = ws_end(line, type_end);
            if p2 == type_end {
                None
            } else {
                let nw = word_end(line, p2);
                if nw == p2 || !(nw < line.len() && line[nw] == ';') {
                    None
                } else {
                    let p3 = ws_end(line, nw + 1);
                    if p3 == line.len() || (p3 + 1 < line.len() && line[p3] == '/' && line[p3 + 1]
                        == '/') {
                        Some((line.subrange(t0, type_end), line.subrange(p2, nw)))
                    } else {
                        None
                    }
                }
            }
        }
    }
}

/// Parses one line as a field entry.
pub fn parse_field_line(line: &Vec<char>) -> (r: Option<(Vec<char>, Vec<char>)>)
    ensures
        match r {
            Some(p) => field_of_line(line@) == Some((p.0@, p.1@)),
            None => field_of_line(line@) is None,
        },
{
    let n = line.len();
    let p0 = crate::text::skip_ws(line, 0);
    let q = crate::text::skip_word(line, p0);
    let t0 = if q > p0 && q < n && q + 1 < n && line[q] == ':' && line[q + 1] == ':' {
        q + 2
    } else {
        p0
    };
    let tw = crate::text::skip_word(line, t0);
    if tw == t0 {
        return None;
    }
    let type_end: usize;
    if tw < n && line[tw] == '<' {
        let e = find_angle_close(line, tw + 1);
        if e == n {
            return None;
        }
        type_end = e + 1;
    } else {
        type_end = tw;
    }
    let p2 = crate::text::skip_ws(line, type_end);
    if p2 == type_end {
        return None;
    }
    let nw = crate::text::skip_word(line, p2);
    if nw == p2 || !(nw < n && line[nw] == ';') {
        return None;
    }
    let p3 = crate::text::skip_ws(line, nw + 1);
    if p3 == n || (p3 + 1 < n && line[p3] == '/' && line[p3 + 1] == '/') {
        Some((sub_vec(line, t0, type_end), sub_vec(line, p2, nw)))
    } else {
        None
    }
}

/// One class field: raw name, canonical name, source type expression as
/// written, resolved target type, and the wide-array marker.
pub struct FieldDeclaration {
    pub original: Vec<char>,
    pub canonical: Vec<char>,
    pub source_type: Vec<char>,
    pub resolved: GlacierType,
    pub wide_array: bool,
}

/// The mathematical content of a field declaration.
pub struct FieldShape {
    pub original: Seq<char>,
    pub canonical: Seq<char>,
    pub source_type: Seq<char>,
    pub resolved: TypeShape,
    pub wide_array: bool,
}

impl View for FieldDeclaration {
    type V = FieldShape;

    open spec fn view(&self) -> FieldShape {
        FieldShape {
            original: self.original@,
            canonical: self.canonical@,
            source_type: self.source_type@,
            resolved: self.resolved@,
            wide_array: self.wide_array,
        }
    }
}

/// The views of a sequence of fields.
pub open spec fn field_views(fs: Seq<FieldDeclaration>) -> Seq<FieldShape> {
    Seq::new(fs.len(), |i: int| fs[i]@)
}

/// The field produced from a parsed entry, within the class whose
/// canonical name is `class_canon`: the fixed override is applied first,
/// the type is resolved, the name canonicalized, the boolean prefix added
/// when the resolved type is boolean, and the wide-array marker set when
/// the resolved type is a fixed-length sequence longer than the threshold.
pub open spec fn field_shape(class_canon: Seq<char>, ty: Seq<char>, nm: Seq<char>) -> FieldShape {
    let eff_ty = if class_canon == "SEntityTemplateProperty"@ && nm == "nPropertyID"@ {
        "EntityTemplatePropertyId"@
    } else {
        ty
    };
    let resolved = translate_spec(eff_ty);
    let base = mapped_field_name(nm);
    let canon = if resolved is Boolean && !crate::enums::starts_with(base, "is_"@) {
        "is_"@ + base
    } else {
        base
    };
    FieldShape {
        original: nm,
        canonical: canon,
        source_type: ty,
        resolved: resolved,
        wide_array: resolved matches TypeShape::FixedSeq(_, len) && len > wide_array_threshold(),
    }
}

/// The fields of a class body's lines, in declaration order.
pub open spec fn fields_of_lines(class_canon: Seq<char>, lines: Seq<Seq<char>>) -> Seq<FieldShape>
    decreases lines.len(),
{
    if lines.len() == 0 {
        Seq::empty()
    } else {
        fields_of_lines(class_canon, lines.drop_last()) + match field_of_line(lines.last()) {
            Some(p) => seq![field_shape(class_canon, p.0, p.1)],
            None => Seq::empty(),
        }
    }
}

/// The fields of a class body.
pub open spec fn class_fields_spec(class_canon: Seq<char>, body: Seq<char>) -> Seq<FieldShape> {
    fields_of_lines(class_canon, crate::enums::split_lines(body))
}

/// Builds the field for one parsed entry.
fn build_field(class_canon: &Vec<char>, ty: Vec<char>, nm: Vec<char>) -> (f: FieldDeclaration)
    ensures
        f@ == field_shape(class_canon@, ty@, nm@),
{
    let override_hit = chars_eq(class_canon, &str_to_chars("SEntityTemplateProperty")) && chars_eq(
        &nm,
        &str_to_chars("nPropertyID"),
    );
    let eff_ty: Vec<char> = if override_hit {
        str_to_chars("EntityTemplatePropertyId")
    } else {
        sub_vec(&ty, 0, ty.len())
    };
    proof {
        assert(ty@.subrange(0, ty@.len() as int) =~= ty@);
    }
    let resolved = crate::types::translate_type(&eff_ty);
    let base = crate::names::map_field_name(&nm);
    let is_boolean = match resolved {
        GlacierType::Boolean => true,
        _ => false,
    };
    let has_prefix = match_at(&base, 0, &str_to_chars("is_"));
    proof {
        if "is_"@.len() <= base@.len() {
            assert(base@.subrange(0, "is_"@.len() as int) =~= base@.take("is_"@.len() as int));
        }
    }
    let canon: Vec<char> = if is_boolean && !has_prefix {
        let mut c = str_to_chars("is_");
        crate::text::append_chars(&mut c, &base);
        c
    } else {
        base
    };
    let wide = match &resolved {
        GlacierType::FixedSeq(_, len) => *len > 32,
        _ => false,
    };
    FieldDeclaration {
        original: nm,
        canonical: canon,
        source_type: ty,
        resolved: resolved,
        wide_array: wide,
    }
}

/// Extracts the fields of a class body.
pub fn extract_class_fields(class_canon: &Vec<char>, body: &Vec<char>) -> (out: Vec<
    FieldDeclaration,
>)
    ensures
        field_views(out@) == class_fields_spec(class_canon@, body@),
{
    let lines = crate::enums::split_lines_chars(body);
    let ghost target = fields_of_lines(class_canon@, views_of(lines@));
    let mut out: Vec<FieldDeclaration> = Vec::new();
    let mut i: usize = 0;
    proof {
        assert(views_of(lines@).take(0) =~= Seq::<Seq<char>>::empty());
    }
    while i < lines.len()
        invariant
            i <= lines@.len(),
            target == fields_of_lines(class_canon@, views_of(lines@)),
            field_views(out@) == fields_of_lines(class_canon@, views_of(lines@).take(i as int)),
        decreases lines@.len() - i,
    {
        let ghost lv = views_of(lines@);
        let ghost old_out = out@;
        proof {
            assert(lv.take(i + 1).drop_last() =~= lv.take(i as int));
            assert(lv.take(i + 1).last() == lv[i as int]);
        }
        match parse_field_line(&lines[i]) {
            Some(p) => {
                let f = build_field(class_canon, p.0, p.1);
                let ghost gf = f@;
                out.push(f);
                proof {
                    assert(field_views(out@) =~= field_views(old_out).push(gf));
                    assert(field_views(out@) =~= fields_of_lines(class_canon@, lv.take(i + 1)));
                }
            },
            None => {
                proof {
                    assert(fields_of_lines(class_canon@, lv.take(i + 1)) =~= fields_of_lines(
                        class_canon@,
                        lv.take(i as int),
                    ));
                }
            },
        }
        i = i + 1;
    }
    proof {
        assert(views_of(lines@).take(lines@.len() as int) =~= views_of(lines@));
    }
    out
}

/// Boolean prefixing: a field whose resolved type is boolean always has a
/// canonical name that starts with the boolean prefix, whether or not the
/// raw name carried one.
pub proof fn lemma_boolean_prefixing(class_canon: Seq<char>, ty: Seq<char>, nm: Seq<char>)
    ensures
        field_shape(class_canon, ty, nm).resolved is Boolean ==> crate::enums::starts_with(
            field_shape(class_canon, ty, nm).canonical,
            "is_"@,
        ),
{
    let base = mapped_field_name(nm);
    if field_shape(class_canon, ty, nm).resolved is Boolean && !crate::enums::starts_with(
        base,
        "is_"@,
    ) {
        assert(("is_"@ + base).take("is_"@.len() as int) =~= "is_"@);
    }
}

/// Wide-array marking: a field is marked for wide-array serialization
/// exactly when its resolved type is a fixed-length sequence whose length
/// exceeds the threshold.
pub proof fn lemma_wide_array_threshold(class_canon: Seq<char>, ty: Seq<char>, nm: Seq<char>)
    ensures
        field_shape(class_canon, ty, nm).wide_array <==> (field_shape(class_canon, ty, nm).resolved
            matches TypeShape::FixedSeq(_, len) && len > wide_array_threshold()),
{
}

} // verus!
