//! Type expression translation.
//!
//! A type expression from the header is either a primitive keyword, a
//! homogeneous-sequence wrapper `TArray<T>`, a fixed-length array wrapper
//! `TFixedArray<T, N>`, a key-value mapping wrapper `TMap<K, V>`, the
//! polymorphic-box marker `ZVariant`, or an opaque nominal reference to
//! another declaration. Resolution is recursive in the wrapped expressions.

use vstd::prelude::*;
use crate::names::{str_to_chars, upper_camel_of};
use crate::text::{digit_char, is_digit, is_space, space_char, sub_vec};

verus! {

/// Leading whitespace removed.
pub open spec fn trim_start_spec(s: Seq<char>) -> Seq<char>
    decreases s.len(),
{
    if s.len() > 0 && is_space(s[0]) {
        trim_start_spec(s.skip(1))
    } else {
        s
    }
}

/// Trailing whitespace removed.
pub open spec fn trim_end_spec(s: Seq<char>) -> Seq<char>
    decreases s.len(),
{
    if s.len() > 0 && is_space(s.last()) {
        trim_end_spec(s.drop_last())
    } else {
        s
    }
}

/// Leading and trailing whitespace removed.
pub open spec fn trimmed(s: Seq<char>) -> Seq<char> {
    trim_end_spec(trim_start_spec(s))
}

pub proof fn lemma_trim_start_le(s: Seq<char>)
    ensures
        trim_start_spec(s).len() <= s.len(),
    decreases s.len(),
{
    if s.len() > 0 && is_space(s[0]) {
        lemma_trim_start_le(s.skip(1));
    }
}

pub proof fn lemma_trim_end_le(s: Seq<char>)
    ensures
        trim_end_spec(s).len() <= s.len(),
    decreases s.len(),
{
    if s.len() > 0 && is_space(s.last()) {
        lemma_trim_end_le(s.drop_last());
    }
}

pub proof fn lemma_trimmed_le(s: Seq<char>)
    ensures
        trimmed(s).len() <= s.len(),
{
    lemma_trim_start_le(s);
    lemma_trim_end_le(trim_start_spec(s));
}

proof fn lemma_trim_start_at(s: Seq<char>, a: int)
    requires
        0 <= a <= s.len(),
        forall|j: int| 0 <= j < a ==> is_space(s[j]),
        a < s.len() ==> !is_space(s[a]),
    ensures
        trim_start_spec(s) == s.skip(a),
    decreases s.len(),
{
    if a == 0 {
        assert(s.skip(0) =~= s);
    } else {
        lemma_trim_start_at(s.skip(1), a - 1);
        assert(s.skip(1).skip(a - 1) =~= s.skip(a));
    }
}

pub proof fn lemma_trim_end_at(s: Seq<char>, b: int)
    requires
        0 <= b <= s.len(),
        forall|j: int| b <= j < s.len() ==> is_space(s[j]),
        b > 0 ==> !is_space(s[b - 1]),
    ensures
        trim_end_spec(s) == s.take(b),
    decreases s.len(),
{
    if b == s.len() {
        if s.len() > 0 && is_space(s.last()) {
            lemma_trim_end_at(s.drop_last(), b - 1);
        } else {
            assert(s.take(b) =~= s);
        }
    } else {
        lemma_trim_end_at(s.drop_last(), b);
        assert(s.drop_last().take(b) =~= s.take(b));
    }
}

/// Removes leading and trailing whitespace.
pub fn trim_chars(s: &Vec<char>) -> (r: Vec<char>)
    ensures
        r@ == trimmed(s@),
        r@.len() <= s@.len(),
{
    let n = s.len();
    let mut a: usize = 0;
    while a < n && space_char(s[a])
        invariant
            a <= n == s@.len(),
            forall|j: int| 0 <= j < a ==> is_space(s@[j]),
        decreases n - a,
    {
        a = a + 1;
    }
    proof {
        lemma_trim_start_at(s@, a as int);
    }
    if a == n {
        proof {
            assert(trim_start_spec(s@) =~= Seq::<char>::empty());
        }
        let r: Vec<char> = Vec::new();
        return r;
    }
    let mut b: usize = n;
    while b > a + 1 && space_char(s[b - 1])
        invariant
            a < b <= n == s@.len(),
            forall|j: int| b <= j < n ==> is_space(s@[j]),
        decreases b,
    {
        b = b - 1;
    }
    proof {
        let t = s@.skip(a as int);
        lemma_trim_end_at(t, b - a);
        assert(t.take(b - a) =~= s@.subrange(a as int, b as int));
    }
    sub_vec(s, a, b)
}

/// +1 for an opening angle bracket, -1 for a closing one.
pub open spec fn angle_delta(c: char) -> int {
    if c == '<' {
        1int
    } else if c == '>' {
        -1int
    } else {
        0int
    }
}

/// Splits a generic-argument list at commas that are not nested inside
/// angle brackets. `cur` and `acc` accumulate the argument being read and
/// the arguments already read.
pub open spec fn split_args(s: Seq<char>, depth: int, cur: Seq<char>, acc: Seq<Seq<char>>) -> Seq<
    Seq<char>,
>
    decreases s.len(),
{
    if s.len() == 0 {
        acc.push(cur)
    } else if s[0] == ',' && depth == 0 {
        split_args(s.skip(1), 0, Seq::empty(), acc.push(cur))
    } else {
        split_args(s.skip(1), depth + angle_delta(s[0]), cur.push(s[0]), acc)
    }
}

/// The top-level generic arguments of `s`.
pub open spec fn top_args(s: Seq<char>) -> Seq<Seq<char>> {
    split_args(s, 0, Seq::empty(), Seq::empty())
}

proof fn lemma_split_args_bound(s: Seq<char>, depth: int, cur: Seq<char>, acc: Seq<Seq<char>>, bound: int)
    requires
        forall|k: int| 0 <= k < acc.len() ==> (#[trigger] acc[k]).len() <= bound,
        cur.len() + s.len() <= bound,
    ensures
        ({
            let r = split_args(s, depth, cur, acc);
            &&& r.len() > acc.len()
            &&& forall|k: int| 0 <= k < r.len() ==> (#[trigger] r[k]).len() <= bound
        }),
    decreases s.len(),
{
    if s.len() == 0 {
    } else if s[0] == ',' && depth == 0 {
        lemma_split_args_bound(s.skip(1), 0, Seq::empty(), acc.push(cur), bound);
    } else {
        lemma_split_args_bound(s.skip(1), depth + angle_delta(s[0]), cur.push(s[0]), acc, bound);
    }
}

/// Every top-level argument is no longer than the argument list, and there
/// is always at least one argument.
pub proof fn lemma_top_args_bound(s: Seq<char>)
    ensures
        top_args(s).len() >= 1,
        forall|k: int| 0 <= k < top_args(s).len() ==> (#[trigger] top_args(s)[k]).len() <= s.len(),
{
    lemma_split_args_bound(s, 0, Seq::empty(), Seq::empty(), s.len() as int);
}

/// The views of a sequence of character vectors.
pub open spec fn views_of(vs: Seq<Vec<char>>) -> Seq<Seq<char>> {
    Seq::new(vs.len(), |i: int| vs[i]@)
}

/// Splits `s` at top-level commas.
pub fn split_top_args(s: &Vec<char>) -> (parts: Vec<Vec<char>>)
    ensures
        views_of(parts@) == top_args(s@),
        parts@.len() >= 1,
{
    let n = s.len();
    let mut parts: Vec<Vec<char>> = Vec::new();
    let mut cur: Vec<char> = Vec::new();
    let mut depth: i128 = 0;
    let mut i: usize = 0;
    proof {
        assert(s@.skip(0) =~= s@);
        assert(views_of(parts@) =~= Seq::<Seq<char>>::empty());
    }
    while i < n
        invariant
            i <= n == s@.len(),
            n <= usize::MAX,
            -(i as int) <= depth as int <= i as int,
            split_args(s@.skip(i as int), depth as int, cur@, views_of(parts@)) == top_args(s@),
        decreases n - i,
    {
        let ghost old_parts = parts@;
        let ghost old_cur = cur@;
        let c = s[i];
        if c == ',' && depth == 0 {
            parts.push(cur);
            cur = Vec::new();
            proof {
                assert(views_of(parts@) =~= views_of(old_parts).push(old_cur));
            }
        } else {
            if c == '<' {
                depth = depth + 1;
            } else if c == '>' {
                depth = depth - 1;
            }
            cur.push(c);
        }
        proof {
            assert(s@.skip(i as int).skip(1) =~= s@.skip(i + 1));
            assert(s@.skip(i as int)[0] == s@[i as int]);
        }
        i = i + 1;
    }
    proof {
        assert(s@.skip(n as int) =~= Seq::<char>::empty());
    }
    let ghost old_parts = parts@;
    let ghost old_cur = cur@;
    parts.push(cur);
    proof {
        assert(views_of(parts@) =~= views_of(old_parts).push(old_cur));
    }
    proof {
        lemma_split_args_bound(s@, 0, Seq::empty(), Seq::empty(), s@.len() as int);
    }
    parts
}

/// A non-empty run of decimal digits.
pub open spec fn all_digits(s: Seq<char>) -> bool {
    s.len() > 0 && forall|k: int| 0 <= k < s.len() ==> is_digit(#[trigger] s[k])
}

/// The numeric value of a run of decimal digits.
pub open spec fn digits_val(s: Seq<char>) -> nat
    decreases s.len(),
{
    if s.len() == 0 {
        0
    } else {
        digits_val(s.drop_last()) * 10 + (if is_digit(s.last()) {
            (s.last() as u32 - 48) as nat
        } else {
            0nat
        })
    }
}

pub fn is_digits(s: &Vec<char>) -> (r: bool)
    ensures
        r == all_digits(s@),
{
    if s.len() == 0 {
        return false;
    }
    let mut i: usize = 0;
    while i < s.len()
        invariant
            i <= s@.len(),
            forall|k: int| 0 <= k < i ==> is_digit(#[trigger] s@[k]),
        decreases s@.len() - i,
    {
        if !digit_char(s[i]) {
            return false;
        }
        i = i + 1;
    }
    true
}

proof fn lemma_digits_val_mono(s: Seq<char>, k: int)
    requires
        0 <= k <= s.len(),
    ensures
        digits_val(s.take(k)) <= digits_val(s),
    decreases s.len(),
{
    if k == s.len() {
        assert(s.take(k) =~= s);
    } else {
        lemma_digits_val_mono(s.drop_last(), k);
        assert(s.drop_last().take(k) =~= s.take(k));
    }
}

/// Parses a run of decimal digits; `None` when the value does not fit the
/// machine range.
pub fn parse_count(s: &Vec<char>) -> (r: Option<u64>)
    requires
        all_digits(s@),
    ensures
        match r {
            Some(v) => v as nat == digits_val(s@) && digits_val(s@) <= u64::MAX,
            None => digits_val(s@) > u64::MAX,
        },
{
    let mut val: u64 = 0;
    let mut i: usize = 0;
    proof {
        assert(s@.take(0) =~= Seq::<char>::empty());
    }
    while i < s.len()
        invariant
            i <= s@.len(),
            all_digits(s@),
            val as nat == digits_val(s@.take(i as int)),
        decreases s@.len() - i,
    {
        let c = s[i];
        let d: u64 = (c as u32 - 48) as u64;
        proof {
            assert(is_digit(s@[i as int]));
            assert(s@.take(i + 1).drop_last() =~= s@.take(i as int));
            assert(s@.take(i + 1).last() == s@[i as int]);
        }
        if val > (u64::MAX - d) / 10 {
            proof {
                assert(10 * (val as int) > u64::MAX - d) by (nonlinear_arith)
                    requires
                        val as int > (u64::MAX - d as int) / 10,
                        0 <= d <= 9,
                ;
                assert(digits_val(s@.take(i + 1)) > u64::MAX);
                lemma_digits_val_mono(s@, i + 1);
            }
            return None;
        }
        proof {
            assert(10 * (val as int) + d <= u64::MAX) by (nonlinear_arith)
                requires
                    val as int <= (u64::MAX - d as int) / 10,
                    0 <= d <= 9,
            ;
        }
        val = val * 10 + d;
        i = i + 1;
    }
    proof {
        assert(s@.take(s@.len() as int) =~= s@);
    }
    Some(val)
}


/// The mathematical shape of a resolved target type.
pub enum TypeShape {
    Int8,
    Int16,
    Int32,
    Int64,
    UInt8,
    UInt16,
    UInt32,
    UInt64,
    Float32,
    Float64,
    Boolean,
    Character,
    Text,
    PolyBox,
    Sequence(Box<TypeShape>),
    FixedSeq(Box<TypeShape>, nat),
    Mapping(Box<TypeShape>, Box<TypeShape>),
    Nominal(Seq<char>),
}

/// A resolved target type: a primitive, a growable sequence, a fixed-length
/// sequence, a key-value mapping, the polymorphic box, or an opaque nominal
/// reference to another declaration.
#[derive(Debug, PartialEq, Eq)]
pub enum GlacierType {
    Int8,
    Int16,
    Int32,
    Int64,
    UInt8,
    UInt16,
    UInt32,
    UInt64,
    Float32,
    Float64,
    Boolean,
    Character,
    Text,
    PolyBox,
    Sequence(Box<GlacierType>),
    FixedSeq(Box<GlacierType>, u64),
    Mapping(Box<GlacierType>, Box<GlacierType>),
    Nominal(Vec<char>),
}

/// The shape of a resolved type.
pub open spec fn shape_of(t: GlacierType) -> TypeShape
    decreases t,
{
    match t {
        GlacierType::Int8 => TypeShape::Int8,
        GlacierType::Int16 => TypeShape::Int16,
        GlacierType::Int32 => TypeShape::Int32,
        GlacierType::Int64 => TypeShape::Int64,
        GlacierType::UInt8 => TypeShape::UInt8,
        GlacierType::UInt16 => TypeShape::UInt16,
        GlacierType::UInt32 => TypeShape::UInt32,
        GlacierType::UInt64 => TypeShape::UInt64,
        GlacierType::Float32 => TypeShape::Float32,
        GlacierType::Float64 => TypeShape::Float64,
        GlacierType::Boolean => TypeShape::Boolean,
        GlacierType::Character => TypeShape::Character,
        GlacierType::Text => TypeShape::Text,
        GlacierType::PolyBox => TypeShape::PolyBox,
        GlacierType::Sequence(b) => TypeShape::Sequence(Box::new(shape_of(*b))),
        GlacierType::FixedSeq(b, n) => TypeShape::FixedSeq(Box::new(shape_of(*b)), n as nat),
        GlacierType::Mapping(k, v) => TypeShape::Mapping(
            Box::new(shape_of(*k)),
            Box::new(shape_of(*v)),
        ),
        GlacierType::Nominal(name) => TypeShape::Nominal(name@),
    }
}

impl View for GlacierType {
    type V = TypeShape;

    open spec fn view(&self) -> TypeShape {
        shape_of(*self)
    }
}

/// Scope separators replaced by underscores.
pub open spec fn scope_to_underscore(s: Seq<char>) -> Seq<char>
    decreases s.len(),
{
    if s.len() >= 2 && s[0] == ':' && s[1] == ':' {
        seq!['_'] + scope_to_underscore(s.skip(2))
    } else if s.len() == 0 {
        s
    } else {
        seq![s[0]] + scope_to_underscore(s.skip(1))
    }
}

pub fn scope_underscored(s: &Vec<char>) -> (r: Vec<char>)
    ensures
        r@ == scope_to_underscore(s@),
{
    let n = s.len();
    let mut r: Vec<char> = Vec::new();
    let mut i: usize = 0;
    proof {
        assert(s@.skip(0) =~= s@);
    }
    while i < n
        invariant
            i <= n == s@.len(),
            scope_to_underscore(s@) == r@ + scope_to_underscore(s@.skip(i as int)),
        decreases n - i,
    {
        let ghost old_r = r@;
        let ghost rest = s@.skip(i as int);
        if i + 1 < n && s[i] == ':' && s[i + 1] == ':' {
            r.push('_');
            proof {
                assert(rest[0] == s@[i as int] && rest[1] == s@[i + 1]);
                assert(rest.skip(2) =~= s@.skip(i + 2));
                assert(old_r + (seq!['_'] + scope_to_underscore(s@.skip(i + 2))) =~= r@
                    + scope_to_underscore(s@.skip(i + 2)));
            }
            i = i + 2;
        } else {
            r.push(s[i]);
            proof {
                assert(rest[0] == s@[i as int]);
                assert(rest.skip(1) =~= s@.skip(i + 1));
                if rest.len() >= 2 && rest[0] == ':' && rest[1] == ':' {
                } else {
                    assert(scope_to_underscore(rest) == seq![rest[0]] + scope_to_underscore(
                        rest.skip(1),
                    ));
                }
                assert(old_r + (seq![s@[i as int]] + scope_to_underscore(s@.skip(i + 1))) =~= r@
                    + scope_to_underscore(s@.skip(i + 1)));
            }
            i = i + 1;
        }
    }
    proof {
        assert(s@.skip(n as int) =~= Seq::<char>::empty());
        assert(r@ + scope_to_underscore(s@.skip(n as int)) =~= r@);
    }
    r
}

/// The primitive shape named by `s`, when `s` is a primitive keyword.
pub open spec fn prim_shape(s: Seq<char>) -> Option<TypeShape> {
    if s == "float32"@ || s == "float"@ {
        Some(TypeShape::Float32)
    } else if s == "float64"@ || s == "double"@ {
        Some(TypeShape::Float64)
    } else if s == "int64"@ {
        Some(TypeShape::Int64)
    } else if s == "uint64"@ {
        Some(TypeShape::UInt64)
    } else if s == "int32"@ || s == "int"@ {
        Some(TypeShape::Int32)
    } else if s == "uint32"@ || s == "unsigned"@ {
        Some(TypeShape::UInt32)
    } else if s == "int16"@ {
        Some(TypeShape::Int16)
    } else if s == "uint16"@ {
        Some(TypeShape::UInt16)
    } else if s == "int8"@ {
        Some(TypeShape::Int8)
    } else if s == "uint8"@ {
        Some(TypeShape::UInt8)
    } else if s == "bool"@ {
        Some(TypeShape::Boolean)
    } else if s == "char"@ {
        Some(TypeShape::Character)
    } else if s == "string"@ {
        Some(TypeShape::Text)
    } else if s == "ZVariant"@ {
        Some(TypeShape::PolyBox)
    } else {
        None
    }
}

/// `s` has the form `TArray<...>`.
pub open spec fn is_tarray(s: Seq<char>) -> bool {
    s.len() >= 8 && s.take(7) == "TArray<"@ && s.last() == '>'
}

pub open spec fn tarray_inner(s: Seq<char>) -> Seq<char> {
    s.subrange(7, s.len() - 1)
}

/// `s` has the form `TFixedArray<...>`.
pub open spec fn is_tfixed(s: Seq<char>) -> bool {
    s.len() >= 13 && s.take(12) == "TFixedArray<"@ && s.last() == '>'
}

pub open spec fn tfixed_inner(s: Seq<char>) -> Seq<char> {
    s.subrange(12, s.len() - 1)
}

/// `s` has the form `TMap<...>`.
pub open spec fn is_tmap(s: Seq<char>) -> bool {
    s.len() >= 6 && s.take(5) == "TMap<"@ && s.last() == '>'
}

pub open spec fn tmap_inner(s: Seq<char>) -> Seq<char> {
    s.subrange(5, s.len() - 1)
}

/// A well-formed fixed-length array expression: exactly two top-level
/// arguments, the second a run of digits whose value fits the machine range.
pub open spec fn fixed_valid(s: Seq<char>) -> bool {
    is_tfixed(s) && {
        let args = top_args(tfixed_inner(s));
        args.len() == 2 && all_digits(trimmed(args[1])) && digits_val(trimmed(args[1]))
            <= u64::MAX
    }
}

/// A well-formed mapping expression: exactly two top-level arguments.
pub open spec fn map_valid(s: Seq<char>) -> bool {
    is_tmap(s) && top_args(tmap_inner(s)).len() == 2
}

/// The resolved shape of a type expression: a primitive keyword, one of the
/// three container wrappers translated recursively, or the fallback opaque
/// nominal reference with scope separators replaced and the name rendered
/// upper-camel.
pub open spec fn translate_spec(s: Seq<char>) -> TypeShape
    decreases s.len(),
        via translate_spec_dec
{
    if prim_shape(s) is Some {
        prim_shape(s)->Some_0
    } else if is_tarray(s) {
        TypeShape::Sequence(Box::new(translate_spec(trimmed(tarray_inner(s)))))
    } else if fixed_valid(s) {
        TypeShape::FixedSeq(
            Box::new(translate_spec(trimmed(top_args(tfixed_inner(s))[0]))),
            digits_val(trimmed(top_args(tfixed_inner(s))[1])),
        )
    } else if map_valid(s) {
        TypeShape::Mapping(
            Box::new(translate_spec(trimmed(top_args(tmap_inner(s))[0]))),
            Box::new(translate_spec(trimmed(top_args(tmap_inner(s))[1]))),
        )
    } else {
        TypeShape::Nominal(upper_camel_of(scope_to_underscore(s)))
    }
}

#[via_fn]
proof fn translate_spec_dec(s: Seq<char>) {
    if prim_shape(s) is Some {
    } else if is_tarray(s) {
        lemma_trimmed_le(tarray_inner(s));
    } else if fixed_valid(s) {
        lemma_top_args_bound(tfixed_inner(s));
        lemma_trimmed_le(top_args(tfixed_inner(s))[0]);
        lemma_trimmed_le(top_args(tfixed_inner(s))[1]);
    } else if map_valid(s) {
        lemma_top_args_bound(tmap_inner(s));
        lemma_trimmed_le(top_args(tmap_inner(s))[0]);
        lemma_trimmed_le(top_args(tmap_inner(s))[1]);
    }
}


/// Resolves a type expression into a target type.
pub fn translate_type(expr: &Vec<char>) -> (t: GlacierType)
    ensures
        t@ == translate_spec(expr@),
    decreases expr@.len(),
{
    if crate::text::chars_eq(expr, &str_to_chars("float32")) || crate::text::chars_eq(
        expr,
        &str_to_chars("float"),
    ) {
        return GlacierType::Float32;
    }
    if crate::text::chars_eq(expr, &str_to_chars("float64")) || crate::text::chars_eq(
        expr,
        &str_to_chars("double"),
    ) {
        return GlacierType::Float64;
    }
    if crate::text::chars_eq(expr, &str_to_chars("int64")) {
        return GlacierType::Int64;
    }
    if crate::text::chars_eq(expr, &str_to_chars("uint64")) {
        return GlacierType::UInt64;
    }
    if crate::text::chars_eq(expr, &str_to_chars("int32")) || crate::text::chars_eq(
        expr,
        &str_to_chars("int"),
    ) {
        return GlacierType::Int32;
    }
    if crate::text::chars_eq(expr, &str_to_chars("uint32")) || crate::text::chars_eq(
        expr,
        &str_to_chars("unsigned"),
    ) {
        return GlacierType::UInt32;
    }
    if crate::text::chars_eq(expr, &str_to_chars("int16")) {
        return GlacierType::Int16;
    }
    if crate::text::chars_eq(expr, &str_to_chars("uint16")) {
        return GlacierType::UInt16;
    }
    if crate::text::chars_eq(expr, &str_to_chars("int8")) {
        return GlacierType::Int8;
    }
    if crate::text::chars_eq(expr, &str_to_chars("uint8")) {
        return GlacierType::UInt8;
    }
    if crate::text::chars_eq(expr, &str_to_chars("bool")) {
        return GlacierType::Boolean;
    }
    if crate::text::chars_eq(expr, &str_to_chars("char")) {
        return GlacierType::Character;
    }
    if crate::text::chars_eq(expr, &str_to_chars("string")) {
        return GlacierType::Text;
    }
    if crate::text::chars_eq(expr, &str_to_chars("ZVariant")) {
        return GlacierType::PolyBox;
    }
    let n = expr.len();
    if n >= 8 && crate::text::match_at(expr, 0, &str_to_chars("TArray<")) && expr[n - 1] == '>' {
        proof {
            reveal_strlit("TArray<");
            assert(expr@.take(7) =~= expr@.subrange(0, 7));
            assert(is_tarray(expr@));
        }
        let inner = sub_vec(expr, 7, n - 1);
        let arg = trim_chars(&inner);
        proof {
            lemma_trimmed_le(inner@);
        }
        let t = translate_type(&arg);
        return GlacierType::Sequence(Box::new(t));
    }
    if n >= 13 && crate::text::match_at(expr, 0, &str_to_chars("TFixedArray<")) && expr[n - 1]
        == '>' {
        proof {
            reveal_strlit("TFixedArray<");
            assert(expr@.take(12) =~= expr@.subrange(0, 12));
            assert(is_tfixed(expr@));
        }
        let inner = sub_vec(expr, 12, n - 1);
        let mut parts = split_top_args(&inner);
        if parts.len() == 2 {
            proof {
                assert(top_args(inner@)[0] == parts@[0]@ && top_args(inner@)[1] == parts@[1]@);
            }
            let second = parts.pop().unwrap();
            let first = parts.pop().unwrap();
            let count_text = trim_chars(&second);
            if is_digits(&count_text) {
                if let Some(v) = parse_count(&count_text) {
                    proof {
                        assert(fixed_valid(expr@));
                        lemma_top_args_bound(inner@);
                        lemma_trimmed_le(first@);
                    }
                    let elem = trim_chars(&first);
                    let t = translate_type(&elem);
                    return GlacierType::FixedSeq(Box::new(t), v);
                }
            }
        }
        proof {
            assert(!fixed_valid(expr@));
        }
    }
    if n >= 6 && crate::text::match_at(expr, 0, &str_to_chars("TMap<")) && expr[n - 1] == '>' {
        proof {
            reveal_strlit("TMap<");
            assert(expr@.take(5) =~= expr@.subrange(0, 5));
            assert(is_tmap(expr@));
        }
        let inner = sub_vec(expr, 5, n - 1);
        let mut parts = split_top_args(&inner);
        if parts.len() == 2 {
            proof {
                assert(top_args(inner@)[0] == parts@[0]@ && top_args(inner@)[1] == parts@[1]@);
                assert(map_valid(expr@));
                lemma_top_args_bound(inner@);
                lemma_trimmed_le(parts@[0]@);
                lemma_trimmed_le(parts@[1]@);
            }
            let second = parts.pop().unwrap();
            let first = parts.pop().unwrap();
            let key_arg = trim_chars(&first);
            let val_arg = trim_chars(&second);
            let kt = translate_type(&key_arg);
            let vt = translate_type(&val_arg);
            return GlacierType::Mapping(Box::new(kt), Box::new(vt));
        }
        proof {
            assert(!map_valid(expr@));
        }
    }
    let und = scope_underscored(expr);
    let camel = crate::names::to_upper_camel(&und);
    GlacierType::Nominal(camel)
}


/// The decimal digit character for `d` (taken modulo 10).
pub open spec fn digit_of(d: nat) -> char {
    ((48 + (d % 10)) as u8) as char
}

/// The decimal rendering of `n`.
pub open spec fn dec_str(n: nat) -> Seq<char>
    decreases n,
{
    if n < 10 {
        seq![digit_of(n)]
    } else {
        dec_str(n / 10).push(digit_of(n % 10))
    }
}

/// Renders a count as decimal digits.
pub fn count_to_chars(n: u64) -> (r: Vec<char>)
    ensures
        r@ == dec_str(n as nat),
    decreases n,
{
    if n < 10 {
        let mut r: Vec<char> = Vec::new();
        r.push((48 + n as u8) as char);
        proof {
            assert(r@ =~= seq![digit_of(n as nat)]);
        }
        r
    } else {
        let mut r = count_to_chars(n / 10);
        r.push((48 + (n % 10) as u8) as char);
        r
    }
}

/// The target-language rendering of a resolved type shape.
pub open spec fn render_shape(t: TypeShape) -> Seq<char>
    decreases t,
{
    match t {
        TypeShape::Int8 => "i8"@,
        TypeShape::Int16 => "i16"@,
        TypeShape::Int32 => "i32"@,
        TypeShape::Int64 => "i64"@,
        TypeShape::UInt8 => "u8"@,
        TypeShape::UInt16 => "u16"@,
        TypeShape::UInt32 => "u32"@,
        TypeShape::UInt64 => "u64"@,
        TypeShape::Float32 => "f32"@,
        TypeShape::Float64 => "f64"@,
        TypeShape::Boolean => "bool"@,
        TypeShape::Character => "char"@,
        TypeShape::Text => "String"@,
        TypeShape::PolyBox => "Box<dyn ZVariant>"@,
        TypeShape::Sequence(b) => "Vec<"@ + render_shape(*b) + ">"@,
        TypeShape::FixedSeq(b, n) => "["@ + render_shape(*b) + "; "@ + dec_str(n) + "]"@,
        TypeShape::Mapping(k, v) => "std::collections::HashMap<"@ + render_shape(*k) + ", "@
            + render_shape(*v) + ">"@,
        TypeShape::Nominal(name) => name,
    }
}

/// Renders a resolved type as target-language text.
pub fn render_type(t: &GlacierType) -> (r: Vec<char>)
    ensures
        r@ == render_shape(t@),
    decreases *t,
{
    match t {
        GlacierType::Int8 => str_to_chars("i8"),
        GlacierType::Int16 => str_to_chars("i16"),
        GlacierType::Int32 => str_to_chars("i32"),
        GlacierType::Int64 => str_to_chars("i64"),
        GlacierType::UInt8 => str_to_chars("u8"),
        GlacierType::UInt16 => str_to_chars("u16"),
        GlacierType::UInt32 => str_to_chars("u32"),
        GlacierType::UInt64 => str_to_chars("u64"),
        GlacierType::Float32 => str_to_chars("f32"),
        GlacierType::Float64 => str_to_chars("f64"),
        GlacierType::Boolean => str_to_chars("bool"),
        GlacierType::Character => str_to_chars("char"),
        GlacierType::Text => str_to_chars("String"),
        GlacierType::PolyBox => str_to_chars("Box<dyn ZVariant>"),
        GlacierType::Sequence(b) => {
            let mut r = str_to_chars("Vec<");
            let inner = render_type(b);
            crate::text::append_chars(&mut r, &inner);
            let close = str_to_chars(">");
            crate::text::append_chars(&mut r, &close);
            proof {
                assert(r@ =~= render_shape(t@));
            }
            r
        },
        GlacierType::FixedSeq(b, n) => {
            let mut r = str_to_chars("[");
            let inner = render_type(b);
            crate::text::append_chars(&mut r, &inner);
            let sep = str_to_chars("; ");
            crate::text::append_chars(&mut r, &sep);
            let count = count_to_chars(*n);
            crate::text::append_chars(&mut r, &count);
            let close = str_to_chars("]");
            crate::text::append_chars(&mut r, &close);
            proof {
                assert(r@ =~= render_shape(t@));
            }
            r
        },
        GlacierType::Mapping(k, v) => {
            let mut r = str_to_chars("std::collections::HashMap<");
            let key = render_type(k);
            crate::text::append_chars(&mut r, &key);
            let sep = str_to_chars(", ");
            crate::text::append_chars(&mut r, &sep);
            let val = render_type(v);
            crate::text::append_chars(&mut r, &val);
            let close = str_to_chars(">");
            crate::text::append_chars(&mut r, &close);
            proof {
                assert(r@ =~= render_shape(t@));
            }
            r
        },
        GlacierType::Nominal(name) => sub_vec(name, 0, name.len()),
    }
}

} // verus!
