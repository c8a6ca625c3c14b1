//! Schema emission.
//!
//! Renders the extracted declarations as target-language source: each
//! declaration carries an external-name tag equal to its original source
//! name, per-member external-name tags, wide-array markers where flagged,
//! and the two tag-registration entries of the variant registry (the scalar
//! handle and the sequence-wrapper handle). Emission order equals
//! extraction order, and the output is a function of the input text alone.

use vstd::prelude::*;
use crate::classes::FieldShape;
use crate::enums::VariantShape;
use crate::extract::{
    header_classes, header_enums, ClassDeclaration, ClassDeclShape, EnumDeclaration, EnumDeclShape,
    class_decl_views, enum_decl_views,
};
use crate::names::{str_to_chars, variant_handle_of};
use crate::text::append_chars;
use crate::types::render_shape;

verus! {

/// The fixed import block at the head of each generated file.
pub open spec fn emit_includes() -> Seq<char> {
    "use crate::glacier_types::*;\nuse serde::{ Serialize, Deserialize };\nuse std::collections::HashMap;\nuse serde_big_array::BigArray;\n\n"@
}

/// One emitted variant: its external-name tag line, then the declaration
/// line with the literal value where one is present.
pub open spec fn emit_variant(v: VariantShape) -> Seq<char> {
    "\t#[serde(rename = \""@ + v.original + "\")]\n\t"@ + v.canonical + (match v.literal {
        Some(l) => if l.len() > 0 {
            " = "@ + l
        } else {
            Seq::<char>::empty()
        },
        None => Seq::<char>::empty(),
    }) + ",\n"@
}

pub open spec fn emit_variants(vs: Seq<VariantShape>) -> Seq<char>
    decreases vs.len(),
{
    if vs.len() == 0 {
        Seq::empty()
    } else {
        emit_variants(vs.drop_last()) + emit_variant(vs.last())
    }
}

/// The two tag-registration entries of a declaration: the scalar handle
/// and the sequence-wrapper handle.
pub open spec fn emit_registration(orig: Seq<char>, canon: Seq<char>) -> Seq<char> {
    let handle = variant_handle_of(orig);
    "#[typetag::serde(name = \""@ + handle + "\")]\nimpl ZVariant for "@ + canon + " {}\n"@
        + "#[typetag::serde(name = \"TArray<"@ + handle + ">\")]\nimpl ZVariant for TArray<"@
        + canon + "> {}\n"@
}

/// One emitted enum declaration with its registration entries.
pub open spec fn emit_enum(d: EnumDeclShape) -> Seq<char> {
    "#[derive(Debug, Serialize, Deserialize)]\n#[serde(rename = \""@ + d.original
        + "\")]\npub enum "@ + d.canonical + " {\n"@ + emit_variants(d.variants) + "}\n\n"@
        + emit_registration(d.original, d.canonical)
}

/// One emitted field: its external-name tag line, the wide-array marker
/// where flagged, then the declaration line.
pub open spec fn emit_field(f: FieldShape) -> Seq<char> {
    "\t#[serde(rename = \""@ + f.original + "\")]\n"@ + (if f.wide_array {
        "\t#[serde(with = \"serde_big_array::BigArray\")]\n"@
    } else {
        Seq::<char>::empty()
    }) + "\tpub "@ + f.canonical + ": "@ + render_shape(f.resolved) + ",\n"@
}

pub open spec fn emit_fields(fs: Seq<FieldShape>) -> Seq<char>
    decreases fs.len(),
{
    if fs.len() == 0 {
        Seq::empty()
    } else {
        emit_fields(fs.drop_last()) + emit_field(fs.last())
    }
}

/// One emitted class declaration with its registration entries.
pub open spec fn emit_class(d: ClassDeclShape) -> Seq<char> {
    "#[derive(Debug, Serialize, Deserialize)]\n#[serde(rename = \""@ + d.original
        + "\")]\npub struct "@ + d.canonical + " {\n"@ + emit_fields(d.fields) + "}\n\n"@
        + emit_registration(d.original, d.canonical)
}

pub open spec fn emit_enums_list(ds: Seq<EnumDeclShape>) -> Seq<char>
    decreases ds.len(),
{
    if ds.len() == 0 {
        Seq::empty()
    } else {
        emit_enums_list(ds.drop_last()) + emit_enum(ds.last())
    }
}

pub open spec fn emit_classes_list(ds: Seq<ClassDeclShape>) -> Seq<char>
    decreases ds.len(),
{
    if ds.len() == 0 {
        Seq::empty()
    } else {
        emit_classes_list(ds.drop_last()) + emit_class(ds.last())
    }
}

/// The generated enum group for a header.
pub open spec fn enums_source_spec(h: Seq<char>) -> Seq<char> {
    emit_includes() + emit_enums_list(header_enums(h))
}

/// The generated class group for a header, inside the named module.
pub open spec fn properties_source_spec(h: Seq<char>, module_name: Seq<char>) -> Seq<char> {
    emit_includes() + "use crate::"@ + module_name + "::enums::*;\n"@ + emit_classes_list(
        header_classes(h),
    )
}

/// The module aggregator.
pub open spec fn mod_source_spec() -> Seq<char> {
    "pub mod enums;\npub mod properties;\n"@
}

fn append_includes(out: &mut Vec<char>)
    ensures
        final(out)@ == old(out)@ + emit_includes(),
{
    let t = str_to_chars(
        "use crate::glacier_types::*;\nuse serde::{ Serialize, Deserialize };\nuse std::collections::HashMap;\nuse serde_big_array::BigArray;\n\n",
    );
    append_chars(out, &t);
}

fn append_variant(out: &mut Vec<char>, v: &crate::enums::EnumVariant)
    ensures
        final(out)@ == old(out)@ + emit_variant(v@),
{
    let t1 = str_to_chars("\t#[serde(rename = \"");
    append_chars(out, &t1);
    append_chars(out, &v.original);
    let t2 = str_to_chars("\")]\n\t");
    append_chars(out, &t2);
    append_chars(out, &v.canonical);
    match &v.literal {
        Some(l) => {
            if l.len() > 0 {
                let t3 = str_to_chars(" = ");
                append_chars(out, &t3);
                append_chars(out, l);
            }
        },
        None => {},
    }
    let t4 = str_to_chars(",\n");
    append_chars(out, &t4);
    proof {
        assert(out@ =~= old(out)@ + emit_variant(v@));
    }
}

fn append_variants(out: &mut Vec<char>, vs: &Vec<crate::enums::EnumVariant>)
    ensures
        final(out)@ == old(out)@ + emit_variants(crate::enums::variant_views(vs@)),
{
    let ghost vv = crate::enums::variant_views(vs@);
    let mut i: usize = 0;
    proof {
        assert(vv.take(0) =~= Seq::<VariantShape>::empty());
        assert(out@ =~= old(out)@ + emit_variants(vv.take(0)));
    }
    while i < vs.len()
        invariant
            i <= vs@.len(),
            vv == crate::enums::variant_views(vs@),
            out@ == old(out)@ + emit_variants(vv.take(i as int)),
        decreases vs@.len() - i,
    {
        proof {
            assert(vv.take(i + 1).drop_last() =~= vv.take(i as int));
            assert(vv.take(i + 1).last() == vv[i as int]);
        }
        append_variant(out, &vs[i]);
        proof {
            assert(out@ =~= old(out)@ + emit_variants(vv.take(i + 1)));
        }
        i = i + 1;
    }
    proof {
        assert(vv.take(vs@.len() as int) =~= vv);
    }
}

fn append_registration(out: &mut Vec<char>, orig: &Vec<char>, canon: &Vec<char>)
    ensures
        final(out)@ == old(out)@ + emit_registration(orig@, canon@),
{
    let handle = crate::names::variant_handle(orig);
    let t1 = str_to_chars("#[typetag::serde(name = \"");
    append_chars(out, &t1);
    append_chars(out, &handle);
    let t2 = str_to_chars("\")]\nimpl ZVariant for ");
    append_chars(out, &t2);
    append_chars(out, canon);
    let t3 = str_to_chars(" {}\n");
    append_chars(out, &t3);
    let t4 = str_to_chars("#[typetag::serde(name = \"TArray<");
    append_chars(out, &t4);
    append_chars(out, &handle);
    let t5 = str_to_chars(">\")]\nimpl ZVariant for TArray<");
    append_chars(out, &t5);
    append_chars(out, canon);
    let t6 = str_to_chars("> {}\n");
    append_chars(out, &t6);
    proof {
        assert(out@ =~= old(out)@ + emit_registration(orig@, canon@));
    }
}

fn append_enum(out: &mut Vec<char>, d: &EnumDeclaration)
    ensures
        final(out)@ == old(out)@ + emit_enum(d@),
{
    let t1 = str_to_chars("#[derive(Debug, Serialize, Deserialize)]\n#[serde(rename = \"");
    append_chars(out, &t1);
    append_chars(out, &d.original);
    let t2 = str_to_chars("\")]\npub enum ");
    append_chars(out, &t2);
    append_chars(out, &d.canonical);
    let t3 = str_to_chars(" {\n");
    append_chars(out, &t3);
    append_variants(out, &d.variants);
    let t4 = str_to_chars("}\n\n");
    append_chars(out, &t4);
    append_registration(out, &d.original, &d.canonical);
    proof {
        assert(out@ =~= old(out)@ + emit_enum(d@));
    }
}

fn append_field(out: &mut Vec<char>, f: &crate::classes::FieldDeclaration)
    ensures
        final(out)@ == old(out)@ + emit_field(f@),
{
    let t1 = str_to_chars("\t#[serde(rename = \"");
    append_chars(out, &t1);
    append_chars(out, &f.original);
    let t2 = str_to_chars("\")]\n");
    append_chars(out, &t2);
    if f.wide_array {
        let tw = str_to_chars("\t#[serde(with = \"serde_big_array::BigArray\")]\n");
        append_chars(out, &tw);
    }
    let t3 = str_to_chars("\tpub ");
    append_chars(out, &t3);
    append_chars(out, &f.canonical);
    let t4 = str_to_chars(": ");
    append_chars(out, &t4);
    let ty = crate::types::render_type(&f.resolved);
    append_chars(out, &ty);
    let t5 = str_to_chars(",\n");
    append_chars(out, &t5);
    proof {
        assert(out@ =~= old(out)@ + emit_field(f@));
    }
}

fn append_fields(out: &mut Vec<char>, fs: &Vec<crate::classes::FieldDeclaration>)
    ensures
        final(out)@ == old(out)@ + emit_fields(crate::classes::field_views(fs@)),
{
    let ghost fv = crate::classes::field_views(fs@);
    let mut i: usize = 0;
    proof {
        assert(fv.take(0) =~= Seq::<FieldShape>::empty());
        assert(out@ =~= old(out)@ + emit_fields(fv.take(0)));
    }
    while i < fs.len()
        invariant
            i <= fs@.len(),
            fv == crate::classes::field_views(fs@),
            out@ == old(out)@ + emit_fields(fv.take(i as int)),
        decreases fs@.len() - i,
    {
        proof {
            assert(fv.take(i + 1).drop_last() =~= fv.take(i as int));
            assert(fv.take(i + 1).last() == fv[i as int]);
        }
        append_field(out, &fs[i]);
        proof {
            assert(out@ =~= old(out)@ + emit_fields(fv.take(i + 1)));
        }
        i = i + 1;
    }
    proof {
        assert(fv.take(fs@.len() as int) =~= fv);
    }
}

fn append_class(out: &mut Vec<char>, d: &ClassDeclaration)
    ensures
        final(out)@ == old(out)@ + emit_class(d@),
{
    let t1 = str_to_chars("#[derive(Debug, Serialize, Deserialize)]\n#[serde(rename = \"");
    append_chars(out, &t1);
    append_chars(out, &d.original);
    let t2 = str_to_chars("\")]\npub struct ");
    append_chars(out, &t2);
    append_chars(out, &d.canonical);
    let t3 = str_to_chars(" {\n");
    append_chars(out, &t3);
    append_fields(out, &d.fields);
    let t4 = str_to_chars("}\n\n");
    append_chars(out, &t4);
    append_registration(out, &d.original, &d.canonical);
    proof {
        assert(out@ =~= old(out)@ + emit_class(d@));
    }
}

/// Renders the enum group of a header.
pub fn generate_enums_source(h: &Vec<char>) -> (out: Vec<char>)
    ensures
        out@ == enums_source_spec(h@),
{
    let decls = crate::extract::extract_header_enums(h);
    let ghost dv = enum_decl_views(decls@);
    let mut out: Vec<char> = Vec::new();
    append_includes(&mut out);
    let mut i: usize = 0;
    proof {
        assert(dv.take(0) =~= Seq::<EnumDeclShape>::empty());
        assert(out@ =~= emit_includes() + emit_enums_list(dv.take(0)));
    }
    while i < decls.len()
        invariant
            i <= decls@.len(),
            dv == enum_decl_views(decls@),
            dv == header_enums(h@),
            out@ == emit_includes() + emit_enums_list(dv.take(i as int)),
        decreases decls@.len() - i,
    {
        proof {
            assert(dv.take(i + 1).drop_last() =~= dv.take(i as int));
            assert(dv.take(i + 1).last() == dv[i as int]);
        }
        append_enum(&mut out, &decls[i]);
        proof {
            assert(out@ =~= emit_includes() + emit_enums_list(dv.take(i + 1)));
        }
        i = i + 1;
    }
    proof {
        assert(dv.take(decls@.len() as int) =~= dv);
    }
    out
}

/// Renders the class group of a header, inside the named module.
pub fn generate_properties_source(h: &Vec<char>, module_name: &Vec<char>) -> (out: Vec<char>)
    ensures
        out@ == properties_source_spec(h@, module_name@),
{
    let decls = crate::extract::extract_header_classes(h);
    let ghost dv = class_decl_views(decls@);
    let mut out: Vec<char> = Vec::new();
    append_includes(&mut out);
    let t1 = str_to_chars("use crate::");
    append_chars(&mut out, &t1);
    append_chars(&mut out, module_name);
    let t2 = str_to_chars("::enums::*;\n");
    append_chars(&mut out, &t2);
    let ghost head = emit_includes() + "use crate::"@ + module_name@ + "::enums::*;\n"@;
    let mut i: usize = 0;
    proof {
        assert(dv.take(0) =~= Seq::<ClassDeclShape>::empty());
        assert(out@ =~= head + emit_classes_list(dv.take(0)));
    }
    while i < decls.len()
        invariant
            i <= decls@.len(),
            dv == class_decl_views(decls@),
            dv == header_classes(h@),
            head == emit_includes() + "use crate::"@ + module_name@ + "::enums::*;\n"@,
            out@ == head + emit_classes_list(dv.take(i as int)),
        decreases decls@.len() - i,
    {
        proof {
            assert(dv.take(i + 1).drop_last() =~= dv.take(i as int));
            assert(dv.take(i + 1).last() == dv[i as int]);
        }
        append_class(&mut out, &decls[i]);
        proof {
            assert(out@ =~= head + emit_classes_list(dv.take(i + 1)));
        }
        i = i + 1;
    }
    proof {
        assert(dv.take(decls@.len() as int) =~= dv);
        assert(head + emit_classes_list(dv) =~= properties_source_spec(h@, module_name@));
    }
    out
}

/// The three generated source groups of one module.
pub struct GeneratedModule {
    pub enums_source: Vec<char>,
    pub properties_source: Vec<char>,
    pub mod_source: Vec<char>,
}

/// Runs the whole generator over one header.
pub fn generate_module(h: &Vec<char>, module_name: &Vec<char>) -> (g: GeneratedModule)
    ensures
        g.enums_source@ == enums_source_spec(h@),
        g.properties_source@ == properties_source_spec(h@, module_name@),
        g.mod_source@ == mod_source_spec(),
{
    GeneratedModule {
        enums_source: generate_enums_source(h),
        properties_source: generate_properties_source(h, module_name),
        mod_source: str_to_chars("pub mod enums;\npub mod properties;\n"),
    }
}

/// Determinism: the generated output is a function of the header text and
/// module name alone, so two runs on identical input yield identical
/// output.
pub proof fn lemma_generation_deterministic(
    h1: Seq<char>,
    m1: Seq<char>,
    h2: Seq<char>,
    m2: Seq<char>,
)
    requires
        h1 == h2,
        m1 == m2,
    ensures
        enums_source_spec(h1) == enums_source_spec(h2),
        properties_source_spec(h1, m1) == properties_source_spec(h2, m2),
{
}

} // verus!
