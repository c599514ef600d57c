//! Rendering declarations as source text.
use vstd::prelude::*;
use vstd::string::StringSliceAdditionalSpecFns;
use crate::schema::{TypeRef, TypeModel, Argument, ArgModel, args_view};
use crate::classify::{Declaration, DeclModel, Variant, VariantModel, decls_view, declarations};
use crate::parse::{SchemaError, compile, schema_model};

verus! {

/// The source text of a type.
pub open spec fn type_text(t: TypeModel) -> Seq<u8>
    decreases t,
{
    match t {
        TypeModel::Flags => "u32".spec_bytes(),
        TypeModel::Bool => "bool".spec_bytes(),
        TypeModel::Int => "i32".spec_bytes(),
        TypeModel::Long => "i64".spec_bytes(),
        TypeModel::Float => "f32".spec_bytes(),
        TypeModel::Double => "f64".spec_bytes(),
        TypeModel::Str => "String".spec_bytes(),
        TypeModel::Bytes => "Vec<u8>".spec_bytes(),
        TypeModel::Vector(e) => "Vec<".spec_bytes() + type_text(*e) + ">".spec_bytes(),
        TypeModel::Named(n) => n,
    }
}

/// One field per line, each after a line break and `indent`.
pub open spec fn fields_text(fs: Seq<ArgModel>, indent: Seq<u8>) -> Seq<u8>
    decreases fs.len(),
{
    if fs.len() == 0 {
        Seq::empty()
    } else {
        let f = fs.last();
        fields_text(fs.drop_last(), indent) + "\n".spec_bytes() + indent + f.name + ": ".spec_bytes()
            + type_text(f.ty) + ",".spec_bytes()
    }
}

/// The text of one variant of a union.
pub open spec fn variant_text(v: VariantModel) -> Seq<u8> {
    "\n    ".spec_bytes() + v.name + if v.fields.len() == 0 {
        ",\n".spec_bytes()
    } else {
        " {".spec_bytes() + fields_text(v.fields, "        ".spec_bytes()) + "\n    },\n".spec_bytes()
    }
}

/// The text of a list of variants.
pub open spec fn variants_text(vs: Seq<VariantModel>) -> Seq<u8>
    decreases vs.len(),
{
    if vs.len() == 0 {
        Seq::empty()
    } else {
        variants_text(vs.drop_last()) + variant_text(vs.last())
    }
}

/// The text of one declaration: a struct for a record (a unit struct where
/// it has no fields), an enum for a tagged union.
pub open spec fn decl_text(d: DeclModel) -> Seq<u8> {
    match d {
        DeclModel::Record { name, fields } => "#[derive(Debug)]\nstruct ".spec_bytes() + name
            + if fields.len() == 0 {
            ";\n\n".spec_bytes()
        } else {
            " {".spec_bytes() + fields_text(fields, "    ".spec_bytes()) + "\n}\n\n".spec_bytes()
        },
        DeclModel::TaggedUnion { name, variants } => "#[derive(Debug)]\nenum ".spec_bytes() + name
            + " {".spec_bytes() + variants_text(variants) + "}\n\n".spec_bytes(),
    }
}

/// The text of a list of declarations, one after another.
pub open spec fn decls_text(ds: Seq<DeclModel>) -> Seq<u8>
    decreases ds.len(),
{
    if ds.len() == 0 {
        Seq::empty()
    } else {
        decls_text(ds.drop_last()) + decl_text(ds.last())
    }
}

/// Appends the bytes of `s`.
fn push_str(out: &mut Vec<u8>, s: &str)
    ensures
        final(out)@ == old(out)@ + s.spec_bytes(),
{
    push_bytes(out, s.as_bytes());
}

/// Appends the bytes of `b`.
fn push_bytes(out: &mut Vec<u8>, b: &[u8])
    ensures
        final(out)@ == old(out)@ + b@,
{
    let ghost start = out@;
    let mut i: usize = 0;
    while i < b.len()
        invariant
            i <= b@.len(),
            out@ == start + b@.subrange(0, i as int),
        decreases b@.len() - i,
    {
        out.push(b[i]);
        i = i + 1;
        assert(out@ =~= start + b@.subrange(0, i as int));
    }
    assert(b@.subrange(0, i as int) =~= b@);
}

/// Appends the source text of `t`.
pub fn render_type(out: &mut Vec<u8>, t: &TypeRef)
    ensures
        final(out)@ == old(out)@ + type_text(t.view()),
    decreases t,
{
    match t {
        TypeRef::Flags => push_str(out, "u32"),
        TypeRef::Bool => push_str(out, "bool"),
        TypeRef::Int => push_str(out, "i32"),
        TypeRef::Long => push_str(out, "i64"),
        TypeRef::Float => push_str(out, "f32"),
        TypeRef::Double => push_str(out, "f64"),
        TypeRef::Str => push_str(out, "String"),
        TypeRef::Bytes => push_str(out, "Vec<u8>"),
        TypeRef::Vector(e) => {
            let ghost start = out@;
            push_str(out, "Vec<");
            render_type(out, &**e);
            push_str(out, ">");
            assert(out@ =~= start + type_text(t.view()));
        },
        TypeRef::Named(n) => push_bytes(out, n.as_slice()),
    }
}

/// Appends the fields `fs`, one per line, each after `indent`.
fn render_fields(out: &mut Vec<u8>, fs: &Vec<Argument>, indent: &str)
    ensures
        final(out)@ == old(out)@ + fields_text(args_view(fs@), indent.spec_bytes()),
{
    let ghost start = out@;
    let ghost all = args_view(fs@);
    let mut i: usize = 0;
    assert(args_view(fs@).subrange(0, 0) =~= Seq::<ArgModel>::empty());
    while i < fs.len()
        invariant
            i <= fs@.len(),
            all == args_view(fs@),
            out@ == start + fields_text(all.subrange(0, i as int), indent.spec_bytes()),
        decreases fs@.len() - i,
    {
        let f = &fs[i];
        push_str(out, "\n");
        push_str(out, indent);
        push_bytes(out, f.name.as_slice());
        push_str(out, ": ");
        render_type(out, &f.ty);
        push_str(out, ",");
        let ghost pre = all.subrange(0, i + 1);
        assert(pre.drop_last() =~= all.subrange(0, i as int));
        assert(pre.last() == f.view());
        i = i + 1;
        assert(out@ =~= start + fields_text(all.subrange(0, i as int), indent.spec_bytes()));
    }
    assert(all.subrange(0, i as int) =~= all);
}

/// Appends the text of one variant.
fn render_variant(out: &mut Vec<u8>, v: &Variant)
    ensures
        final(out)@ == old(out)@ + variant_text(v.view()),
{
    let ghost start = out@;
    push_str(out, "\n    ");
    push_bytes(out, v.name.as_slice());
    if v.fields.len() == 0 {
        push_str(out, ",\n");
    } else {
        push_str(out, " {");
        render_fields(out, &v.fields, "        ");
        push_str(out, "\n    },\n");
    }
    assert(out@ =~= start + variant_text(v.view()));
}

/// Appends the text of one declaration.
pub fn render_declaration(out: &mut Vec<u8>, d: &Declaration)
    ensures
        final(out)@ == old(out)@ + decl_text(d.view()),
{
    let ghost start = out@;
    match d {
        Declaration::Record { name, fields } => {
            push_str(out, "#[derive(Debug)]\nstruct ");
            push_bytes(out, name.as_slice());
            if fields.len() == 0 {
                push_str(out, ";\n\n");
            } else {
                push_str(out, " {");
                render_fields(out, fields, "    ");
                push_str(out, "\n}\n\n");
            }
        },
        Declaration::TaggedUnion { name, variants } => {
            push_str(out, "#[derive(Debug)]\nenum ");
            push_bytes(out, name.as_slice());
            push_str(out, " {");
            let ghost all = variants@.map_values(|v: Variant| v.view());
            let ghost mid = out@;
            let mut i: usize = 0;
            assert(all.subrange(0, 0) =~= Seq::<VariantModel>::empty());
            while i < variants.len()
                invariant
                    i <= variants@.len(),
                    all == variants@.map_values(|v: Variant| v.view()),
                    out@ == mid + variants_text(all.subrange(0, i as int)),
                decreases variants@.len() - i,
            {
                render_variant(out, &variants[i]);
                let ghost pre = all.subrange(0, i + 1);
                assert(pre.drop_last() =~= all.subrange(0, i as int));
                i = i + 1;
                assert(out@ =~= mid + variants_text(all.subrange(0, i as int)));
            }
            assert(all.subrange(0, i as int) =~= all);
            push_str(out, "}\n\n");
        },
    }
    assert(out@ =~= start + decl_text(d.view()));
}

/// The text of every declaration in `ds`, in order.
pub fn emit(ds: &Vec<Declaration>) -> (r: Vec<u8>)
    ensures
        r@ == decls_text(decls_view(ds@)),
{
    let ghost all = decls_view(ds@);
    let mut out: Vec<u8> = Vec::new();
    let mut i: usize = 0;
    assert(all.subrange(0, 0) =~= Seq::<DeclModel>::empty());
    while i < ds.len()
        invariant
            i <= ds@.len(),
            all == decls_view(ds@),
            out@ == decls_text(all.subrange(0, i as int)),
        decreases ds@.len() - i,
    {
        render_declaration(&mut out, &ds[i]);
        let ghost pre = all.subrange(0, i + 1);
        assert(pre.drop_last() =~= all.subrange(0, i as int));
        i = i + 1;
        assert(out@ =~= decls_text(all.subrange(0, i as int)));
    }
    assert(all.subrange(0, i as int) =~= all);
    out
}

/// Compiles schema text into the source text of its constructors'
/// declarations.
pub fn generate(text: &[u8]) -> (r: Result<Vec<u8>, SchemaError>)
    ensures
        match schema_model(text@) {
            None => r == Err::<Vec<u8>, SchemaError>(SchemaError::MalformedId),
            Some((cs, fs)) => r is Ok && r->Ok_0@ == decls_text(declarations(cs)),
        },
{
    match compile(text) {
        Ok(ds) => Ok(emit(&ds)),
        Err(e) => Err(e),
    }
}

} // verus!
