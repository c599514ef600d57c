//! Grouping constructors by result type into records and tagged unions.
use vstd::prelude::*;
use crate::schema::{
    Argument, ArgModel, SchemaItem, ItemModel, args_view, items_view, duplicate_args,
};

verus! {

/// One variant of a tagged union: a constructor and its fields.
#[derive(Debug)]
pub struct Variant {
    pub name: Vec<u8>,
    pub fields: Vec<Argument>,
}

/// A generated type declaration.
#[derive(Debug)]
pub enum Declaration {
    /// A type with one constructor of the same name.
    Record { name: Vec<u8>, fields: Vec<Argument> },
    /// A type with one variant per constructor.
    TaggedUnion { name: Vec<u8>, variants: Vec<Variant> },
}

/// The view of a [`Variant`].
pub struct VariantModel {
    pub name: Seq<u8>,
    pub fields: Seq<ArgModel>,
}

/// The view of a [`Declaration`].
pub enum DeclModel {
    Record { name: Seq<u8>, fields: Seq<ArgModel> },
    TaggedUnion { name: Seq<u8>, variants: Seq<VariantModel> },
}

impl Variant {
    pub open spec fn view(&self) -> VariantModel {
        VariantModel { name: self.name@, fields: args_view(self.fields@) }
    }
}

impl Declaration {
    pub open spec fn view(&self) -> DeclModel {
        match self {
            Declaration::Record { name, fields } => DeclModel::Record {
                name: name@,
                fields: args_view(fields@),
            },
            Declaration::TaggedUnion { name, variants } => DeclModel::TaggedUnion {
                name: name@,
                variants: variants@.map_values(|v: Variant| v.view()),
            },
        }
    }
}

/// The views of a list of declarations.
pub open spec fn decls_view(d: Seq<Declaration>) -> Seq<DeclModel> {
    d.map_values(|x: Declaration| x.view())
}

/// How many of the first `n` constructors produce `ty`.
pub open spec fn count_upto(items: Seq<ItemModel>, n: int, ty: Seq<u8>) -> nat
    decreases n,
{
    if n <= 0 {
        0
    } else {
        count_upto(items, n - 1, ty) + if items[n - 1].result_type == ty { 1nat } else { 0nat }
    }
}

/// How many constructors produce `ty`.
pub open spec fn type_count(items: Seq<ItemModel>, ty: Seq<u8>) -> nat {
    count_upto(items, items.len() as int, ty)
}

/// The variants of `ty` among the first `n` constructors, in order.
pub open spec fn variants_upto(items: Seq<ItemModel>, n: int, ty: Seq<u8>) -> Seq<VariantModel>
    decreases n,
{
    if n <= 0 {
        Seq::empty()
    } else if items[n - 1].result_type == ty {
        variants_upto(items, n - 1, ty).push(
            VariantModel { name: items[n - 1].name, fields: items[n - 1].args },
        )
    } else {
        variants_upto(items, n - 1, ty)
    }
}

/// Constructor `i` becomes a record: it is the only constructor of its
/// result type and bears that type's name.
pub open spec fn is_record(items: Seq<ItemModel>, i: int) -> bool {
    type_count(items, items[i].result_type) == 1 && items[i].name == items[i].result_type
}

/// No constructor before `i` produces the result type of `i`.
pub open spec fn first_of_type(items: Seq<ItemModel>, i: int) -> bool {
    forall|j: int| 0 <= j < i ==> items[j].result_type != items[i].result_type
}

/// The declaration that constructor `i` brings about, if any.
pub open spec fn decl_at(items: Seq<ItemModel>, i: int) -> Option<DeclModel> {
    if is_record(items, i) {
        Some(DeclModel::Record { name: items[i].name, fields: items[i].args })
    } else if first_of_type(items, i) {
        Some(
            DeclModel::TaggedUnion {
                name: items[i].result_type,
                variants: variants_upto(items, items.len() as int, items[i].result_type),
            },
        )
    } else {
        None
    }
}

/// The declarations of the first `n` constructors, in order.
pub open spec fn decls_upto(items: Seq<ItemModel>, n: int) -> Seq<DeclModel>
    decreases n,
{
    if n <= 0 {
        Seq::empty()
    } else {
        match decl_at(items, n - 1) {
            Some(d) => decls_upto(items, n - 1).push(d),
            None => decls_upto(items, n - 1),
        }
    }
}

/// The declarations of a list of constructors.
pub open spec fn declarations(items: Seq<ItemModel>) -> Seq<DeclModel> {
    decls_upto(items, items.len() as int)
}

/// Whether two byte strings are equal.
pub fn bytes_equal(a: &[u8], b: &[u8]) -> (r: bool)
    ensures
        r == (a@ == b@),
{
    if a.len() != b.len() {
        return false;
    }
    let mut i: usize = 0;
    while i < a.len()
        invariant
            i <= a@.len(),
            a@.len() == b@.len(),
            a@.subrange(0, i as int) == b@.subrange(0, i as int),
        decreases a@.len() - i,
    {
        if a[i] != b[i] {
            assert(a@[i as int] != b@[i as int]);
            return false;
        }
        i = i + 1;
        assert(a@.subrange(0, i as int) =~= b@.subrange(0, i as int)) by {
            assert(a@.subrange(0, i - 1) == b@.subrange(0, i - 1));
            assert forall|k: int| 0 <= k < i implies a@.subrange(0, i as int)[k] == b@.subrange(
                0,
                i as int,
            )[k] by {
                if k < i - 1 {
                    assert(a@.subrange(0, i - 1)[k] == b@.subrange(0, i - 1)[k]);
                }
            }
        }
    }
    assert(a@ =~= a@.subrange(0, i as int));
    assert(b@ =~= b@.subrange(0, i as int));
    true
}

/// How many constructors produce `ty`.
pub fn count_of_type(items: &Vec<SchemaItem>, ty: &Vec<u8>) -> (r: usize)
    ensures
        r == type_count(items_view(items@), ty@),
{
    let ghost m = items_view(items@);
    let mut n: usize = 0;
    let mut i: usize = 0;
    while i < items.len()
        invariant
            i <= items@.len(),
            m == items_view(items@),
            n == count_upto(m, i as int, ty@),
            n <= i,
        decreases items@.len() - i,
    {
        if bytes_equal(items[i].result_type.as_slice(), ty.as_slice()) {
            n = n + 1;
        }
        i = i + 1;
    }
    n
}

/// The variants of `ty`, one per constructor that produces it, in order.
pub fn variants_of_type(items: &Vec<SchemaItem>, ty: &Vec<u8>) -> (r: Vec<Variant>)
    ensures
        r@.map_values(|v: Variant| v.view()) == variants_upto(
            items_view(items@),
            items@.len() as int,
            ty@,
        ),
{
    let ghost m = items_view(items@);
    let mut r: Vec<Variant> = Vec::new();
    let mut i: usize = 0;
    while i < items.len()
        invariant
            i <= items@.len(),
            m == items_view(items@),
            r@.map_values(|v: Variant| v.view()) == variants_upto(m, i as int, ty@),
        decreases items@.len() - i,
    {
        let c = &items[i];
        if bytes_equal(c.result_type.as_slice(), ty.as_slice()) {
            let v = Variant { name: c.name.clone(), fields: duplicate_args(&c.args) };
            let ghost before = r@;
            r.push(v);
            assert(r@.map_values(|v: Variant| v.view()) =~= before.map_values(|v: Variant| v.view()).push(
                v.view(),
            ));
        }
        i = i + 1;
    }
    r
}

/// Whether no constructor before `i` produces the result type of `i`.
fn is_first_of_type(items: &Vec<SchemaItem>, i: usize) -> (r: bool)
    requires
        i < items@.len(),
    ensures
        r == first_of_type(items_view(items@), i as int),
{
    let ghost m = items_view(items@);
    let mut j: usize = 0;
    while j < i
        invariant
            j <= i < items@.len(),
            m == items_view(items@),
            forall|k: int| 0 <= k < j ==> m[k].result_type != m[i as int].result_type,
        decreases i - j,
    {
        if bytes_equal(items[j].result_type.as_slice(), items[i].result_type.as_slice()) {
            assert(m[j as int].result_type == m[i as int].result_type);
            return false;
        }
        j = j + 1;
    }
    true
}

/// The declarations generated from a list of constructors: a record for
/// each constructor that is the single one of its result type and bears its
/// name, else one tagged union per result type at its first constructor,
/// holding every constructor of that type in order.
pub fn classify(items: &Vec<SchemaItem>) -> (r: Vec<Declaration>)
    ensures
        decls_view(r@) == declarations(items_view(items@)),
{
    let ghost m = items_view(items@);
    let mut r: Vec<Declaration> = Vec::new();
    let mut i: usize = 0;
    while i < items.len()
        invariant
            i <= items@.len(),
            m == items_view(items@),
            decls_view(r@) == decls_upto(m, i as int),
        decreases items@.len() - i,
    {
        let c = &items[i];
        let count = count_of_type(items, &c.result_type);
        let ghost before = r@;
        if count == 1 && bytes_equal(c.name.as_slice(), c.result_type.as_slice()) {
            let d = Declaration::Record { name: c.name.clone(), fields: duplicate_args(&c.args) };
            r.push(d);
            assert(decls_view(r@) =~= decls_view(before).push(d.view()));
        } else if is_first_of_type(items, i) {
            let d = Declaration::TaggedUnion {
                name: c.result_type.clone(),
                variants: variants_of_type(items, &c.result_type),
            };
            r.push(d);
            assert(decls_view(r@) =~= decls_view(before).push(d.view()));
        }
        i = i + 1;
    }
    r
}

/// A schema of one constructor that bears its result type's name gives
/// exactly one record, with the constructor's fields in order.
pub proof fn lemma_single_constructor_record(c: ItemModel)
    requires
        c.name == c.result_type,
    ensures
        declarations(seq![c]) == seq![DeclModel::Record { name: c.name, fields: c.args }],
{
    let items = seq![c];
    assert(count_upto(items, 0, c.result_type) == 0);
    assert(type_count(items, c.result_type) == 1);
    assert(decls_upto(items, 0) =~= Seq::<DeclModel>::empty());
    assert(declarations(items) =~= seq![DeclModel::Record { name: c.name, fields: c.args }]);
}

/// Two constructors of one result type give exactly one tagged union whose
/// variants are the two constructors, in order.
pub proof fn lemma_two_constructors_union(a: ItemModel, b: ItemModel)
    requires
        a.result_type == b.result_type,
    ensures
        declarations(seq![a, b]) == seq![
            DeclModel::TaggedUnion {
                name: a.result_type,
                variants: seq![
                    VariantModel { name: a.name, fields: a.args },
                    VariantModel { name: b.name, fields: b.args },
                ],
            },
        ],
{
    let items = seq![a, b];
    let ty = a.result_type;
    assert(count_upto(items, 0, ty) == 0);
    assert(count_upto(items, 1, ty) == 1);
    assert(type_count(items, ty) == 2);
    assert(items[0] == a && items[1] == b);
    assert(variants_upto(items, 0, ty) =~= Seq::<VariantModel>::empty());
    assert(variants_upto(items, 1, ty) =~= seq![VariantModel { name: a.name, fields: a.args }]);
    assert(variants_upto(items, 2, ty) =~= seq![
        VariantModel { name: a.name, fields: a.args },
        VariantModel { name: b.name, fields: b.args },
    ]);
    assert(first_of_type(items, 0));
    assert(!first_of_type(items, 1)) by {
        assert(items[0].result_type == items[1].result_type);
    }
    assert(decl_at(items, 1) is None);
    assert(decls_upto(items, 0) =~= Seq::<DeclModel>::empty());
    assert(declarations(items) =~= decls_upto(items, 1));
}

proof fn lemma_count_two(items: Seq<ItemModel>, n: int, i: int, j: int, ty: Seq<u8>)
    requires
        0 <= i < j < n <= items.len(),
        items[i].result_type == ty,
        items[j].result_type == ty,
    ensures
        count_upto(items, n, ty) >= 2,
    decreases n,
{
    if n - 1 > j {
        lemma_count_two(items, n - 1, i, j, ty);
    } else {
        lemma_count_one(items, n - 1, i, ty);
    }
}

proof fn lemma_count_one(items: Seq<ItemModel>, n: int, i: int, ty: Seq<u8>)
    requires
        0 <= i < n <= items.len(),
        items[i].result_type == ty,
    ensures
        count_upto(items, n, ty) >= 1,
    decreases n,
{
    if n - 1 > i {
        lemma_count_one(items, n - 1, i, ty);
    }
}

/// A later constructor of a result type that an earlier one shares brings
/// about no declaration of its own: each union is emitted once, however the
/// constructors of its type are spread through the schema.
pub proof fn lemma_union_emitted_once(items: Seq<ItemModel>, i: int, j: int)
    requires
        0 <= i < j < items.len(),
        items[i].result_type == items[j].result_type,
    ensures
        decl_at(items, j) is None,
{
    lemma_count_two(items, items.len() as int, i, j, items[j].result_type);
}

} // verus!
