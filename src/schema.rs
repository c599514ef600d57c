//! The type model of a schema: type references, arguments, items and the
//! declarations generated from them, each with its mathematical view.
use vstd::prelude::*;

verus! {

/// A type as written in an argument.
#[derive(Debug)]
pub enum TypeRef {
    /// `#`: a 32-bit bitmask.
    Flags,
    /// `Bool`, `True` or `true`.
    Bool,
    /// `Int`.
    Int,
    /// `Long` or `long`.
    Long,
    /// `Float`.
    Float,
    /// `Double`.
    Double,
    /// `String`.
    Str,
    /// `Bytes`.
    Bytes,
    /// `Vector<T>` or `vector<T>`.
    Vector(Box<TypeRef>),
    /// Any other type, by its converted name.
    Named(Vec<u8>),
}

/// The view of a [`TypeRef`].
pub enum TypeModel {
    Flags,
    Bool,
    Int,
    Long,
    Float,
    Double,
    Str,
    Bytes,
    Vector(Box<TypeModel>),
    Named(Seq<u8>),
}

/// One argument of a schema item.
#[derive(Debug)]
pub struct Argument {
    pub name: Vec<u8>,
    pub ty: TypeRef,
    /// The bit of `flags` that says whether the argument is present.
    pub flag_bit: Option<u32>,
}

/// The view of an [`Argument`].
pub struct ArgModel {
    pub name: Seq<u8>,
    pub ty: TypeModel,
    pub flag_bit: Option<u32>,
}

/// One constructor or function line of a schema.
#[derive(Debug)]
pub struct SchemaItem {
    pub name: Vec<u8>,
    pub id: u32,
    pub result_type: Vec<u8>,
    pub args: Vec<Argument>,
}

/// The view of a [`SchemaItem`].
pub struct ItemModel {
    pub name: Seq<u8>,
    pub id: u32,
    pub result_type: Seq<u8>,
    pub args: Seq<ArgModel>,
}

impl TypeRef {
    pub open spec fn view(&self) -> TypeModel
        decreases self,
    {
        match self {
            TypeRef::Flags => TypeModel::Flags,
            TypeRef::Bool => TypeModel::Bool,
            TypeRef::Int => TypeModel::Int,
            TypeRef::Long => TypeModel::Long,
            TypeRef::Float => TypeModel::Float,
            TypeRef::Double => TypeModel::Double,
            TypeRef::Str => TypeModel::Str,
            TypeRef::Bytes => TypeModel::Bytes,
            TypeRef::Vector(e) => TypeModel::Vector(Box::new((**e).view())),
            TypeRef::Named(n) => TypeModel::Named(n@),
        }
    }

    /// A copy of the type.
    pub fn duplicate(&self) -> (r: TypeRef)
        ensures
            r.view() == self.view(),
        decreases self,
    {
        match self {
            TypeRef::Flags => TypeRef::Flags,
            TypeRef::Bool => TypeRef::Bool,
            TypeRef::Int => TypeRef::Int,
            TypeRef::Long => TypeRef::Long,
            TypeRef::Float => TypeRef::Float,
            TypeRef::Double => TypeRef::Double,
            TypeRef::Str => TypeRef::Str,
            TypeRef::Bytes => TypeRef::Bytes,
            TypeRef::Vector(e) => TypeRef::Vector(Box::new((**e).duplicate())),
            TypeRef::Named(n) => TypeRef::Named(n.clone()),
        }
    }
}

impl Argument {
    pub open spec fn view(&self) -> ArgModel {
        ArgModel { name: self.name@, ty: self.ty.view(), flag_bit: self.flag_bit }
    }

    /// A copy of the argument.
    pub fn duplicate(&self) -> (r: Argument)
        ensures
            r.view() == self.view(),
    {
        Argument { name: self.name.clone(), ty: self.ty.duplicate(), flag_bit: self.flag_bit }
    }
}

/// The views of a list of arguments.
pub open spec fn args_view(a: Seq<Argument>) -> Seq<ArgModel> {
    a.map_values(|x: Argument| x.view())
}

/// A copy of a list of arguments.
pub fn duplicate_args(a: &Vec<Argument>) -> (r: Vec<Argument>)
    ensures
        args_view(r@) == args_view(a@),
{
    let mut r: Vec<Argument> = Vec::new();
    let mut i: usize = 0;
    while i < a.len()
        invariant
            i <= a@.len(),
            r@.len() == i,
            forall|j: int| 0 <= j < i ==> #[trigger] r@[j].view() == a@[j].view(),
        decreases a@.len() - i,
    {
        let x = a[i].duplicate();
        r.push(x);
        i = i + 1;
    }
    assert(args_view(r@) =~= args_view(a@));
    r
}

impl SchemaItem {
    pub open spec fn view(&self) -> ItemModel {
        ItemModel {
            name: self.name@,
            id: self.id,
            result_type: self.result_type@,
            args: args_view(self.args@),
        }
    }
}

/// The views of a list of items.
pub open spec fn items_view(a: Seq<SchemaItem>) -> Seq<ItemModel> {
    a.map_values(|x: SchemaItem| x.view())
}

} // verus!
