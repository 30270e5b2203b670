use vstd::prelude::*;
use vstd::string::StringExecFns;

use crate::type_expr::{
    first_type_arg, first_type_arg_of, leading_args, opt_type_model, optional_type, required_type,
    unwrap_required, wrap_optional, wrap_type, wrap_type_in, TypeExpr, TypeModel,
};

verus! {

/// Whether an item is marked `pub`.
#[derive(Debug, Clone, Copy, PartialEq, Eq, Structural)]
pub enum Visibility {
    Public,
    Private,
}

/// One named, typed field of a record.
#[derive(Debug, PartialEq, Eq)]
pub struct Field {
    pub vis: Visibility,
    pub name: String,
    pub ty: TypeExpr,
}

/// A record definition: a name and an ordered list of fields.
#[derive(Debug, PartialEq, Eq)]
pub struct Record {
    pub vis: Visibility,
    pub name: String,
    pub fields: Vec<Field>,
}

pub struct FieldModel {
    pub vis: Visibility,
    pub name: Seq<char>,
    pub ty: TypeModel,
}

pub struct RecordModel {
    pub vis: Visibility,
    pub name: Seq<char>,
    pub fields: Seq<FieldModel>,
}

impl View for Field {
    type V = FieldModel;

    open spec fn view(&self) -> FieldModel {
        FieldModel { vis: self.vis, name: self.name@, ty: self.ty@ }
    }
}

impl View for Record {
    type V = RecordModel;

    open spec fn view(&self) -> RecordModel {
        RecordModel { vis: self.vis, name: self.name@, fields: self.fields@.map_values(|f: Field| f@) }
    }
}

/// The field with its type replaced by `ty`.
pub open spec fn with_type(f: FieldModel, ty: TypeModel) -> FieldModel {
    FieldModel { vis: f.vis, name: f.name, ty }
}

/// The record under another name.
pub open spec fn renamed(r: RecordModel, name: Seq<char>) -> RecordModel {
    RecordModel { vis: r.vis, name, fields: r.fields }
}

pub open spec fn required_suffix() -> Seq<char> {
    seq!['R', 'e', 'q', 'u', 'i', 'r', 'e', 'd']
}

pub open spec fn optional_suffix() -> Seq<char> {
    seq!['O', 'p', 't', 'i', 'o', 'n', 'a', 'l']
}

/// `Required` on a list of fields: each field type unwrapped, names,
/// visibilities and order kept.
pub open spec fn required_fields(fs: Seq<FieldModel>) -> Seq<FieldModel> {
    fs.map_values(|f: FieldModel| with_type(f, unwrap_required(f.ty)))
}

/// `Optional` on a list of fields: each field type wrapped, names,
/// visibilities and order kept.
pub open spec fn optional_fields(fs: Seq<FieldModel>) -> Seq<FieldModel> {
    fs.map_values(|f: FieldModel| with_type(f, wrap_optional(f.ty)))
}

impl Field {
    /// A deep copy of this field.
    pub fn duplicate(&self) -> (r: Field)
        ensures
            r@ == self@,
    {
        Field { vis: self.vis, name: self.name.clone(), ty: self.ty.duplicate() }
    }
}

impl Record {
    /// A deep copy of this record.
    pub fn duplicate(&self) -> (r: Record)
        ensures
            r@ == self@,
    {
        let mut fields: Vec<Field> = Vec::new();
        let mut i: usize = 0;
        while i < self.fields.len()
            invariant
                i <= self.fields.len(),
                fields.len() == i,
                forall|j: int| 0 <= j < i ==> #[trigger] fields[j]@ == self.fields[j]@,
            decreases self.fields.len() - i,
        {
            fields.push(self.fields[i].duplicate());
            i += 1;
        }
        let r = Record { vis: self.vis, name: self.name.clone(), fields };
        proof {
            assert(r@.fields =~= self@.fields);
        }
        r
    }
}

/// A copy of the first type-shaped generic argument of the field's leading
/// path segment, if there is one.
pub fn get_first_generic_type_arg(field: &Field) -> (r: Option<TypeExpr>)
    ensures
        opt_type_model(r) == first_type_arg(leading_args(field.ty@)),
{
    if field.ty.path.len() == 1 {
        first_type_arg_of(&field.ty.args)
    } else {
        None
    }
}

/// Promotes the first type-shaped generic argument of the field's type to be
/// the whole type, dropping the outer type and its other arguments. `None`
/// when there is no such argument.
pub fn promote_first_generic_argument(field: Field) -> (r: Option<Field>)
    ensures
        r is None <==> first_type_arg(leading_args(field.ty@)) is None,
        r matches Some(f) ==> f@ == with_type(field@, first_type_arg(leading_args(field.ty@))->0),
{
    match get_first_generic_type_arg(&field) {
        Some(ty) => Some(Field { vis: field.vis, name: field.name, ty }),
        None => None,
    }
}

/// Makes the field's whole type the sole generic argument of a new outer
/// type named `top_level_type`: `T<A>` becomes `N<T<A>>`.
pub fn wrap_field_as_generic_arg(field: Field, top_level_type: String) -> (r: Option<Field>)
    ensures
        r matches Some(f) && f@ == with_type(field@, wrap_type(top_level_type@, field.ty@)),
{
    let Field { vis, name, ty } = field;
    Some(Field { vis, name, ty: wrap_type_in(top_level_type, ty) })
}

/// The record under the name `new_name`.
pub fn assign_struct_name(structure: Record, new_name: String) -> (r: Record)
    ensures
        r@ == renamed(structure@, new_name@),
{
    let Record { vis, name: _, fields } = structure;
    Record { vis, name: new_name, fields }
}

/// `Required` on a record: each field's optional wrapper is removed. The
/// result carries the working name `<name>Required`.
pub fn process_required(structure: &Record) -> (r: Record)
    ensures
        r@.vis == structure@.vis,
        r@.name == structure@.name + required_suffix(),
        r@.fields == required_fields(structure@.fields),
{
    let mut fields: Vec<Field> = Vec::new();
    let mut i: usize = 0;
    while i < structure.fields.len()
        invariant
            i <= structure.fields.len(),
            fields.len() == i,
            forall|j: int| 0 <= j < i ==> #[trigger] fields[j]@ == required_fields(structure@.fields)[j],
        decreases structure.fields.len() - i,
    {
        let f = &structure.fields[i];
        fields.push(Field { vis: f.vis, name: f.name.clone(), ty: required_type(&f.ty) });
        i += 1;
    }
    let mut name = structure.name.clone();
    name.append("Required");
    let r = Record { vis: structure.vis, name, fields };
    proof {
        reveal_strlit("Required");
        assert(r@.fields =~= required_fields(structure@.fields));
        assert(r@.name =~= structure@.name + required_suffix());
    }
    r
}

/// `Optional` on a record: each field not already optional is wrapped in
/// `Option`. The result carries the working name `<name>Optional`.
pub fn process_optional(structure: &Record) -> (r: Record)
    ensures
        r@.vis == structure@.vis,
        r@.name == structure@.name + optional_suffix(),
        r@.fields == optional_fields(structure@.fields),
{
    let mut fields: Vec<Field> = Vec::new();
    let mut i: usize = 0;
    while i < structure.fields.len()
        invariant
            i <= structure.fields.len(),
            fields.len() == i,
            forall|j: int| 0 <= j < i ==> #[trigger] fields[j]@ == optional_fields(structure@.fields)[j],
        decreases structure.fields.len() - i,
    {
        let f = &structure.fields[i];
        fields.push(Field { vis: f.vis, name: f.name.clone(), ty: optional_type(&f.ty) });
        i += 1;
    }
    let mut name = structure.name.clone();
    name.append("Optional");
    let r = Record { vis: structure.vis, name, fields };
    proof {
        reveal_strlit("Optional");
        assert(r@.fields =~= optional_fields(structure@.fields));
        assert(r@.name =~= structure@.name + optional_suffix());
    }
    r
}

} // verus!
