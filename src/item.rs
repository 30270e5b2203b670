use vstd::prelude::*;

use crate::record::{Record, RecordModel, Visibility};

verus! {

/// A built-in field rewrite applied to a previously declared record.
#[derive(Debug, PartialEq, Eq)]
pub enum UtilityOperation {
    /// Unwraps each optional field.
    Required(String),
    /// Wraps each field in `Option`.
    Optional(String),
}

/// The right-hand side of a composite declaration.
#[derive(Debug, PartialEq, Eq)]
pub enum CompositeOperation {
    /// `struct A = B;`: a copy of `B` under the name `A`.
    TypeAlias(String),
    /// `struct A = Required(B);` or `struct A = Optional(B);`.
    UtilityOp(UtilityOperation),
}

/// A composite declaration, `[pub] struct NAME = operation [;]`.
#[derive(Debug, PartialEq, Eq)]
pub struct CompositeStruct {
    pub vis: Visibility,
    pub name: String,
    pub composite_operation: CompositeOperation,
    /// Whether a terminating `;` was written.
    pub semicolon: bool,
    /// Token index of the declared name.
    pub name_position: usize,
    /// Token index of the referenced name.
    pub target_position: usize,
}

/// One item of the input: a composite declaration or a plain record.
#[derive(Debug, PartialEq, Eq)]
pub enum InputType {
    CompositeStruct(CompositeStruct),
    Definition(Definition),
}

/// A plain record definition together with the token index of its name.
#[derive(Debug, PartialEq, Eq)]
pub struct Definition {
    pub record: Record,
    /// Token index of the record's name.
    pub position: usize,
    /// Whether the field list ended with a `,`.
    pub trailing_comma: bool,
}

/// The parsed input: its items in declaration order.
#[derive(Debug, PartialEq, Eq)]
pub struct TypeInput {
    pub items: Vec<InputType>,
}

/// The name a composite operation refers to.
pub open spec fn op_target(op: CompositeOperation) -> Seq<char> {
    match op {
        CompositeOperation::TypeAlias(t) => t@,
        CompositeOperation::UtilityOp(UtilityOperation::Required(t)) => t@,
        CompositeOperation::UtilityOp(UtilityOperation::Optional(t)) => t@,
    }
}

/// The name an item defines.
pub open spec fn item_name(item: InputType) -> Seq<char> {
    match item {
        InputType::CompositeStruct(c) => c.name@,
        InputType::Definition(d) => d.record.name@,
    }
}

/// The token index of the name an item defines.
pub open spec fn item_position(item: InputType) -> usize {
    match item {
        InputType::CompositeStruct(c) => c.name_position,
        InputType::Definition(d) => d.position,
    }
}

/// Model of a composite operation.
pub enum OpModel {
    Alias(Seq<char>),
    Required(Seq<char>),
    Optional(Seq<char>),
}

pub open spec fn op_model(op: CompositeOperation) -> OpModel {
    match op {
        CompositeOperation::TypeAlias(t) => OpModel::Alias(t@),
        CompositeOperation::UtilityOp(UtilityOperation::Required(t)) => OpModel::Required(t@),
        CompositeOperation::UtilityOp(UtilityOperation::Optional(t)) => OpModel::Optional(t@),
    }
}

/// Model of an item, leaving out token positions.
pub enum ItemModel {
    Composite { vis: Visibility, name: Seq<char>, op: OpModel, semicolon: bool },
    Record { record: RecordModel, trailing_comma: bool },
}

pub open spec fn item_model(item: InputType) -> ItemModel {
    match item {
        InputType::CompositeStruct(c) => ItemModel::Composite {
            vis: c.vis,
            name: c.name@,
            op: op_model(c.composite_operation),
            semicolon: c.semicolon,
        },
        InputType::Definition(d) => ItemModel::Record { record: d.record@, trailing_comma: d.trailing_comma },
    }
}

impl CompositeStruct {
    /// A private composite declaration with a terminating `;`, at no
    /// particular position.
    pub fn new(name: String, composite_operation: CompositeOperation) -> (r: CompositeStruct)
        ensures
            r.vis == Visibility::Private,
            r.name == name,
            r.composite_operation == composite_operation,
            r.semicolon,
            r.name_position == 0,
            r.target_position == 0,
    {
        CompositeStruct {
            vis: Visibility::Private,
            name,
            composite_operation,
            semicolon: true,
            name_position: 0,
            target_position: 0,
        }
    }
}

/// The name that `item` defines.
pub fn get_item_name(item: &InputType) -> (r: &String)
    ensures
        r@ == item_name(*item),
{
    match item {
        InputType::CompositeStruct(comp) => &comp.name,
        InputType::Definition(def) => &def.record.name,
    }
}

/// The token index of the name that `item` defines.
pub fn get_item_position(item: &InputType) -> (r: usize)
    ensures
        r == item_position(*item),
{
    match item {
        InputType::CompositeStruct(comp) => comp.name_position,
        InputType::Definition(def) => def.position,
    }
}

} // verus!
