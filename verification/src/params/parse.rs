//! Schemas read from values of the plan language.

use crate::params::schema::{
    schema_entries, schema_insert, schema_new, schema_with, type_shape, ParamField, ParamType,
    ParamTypes, ParamsStruct, TypeShape,
};
use crate::params::value::{place_in, Span, Spanned, Value};
use crate::text::{chars_of, spells};
use vstd::prelude::*;
use vstd::string::StringExecFns;

verus! {

/// Why a value is no type of a parameter.
#[derive(Debug)]
pub enum ParamTypeFromRimuError {
    NotAnObject,
    HasNoType,
    TypeNotAString { span: Span },
    UnknownType(String),
    ListMissingItem,
    ListItem(Box<Spanned<ParamTypeFromRimuError>>),
    ObjectMissingValue,
    ObjectValue(Box<Spanned<ParamTypeFromRimuError>>),
}

/// Why a value is no type of a parameter, as a shape.
pub ghost enum TypeFault {
    NotAnObject,
    HasNoType,
    TypeNotAString,
    UnknownType(Seq<char>),
    ListMissingItem,
    ListItem(Box<TypeFault>),
    ObjectMissingValue,
    ObjectValue(Box<TypeFault>),
}

/// The shape of an error.
pub open spec fn type_fault(error: ParamTypeFromRimuError) -> TypeFault
    decreases error,
{
    match error {
        ParamTypeFromRimuError::NotAnObject => TypeFault::NotAnObject,
        ParamTypeFromRimuError::HasNoType => TypeFault::HasNoType,
        ParamTypeFromRimuError::TypeNotAString { .. } => TypeFault::TypeNotAString,
        ParamTypeFromRimuError::UnknownType(name) => TypeFault::UnknownType(name@),
        ParamTypeFromRimuError::ListMissingItem => TypeFault::ListMissingItem,
        ParamTypeFromRimuError::ListItem(inner) => TypeFault::ListItem(
            Box::new(type_fault(inner.inner)),
        ),
        ParamTypeFromRimuError::ObjectMissingValue => TypeFault::ObjectMissingValue,
        ParamTypeFromRimuError::ObjectValue(inner) => TypeFault::ObjectValue(
            Box::new(type_fault(inner.inner)),
        ),
    }
}

/// The type that a value describes: an object whose `type` names the
/// type; a list names the type of its items under `item`, an object the
/// type of its values under `value`.
pub open spec fn described_type(value: Value) -> Result<TypeShape, TypeFault>
    decreases value,
{
    match value {
        Value::Object(entries) => match place_in(entries@, "type"@, 0) {
            None => Err(TypeFault::HasNoType),
            Some(at) => if 0 <= at < entries.len() {
                match entries[at].1.inner {
                    Value::String(name) => if name@ == "boolean"@ {
                        Ok(TypeShape::Boolean)
                    } else if name@ == "string"@ {
                        Ok(TypeShape::String)
                    } else if name@ == "number"@ {
                        Ok(TypeShape::Number)
                    } else if name@ == "host-path"@ {
                        Ok(TypeShape::HostPath)
                    } else if name@ == "target-path"@ {
                        Ok(TypeShape::TargetPath)
                    } else if name@ == "list"@ {
                        match place_in(entries@, "item"@, 0) {
                            None => Err(TypeFault::ListMissingItem),
                            Some(item) => if 0 <= item < entries.len() {
                                match described_type(entries[item].1.inner) {
                                    Ok(inner) => Ok(TypeShape::List(Box::new(inner))),
                                    Err(fault) => Err(TypeFault::ListItem(Box::new(fault))),
                                }
                            } else {
                                Err(TypeFault::ListMissingItem)
                            },
                        }
                    } else if name@ == "object"@ {
                        match place_in(entries@, "value"@, 0) {
                            None => Err(TypeFault::ObjectMissingValue),
                            Some(part) => if 0 <= part < entries.len() {
                                match described_type(entries[part].1.inner) {
                                    Ok(inner) => Ok(TypeShape::Object(Box::new(inner))),
                                    Err(fault) => Err(TypeFault::ObjectValue(Box::new(fault))),
                                }
                            } else {
                                Err(TypeFault::ObjectMissingValue)
                            },
                        }
                    } else {
                        Err(TypeFault::UnknownType(name@))
                    },
                    _ => Err(TypeFault::TypeNotAString),
                }
            } else {
                Err(TypeFault::HasNoType)
            },
        },
        _ => Err(TypeFault::NotAnObject),
    }
}

/// Whether the text is `word`.
fn is_word(text: &String, word: &str) -> (same: bool)
    ensures
        same == (text@ == word@),
{
    let chars = chars_of(text.as_str());
    assert(chars@.subrange(0, chars.len() as int) =~= chars@);
    spells(&chars, 0, chars.len(), word)
}

impl ParamType {
    /// Reads a type from a value of the plan language.
    pub fn from_rimu(value: &Value) -> (typ: Result<ParamType, ParamTypeFromRimuError>)
        ensures
            match typ {
                Ok(typ) => described_type(*value) == Ok::<TypeShape, TypeFault>(typ@),
                Err(error) => described_type(*value) == Err::<TypeShape, TypeFault>(
                    type_fault(error),
                ),
            },
        decreases value,
    {
        let entries = match value {
            Value::Object(entries) => entries,
            _ => {
                return Err(ParamTypeFromRimuError::NotAnObject);
            },
        };
        let at = match Value::entry_at(entries, "type") {
            Some(at) => at,
            None => {
                return Err(ParamTypeFromRimuError::HasNoType);
            },
        };
        let name = match &entries[at].1.inner {
            Value::String(name) => name,
            _ => {
                return Err(
                    ParamTypeFromRimuError::TypeNotAString { span: entries[at].1.span.duplicate() },
                );
            },
        };
        if is_word(name, "boolean") {
            Ok(ParamType::Boolean)
        } else if is_word(name, "string") {
            Ok(ParamType::String)
        } else if is_word(name, "number") {
            Ok(ParamType::Number)
        } else if is_word(name, "host-path") {
            Ok(ParamType::HostPath)
        } else if is_word(name, "target-path") {
            Ok(ParamType::TargetPath)
        } else if is_word(name, "list") {
            let item = match Value::entry_at(entries, "item") {
                Some(item) => item,
                None => {
                    return Err(ParamTypeFromRimuError::ListMissingItem);
                },
            };
            match ParamType::from_rimu(&entries[item].1.inner) {
                Ok(inner) => Ok(
                    ParamType::List {
                        item: Box::new(Spanned { inner, span: entries[item].1.span.duplicate() }),
                    },
                ),
                Err(error) => Err(
                    ParamTypeFromRimuError::ListItem(
                        Box::new(Spanned { inner: error, span: entries[item].1.span.duplicate() }),
                    ),
                ),
            }
        } else if is_word(name, "object") {
            let part = match Value::entry_at(entries, "value") {
                Some(part) => part,
                None => {
                    return Err(ParamTypeFromRimuError::ObjectMissingValue);
                },
            };
            match ParamType::from_rimu(&entries[part].1.inner) {
                Ok(inner) => Ok(
                    ParamType::Object {
                        value: Box::new(Spanned { inner, span: entries[part].1.span.duplicate() }),
                    },
                ),
                Err(error) => Err(
                    ParamTypeFromRimuError::ObjectValue(
                        Box::new(Spanned { inner: error, span: entries[part].1.span.duplicate() }),
                    ),
                ),
            }
        } else {
            Err(ParamTypeFromRimuError::UnknownType(name.clone()))
        }
    }
}

/// Why a value is no field of a schema.
#[derive(Debug)]
pub enum ParamFieldFromRimuError {
    NotAnObject,
    OptionalNotABoolean { span: Span },
    FieldType(ParamTypeFromRimuError),
}

/// Whether the field that a value describes may be left out: it may
/// where `optional` is true. Nothing where `optional` is no boolean.
pub open spec fn described_optional(entries: Seq<(String, Spanned<Value>)>) -> Option<bool> {
    match place_in(entries, "optional"@, 0) {
        None => Some(false),
        Some(at) => if 0 <= at < entries.len() {
            match entries[at].1.inner {
                Value::Boolean(optional) => Some(optional),
                _ => None,
            }
        } else {
            None
        },
    }
}

impl ParamField {
    /// Reads a field from a value of the plan language: a type, with
    /// `optional` where the field may be left out.
    pub fn from_rimu(value: &Value) -> (field: Result<ParamField, ParamFieldFromRimuError>)
        ensures
            match *value {
                Value::Object(entries) => match described_optional(entries@) {
                    None => field matches Err(ParamFieldFromRimuError::OptionalNotABoolean { .. }),
                    Some(optional) => match field {
                        Ok(field) => field.spec_optional() == optional && described_type(*value)
                            == Ok::<TypeShape, TypeFault>(field.spec_typ()@),
                        Err(ParamFieldFromRimuError::FieldType(error)) => described_type(*value)
                            == Err::<TypeShape, TypeFault>(type_fault(error)),
                        Err(_) => false,
                    },
                },
                _ => field matches Err(ParamFieldFromRimuError::NotAnObject),
            },
    {
        let entries = match value {
            Value::Object(entries) => entries,
            _ => {
                return Err(ParamFieldFromRimuError::NotAnObject);
            },
        };
        let optional = match Value::entry_at(entries, "optional") {
            Some(at) => match &entries[at].1.inner {
                Value::Boolean(optional) => *optional,
                _ => {
                    return Err(
                        ParamFieldFromRimuError::OptionalNotABoolean {
                            span: entries[at].1.span.duplicate(),
                        },
                    );
                },
            },
            None => false,
        };
        match ParamType::from_rimu(value) {
            Ok(typ) => {
                if optional {
                    Ok(ParamField::new(typ).with_optional())
                } else {
                    Ok(ParamField::new(typ))
                }
            },
            Err(error) => Err(ParamFieldFromRimuError::FieldType(error)),
        }
    }
}

} // verus!

verus! {

/// Why a value is no schema.
#[derive(Debug)]
pub enum ParamTypesFromRimuError {
    NotAnObjectOrList,
    StructEntry { key: String, error: Box<Spanned<ParamFieldFromRimuError>> },
    UnionItemNotAnObject { index: usize, span: Span },
    UnionItemEntry { index: usize, key: String, error: Box<Spanned<ParamFieldFromRimuError>> },
}

/// The field that a value describes, without its name, if it describes one.
pub open spec fn described_field(value: Value) -> Option<(TypeShape, bool)> {
    match value {
        Value::Object(entries) => match (described_optional(entries@), described_type(value)) {
            (Some(optional), Ok(typ)) => Some((typ, optional)),
            _ => None,
        },
        _ => None,
    }
}

/// The place of the field with the name among the first `upto`.
pub open spec fn shape_place(
    shapes: Seq<crate::params::schema::FieldShape>,
    name: Seq<char>,
    upto: int,
) -> Option<int>
    decreases upto,
{
    if upto <= 0 {
        None
    } else if shapes[upto - 1].name == name {
        Some(upto - 1)
    } else {
        shape_place(shapes, name, upto - 1)
    }
}

/// The fields after `field` is put in: a name that is there keeps its
/// place and gets the field, a new name comes last.
pub open spec fn shapes_with(
    shapes: Seq<crate::params::schema::FieldShape>,
    field: crate::params::schema::FieldShape,
) -> Seq<crate::params::schema::FieldShape> {
    match shape_place(shapes, field.name, shapes.len() as int) {
        Some(at) => shapes.update(at, field),
        None => shapes.push(field),
    }
}

/// The fields that the first `upto` entries describe, each under the
/// name of its entry; nothing where one of them describes no field.
pub open spec fn described_fields(entries: Seq<(String, Spanned<Value>)>, upto: int) -> Option<
    Seq<crate::params::schema::FieldShape>,
>
    decreases upto,
{
    if upto <= 0 {
        Some(Seq::empty())
    } else {
        match (described_fields(entries, upto - 1), described_field(entries[upto - 1].1.inner)) {
            (Some(shapes), Some((typ, optional))) => Some(
                shapes_with(
                    shapes,
                    crate::params::schema::FieldShape { name: entries[upto - 1].0@, typ, optional },
                ),
            ),
            _ => None,
        }
    }
}

/// Putting a field into a schema puts its shape into the shape of the schema.
proof fn lemma_schema_with_shape(
    before: ParamsStruct,
    after: ParamsStruct,
    key: Seq<char>,
    field: Spanned<ParamField>,
)
    requires
        schema_entries(after) == schema_with(schema_entries(before), key, field),
    ensures
        crate::params::schema::schema_shape(after) == shapes_with(
            crate::params::schema::schema_shape(before),
            crate::params::schema::FieldShape {
                name: key,
                typ: field.inner.spec_typ()@,
                optional: field.inner.spec_optional(),
            },
        ),
{
    let entries = schema_entries(before);
    let shapes = crate::params::schema::schema_shape(before);
    lemma_same_place(entries, shapes, key, entries.len() as int);
    assert(crate::params::schema::schema_shape(after) =~= shapes_with(
        shapes,
        crate::params::schema::FieldShape {
            name: key,
            typ: field.inner.spec_typ()@,
            optional: field.inner.spec_optional(),
        },
    ));
}

/// Shapes with the names of the entries hold a name at the same place as the entries.
proof fn lemma_same_place(
    entries: Seq<(Seq<char>, Spanned<ParamField>)>,
    shapes: Seq<crate::params::schema::FieldShape>,
    key: Seq<char>,
    upto: int,
)
    requires
        0 <= upto <= entries.len(),
        shapes.len() == entries.len(),
        forall|i: int| 0 <= i < entries.len() ==> (#[trigger] shapes[i]).name == entries[i].0,
    ensures
        shape_place(shapes, key, upto) == crate::params::schema::schema_place(entries, key, upto),
        crate::params::schema::schema_place(entries, key, upto) matches Some(at) ==> 0 <= at < upto,
    decreases upto,
{
    if upto > 0 {
        assert(shapes[upto - 1].name == entries[upto - 1].0);
        lemma_same_place(entries, shapes, key, upto - 1);
    }
}

/// Reads the fields of one object. The error comes with the place of the
/// entry that describes no field.
fn fields_from_entries(entries: &Vec<(String, Spanned<Value>)>) -> (fields: Result<
    ParamsStruct,
    (usize, Spanned<ParamFieldFromRimuError>),
>)
    ensures
        match fields {
            Ok(fields) => described_fields(entries@, entries.len() as int) == Some(
                crate::params::schema::schema_shape(fields),
            ),
            Err((index, _)) => index < entries.len() && described_field(
                entries[index as int].1.inner,
            ) is None && described_fields(entries@, index as int) is Some,
        },
{
    let mut fields = schema_new();
    assert(crate::params::schema::schema_shape(fields) =~= Seq::empty());
    let mut index: usize = 0;
    while index < entries.len()
        invariant
            index <= entries.len(),
            described_fields(entries@, index as int) == Some(
                crate::params::schema::schema_shape(fields),
            ),
        decreases entries.len() - index,
    {
        match ParamField::from_rimu(&entries[index].1.inner) {
            Ok(field) => {
                let ghost before = fields;
                let spanned = Spanned { inner: field, span: entries[index].1.span.duplicate() };
                schema_insert(&mut fields, entries[index].0.clone(), spanned);
                proof {
                    lemma_schema_with_shape(before, fields, entries[index as int].0@, spanned);
                }
            },
            Err(error) => {
                return Err(
                    (index, Spanned { inner: error, span: entries[index].1.span.duplicate() }),
                );
            },
        }
        index += 1;
    }
    Ok(fields)
}

/// Each of the first `upto` items is an object that describes fields.
pub open spec fn cases_upto(items: Seq<Spanned<Value>>, upto: int) -> bool {
    forall|i: int|
        0 <= i < upto && i < items.len() ==> (#[trigger] items[i]).inner is Object
            && described_fields(
            items[i].inner->Object_0@,
            items[i].inner->Object_0.len() as int,
        ) is Some
}

/// Whether the value describes a schema: an object whose entries all
/// describe fields, or a list of such objects.
pub open spec fn describes_schema(value: Value) -> bool {
    match value {
        Value::Object(entries) => described_fields(entries@, entries.len() as int) is Some,
        Value::List(items) => cases_upto(items@, items.len() as int),
        _ => false,
    }
}

impl ParamTypes {
    /// Reads a schema from a value of the plan language: an object
    /// describes one set of fields, a list of objects a union of cases.
    pub fn from_rimu(value: &Value) -> (types: Result<ParamTypes, ParamTypesFromRimuError>)
        ensures
            types is Ok <==> describes_schema(*value),
            match *value {
                Value::Object(entries) => match types {
                    Ok(ParamTypes::Struct(fields)) => described_fields(
                        entries@,
                        entries.len() as int,
                    ) == Some(crate::params::schema::schema_shape(fields)),
                    Err(ParamTypesFromRimuError::StructEntry { key, .. }) => exists|at: int|
                        0 <= at < entries.len() && (#[trigger] entries[at]).0@ == key@
                            && described_field(entries[at].1.inner) is None && described_fields(
                            entries@,
                            at,
                        ) is Some,
                    _ => false,
                },
                Value::List(items) => match types {
                    Ok(ParamTypes::Union(cases)) => cases.len() == items.len() && forall|i: int|
                        0 <= i < items.len() ==> (#[trigger] items[i]).inner is Object
                            && described_fields(
                            items[i].inner->Object_0@,
                            items[i].inner->Object_0.len() as int,
                        ) == Some(crate::params::schema::schema_shape(cases[i])),
                    Err(ParamTypesFromRimuError::UnionItemNotAnObject { index, .. }) => index
                        < items.len() && !(items[index as int].inner is Object) && cases_upto(
                        items@,
                        index as int,
                    ),
                    Err(ParamTypesFromRimuError::UnionItemEntry { index, .. }) => index
                        < items.len() && items[index as int].inner is Object && described_fields(
                        items[index as int].inner->Object_0@,
                        items[index as int].inner->Object_0.len() as int,
                    ) is None && cases_upto(items@, index as int),
                    _ => false,
                },
                _ => types matches Err(ParamTypesFromRimuError::NotAnObjectOrList),
            },
    {
        match value {
            Value::Object(entries) => match fields_from_entries(entries) {
                Ok(fields) => Ok(ParamTypes::Struct(fields)),
                Err((at, error)) => {
                    proof {
                        lemma_described_fields_stay_none(
                            entries@,
                            at as int + 1,
                            entries.len() as int,
                        );
                    }
                    Err(
                        ParamTypesFromRimuError::StructEntry {
                            key: entries[at].0.clone(),
                            error: Box::new(error),
                        },
                    )
                },
            },
            Value::List(items) => {
                let mut cases: Vec<ParamsStruct> = Vec::new();
                let mut index: usize = 0;
                while index < items.len()
                    invariant
                        index <= items.len(),
                        value matches Value::List(x) && x == items,
                        cases.len() == index,
                        forall|i: int|
                            0 <= i < index ==> (#[trigger] items[i]).inner is Object
                                && described_fields(
                                items[i].inner->Object_0@,
                                items[i].inner->Object_0.len() as int,
                            ) == Some(crate::params::schema::schema_shape(cases[i])),
                    decreases items.len() - index,
                {
                    let entries = match &items[index].inner {
                        Value::Object(entries) => entries,
                        _ => {
                            return Err(
                                ParamTypesFromRimuError::UnionItemNotAnObject {
                                    index,
                                    span: items[index].span.duplicate(),
                                },
                            );
                        },
                    };
                    match fields_from_entries(entries) {
                        Ok(fields) => cases.push(fields),
                        Err((at, error)) => {
                            proof {
                                lemma_described_fields_stay_none(
                                    entries@,
                                    at as int + 1,
                                    entries.len() as int,
                                );
                            }
                            return Err(
                                ParamTypesFromRimuError::UnionItemEntry {
                                    index,
                                    key: entries[at].0.clone(),
                                    error: Box::new(error),
                                },
                            );
                        },
                    }
                    index += 1;
                }
                Ok(ParamTypes::Union(cases))
            },
            _ => Err(ParamTypesFromRimuError::NotAnObjectOrList),
        }
    }
}

/// Once an entry describes no field, no longer list of entries describes fields.
proof fn lemma_described_fields_stay_none(
    entries: Seq<(String, Spanned<Value>)>,
    upto: int,
    later: int,
)
    requires
        0 < upto <= later,
        described_fields(entries, upto) is None,
    ensures
        described_fields(entries, later) is None,
    decreases later - upto,
{
    if upto < later {
        lemma_described_fields_stay_none(entries, upto, later - 1);
    }
}

} // verus!
