//! Schemas of parameters.

use crate::params::value::{Spanned, Value};
use vstd::prelude::*;
use vstd::string::StringExecFns;

verus! {

/// What a parameter may hold.
#[derive(Debug)]
pub enum ParamType {
    Literal(Value),
    Boolean,
    String,
    Number,
    List { item: Box<Spanned<ParamType>> },
    Object { value: Box<Spanned<ParamType>> },
    HostPath,
    TargetPath,
}

/// A parameter of a schema: what it may hold and whether it may be left out.
#[derive(Debug)]
pub struct ParamField {
    typ: ParamType,
    optional: bool,
}

impl ParamField {
    /// A field that has to be given.
    pub fn new(typ: ParamType) -> (field: Self)
        ensures
            field.spec_typ() == typ,
            !field.spec_optional(),
    {
        ParamField { typ, optional: false }
    }

    /// The field, but one that may be left out.
    pub fn with_optional(self) -> (field: Self)
        ensures
            field.spec_typ() == self.spec_typ(),
            field.spec_optional(),
    {
        ParamField { typ: self.typ, optional: true }
    }

    /// What the field may hold.
    pub closed spec fn spec_typ(&self) -> ParamType {
        self.typ
    }

    /// Whether the field may be left out.
    pub closed spec fn spec_optional(&self) -> bool {
        self.optional
    }

    /// The type of the field.
    pub fn typ(&self) -> (typ: &ParamType)
        ensures
            *typ == self.spec_typ(),
    {
        &self.typ
    }

    /// Whether the field may be left out.
    pub fn optional(&self) -> (optional: &bool)
        ensures
            *optional == self.spec_optional(),
    {
        &self.optional
    }
}

/// The fields of a schema by name, in the order in which they were put in.
#[verifier::external_type_specification]
#[verifier::external_body]
#[verifier::reject_recursive_types(K)]
#[verifier::reject_recursive_types(V)]
#[verifier::reject_recursive_types(S)]
pub struct ExIndexMap<K, V, S>(indexmap::IndexMap<K, V, S>);

/// The fields of a schema by name.
pub type ParamsStruct = indexmap::IndexMap<String, Spanned<ParamField>>;

/// What a schema holds: names and fields in the order in which the names
/// were first put in.
pub uninterp spec fn schema_entries(fields: ParamsStruct) -> Seq<(Seq<char>, Spanned<ParamField>)>;

/// The place of the field with the name `key` among the first `upto`, if there is one.
pub open spec fn schema_place(
    entries: Seq<(Seq<char>, Spanned<ParamField>)>,
    key: Seq<char>,
    upto: int,
) -> Option<int>
    decreases upto,
{
    if upto <= 0 {
        None
    } else if entries[upto - 1].0 == key {
        Some(upto - 1)
    } else {
        schema_place(entries, key, upto - 1)
    }
}

/// The entries after `field` is put in under `key`: a name that is there
/// keeps its place and gets the field, a new name comes last.
pub open spec fn schema_with(
    entries: Seq<(Seq<char>, Spanned<ParamField>)>,
    key: Seq<char>,
    field: Spanned<ParamField>,
) -> Seq<(Seq<char>, Spanned<ParamField>)> {
    match schema_place(entries, key, entries.len() as int) {
        Some(at) => entries.update(at, (key, field)),
        None => entries.push((key, field)),
    }
}

/// An empty schema, made by `IndexMap::new`.
#[verifier::external_body]
pub(crate) fn schema_new() -> (fields: ParamsStruct)
    ensures
        schema_entries(fields).len() == 0,
{
    indexmap::IndexMap::new()
}

/// The number of fields, which `IndexMap::len` gives.
#[verifier::external_body]
pub(crate) fn schema_len(fields: &ParamsStruct) -> (len: usize)
    ensures
        len == schema_entries(*fields).len(),
{
    fields.len()
}

/// The name and field at a place in the order, which `IndexMap::get_index`
/// gives for every place below the length.
#[verifier::external_body]
pub(crate) fn schema_entry(fields: &ParamsStruct, index: usize) -> (entry: Option<
    (&String, &Spanned<ParamField>),
>)
    ensures
        match entry {
            Some((key, field)) => index < schema_entries(*fields).len() && key@ == schema_entries(
                *fields,
            )[index as int].0 && *field == schema_entries(*fields)[index as int].1,
            None => index >= schema_entries(*fields).len(),
        },
{
    fields.get_index(index)
}

/// The field with the name `key`, which `IndexMap::get` finds if the
/// schema holds the name. A name stands in a map once, so the field found
/// is the field of every entry with the name.
#[verifier::external_body]
pub(crate) fn schema_get<'a>(fields: &'a ParamsStruct, key: &String) -> (field: Option<
    &'a Spanned<ParamField>,
>)
    ensures
        match field {
            Some(field) => (exists|i: int|
                0 <= i < schema_entries(*fields).len() && (#[trigger] schema_entries(
                    *fields,
                )[i]).0 == key@) && (forall|i: int|
                0 <= i < schema_entries(*fields).len() && (#[trigger] schema_entries(
                    *fields,
                )[i]).0 == key@ ==> schema_entries(*fields)[i].1 == *field),
            None => forall|i: int|
                0 <= i < schema_entries(*fields).len() ==> (#[trigger] schema_entries(
                    *fields,
                )[i]).0 != key@,
        },
{
    fields.get(key)
}

/// Puts a field in under a name with `IndexMap::insert`: a name that is
/// there keeps its place and gets the field, a new name comes last.
#[verifier::external_body]
pub(crate) fn schema_insert(fields: &mut ParamsStruct, key: String, field: Spanned<ParamField>)
    ensures
        schema_entries(*final(fields)) == schema_with(schema_entries(*old(fields)), key@, field),
{
    fields.insert(key, field);
}

/// A schema: one set of fields, or several of which one has to fit.
#[derive(Debug)]
pub enum ParamTypes {
    Struct(ParamsStruct),
    Union(Vec<ParamsStruct>),
}

} // verus!

verus! {

/// The mathematical shape of a [`ParamType`].
pub ghost enum TypeShape {
    Literal(crate::params::value::ValueShape),
    Boolean,
    String,
    Number,
    List(Box<TypeShape>),
    Object(Box<TypeShape>),
    HostPath,
    TargetPath,
}

/// The shape of a type.
pub open spec fn type_shape(typ: ParamType) -> TypeShape
    decreases typ,
{
    match typ {
        ParamType::Literal(literal) => TypeShape::Literal(literal@),
        ParamType::Boolean => TypeShape::Boolean,
        ParamType::String => TypeShape::String,
        ParamType::Number => TypeShape::Number,
        ParamType::List { item } => TypeShape::List(Box::new(type_shape(item.inner))),
        ParamType::Object { value } => TypeShape::Object(Box::new(type_shape(value.inner))),
        ParamType::HostPath => TypeShape::HostPath,
        ParamType::TargetPath => TypeShape::TargetPath,
    }
}

impl View for ParamType {
    type V = TypeShape;

    open spec fn view(&self) -> TypeShape {
        type_shape(*self)
    }
}

/// The mathematical shape of a field of a schema: its name, what it may
/// hold, and whether it may be left out.
pub ghost struct FieldShape {
    pub name: Seq<char>,
    pub typ: TypeShape,
    pub optional: bool,
}

/// The fields of a schema in order.
pub open spec fn schema_shape(fields: ParamsStruct) -> Seq<FieldShape> {
    Seq::new(
        schema_entries(fields).len(),
        |i: int|
            FieldShape {
                name: schema_entries(fields)[i].0,
                typ: schema_entries(fields)[i].1.inner.spec_typ()@,
                optional: schema_entries(fields)[i].1.inner.spec_optional(),
            },
    )
}

/// A field that has to be given.
pub open spec fn required(name: Seq<char>, typ: TypeShape) -> FieldShape {
    FieldShape { name, typ, optional: false }
}

/// A field that may be left out.
pub open spec fn optional(name: Seq<char>, typ: TypeShape) -> FieldShape {
    FieldShape { name, typ, optional: true }
}

/// The type that accepts the text `text` alone.
pub open spec fn literal(text: Seq<char>) -> TypeShape {
    TypeShape::Literal(crate::params::value::ValueShape::String(text))
}

/// The place of code that stands in no source.
pub fn nowhere() -> (span: crate::params::value::Span)
    ensures
        span@ == (crate::params::value::SpanShape { source: Seq::empty(), start: 0, end: 0 }),
{
    crate::params::value::Span { source: String::new(), start: 0, end: 0 }
}

/// A schema under construction.
pub struct SchemaBuilder {
    pub fields: ParamsStruct,
}

impl SchemaBuilder {
    /// The names of the fields put in so far are all different.
    pub open spec fn distinct(&self) -> bool {
        forall|i: int, j: int|
            0 <= i < j < schema_entries(self.fields).len() ==> (#[trigger] schema_entries(
                self.fields,
            )[i]).0 != (#[trigger] schema_entries(self.fields)[j]).0
    }

    /// A schema without fields.
    pub fn new() -> (builder: Self)
        ensures
            schema_shape(builder.fields) == Seq::<FieldShape>::empty(),
            builder.distinct(),
    {
        let builder = SchemaBuilder { fields: schema_new() };
        assert(schema_shape(builder.fields) =~= Seq::<FieldShape>::empty());
        builder
    }

    /// Adds a field under a name that the schema does not hold yet.
    pub fn field(&mut self, name: &str, typ: ParamType, is_required: bool)
        requires
            old(self).distinct(),
            forall|i: int|
                0 <= i < schema_shape(old(self).fields).len() ==> schema_shape(
                    old(self).fields,
                )[i].name != name@,
        ensures
            final(self).distinct(),
            schema_shape(final(self).fields) == schema_shape(old(self).fields).push(
                FieldShape { name: name@, typ: typ@, optional: !is_required },
            ),
    {
        let ghost before = schema_entries(self.fields);
        let ghost shapes = schema_shape(self.fields);
        let field = if is_required {
            ParamField::new(typ)
        } else {
            ParamField::new(typ).with_optional()
        };
        proof {
            lemma_no_place(before, name@, before.len() as int, shapes);
        }
        schema_insert(
            &mut self.fields,
            String::from_str(name),
            Spanned { inner: field, span: nowhere() },
        );
        proof {
            let after = schema_entries(self.fields);
            assert(after.len() == before.len() + 1);
            assert forall|i: int, j: int| 0 <= i < j < after.len() implies (#[trigger] after[i]).0
                != (#[trigger] after[j]).0 by {
                if j == before.len() {
                    assert(shapes[i].name == before[i].0);
                }
            }
            assert(schema_shape(self.fields) =~= shapes.push(
                FieldShape { name: name@, typ: typ@, optional: !is_required },
            ));
        }
    }
}

/// A name that no field has stands at no place.
proof fn lemma_no_place(
    entries: Seq<(Seq<char>, Spanned<ParamField>)>,
    key: Seq<char>,
    upto: int,
    shapes: Seq<FieldShape>,
)
    requires
        0 <= upto <= entries.len(),
        shapes.len() == entries.len(),
        forall|i: int| 0 <= i < entries.len() ==> (#[trigger] shapes[i]).name == entries[i].0,
        forall|i: int| 0 <= i < shapes.len() ==> shapes[i].name != key,
    ensures
        schema_place(entries, key, upto) is None,
    decreases upto,
{
    if upto > 0 {
        assert(shapes[upto - 1].name == entries[upto - 1].0);
        lemma_no_place(entries, key, upto - 1, shapes);
    }
}

} // verus!
