//! Validation of values against schemas.

use crate::params::schema::{
    schema_entries, schema_entry, schema_get, schema_len, ParamField, ParamType, ParamTypes,
    ParamsStruct,
};
use crate::params::value::{named_in, Spanned, Value};
use crate::text::chars_of;
use vstd::prelude::*;

verus! {

/// Whether a path is absolute, as on Unix: it begins with a slash.
pub open spec fn absolute(path: Seq<char>) -> bool {
    path.len() > 0 && path[0] == '/'
}

/// Whether a path is absolute, as on Unix: it begins with a slash.
pub fn is_absolute(path: &str) -> (yes: bool)
    ensures
        yes == absolute(path@),
{
    let chars = chars_of(path);
    chars.len() > 0 && chars[0] == '/'
}

/// Whether the type accepts the value. A literal accepts the value equal
/// to it. A path is a text; a host path has to be relative, a target path
/// absolute. A list or object accepts values whose parts the type of the
/// parts accepts.
pub open spec fn accepts(typ: ParamType, value: Value) -> bool
    decreases value,
{
    match typ {
        ParamType::Literal(literal) => value@ == literal@ && !value.holds_function(),
        ParamType::Boolean => value is Boolean,
        ParamType::String => value is String,
        ParamType::Number => value is Number,
        ParamType::HostPath => value matches Value::String(path) && !absolute(path@),
        ParamType::TargetPath => value matches Value::String(path) && absolute(path@),
        ParamType::List { item } => value matches Value::List(items) && forall|i: int|
            0 <= i < items.len() ==> accepts(item.inner, (#[trigger] items[i]).inner),
        ParamType::Object { value: part } => value matches Value::Object(entries) && forall|
            i: int,
        |
            0 <= i < entries.len() ==> accepts(part.inner, (#[trigger] entries[i]).1.inner),
    }
}

/// Why a type does not accept a value.
#[derive(Debug)]
pub enum ValidateValueError {
    TypeMismatch { expected_type: Box<Spanned<ParamType>>, got_value: Box<Spanned<Value>> },
    ListItem { index: usize, error: Box<ValidateValueError> },
    ObjectEntry { key: String, error: Box<ValidateValueError> },
}

impl ParamType {
    /// Another type of the same shape, which accepts the same.
    pub fn duplicate(&self) -> (copy: Self)
        ensures
            copy@ == self@,
            forall|value: Value| accepts(copy, value) == accepts(*self, value),
        decreases self,
    {
        match self {
            ParamType::Literal(literal) => ParamType::Literal(literal.duplicate()),
            ParamType::Boolean => ParamType::Boolean,
            ParamType::String => ParamType::String,
            ParamType::Number => ParamType::Number,
            ParamType::HostPath => ParamType::HostPath,
            ParamType::TargetPath => ParamType::TargetPath,
            ParamType::List { item } => {
                let inner = item.inner.duplicate();
                let copy = ParamType::List {
                    item: Box::new(Spanned { inner, span: item.span.duplicate() }),
                };
                assert forall|value: Value| accepts(copy, value) == accepts(*self, value) by {
                    if let Value::List(items) = value {
                        assert forall|i: int| 0 <= i < items.len() implies (accepts(
                            inner,
                            (#[trigger] items[i]).inner,
                        ) == accepts(item.inner, items[i].inner)) by {}
                    }
                }
                copy
            },
            ParamType::Object { value: part } => {
                let inner = part.inner.duplicate();
                let copy = ParamType::Object {
                    value: Box::new(Spanned { inner, span: part.span.duplicate() }),
                };
                assert forall|value: Value| accepts(copy, value) == accepts(*self, value) by {
                    if let Value::Object(entries) = value {
                        assert forall|i: int| 0 <= i < entries.len() implies (accepts(
                            inner,
                            (#[trigger] entries[i]).1.inner,
                        ) == accepts(part.inner, entries[i].1.inner)) by {}
                    }
                }
                copy
            },
        }
    }
}

/// Whether `error` says that `typ` does not fit `value`: it is a mismatch
/// that carries the type that was expected and the value that was got,
/// each with its place.
pub open spec fn tells_mismatch(
    error: ValidateValueError,
    typ: Spanned<ParamType>,
    value: Spanned<Value>,
) -> bool {
    &&& error matches ValidateValueError::TypeMismatch { expected_type, got_value }
    &&& expected_type.inner@ == typ.inner@
    &&& expected_type.span@ == typ.span@
    &&& got_value.inner@ == value.inner@
    &&& got_value.span@ == value.span@
}

/// The error that says that the type does not fit the value.
fn mismatch(typ: &Spanned<ParamType>, value: &Spanned<Value>) -> (error: ValidateValueError)
    ensures
        tells_mismatch(error, *typ, *value),
{
    ValidateValueError::TypeMismatch {
        expected_type: Box::new(
            Spanned { inner: typ.inner.duplicate(), span: typ.span.duplicate() },
        ),
        got_value: Box::new(
            Spanned { inner: value.inner.duplicate(), span: value.span.duplicate() },
        ),
    }
}

/// Holds a value against a type. The error names the first part of a list
/// or object that does not fit; everything else is a mismatch of the value
/// itself.
pub fn validate_type(param_type: &Spanned<ParamType>, value: &Spanned<Value>) -> (valid: Result<
    (),
    ValidateValueError,
>)
    ensures
        valid is Ok <==> accepts(param_type.inner, value.inner),
        match valid {
            Ok(()) => true,
            Err(ValidateValueError::TypeMismatch { .. }) => !(param_type.inner is List
                && value.inner is List) && !(param_type.inner is Object && value.inner is Object)
                && tells_mismatch(valid->Err_0, *param_type, *value),
            Err(ValidateValueError::ListItem { index, .. }) => {
                &&& param_type.inner matches ParamType::List { item }
                &&& value.inner matches Value::List(items)
                &&& index < items.len()
                &&& !accepts(item.inner, items[index as int].inner)
                &&& forall|i: int| 0 <= i < index ==> accepts(item.inner, (#[trigger] items[i]).inner)
            },
            Err(ValidateValueError::ObjectEntry { key, .. }) => {
                &&& param_type.inner matches ParamType::Object { value: part }
                &&& value.inner matches Value::Object(entries)
                &&& exists|at: int|
                    0 <= at < entries.len() && (#[trigger] entries[at]).0@ == key@ && !accepts(
                        part.inner,
                        entries[at].1.inner,
                    ) && forall|i: int|
                        0 <= i < at ==> accepts(part.inner, (#[trigger] entries[i]).1.inner)
            },
        },
    decreases value,
{
    match &param_type.inner {
        ParamType::Literal(literal) => {
            if value.inner.same_as(literal) {
                Ok(())
            } else {
                Err(mismatch(param_type, value))
            }
        },
        ParamType::Boolean => match &value.inner {
            Value::Boolean(_) => Ok(()),
            _ => Err(mismatch(param_type, value)),
        },
        ParamType::String => match &value.inner {
            Value::String(_) => Ok(()),
            _ => Err(mismatch(param_type, value)),
        },
        ParamType::Number => match &value.inner {
            Value::Number(_) => Ok(()),
            _ => Err(mismatch(param_type, value)),
        },
        ParamType::HostPath => match &value.inner {
            Value::String(path) => {
                if !is_absolute(path.as_str()) {
                    Ok(())
                } else {
                    Err(mismatch(param_type, value))
                }
            },
            _ => Err(mismatch(param_type, value)),
        },
        ParamType::TargetPath => match &value.inner {
            Value::String(path) => {
                if is_absolute(path.as_str()) {
                    Ok(())
                } else {
                    Err(mismatch(param_type, value))
                }
            },
            _ => Err(mismatch(param_type, value)),
        },
        ParamType::List { item } => match &value.inner {
            Value::List(items) => {
                let mut index: usize = 0;
                while index < items.len()
                    invariant
                        index <= items.len(),
                        value.inner matches Value::List(x) && x == items,
                        param_type.inner matches ParamType::List { item: t } && t == item,
                        forall|i: int|
                            0 <= i < index ==> accepts(item.inner, (#[trigger] items[i]).inner),
                    decreases items.len() - index,
                {
                    match validate_type(item, &items[index]) {
                        Ok(()) => {},
                        Err(error) => {
                            return Err(
                                ValidateValueError::ListItem { index, error: Box::new(error) },
                            );
                        },
                    }
                    index += 1;
                }
                Ok(())
            },
            _ => Err(mismatch(param_type, value)),
        },
        ParamType::Object { value: part } => match &value.inner {
            Value::Object(entries) => {
                let mut index: usize = 0;
                while index < entries.len()
                    invariant
                        index <= entries.len(),
                        value.inner matches Value::Object(x) && x == entries,
                        param_type.inner matches ParamType::Object { value: t } && t == part,
                        forall|i: int|
                            0 <= i < index ==> accepts(part.inner, (#[trigger] entries[i]).1.inner),
                    decreases entries.len() - index,
                {
                    match validate_type(part, &entries[index].1) {
                        Ok(()) => {},
                        Err(error) => {
                            let key = entries[index].0.clone();
                            assert(entries[index as int].0@ == key@);
                            return Err(
                                ValidateValueError::ObjectEntry { key, error: Box::new(error) },
                            );
                        },
                    }
                    index += 1;
                }
                Ok(())
            },
            _ => Err(mismatch(param_type, value)),
        },
    }
}

} // verus!

verus! {

/// Why a value does not fit a field of a schema, or no field at all.
#[derive(Debug)]
pub enum ParamValidationError {
    MissingParam { key: String, expected_type: Box<Spanned<ParamType>> },
    UnknownParam { key: String, value: Box<Spanned<Value>> },
    InvalidParam { key: String, error: Box<ValidateValueError> },
}

/// Everything that keeps the values from fitting one set of fields.
#[derive(Debug)]
pub struct ParamsStructValidationError {
    pub errors: Vec<ParamValidationError>,
}

/// Why the values do not fit the schema.
#[derive(Debug)]
pub enum ParamsValidationError {
    ValuesWithoutTypes,
    TypesWithoutValues,
    ValuesNotAnObject,
    Struct(Box<ParamsStructValidationError>),
    Union { case_errors: Vec<ParamsStructValidationError> },
    EmptyUnion,
}

/// The values fit the field: the value with the name of the field is
/// accepted by its type, or there is none and the field may be left out.
pub open spec fn field_fits(
    entry: (Seq<char>, Spanned<ParamField>),
    values: Seq<(String, Spanned<Value>)>,
) -> bool {
    match named_in(values, entry.0, 0) {
        Some(value) => accepts(entry.1.inner.spec_typ(), value.inner),
        None => entry.1.inner.spec_optional(),
    }
}

/// The schema has a field with the name.
pub open spec fn name_known(entries: Seq<(Seq<char>, Spanned<ParamField>)>, key: Seq<char>) -> bool {
    exists|i: int| 0 <= i < entries.len() && (#[trigger] entries[i]).0 == key
}

/// How many of the first `upto` fields the values do not fit.
pub open spec fn misfits(
    entries: Seq<(Seq<char>, Spanned<ParamField>)>,
    values: Seq<(String, Spanned<Value>)>,
    upto: int,
) -> nat
    decreases upto,
{
    if upto <= 0 {
        0
    } else {
        misfits(entries, values, upto - 1) + if field_fits(entries[upto - 1], values) {
            0nat
        } else {
            1nat
        }
    }
}

/// How many of the first `upto` values have a name that the schema does not know.
pub open spec fn strangers(
    entries: Seq<(Seq<char>, Spanned<ParamField>)>,
    values: Seq<(String, Spanned<Value>)>,
    upto: int,
) -> nat
    decreases upto,
{
    if upto <= 0 {
        0
    } else {
        strangers(entries, values, upto - 1) + if name_known(entries, values[upto - 1].0@) {
            0nat
        } else {
            1nat
        }
    }
}

/// The values fit the fields: every field fits, and every value has the
/// name of a field.
pub open spec fn struct_accepts(fields: ParamsStruct, values: Seq<(String, Spanned<Value>)>) -> bool {
    misfits(schema_entries(fields), values, schema_entries(fields).len() as int) + strangers(
        schema_entries(fields),
        values,
        values.len() as int,
    ) == 0
}

/// No misfit among the fields means that every field fits.
pub proof fn lemma_no_misfits(
    entries: Seq<(Seq<char>, Spanned<ParamField>)>,
    values: Seq<(String, Spanned<Value>)>,
    upto: int,
)
    requires
        0 <= upto <= entries.len(),
    ensures
        misfits(entries, values, upto) == 0 <==> forall|i: int|
            0 <= i < upto ==> field_fits(#[trigger] entries[i], values),
    decreases upto,
{
    if upto > 0 {
        lemma_no_misfits(entries, values, upto - 1);
    }
}

/// No stranger among the values means that every value has the name of a field.
pub proof fn lemma_no_strangers(
    entries: Seq<(Seq<char>, Spanned<ParamField>)>,
    values: Seq<(String, Spanned<Value>)>,
    upto: int,
)
    requires
        0 <= upto <= values.len(),
    ensures
        strangers(entries, values, upto) == 0 <==> forall|j: int|
            0 <= j < upto ==> name_known(entries, (#[trigger] values[j]).0@),
    decreases upto,
{
    if upto > 0 {
        lemma_no_strangers(entries, values, upto - 1);
    }
}

/// What is wrong with the values under one name, as a kind.
pub ghost enum FaultShape {
    /// A field that has to be there has no value.
    Missing(Seq<char>),
    /// The value of a field is not accepted by its type.
    Invalid(Seq<char>),
    /// A value has a name that the schema does not know.
    Unknown(Seq<char>),
}

/// What is wrong with the field, if anything is.
pub open spec fn field_fault(
    entry: (Seq<char>, Spanned<ParamField>),
    values: Seq<(String, Spanned<Value>)>,
) -> Option<FaultShape> {
    match named_in(values, entry.0, 0) {
        Some(value) => if accepts(entry.1.inner.spec_typ(), value.inner) {
            None
        } else {
            Some(FaultShape::Invalid(entry.0))
        },
        None => if entry.1.inner.spec_optional() {
            None
        } else {
            Some(FaultShape::Missing(entry.0))
        },
    }
}

/// What is wrong with the first `upto` fields, in their order.
pub open spec fn field_faults(
    entries: Seq<(Seq<char>, Spanned<ParamField>)>,
    values: Seq<(String, Spanned<Value>)>,
    upto: int,
) -> Seq<FaultShape>
    decreases upto,
{
    if upto <= 0 {
        Seq::empty()
    } else {
        match field_fault(entries[upto - 1], values) {
            Some(fault) => field_faults(entries, values, upto - 1).push(fault),
            None => field_faults(entries, values, upto - 1),
        }
    }
}

/// The names among the first `upto` values that the schema does not know,
/// in their order.
pub open spec fn stranger_faults(
    entries: Seq<(Seq<char>, Spanned<ParamField>)>,
    values: Seq<(String, Spanned<Value>)>,
    upto: int,
) -> Seq<FaultShape>
    decreases upto,
{
    if upto <= 0 {
        Seq::empty()
    } else if name_known(entries, values[upto - 1].0@) {
        stranger_faults(entries, values, upto - 1)
    } else {
        stranger_faults(entries, values, upto - 1).push(FaultShape::Unknown(values[upto - 1].0@))
    }
}

/// Everything that keeps the values from fitting the fields: what is
/// wrong with the fields, in their order, and then the names that the
/// schema does not know, in the order of the values.
pub open spec fn struct_faults(
    fields: ParamsStruct,
    values: Seq<(String, Spanned<Value>)>,
) -> Seq<FaultShape> {
    field_faults(schema_entries(fields), values, schema_entries(fields).len() as int)
        + stranger_faults(schema_entries(fields), values, values.len() as int)
}

/// The kind of an error.
pub open spec fn fault_of(error: ParamValidationError) -> FaultShape {
    match error {
        ParamValidationError::MissingParam { key, .. } => FaultShape::Missing(key@),
        ParamValidationError::InvalidParam { key, .. } => FaultShape::Invalid(key@),
        ParamValidationError::UnknownParam { key, .. } => FaultShape::Unknown(key@),
    }
}

/// The kinds of the errors, in their order.
pub open spec fn faults_of(errors: Seq<ParamValidationError>) -> Seq<FaultShape> {
    Seq::new(errors.len(), |i: int| fault_of(errors[i]))
}

/// Holds the values against one set of fields and gathers everything
/// that does not fit: for every field in order an invalid or a missing
/// value, then every value whose name the schema does not know.
pub fn validate_struct(fields: &ParamsStruct, values: &Vec<(String, Spanned<Value>)>) -> (valid:
    Result<(), ParamsStructValidationError>)
    ensures
        valid is Ok <==> struct_accepts(*fields, values@),
        valid matches Err(error) ==> faults_of(error.errors@) == struct_faults(*fields, values@),
{
    let ghost entries = schema_entries(*fields);
    let mut errors: Vec<ParamValidationError> = Vec::new();
    let count = schema_len(fields);
    let mut i: usize = 0;
    while i < count
        invariant
            i <= count,
            count == entries.len(),
            entries == schema_entries(*fields),
            errors.len() == misfits(entries, values@, i as int),
            faults_of(errors@) == field_faults(entries, values@, i as int),
        decreases count - i,
    {
        let ghost before = errors@;
        match schema_entry(fields, i) {
            Some((key, field)) => {
                match Value::entry(values, key) {
                    Some(value) => {
                        let typ = Spanned {
                            inner: field.inner.typ().duplicate(),
                            span: field.span.duplicate(),
                        };
                        match validate_type(&typ, value) {
                            Ok(()) => {},
                            Err(error) => {
                                errors.push(
                                    ParamValidationError::InvalidParam {
                                        key: key.clone(),
                                        error: Box::new(error),
                                    },
                                );
                            },
                        }
                    },
                    None => {
                        if !*field.inner.optional() {
                            errors.push(
                                ParamValidationError::MissingParam {
                                    key: key.clone(),
                                    expected_type: Box::new(
                                        Spanned {
                                            inner: field.inner.typ().duplicate(),
                                            span: field.span.duplicate(),
                                        },
                                    ),
                                },
                            );
                        }
                    },
                }
            },
            None => {},
        }
        proof {
            match field_fault(entries[i as int], values@) {
                Some(fault) => {
                    assert(errors@ == before.push(errors@[errors.len() - 1]));
                    assert(faults_of(errors@) =~= faults_of(before).push(fault));
                },
                None => {
                    assert(errors@ == before);
                },
            }
        }
        i += 1;
    }
    let ghost misfit = errors.len();
    let ghost first = errors@;
    let mut j: usize = 0;
    while j < values.len()
        invariant
            j <= values.len(),
            entries == schema_entries(*fields),
            errors.len() == misfit + strangers(entries, values@, j as int),
            faults_of(errors@) == faults_of(first) + stranger_faults(entries, values@, j as int),
        decreases values.len() - j,
    {
        let ghost before = errors@;
        if schema_get(fields, &values[j].0).is_none() {
            errors.push(
                ParamValidationError::UnknownParam {
                    key: values[j].0.clone(),
                    value: Box::new(
                        Spanned {
                            inner: values[j].1.inner.duplicate(),
                            span: values[j].1.span.duplicate(),
                        },
                    ),
                },
            );
            proof {
                assert(errors@ == before.push(errors@[errors.len() - 1]));
                assert(faults_of(errors@) =~= faults_of(before).push(
                    FaultShape::Unknown(values[j as int].0@),
                ));
                assert(faults_of(errors@) =~= faults_of(first) + stranger_faults(
                    entries,
                    values@,
                    j + 1,
                ));
            }
        }
        j += 1;
    }
    if errors.len() == 0 {
        Ok(())
    } else {
        Err(ParamsStructValidationError { errors })
    }
}

} // verus!

verus! {

/// What validation makes of a schema and values.
pub open spec fn validated(
    param_types: Option<&Spanned<ParamTypes>>,
    param_values: Option<&Spanned<Value>>,
    valid: Result<Option<&ParamsStruct>, ParamsValidationError>,
) -> bool {
    match (param_types, param_values) {
        (None, None) => valid matches Ok(None),
        (Some(_), None) => valid matches Err(ParamsValidationError::TypesWithoutValues),
        (None, Some(_)) => valid matches Err(ParamsValidationError::ValuesWithoutTypes),
        (Some(types), Some(values)) => match values.inner {
            Value::Object(entries) => match types.inner {
                ParamTypes::Struct(fields) => if struct_accepts(fields, entries@) {
                    valid matches Ok(Some(found)) && *found == fields
                } else {
                    valid matches Err(ParamsValidationError::Struct(error)) && faults_of(
                        error.errors@,
                    ) == struct_faults(fields, entries@)
                },
                ParamTypes::Union(cases) => if cases.len() == 0 {
                    valid matches Err(ParamsValidationError::EmptyUnion)
                } else if exists|i: int| 0 <= i < cases.len() && struct_accepts(#[trigger] cases[i], entries@) {
                    valid matches Ok(Some(found)) && exists|i: int|
                        0 <= i < cases.len() && *found == #[trigger] cases[i] && struct_accepts(
                            cases[i],
                            entries@,
                        ) && forall|j: int|
                            0 <= j < i ==> !struct_accepts(#[trigger] cases[j], entries@)
                } else {
                    valid matches Err(ParamsValidationError::Union { case_errors })
                        && case_errors.len() == cases.len() && forall|i: int|
                        0 <= i < cases.len() ==> faults_of((#[trigger] case_errors[i]).errors@)
                            == struct_faults(cases[i], entries@)
                },
            },
            _ => valid matches Err(ParamsValidationError::ValuesNotAnObject),
        },
    }
}

/// Holds values against a schema. Both have to be there or neither. The
/// values have to be an object. Of a union the first case that fits is
/// taken; where none fits the errors of all cases are handed back.
pub fn validate<'a>(
    param_types: Option<&'a Spanned<ParamTypes>>,
    param_values: Option<&Spanned<Value>>,
) -> (valid: Result<Option<&'a ParamsStruct>, ParamsValidationError>)
    ensures
        validated(param_types, param_values, valid),
{
    let (types, values) = match (param_types, param_values) {
        (Some(types), Some(values)) => (types, values),
        (Some(_), None) => {
            return Err(ParamsValidationError::TypesWithoutValues);
        },
        (None, Some(_)) => {
            return Err(ParamsValidationError::ValuesWithoutTypes);
        },
        (None, None) => {
            return Ok(None);
        },
    };
    let entries = match &values.inner {
        Value::Object(entries) => entries,
        _ => {
            return Err(ParamsValidationError::ValuesNotAnObject);
        },
    };
    match &types.inner {
        ParamTypes::Struct(fields) => match validate_struct(fields, entries) {
            Ok(()) => Ok(Some(fields)),
            Err(error) => Err(ParamsValidationError::Struct(Box::new(error))),
        },
        ParamTypes::Union(cases) => {
            if cases.len() == 0 {
                return Err(ParamsValidationError::EmptyUnion);
            }
            let mut case_errors: Vec<ParamsStructValidationError> = Vec::new();
            let mut i: usize = 0;
            while i < cases.len()
                invariant
                    i <= cases.len(),
                    cases.len() > 0,
                    param_types == Some(types),
                    param_values == Some(values),
                    values.inner matches Value::Object(x) && x == entries,
                    types.inner matches ParamTypes::Union(c) && c == cases,
                    case_errors.len() == i,
                    forall|j: int| 0 <= j < i ==> !struct_accepts(#[trigger] cases[j], entries@),
                    forall|j: int|
                        0 <= j < i ==> faults_of((#[trigger] case_errors[j]).errors@)
                            == struct_faults(cases[j], entries@),
                decreases cases.len() - i,
            {
                match validate_struct(&cases[i], entries) {
                    Ok(()) => {
                        assert(struct_accepts(cases[i as int], entries@));
                        return Ok(Some(&cases[i]));
                    },
                    Err(error) => case_errors.push(error),
                }
                i += 1;
            }
            Err(ParamsValidationError::Union { case_errors })
        },
    }
}

} // verus!
