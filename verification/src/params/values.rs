//! Values taken in under a schema.

use crate::params::schema::{
    schema_entries, schema_get, ParamField, ParamType, ParamsStruct,
};
use crate::params::value::{Span, Spanned, Value};
use crate::paths::{join_path, joined_path, parent_of, parent_path};
use vstd::prelude::*;
use vstd::string::StringExecFns;

verus! {

/// A value taken in under a type. A host path is resolved against the
/// directory of the source in which it stands.
#[derive(Debug)]
pub enum ParamValue {
    Literal(Value),
    Boolean(bool),
    String(String),
    Number(String),
    List(Vec<Spanned<ParamValue>>),
    Object(Vec<(String, Spanned<ParamValue>)>),
    HostPath(String),
    TargetPath(String),
}

/// Why a value cannot be taken in under a type.
#[derive(Debug)]
pub enum ParamValueFromRimuError {
    LiteralNotEqual { value: Box<Value>, typ: Box<Value> },
    List { index: usize, error: Box<Spanned<ParamValueFromRimuError>> },
    Object { key: String, error: Box<Spanned<ParamValueFromRimuError>> },
    HostPathSourceNeedsParent { source_path: String },
    UnexpectedParamTypeValueCase { typ: Box<ParamType>, value: Box<Value> },
}

/// The value is of the kind that the type asks for, part by part, and
/// the source in which a host path stands has a parent. Whether a path is
/// absolute or relative is not asked here.
pub open spec fn convertible(typ: ParamType, value: Spanned<Value>) -> bool
    decreases value,
{
    match typ {
        ParamType::Literal(literal) => value.inner@ == literal@ && !literal.holds_function(),
        ParamType::Boolean => value.inner is Boolean,
        ParamType::String => value.inner is String,
        ParamType::Number => value.inner is Number,
        ParamType::HostPath => value.inner is String && parent_of(value.span.source@) is Some,
        ParamType::TargetPath => value.inner is String,
        ParamType::List { item } => value.inner matches Value::List(items) && forall|i: int|
            0 <= i < items.len() ==> convertible(item.inner, #[trigger] items[i]),
        ParamType::Object { value: part } => value.inner matches Value::Object(entries) && forall|
            i: int,
        |
            0 <= i < entries.len() ==> convertible(part.inner, (#[trigger] entries[i]).1),
    }
}

/// `out` is `value` taken in under `typ`: the same value in the form
/// that the type asks for, every part at its place. A host path is joined
/// to the parent of the source in which it stands.
pub open spec fn carries(typ: ParamType, value: Spanned<Value>, out: ParamValue) -> bool
    decreases value,
{
    match typ {
        ParamType::Literal(_) => out matches ParamValue::Literal(held) && held@ == value.inner@,
        ParamType::Boolean => value.inner matches Value::Boolean(b) && out == ParamValue::Boolean(
            b,
        ),
        ParamType::String => value.inner matches Value::String(text)
            && out matches ParamValue::String(held) && held@ == text@,
        ParamType::Number => value.inner matches Value::Number(text)
            && out matches ParamValue::Number(held) && held@ == text@,
        ParamType::HostPath => value.inner matches Value::String(text)
            && out matches ParamValue::HostPath(held) && parent_of(
            value.span.source@,
        ) matches Some(directory) && held@ == joined_path(directory, text@),
        ParamType::TargetPath => value.inner matches Value::String(text)
            && out matches ParamValue::TargetPath(held) && held@ == text@,
        ParamType::List { item } => {
            &&& value.inner matches Value::List(items)
            &&& out matches ParamValue::List(held)
            &&& held.len() == items.len()
            &&& forall|i: int|
                0 <= i < items.len() ==> carries(item.inner, #[trigger] items[i], held[i].inner)
                    && held[i].span@ == items[i].span@
        },
        ParamType::Object { value: part } => {
            &&& value.inner matches Value::Object(entries)
            &&& out matches ParamValue::Object(held)
            &&& held.len() == entries.len()
            &&& forall|i: int|
                0 <= i < entries.len() ==> held[i].0@ == (#[trigger] entries[i]).0@ && carries(
                    part.inner,
                    entries[i].1,
                    held[i].1.inner,
                ) && held[i].1.span@ == entries[i].1.span@
        },
    }
}

impl ParamValue {
    /// Takes a value in under a type. The place of the value goes with
    /// the result and with the error. A value of another kind than the
    /// type asks for is refused; so is a host path in a source without a
    /// directory.
    pub fn from_rimu_spanned(value: &Spanned<Value>, typ: &ParamType) -> (taken: Result<
        Spanned<ParamValue>,
        Spanned<ParamValueFromRimuError>,
    >)
        ensures
            match taken {
                Ok(out) => convertible(*typ, *value) && carries(*typ, *value, out.inner)
                    && out.span@ == value.span@,
                Err(error) => error.span@ == value.span@ && !convertible(*typ, *value),
            },
        decreases value,
    {
        let result = match (typ, &value.inner) {
            (ParamType::Literal(literal), held) => {
                if literal.same_as(held) {
                    Ok(ParamValue::Literal(held.duplicate()))
                } else {
                    Err(
                        ParamValueFromRimuError::LiteralNotEqual {
                            value: Box::new(held.duplicate()),
                            typ: Box::new(literal.duplicate()),
                        },
                    )
                }
            },
            (ParamType::Boolean, Value::Boolean(b)) => Ok(ParamValue::Boolean(*b)),
            (ParamType::String, Value::String(text)) => Ok(ParamValue::String(text.clone())),
            (ParamType::Number, Value::Number(text)) => Ok(ParamValue::Number(text.clone())),
            (ParamType::List { item }, Value::List(items)) => {
                let mut held: Vec<Spanned<ParamValue>> = Vec::new();
                let mut index: usize = 0;
                let mut failed: Option<ParamValueFromRimuError> = None;
                while index < items.len() && failed.is_none()
                    invariant
                        index <= items.len(),
                        value.inner matches Value::List(x) && x == items,
                        typ matches ParamType::List { item: t } && t == item,
                        failed is None ==> held.len() == index,
                        failed is None ==> forall|i: int|
                            0 <= i < index ==> convertible(item.inner, #[trigger] items[i])
                                && carries(item.inner, items[i], held[i].inner)
                                && held[i].span@ == items[i].span@,
                        failed is Some ==> !convertible(*typ, *value),
                    decreases items.len() - index, (if failed is None { 1int } else { 0int }),
                {
                    match ParamValue::from_rimu_spanned(&items[index], &item.inner) {
                        Ok(out) => {
                            held.push(out);
                            index += 1;
                        },
                        Err(error) => {
                            failed = Some(
                                ParamValueFromRimuError::List { index, error: Box::new(error) },
                            );
                        },
                    }
                }
                match failed {
                    Some(error) => Err(error),
                    None => Ok(ParamValue::List(held)),
                }
            },
            (ParamType::Object { value: part }, Value::Object(entries)) => {
                let mut held: Vec<(String, Spanned<ParamValue>)> = Vec::new();
                let mut index: usize = 0;
                let mut failed: Option<ParamValueFromRimuError> = None;
                while index < entries.len() && failed.is_none()
                    invariant
                        index <= entries.len(),
                        value.inner matches Value::Object(x) && x == entries,
                        typ matches ParamType::Object { value: t } && t == part,
                        failed is None ==> held.len() == index,
                        failed is None ==> forall|i: int|
                            0 <= i < index ==> convertible(
                                part.inner,
                                (#[trigger] entries[i]).1,
                            ) && held[i].0@ == entries[i].0@ && carries(
                                part.inner,
                                entries[i].1,
                                held[i].1.inner,
                            ) && held[i].1.span@ == entries[i].1.span@,
                        failed is Some ==> !convertible(*typ, *value),
                    decreases entries.len() - index, (if failed is None { 1int } else { 0int }),
                {
                    match ParamValue::from_rimu_spanned(&entries[index].1, &part.inner) {
                        Ok(out) => {
                            held.push((entries[index].0.clone(), out));
                            index += 1;
                        },
                        Err(error) => {
                            failed = Some(
                                ParamValueFromRimuError::Object {
                                    key: entries[index].0.clone(),
                                    error: Box::new(error),
                                },
                            );
                        },
                    }
                }
                match failed {
                    Some(error) => Err(error),
                    None => Ok(ParamValue::Object(held)),
                }
            },
            (ParamType::HostPath, Value::String(path)) => {
                match parent_path(value.span.source.as_str()) {
                    Some(directory) => Ok(
                        ParamValue::HostPath(join_path(directory.as_str(), path.as_str())),
                    ),
                    None => Err(
                        ParamValueFromRimuError::HostPathSourceNeedsParent {
                            source_path: value.span.source.clone(),
                        },
                    ),
                }
            },
            (ParamType::TargetPath, Value::String(path)) => Ok(ParamValue::TargetPath(path.clone())),
            (typ, held) => Err(
                ParamValueFromRimuError::UnexpectedParamTypeValueCase {
                    typ: Box::new(typ.duplicate()),
                    value: Box::new(held.duplicate()),
                },
            ),
        };
        match result {
            Ok(out) => Ok(Spanned { inner: out, span: value.span.duplicate() }),
            Err(error) => Err(Spanned { inner: error, span: value.span.duplicate() }),
        }
    }
}

} // verus!

verus! {

/// The values of the parameters by name, in the order given.
#[derive(Debug)]
pub struct ParamValues(pub Vec<(String, Spanned<ParamValue>)>);

/// Why values cannot be taken in under a schema.
#[derive(Debug)]
pub enum ParamValuesFromRimuError {
    NotAnObject,
    ParamMissing { key: String },
    Param { key: String, error: Box<Spanned<ParamValueFromRimuError>> },
}

/// The type of the field with the name `key`.
pub open spec fn type_named(fields: ParamsStruct, key: Seq<char>) -> Option<ParamField> {
    if exists|i: int|
        0 <= i < schema_entries(fields).len() && (#[trigger] schema_entries(fields)[i]).0 == key {
        let i = choose|i: int|
            0 <= i < schema_entries(fields).len() && (#[trigger] schema_entries(fields)[i]).0
                == key;
        Some(schema_entries(fields)[i].1.inner)
    } else {
        None
    }
}

/// `held` is the entry taken in under the field with its name.
pub open spec fn entry_taken(
    fields: ParamsStruct,
    entry: (String, Spanned<Value>),
    held: (String, Spanned<ParamValue>),
) -> bool {
    &&& entry.0@ == held.0@
    &&& type_named(fields, entry.0@) is Some
    &&& carries(type_named(fields, entry.0@)->0.spec_typ(), entry.1, held.1.inner)
}

/// Whether the entry is kept: it has a field, and it is not a null under
/// a field that may be left out.
pub open spec fn kept(fields: ParamsStruct, entry: (String, Spanned<Value>)) -> bool {
    match type_named(fields, entry.0@) {
        Some(field) => !(field.spec_optional() && entry.1.inner is Null),
        None => false,
    }
}

/// Whether nothing is wrong with the entry: it has a field, and where it
/// is kept its value is of the kind that the field asks for.
pub open spec fn passes(fields: ParamsStruct, entry: (String, Spanned<Value>)) -> bool {
    &&& type_named(fields, entry.0@) is Some
    &&& kept(fields, entry) ==> convertible(type_named(fields, entry.0@)->0.spec_typ(), entry.1)
}

/// The places of the entries that are kept among the first `upto`, in order.
pub open spec fn kept_places(
    fields: ParamsStruct,
    entries: Seq<(String, Spanned<Value>)>,
    upto: int,
) -> Seq<int>
    decreases upto,
{
    if upto <= 0 {
        Seq::empty()
    } else if kept(fields, entries[upto - 1]) {
        kept_places(fields, entries, upto - 1).push(upto - 1)
    } else {
        kept_places(fields, entries, upto - 1)
    }
}

/// `held` are the entries that are kept, taken in under their fields, in
/// the order of the entries.
pub open spec fn all_taken(
    fields: ParamsStruct,
    entries: Seq<(String, Spanned<Value>)>,
    upto: int,
    held: Seq<(String, Spanned<ParamValue>)>,
) -> bool {
    &&& held.len() == kept_places(fields, entries, upto).len()
    &&& forall|k: int|
        0 <= k < held.len() ==> entry_taken(
            fields,
            entries[kept_places(fields, entries, upto)[k]],
            #[trigger] held[k],
        ) && held[k].1.span@ == entries[kept_places(fields, entries, upto)[k]].1.span@
}

/// The entry at `at` is the first with which something is wrong.
pub open spec fn first_fault(
    fields: ParamsStruct,
    entries: Seq<(String, Spanned<Value>)>,
    at: int,
) -> bool {
    &&& 0 <= at < entries.len()
    &&& forall|j: int| 0 <= j < at ==> passes(fields, #[trigger] entries[j])
}

/// The shape of a value that was taken in, as a value of the plan
/// language: a path is its text.
pub open spec fn plain_shape(value: ParamValue) -> crate::params::value::ValueShape
    decreases value,
{
    match value {
        ParamValue::Literal(held) => held@,
        ParamValue::Boolean(b) => crate::params::value::ValueShape::Boolean(b),
        ParamValue::String(text) => crate::params::value::ValueShape::String(text@),
        ParamValue::Number(text) => crate::params::value::ValueShape::Number(text@),
        ParamValue::HostPath(path) => crate::params::value::ValueShape::String(path@),
        ParamValue::TargetPath(path) => crate::params::value::ValueShape::String(path@),
        ParamValue::List(items) => crate::params::value::ValueShape::List(
            Seq::new(
                items.len() as nat,
                |i: int|
                    if 0 <= i < items.len() {
                        (plain_shape(items[i].inner), items[i].span@)
                    } else {
                        arbitrary()
                    },
            ),
        ),
        ParamValue::Object(entries) => crate::params::value::ValueShape::Object(
            Seq::new(
                entries.len() as nat,
                |i: int|
                    if 0 <= i < entries.len() {
                        (entries[i].0@, plain_shape(entries[i].1.inner), entries[i].1.span@)
                    } else {
                        arbitrary()
                    },
            ),
        ),
    }
}

impl ParamValue {
    /// The value as a value of the plan language: a path becomes its text.
    pub fn into_rimu(self) -> (value: Value)
        ensures
            value@ == plain_shape(self),
        decreases self,
    {
        match self {
            ParamValue::Literal(held) => held,
            ParamValue::Boolean(b) => Value::Boolean(b),
            ParamValue::String(text) => Value::String(text),
            ParamValue::Number(text) => Value::Number(text),
            ParamValue::HostPath(path) => Value::String(path),
            ParamValue::TargetPath(path) => Value::String(path),
            ParamValue::List(items) => {
                let ghost list = items@;
                let mut values: Vec<Spanned<Value>> = Vec::new();
                for item in it: items
                    invariant
                        it.seq() == list,
                        self matches ParamValue::List(x) && x@ == list,
                        values.len() == it.index(),
                        forall|i: int|
                            0 <= i < it.index() ==> (#[trigger] values[i]).inner@ == plain_shape(
                                list[i].inner,
                            ) && values[i].span@ == list[i].span@,
                {
                    assert(item == list[it.index() as int]);
                    let Spanned { inner, span } = item;
                    values.push(Spanned { inner: inner.into_rimu(), span });
                }
                let value = Value::List(values);
                assert(value@->List_0 =~= plain_shape(self)->List_0);
                value
            },
            ParamValue::Object(entries) => {
                let ghost list = entries@;
                let mut values: Vec<(String, Spanned<Value>)> = Vec::new();
                for entry in it: entries
                    invariant
                        it.seq() == list,
                        self matches ParamValue::Object(x) && x@ == list,
                        values.len() == it.index(),
                        forall|i: int|
                            0 <= i < it.index() ==> (#[trigger] values[i]).0@ == list[i].0@
                                && values[i].1.inner@ == plain_shape(list[i].1.inner)
                                && values[i].1.span@ == list[i].1.span@,
                {
                    assert(entry == list[it.index() as int]);
                    let (key, Spanned { inner, span }) = entry;
                    values.push((key, Spanned { inner: inner.into_rimu(), span }));
                }
                let value = Value::Object(values);
                assert(value@->Object_0 =~= plain_shape(self)->Object_0);
                value
            },
        }
    }
}

impl ParamValues {
    /// Takes the entries of an object in under the fields of a schema, in
    /// their order. An entry whose field may be left out and whose value
    /// is null is left out. The first entry without a field, or with a
    /// value that its field does not take, is refused with its name.
    pub fn from_rimu_spanned(value: &Spanned<Value>, type_struct: &ParamsStruct) -> (taken: Result<
        Spanned<ParamValues>,
        Spanned<ParamValuesFromRimuError>,
    >)
        ensures
            match taken {
                Ok(out) => {
                    &&& value.inner matches Value::Object(entries)
                    &&& out.span@ == value.span@
                    &&& forall|i: int|
                        0 <= i < entries.len() ==> passes(*type_struct, #[trigger] entries[i])
                    &&& all_taken(*type_struct, entries@, entries.len() as int, out.inner.0@)
                },
                Err(error) => {
                    &&& error.span@ == value.span@
                    &&& match error.inner {
                        ParamValuesFromRimuError::NotAnObject => !(value.inner is Object),
                        ParamValuesFromRimuError::ParamMissing { key } => {
                            &&& value.inner matches Value::Object(entries)
                            &&& exists|at: int|
                                first_fault(*type_struct, entries@, at) && (#[trigger] entries[at]).0@
                                    == key@ && type_named(*type_struct, key@) is None
                        },
                        ParamValuesFromRimuError::Param { key, .. } => {
                            &&& value.inner matches Value::Object(entries)
                            &&& exists|at: int|
                                first_fault(*type_struct, entries@, at) && (#[trigger] entries[at]).0@
                                    == key@ && kept(*type_struct, entries[at]) && !convertible(
                                    type_named(*type_struct, key@)->0.spec_typ(),
                                    entries[at].1,
                                )
                        },
                    }
                },
            },
    {
        let entries = match &value.inner {
            Value::Object(entries) => entries,
            _ => {
                return Err(
                    Spanned {
                        inner: ParamValuesFromRimuError::NotAnObject,
                        span: value.span.duplicate(),
                    },
                );
            },
        };
        let mut held: Vec<(String, Spanned<ParamValue>)> = Vec::new();
        let mut index: usize = 0;
        while index < entries.len()
            invariant
                index <= entries.len(),
                value.inner matches Value::Object(x) && x == entries,
                forall|j: int| 0 <= j < index ==> passes(*type_struct, #[trigger] entries[j]),
                all_taken(*type_struct, entries@, index as int, held@),
            decreases entries.len() - index,
        {
            let key = &entries[index].0;
            let ghost before = held@;
            let ghost places = kept_places(*type_struct, entries@, index as int);
            let field = match schema_get(type_struct, key) {
                Some(field) => field,
                None => {
                    proof {
                        assert(type_named(*type_struct, key@) is None);
                        assert(first_fault(*type_struct, entries@, index as int));
                    }
                    return Err(
                        Spanned {
                            inner: ParamValuesFromRimuError::ParamMissing { key: key.clone() },
                            span: value.span.duplicate(),
                        },
                    );
                },
            };
            proof {
                assert(type_named(*type_struct, key@) == Some(field.inner));
            }
            let is_null = match &entries[index].1.inner {
                Value::Null => true,
                _ => false,
            };
            if !(*field.inner.optional() && is_null) {
                match ParamValue::from_rimu_spanned(&entries[index].1, field.inner.typ()) {
                    Ok(out) => {
                        held.push((key.clone(), out));
                        proof {
                            assert(kept(*type_struct, entries[index as int]));
                            assert(kept_places(*type_struct, entries@, index + 1) == places.push(
                                index as int,
                            ));
                            assert forall|k: int| 0 <= k < held.len() implies entry_taken(
                                *type_struct,
                                entries[places.push(index as int)[k]],
                                #[trigger] held[k],
                            ) && held[k].1.span@ == entries[places.push(
                                index as int,
                            )[k]].1.span@ by {
                                if k < before.len() {
                                    assert(held[k] == before[k]);
                                }
                            }
                        }
                    },
                    Err(error) => {
                        proof {
                            assert(kept(*type_struct, entries[index as int]));
                            assert(first_fault(*type_struct, entries@, index as int));
                        }
                        return Err(
                            Spanned {
                                inner: ParamValuesFromRimuError::Param {
                                    key: key.clone(),
                                    error: Box::new(error),
                                },
                                span: value.span.duplicate(),
                            },
                        );
                    },
                }
            } else {
                proof {
                    assert(!kept(*type_struct, entries[index as int]));
                    assert(kept_places(*type_struct, entries@, index + 1) == places);
                }
            }
            index += 1;
        }
        Ok(Spanned { inner: ParamValues(held), span: value.span.duplicate() })
    }

    /// The value of the parameter with the name `key`, if it was given;
    /// the first where several have the name.
    pub fn get(&self, key: &str) -> (found: Option<&Spanned<ParamValue>>)
        ensures
            match found {
                Some(value) => exists|i: int|
                    0 <= i < self.0.len() && (#[trigger] self.0[i]).0@ == key@ && self.0[i].1
                        == *value && forall|j: int| 0 <= j < i ==> (#[trigger] self.0[j]).0@ != key@,
                None => forall|i: int| 0 <= i < self.0.len() ==> (#[trigger] self.0[i]).0@ != key@,
            },
    {
        let name = String::from_str(key);
        let mut i: usize = 0;
        while i < self.0.len()
            invariant
                i <= self.0.len(),
                name@ == key@,
                forall|j: int| 0 <= j < i ==> (#[trigger] self.0[j]).0@ != key@,
            decreases self.0.len() - i,
        {
            if self.0[i].0 == name {
                return Some(&self.0[i].1);
            }
            i += 1;
        }
        None
    }

    /// The values as an object of the plan language.
    pub fn into_rimu(self) -> (value: Value)
        ensures
            value@ == plain_shape(ParamValue::Object(self.0)),
    {
        ParamValue::Object(self.0).into_rimu()
    }
}

} // verus!
