//! The items that the setup of a plan hands back.

use crate::params::value::{named_in, Span, Spanned, Value};
use crate::plan::id::{PlanId, PlanNodeId, PlanNodeKey};
use crate::plan::tree::PlanMeta;
use crate::causality::meta::CausalityMeta;
use crate::text::{begins_at, chars_of, has_at, text_of};
use vstd::prelude::*;
use vstd::string::StringExecFns;

verus! {

/// One item of a plan: the module that it uses, the name by which others
/// refer to it, its parameters, and the names that it requires and is
/// required by.
#[derive(Debug)]
pub struct PlanItem {
    pub id: Option<Spanned<String>>,
    pub module: Spanned<String>,
    pub params: Option<Spanned<Value>>,
    pub requires: Vec<Spanned<String>>,
    pub required_by: Vec<Spanned<String>>,
}

/// Why a value is no item of a plan.
#[derive(Debug)]
pub enum IntoPlanItemError {
    NotAnObject,
    ModuleMissing,
    ModuleNotAString { span: Span },
    IdNotAString { span: Span },
    RequiresNotAList { span: Span },
    RequiresItemNotAString { item_span: Span },
    RequiredByNotAList { span: Span },
    RequiredByItemNotAString { item_span: Span },
}

/// Why a value is no list of names, if it is none: it is no list, or at
/// `Some(index)` it holds something that is no text.
pub ghost enum NamesFault {
    NotAList,
    NotAString(int),
}

/// The first item of the list from `from` on that is no text.
pub open spec fn first_stranger(items: Seq<Spanned<Value>>, from: int) -> Option<int>
    decreases items.len() - from,
{
    if from < 0 || from >= items.len() {
        None
    } else if !(items[from].inner is String) {
        Some(from)
    } else {
        first_stranger(items, from + 1)
    }
}

/// Why the value is no list of names, if it is none.
pub open spec fn names_fault(value: Value) -> Option<NamesFault> {
    match value {
        Value::List(items) => match first_stranger(items@, 0) {
            Some(index) => Some(NamesFault::NotAString(index)),
            None => None,
        },
        _ => Some(NamesFault::NotAList),
    }
}

/// The names are the texts of the list, each at its place.
pub open spec fn names_of(names: Seq<Spanned<String>>, items: Seq<Spanned<Value>>) -> bool {
    &&& names.len() == items.len()
    &&& forall|i: int|
        0 <= i < items.len() ==> ((#[trigger] items[i]).inner is String && names[i].inner@
            == items[i].inner->String_0@ && names[i].span@ == items[i].span@)
}

/// Reads a list of names; the fault is the place of the list, or of the
/// first item that is no text.
fn read_names(value: &Spanned<Value>) -> (names: Result<Vec<Spanned<String>>, (bool, Span)>)
    ensures
        match names {
            Ok(names) => names_fault(value.inner) is None && names_of(
                names@,
                value.inner->List_0@,
            ),
            Err((in_item, span)) => match names_fault(value.inner) {
                Some(NamesFault::NotAList) => !in_item && span@ == value.span@,
                Some(NamesFault::NotAString(index)) => in_item && span@
                    == value.inner->List_0[index].span@,
                None => false,
            },
        },
{
    match &value.inner {
        Value::List(items) => {
            let mut names: Vec<Spanned<String>> = Vec::new();
            let mut i: usize = 0;
            while i < items.len()
                invariant
                    i <= items.len(),
                    value.inner matches Value::List(x) && x == items,
                    names.len() == i,
                    first_stranger(items@, i as int) == first_stranger(items@, 0),
                    forall|j: int|
                        0 <= j < i ==> ((#[trigger] items[j]).inner is String && names[j].inner@
                            == items[j].inner->String_0@ && names[j].span@ == items[j].span@),
                decreases items.len() - i,
            {
                match &items[i].inner {
                    Value::String(text) => {
                        names.push(
                            Spanned { inner: text.clone(), span: items[i].span.duplicate() },
                        );
                    },
                    _ => {
                        return Err((true, items[i].span.duplicate()));
                    },
                }
                i += 1;
            }
            Ok(names)
        },
        _ => Err((false, value.span.duplicate())),
    }
}

/// What reading an item from the entries of an object yields. The module
/// is asked first, then the name, then the names required, then the names
/// that the item is required by.
pub open spec fn read_as(
    entries: Seq<(String, Spanned<Value>)>,
    item: Result<PlanItem, IntoPlanItemError>,
) -> bool {
    let module = named_in(entries, "module"@, 0);
    let id = named_in(entries, "id"@, 0);
    let params = named_in(entries, "params"@, 0);
    let needs = named_in(entries, "requires"@, 0);
    let needed_by = named_in(entries, "required_by"@, 0);
    if module is None {
        item matches Err(IntoPlanItemError::ModuleMissing)
    } else if !(module->0.inner is String) {
        item matches Err(IntoPlanItemError::ModuleNotAString { span }) && span@ == module->0.span@
    } else if id is Some && !(id->0.inner is String) {
        item matches Err(IntoPlanItemError::IdNotAString { span }) && span@ == id->0.span@
    } else if needs is Some && names_fault(needs->0.inner) is Some {
        match names_fault(needs->0.inner)->0 {
            NamesFault::NotAList => item matches Err(IntoPlanItemError::RequiresNotAList { span })
                && span@ == needs->0.span@,
            NamesFault::NotAString(index) => item matches Err(
                IntoPlanItemError::RequiresItemNotAString { item_span },
            ) && item_span@ == needs->0.inner->List_0[index].span@,
        }
    } else if needed_by is Some && names_fault(needed_by->0.inner) is Some {
        match names_fault(needed_by->0.inner)->0 {
            NamesFault::NotAList => item matches Err(
                IntoPlanItemError::RequiredByNotAList { span },
            ) && span@ == needed_by->0.span@,
            NamesFault::NotAString(index) => item matches Err(
                IntoPlanItemError::RequiredByItemNotAString { item_span },
            ) && item_span@ == needed_by->0.inner->List_0[index].span@,
        }
    } else {
        &&& item matches Ok(item)
        &&& item.module.inner@ == module->0.inner->String_0@
        &&& item.module.span@ == module->0.span@
        &&& match id {
            Some(id) => item.id matches Some(held) && held.inner@ == id.inner->String_0@
                && held.span@ == id.span@,
            None => item.id is None,
        }
        &&& match params {
            Some(params) => item.params matches Some(held) && held.inner@ == params.inner@
                && held.span@ == params.span@,
            None => item.params is None,
        }
        &&& match needs {
            Some(needs) => names_of(item.requires@, needs.inner->List_0@),
            None => item.requires@.len() == 0,
        }
        &&& match needed_by {
            Some(needed_by) => names_of(item.required_by@, needed_by.inner->List_0@),
            None => item.required_by@.len() == 0,
        }
    }
}

impl PlanItem {
    /// Reads an item from a value of the plan language: an object with the
    /// module, and where wanted a name, parameters and the names required
    /// and required by.
    pub fn from_rimu(value: &Value) -> (item: Result<PlanItem, IntoPlanItemError>)
        ensures
            match *value {
                Value::Object(entries) => read_as(entries@, item),
                _ => item matches Err(IntoPlanItemError::NotAnObject),
            },
    {
        let entries = match value {
            Value::Object(entries) => entries,
            _ => {
                return Err(IntoPlanItemError::NotAnObject);
            },
        };
        let module = match Value::entry(entries, &String::from_str("module")) {
            Some(found) => match &found.inner {
                Value::String(text) => Spanned { inner: text.clone(), span: found.span.duplicate() },
                _ => {
                    return Err(
                        IntoPlanItemError::ModuleNotAString { span: found.span.duplicate() },
                    );
                },
            },
            None => {
                return Err(IntoPlanItemError::ModuleMissing);
            },
        };
        let id = match Value::entry(entries, &String::from_str("id")) {
            Some(found) => match &found.inner {
                Value::String(text) => Some(
                    Spanned { inner: text.clone(), span: found.span.duplicate() },
                ),
                _ => {
                    return Err(IntoPlanItemError::IdNotAString { span: found.span.duplicate() });
                },
            },
            None => None,
        };
        let params = match Value::entry(entries, &String::from_str("params")) {
            Some(found) => Some(
                Spanned { inner: found.inner.duplicate(), span: found.span.duplicate() },
            ),
            None => None,
        };
        let needs = match Value::entry(entries, &String::from_str("requires")) {
            Some(found) => match read_names(found) {
                Ok(names) => names,
                Err((in_item, span)) => {
                    if in_item {
                        return Err(IntoPlanItemError::RequiresItemNotAString { item_span: span });
                    } else {
                        return Err(IntoPlanItemError::RequiresNotAList { span });
                    }
                },
            },
            None => Vec::new(),
        };
        let needed_by = match Value::entry(entries, &String::from_str("required_by")) {
            Some(found) => match read_names(found) {
                Ok(names) => names,
                Err((in_item, span)) => {
                    if in_item {
                        return Err(
                            IntoPlanItemError::RequiredByItemNotAString { item_span: span },
                        );
                    } else {
                        return Err(IntoPlanItemError::RequiredByNotAList { span });
                    }
                },
            },
            None => Vec::new(),
        };
        Ok(PlanItem { id, module, params, requires: needs, required_by: needed_by })
    }

    /// The metadata of the item in the plan `plan_id`: its names are names
    /// of items of that plan.
    pub fn meta(&self, plan_id: &PlanId) -> (meta: PlanMeta)
        ensures
            match self.id {
                Some(id) => meta.id matches Some(held) && held@ == item_key(plan_id@, id.inner@),
                None => meta.id is None,
            },
            meta.requires@.len() == self.requires@.len(),
            forall|i: int|
                0 <= i < self.requires@.len() ==> (#[trigger] meta.requires@[i])@
                    == item_key(plan_id@, self.requires@[i].inner@),
            meta.required_by@.len() == self.required_by@.len(),
            forall|i: int|
                0 <= i < self.required_by@.len() ==> (#[trigger] meta.required_by@[i])@
                    == item_key(plan_id@, self.required_by@[i].inner@),
    {
        let id = match &self.id {
            Some(id) => Some(
                PlanNodeId::PlanItem { plan_id: plan_id.duplicate(), item_id: id.inner.clone() },
            ),
            None => None,
        };
        let needs = item_names(&self.requires, plan_id);
        let needed_by = item_names(&self.required_by, plan_id);
        CausalityMeta { id, requires: needs, required_by: needed_by }
    }
}

/// The name of the item `item` of the plan `plan`.
pub open spec fn item_key(plan: crate::plan::id::PlanKey, item: Seq<char>) -> PlanNodeKey {
    PlanNodeKey::PlanItem { plan, item }
}

/// The names as names of items of the plan.
fn item_names(names: &Vec<Spanned<String>>, plan_id: &PlanId) -> (ids: Vec<PlanNodeId>)
    ensures
        ids.len() == names.len(),
        forall|i: int|
            0 <= i < names.len() ==> (#[trigger] ids[i])@ == item_key(plan_id@, names[i].inner@),
{
    let mut ids: Vec<PlanNodeId> = Vec::new();
    let mut i: usize = 0;
    while i < names.len()
        invariant
            i <= names.len(),
            ids.len() == i,
            forall|j: int|
                0 <= j < i ==> (#[trigger] ids[j])@ == item_key(plan_id@, names[j].inner@),
        decreases names.len() - i,
    {
        ids.push(
            PlanNodeId::PlanItem { plan_id: plan_id.duplicate(), item_id: names[i].inner.clone() },
        );
        i += 1;
    }
    ids
}

/// The name of the built-in kind that a module names: what stands behind
/// `@core/`.
pub open spec fn core_name(module: Seq<char>) -> Option<Seq<char>> {
    if begins_at(module, 0, "@core/"@) {
        Some(module.subrange(6, module.len() as int))
    } else {
        None
    }
}

/// The name of the built-in kind that a module names, if it names one.
/// Every other module is the path or address of another plan.
pub fn is_core_module(module: &str) -> (name: Option<String>)
    ensures
        match name {
            Some(name) => core_name(module@) == Some(name@),
            None => core_name(module@) is None,
        },
{
    proof {
        reveal_strlit("@core/");
    }
    let chars = chars_of(module);
    let prefix = chars_of("@core/");
    if has_at(&chars, 0, &prefix) {
        Some(text_of(&chars, 6, chars.len()))
    } else {
        None
    }
}

} // verus!
