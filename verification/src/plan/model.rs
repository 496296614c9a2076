//! What a plan module exposes: a name and a version where it has them, the
//! schema of its parameters, and the function that sets it up.

use crate::params::parse::{describes_schema, ParamTypesFromRimuError};
use crate::params::schema::ParamTypes;
use crate::params::value::{named_in, Span, Spanned, Value};
use vstd::prelude::*;
use vstd::string::StringExecFns;

verus! {

/// The name of a plan.
#[derive(Debug, Clone)]
pub struct Name(pub String);

/// Why a value is no name of a plan: it is no text.
#[derive(Debug, Clone)]
pub enum NameFromRimuError {
    NotAString,
}

impl Name {
    /// Reads the name of a plan: a text.
    pub fn from_rimu(value: &Value) -> (name: Result<Name, NameFromRimuError>)
        ensures
            match *value {
                Value::String(text) => name matches Ok(name) && name.0@ == text@,
                _ => name is Err,
            },
    {
        match value {
            Value::String(text) => Ok(Name(text.clone())),
            _ => Err(NameFromRimuError::NotAString),
        }
    }
}

/// The version of a plan.
#[derive(Debug, Clone)]
pub struct Version(pub String);

/// Why a value is no version of a plan: it is no text.
#[derive(Debug, Clone)]
pub enum VersionFromRimuError {
    NotAString,
}

impl Version {
    /// Reads the version of a plan: a text.
    pub fn from_rimu(value: &Value) -> (version: Result<Version, VersionFromRimuError>)
        ensures
            match *value {
                Value::String(text) => version matches Ok(version) && version.0@ == text@,
                _ => version is Err,
            },
    {
        match value {
            Value::String(text) => Ok(Version(text.clone())),
            _ => Err(VersionFromRimuError::NotAString),
        }
    }
}

/// Why a value does not set a plan up: it is no function.
#[derive(Debug, Clone)]
pub enum SetupFunctionFromRimuError {
    NotAFunction,
}

/// A plan module as far as it is data: the function that sets it up is
/// held by its place in the source.
#[derive(Debug)]
pub struct Plan {
    pub name: Option<Spanned<Name>>,
    pub version: Option<Spanned<Version>>,
    pub params: Option<Spanned<ParamTypes>>,
    pub setup: Span,
}

/// Why a value is no plan module.
#[derive(Debug)]
pub enum PlanFromRimuError {
    NotAnObject,
    Name(Spanned<NameFromRimuError>),
    Version(Spanned<VersionFromRimuError>),
    Params(Spanned<ParamTypesFromRimuError>),
    SetupMissing,
    SetupNotAFunction(Spanned<SetupFunctionFromRimuError>),
}

/// What reading a plan from the entries of an object yields. The name is
/// asked first, then the version, then the schema, then the function.
pub open spec fn read_plan(
    entries: Seq<(String, Spanned<Value>)>,
    plan: Result<Plan, PlanFromRimuError>,
) -> bool {
    let name = named_in(entries, "name"@, 0);
    let version = named_in(entries, "version"@, 0);
    let params = named_in(entries, "params"@, 0);
    let setup = named_in(entries, "setup"@, 0);
    if name is Some && !(name->0.inner is String) {
        plan matches Err(PlanFromRimuError::Name(error)) && error.span@ == name->0.span@
    } else if version is Some && !(version->0.inner is String) {
        plan matches Err(PlanFromRimuError::Version(error)) && error.span@ == version->0.span@
    } else if params is Some && !describes_schema(params->0.inner) {
        plan matches Err(PlanFromRimuError::Params(error)) && error.span@ == params->0.span@
            && call_ensures(
            ParamTypes::from_rimu,
            (&params->0.inner,),
            Err::<ParamTypes, ParamTypesFromRimuError>(error.inner),
        )
    } else if setup is None {
        plan matches Err(PlanFromRimuError::SetupMissing)
    } else if !(setup->0.inner is Function) {
        plan matches Err(PlanFromRimuError::SetupNotAFunction(error)) && error.span@
            == setup->0.span@
    } else {
        &&& plan matches Ok(plan)
        &&& match name {
            Some(name) => plan.name matches Some(held) && held.inner.0@ == name.inner->String_0@
                && held.span@ == name.span@,
            None => plan.name is None,
        }
        &&& match version {
            Some(version) => plan.version matches Some(held) && held.inner.0@
                == version.inner->String_0@ && held.span@ == version.span@,
            None => plan.version is None,
        }
        &&& match params {
            Some(params) => plan.params matches Some(held) && held.span@ == params.span@
                && call_ensures(
                ParamTypes::from_rimu,
                (&params.inner,),
                Ok::<ParamTypes, ParamTypesFromRimuError>(held.inner),
            ),
            None => plan.params is None,
        }
        &&& plan.setup@ == setup->0.span@
    }
}

impl Plan {
    /// Reads a plan module from a value of the plan language: an object
    /// with the function `setup`, and where wanted `name`, `version` and
    /// the schema `params`.
    pub fn from_rimu(value: &Value) -> (plan: Result<Plan, PlanFromRimuError>)
        ensures
            match *value {
                Value::Object(entries) => read_plan(entries@, plan),
                _ => plan matches Err(PlanFromRimuError::NotAnObject),
            },
    {
        let entries = match value {
            Value::Object(entries) => entries,
            _ => {
                return Err(PlanFromRimuError::NotAnObject);
            },
        };
        let name = match Value::entry(entries, &String::from_str("name")) {
            Some(found) => match Name::from_rimu(&found.inner) {
                Ok(name) => Some(Spanned { inner: name, span: found.span.duplicate() }),
                Err(error) => {
                    return Err(
                        PlanFromRimuError::Name(
                            Spanned { inner: error, span: found.span.duplicate() },
                        ),
                    );
                },
            },
            None => None,
        };
        let version = match Value::entry(entries, &String::from_str("version")) {
            Some(found) => match Version::from_rimu(&found.inner) {
                Ok(version) => Some(Spanned { inner: version, span: found.span.duplicate() }),
                Err(error) => {
                    return Err(
                        PlanFromRimuError::Version(
                            Spanned { inner: error, span: found.span.duplicate() },
                        ),
                    );
                },
            },
            None => None,
        };
        let params = match Value::entry(entries, &String::from_str("params")) {
            Some(found) => match ParamTypes::from_rimu(&found.inner) {
                Ok(types) => Some(Spanned { inner: types, span: found.span.duplicate() }),
                Err(error) => {
                    return Err(
                        PlanFromRimuError::Params(
                            Spanned { inner: error, span: found.span.duplicate() },
                        ),
                    );
                },
            },
            None => None,
        };
        let setup = match Value::entry(entries, &String::from_str("setup")) {
            Some(found) => match &found.inner {
                Value::Function => found.span.duplicate(),
                _ => {
                    return Err(
                        PlanFromRimuError::SetupNotAFunction(
                            Spanned {
                                inner: SetupFunctionFromRimuError::NotAFunction,
                                span: found.span.duplicate(),
                            },
                        ),
                    );
                },
            },
            None => {
                return Err(PlanFromRimuError::SetupMissing);
            },
        };
        Ok(Plan { name, version, params, setup })
    }
}

} // verus!
