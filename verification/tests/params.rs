use lusid::params::parse::{ParamFieldFromRimuError, ParamTypeFromRimuError, ParamTypesFromRimuError};
use lusid::params::schema::{ParamField, ParamType, ParamTypes, ParamsStruct};
use lusid::params::validate::{
    is_absolute, validate, validate_struct, validate_type, ParamValidationError,
    ParamsValidationError, ValidateValueError,
};
use lusid::params::value::{Span, Spanned, Value};
use lusid::params::values::{
    ParamValue, ParamValueFromRimuError, ParamValues, ParamValuesFromRimuError,
};
use lusid::resource::apt::Apt;
use lusid::resource::command::Command;
use lusid::resource::file::File;
use lusid::resource::git::Git;
use lusid::resource::pacman::Pacman;

fn span() -> Span {
    Span { source: "plans/site/plan.rimu".to_string(), start: 3, end: 7 }
}

fn at<T>(inner: T) -> Spanned<T> {
    Spanned { inner, span: span() }
}

fn text(value: &str) -> Value {
    Value::String(value.to_string())
}

fn object(entries: Vec<(&str, Value)>) -> Value {
    Value::Object(entries.into_iter().map(|(key, value)| (key.to_string(), at(value))).collect())
}

fn list(items: Vec<Value>) -> Value {
    Value::List(items.into_iter().map(at).collect())
}

fn list_of(item: ParamType) -> ParamType {
    ParamType::List { item: Box::new(at(item)) }
}

fn object_of(value: ParamType) -> ParamType {
    ParamType::Object { value: Box::new(at(value)) }
}

fn fields(list: Vec<(&str, ParamType, bool)>) -> ParamsStruct {
    let mut fields = ParamsStruct::new();
    for (name, typ, required) in list {
        let field = if required { ParamField::new(typ) } else { ParamField::new(typ).with_optional() };
        fields.insert(name.to_string(), at(field));
    }
    fields
}

fn accepts(typ: ParamType, value: Value) -> bool {
    validate_type(&at(typ), &at(value)).is_ok()
}

#[test]
fn a_field_is_required_unless_made_optional() {
    let field = ParamField::new(ParamType::String);
    assert!(!*field.optional());
    assert!(matches!(field.typ(), ParamType::String));
    let optional = field.with_optional();
    assert!(*optional.optional());
    assert!(matches!(optional.typ(), ParamType::String));
}

#[test]
fn values_are_equal_part_by_part() {
    assert!(text("a").same_as(&text("a")));
    assert!(!text("a").same_as(&text("b")));
    assert!(!text("1").same_as(&Value::Number("1".to_string())));
    assert!(Value::Null.same_as(&Value::Null));
    assert!(!Value::Function.same_as(&Value::Function));
    assert!(list(vec![text("a"), Value::Boolean(true)]).same_as(&list(vec![text("a"), Value::Boolean(true)])));
    assert!(!list(vec![text("a")]).same_as(&list(vec![text("a"), text("b")])));
    assert!(!list(vec![Value::Function]).same_as(&list(vec![Value::Function])));
    assert!(object(vec![("k", text("v"))]).same_as(&object(vec![("k", text("v"))])));
    assert!(!object(vec![("k", text("v"))]).same_as(&object(vec![("j", text("v"))])));
    let elsewhere = Value::List(vec![Spanned {
        inner: text("a"),
        span: Span { source: "other".to_string(), start: 0, end: 1 },
    }]);
    assert!(!list(vec![text("a")]).same_as(&elsewhere));
    let copy = object(vec![("k", list(vec![text("v")]))]).duplicate();
    assert!(copy.same_as(&object(vec![("k", list(vec![text("v")]))])));
}

#[test]
fn scalars_are_held_against_their_type() {
    assert!(accepts(ParamType::Boolean, Value::Boolean(false)));
    assert!(!accepts(ParamType::Boolean, text("true")));
    assert!(accepts(ParamType::String, text("")));
    assert!(!accepts(ParamType::String, Value::Null));
    assert!(accepts(ParamType::Number, Value::Number("420".to_string())));
    assert!(!accepts(ParamType::Number, text("420")));
    assert!(accepts(ParamType::Literal(text("file")), text("file")));
    assert!(!accepts(ParamType::Literal(text("file")), text("directory")));
    assert!(!accepts(ParamType::Literal(text("file")), Value::Boolean(true)));
}

#[test]
fn a_host_path_is_relative_and_a_target_path_absolute() {
    assert!(is_absolute("/etc/foo"));
    assert!(is_absolute("/"));
    assert!(!is_absolute("etc/foo"));
    assert!(!is_absolute(""));
    assert!(!is_absolute("./a"));
    assert!(accepts(ParamType::TargetPath, text("/etc/foo")));
    assert!(!accepts(ParamType::TargetPath, text("etc/foo")));
    assert!(!accepts(ParamType::TargetPath, Value::Number("1".to_string())));
    assert!(accepts(ParamType::HostPath, text("files/foo")));
    assert!(!accepts(ParamType::HostPath, text("/files/foo")));
    assert!(!accepts(ParamType::HostPath, Value::Null));
}

#[test]
fn the_first_part_that_does_not_fit_is_named() {
    let strings = at(list_of(ParamType::String));
    assert!(validate_type(&strings, &at(list(vec![]))).is_ok());
    assert!(validate_type(&strings, &at(list(vec![text("a"), text("b")]))).is_ok());
    match validate_type(&strings, &at(list(vec![text("a"), Value::Null, Value::Boolean(true)]))) {
        Err(ValidateValueError::ListItem { index, error }) => {
            assert_eq!(index, 1);
            assert!(matches!(*error, ValidateValueError::TypeMismatch { .. }));
        }
        other => panic!("unexpected result {:?}", other),
    }
    assert!(matches!(
        validate_type(&strings, &at(text("a"))),
        Err(ValidateValueError::TypeMismatch { .. })
    ));
    let numbers = at(object_of(list_of(ParamType::Number)));
    let good = object(vec![("a", list(vec![Value::Number("1".to_string())])), ("b", list(vec![]))]);
    assert!(validate_type(&numbers, &at(good)).is_ok());
    let bad = object(vec![("a", list(vec![])), ("b", list(vec![Value::Number("1".to_string()), text("x")]))]);
    match validate_type(&numbers, &at(bad)) {
        Err(ValidateValueError::ObjectEntry { key, error }) => {
            assert_eq!(key, "b");
            assert!(matches!(*error, ValidateValueError::ListItem { index: 1, .. }));
        }
        other => panic!("unexpected result {:?}", other),
    }
}

fn entries(value: Value) -> Vec<(String, Spanned<Value>)> {
    match value {
        Value::Object(entries) => entries,
        _ => panic!("expected an object"),
    }
}

#[test]
fn every_misfit_of_a_struct_is_reported() {
    let schema = fields(vec![
        ("name", ParamType::String, true),
        ("count", ParamType::Number, false),
        ("path", ParamType::TargetPath, true),
    ]);
    let good = entries(object(vec![("path", text("/a")), ("name", text("n"))]));
    assert!(validate_struct(&schema, &good).is_ok());
    let bad = entries(object(vec![
        ("count", text("many")),
        ("extra", Value::Null),
        ("path", text("relative")),
        ("other", Value::Null),
    ]));
    let error = validate_struct(&schema, &bad).unwrap_err();
    let shown: Vec<String> = error
        .errors
        .iter()
        .map(|error| match error {
            ParamValidationError::MissingParam { key, .. } => format!("missing {}", key),
            ParamValidationError::UnknownParam { key, .. } => format!("unknown {}", key),
            ParamValidationError::InvalidParam { key, .. } => format!("invalid {}", key),
        })
        .collect();
    assert_eq!(
        shown,
        vec!["missing name", "invalid count", "invalid path", "unknown extra", "unknown other"]
    );
}

#[test]
fn values_and_schema_come_together_or_not_at_all() {
    let schema = at(ParamTypes::Struct(fields(vec![("name", ParamType::String, true)])));
    let values = at(object(vec![("name", text("n"))]));
    assert!(matches!(validate(None, None), Ok(None)));
    assert!(matches!(validate(Some(&schema), None), Err(ParamsValidationError::TypesWithoutValues)));
    assert!(matches!(validate(None, Some(&values)), Err(ParamsValidationError::ValuesWithoutTypes)));
    assert!(matches!(
        validate(Some(&schema), Some(&at(text("n")))),
        Err(ParamsValidationError::ValuesNotAnObject)
    ));
    let found = validate(Some(&schema), Some(&values)).unwrap().unwrap();
    assert_eq!(found.len(), 1);
    assert!(found.contains_key("name"));
    match validate(Some(&schema), Some(&at(object(vec![])))) {
        Err(ParamsValidationError::Struct(error)) => assert_eq!(error.errors.len(), 1),
        other => panic!("unexpected result {:?}", other),
    }
}

#[test]
fn the_first_case_of_a_union_that_fits_is_taken() {
    let union = at(ParamTypes::Union(vec![
        fields(vec![("package", ParamType::String, true)]),
        fields(vec![("packages", list_of(ParamType::String), true)]),
        fields(vec![("packages", list_of(ParamType::String), true), ("extra", ParamType::String, false)]),
    ]));
    let one = at(object(vec![("package", text("git"))]));
    assert!(validate(Some(&union), Some(&one)).unwrap().unwrap().contains_key("package"));
    let many = at(object(vec![("packages", list(vec![text("git")]))]));
    let found = validate(Some(&union), Some(&many)).unwrap().unwrap();
    assert_eq!(found.len(), 1);
    let none = at(object(vec![("packages", text("git"))]));
    match validate(Some(&union), Some(&none)) {
        Err(ParamsValidationError::Union { case_errors }) => {
            assert_eq!(case_errors.len(), 3);
            assert_eq!(case_errors[0].errors.len(), 2);
            assert_eq!(case_errors[1].errors.len(), 1);
        }
        other => panic!("unexpected result {:?}", other),
    }
    let empty = at(ParamTypes::Union(vec![]));
    assert!(matches!(validate(Some(&empty), Some(&one)), Err(ParamsValidationError::EmptyUnion)));
}

fn shape(fields: &ParamsStruct) -> Vec<String> {
    fields
        .iter()
        .map(|(name, field)| {
            format!(
                "{}{}: {:?}",
                name,
                if *field.inner.optional() { "?" } else { "" },
                field.inner.typ()
            )
        })
        .collect()
}

fn cases(types: ParamTypes) -> Vec<Vec<String>> {
    match types {
        ParamTypes::Struct(fields) => vec![shape(&fields)],
        ParamTypes::Union(cases) => cases.iter().map(shape).collect(),
    }
}

#[test]
fn the_kinds_of_resources_have_their_schemas() {
    assert_eq!(
        cases(Apt::param_types()),
        vec![
            vec!["package: String".to_string()],
            vec![format!("packages: {:?}", list_of(ParamType::String)).replace(
                &format!("{:?}", span()),
                &format!("{:?}", Span { source: String::new(), start: 0, end: 0 })
            )],
        ]
    );
    assert_eq!(cases(Pacman::param_types()), cases(Apt::param_types()));
    assert_eq!(
        cases(Git::param_types()),
        vec![vec![
            "repo: String".to_string(),
            "path: TargetPath".to_string(),
            "version?: String".to_string(),
            "update?: Boolean".to_string(),
            "force?: Boolean".to_string(),
        ]]
    );
    let command = cases(Command::param_types());
    assert_eq!(
        command,
        vec![
            vec!["status: String", "is_installed?: String", "install: String", "uninstall?: String"],
            vec!["status: String", "is_installed?: String", "uninstall: String", "install?: String"],
        ]
    );
    let file = cases(File::param_types());
    assert_eq!(file.len(), 5);
    let literal = |name: &str| format!("type: {:?}", ParamType::Literal(text(name)));
    assert_eq!(
        file[0],
        vec![
            literal("source"),
            "source: HostPath".to_string(),
            "path: TargetPath".to_string(),
            "mode?: Number".to_string(),
            "user?: String".to_string(),
            "group?: String".to_string(),
        ]
    );
    assert_eq!(file[1][0], literal("file"));
    assert_eq!(file[1].len(), 5);
    assert_eq!(file[2], vec![literal("file-absent"), "path: TargetPath".to_string()]);
    assert_eq!(file[3][0], literal("directory"));
    assert_eq!(file[4], vec![literal("directory-absent"), "path: TargetPath".to_string()]);
}

#[test]
fn a_file_plan_item_fits_the_schema_of_files() {
    let types = at(File::param_types());
    let good = at(object(vec![
        ("type", text("file")),
        ("path", text("/etc/foo")),
        ("mode", Value::Number("420".to_string())),
        ("user", text("root")),
    ]));
    let found = validate(Some(&types), Some(&good)).unwrap().unwrap();
    assert_eq!(found.len(), 5);
    let relative = at(object(vec![("type", text("file")), ("path", text("etc/foo"))]));
    assert!(matches!(
        validate(Some(&types), Some(&relative)),
        Err(ParamsValidationError::Union { .. })
    ));
    let unknown_key = at(object(vec![
        ("type", text("file-absent")),
        ("path", text("/etc/foo")),
        ("mode", Value::Number("420".to_string())),
    ]));
    assert!(validate(Some(&types), Some(&unknown_key)).is_err());
}

fn taken(value: Value, typ: ParamType) -> Result<ParamValue, ParamValueFromRimuError> {
    match ParamValue::from_rimu_spanned(&at(value), &typ) {
        Ok(value) => {
            assert_eq!(format!("{:?}", value.span), format!("{:?}", span()));
            Ok(value.inner)
        }
        Err(error) => {
            assert_eq!(format!("{:?}", error.span), format!("{:?}", span()));
            Err(error.inner)
        }
    }
}

#[test]
fn values_are_taken_in_under_their_type() {
    assert!(matches!(taken(Value::Boolean(true), ParamType::Boolean), Ok(ParamValue::Boolean(true))));
    assert!(matches!(taken(text("a"), ParamType::String), Ok(ParamValue::String(held)) if held == "a"));
    assert!(matches!(
        taken(Value::Number("7".to_string()), ParamType::Number),
        Ok(ParamValue::Number(held)) if held == "7"
    ));
    assert!(matches!(
        taken(text("/etc/foo"), ParamType::TargetPath),
        Ok(ParamValue::TargetPath(held)) if held == "/etc/foo"
    ));
    assert!(matches!(
        taken(text("file"), ParamType::Literal(text("file"))),
        Ok(ParamValue::Literal(Value::String(held))) if held == "file"
    ));
    assert!(matches!(
        taken(text("dir"), ParamType::Literal(text("file"))),
        Err(ParamValueFromRimuError::LiteralNotEqual { .. })
    ));
    assert!(matches!(
        taken(text("a"), ParamType::Boolean),
        Err(ParamValueFromRimuError::UnexpectedParamTypeValueCase { .. })
    ));
    match taken(list(vec![text("a"), text("b")]), list_of(ParamType::String)) {
        Ok(ParamValue::List(items)) => {
            assert_eq!(items.len(), 2);
            assert!(matches!(&items[1].inner, ParamValue::String(held) if held == "b"));
        }
        other => panic!("unexpected result {:?}", other),
    }
    match taken(list(vec![text("a"), Value::Null]), list_of(ParamType::String)) {
        Err(ParamValueFromRimuError::List { index, .. }) => assert_eq!(index, 1),
        other => panic!("unexpected result {:?}", other),
    }
    match taken(object(vec![("k", Value::Null)]), object_of(ParamType::String)) {
        Err(ParamValueFromRimuError::Object { key, .. }) => assert_eq!(key, "k"),
        other => panic!("unexpected result {:?}", other),
    }
}

#[test]
fn a_host_path_is_resolved_against_its_source() {
    match taken(text("files/foo"), ParamType::HostPath) {
        Ok(ParamValue::HostPath(path)) => assert_eq!(path, "plans/site/files/foo"),
        other => panic!("unexpected result {:?}", other),
    }
    let rootless = Spanned {
        inner: text("files/foo"),
        span: Span { source: String::new(), start: 0, end: 0 },
    };
    match ParamValue::from_rimu_spanned(&rootless, &ParamType::HostPath) {
        Err(error) => assert!(matches!(
            error.inner,
            ParamValueFromRimuError::HostPathSourceNeedsParent { .. }
        )),
        other => panic!("unexpected result {:?}", other),
    }
}

#[test]
fn the_values_of_a_plan_are_taken_in_under_a_schema() {
    let schema = fields(vec![
        ("name", ParamType::String, true),
        ("count", ParamType::Number, false),
        ("tags", list_of(ParamType::String), false),
    ]);
    let values = at(object(vec![
        ("count", Value::Null),
        ("tags", list(vec![text("a")])),
        ("name", text("n")),
    ]));
    let taken = ParamValues::from_rimu_spanned(&values, &schema).unwrap().inner;
    assert_eq!(taken.0.len(), 2);
    assert_eq!(taken.0[0].0, "tags");
    assert!(taken.get("count").is_none());
    assert!(matches!(&taken.get("name").unwrap().inner, ParamValue::String(held) if held == "n"));
    assert!(taken.into_rimu().same_as(&object(vec![("tags", list(vec![text("a")])), ("name", text("n"))])));
    let unknown = at(object(vec![("name", text("n")), ("other", text("x"))]));
    match ParamValues::from_rimu_spanned(&unknown, &schema) {
        Err(error) => {
            assert!(matches!(error.inner, ParamValuesFromRimuError::ParamMissing { key } if key == "other"))
        }
        other => panic!("unexpected result {:?}", other),
    }
    let wrong = at(object(vec![("name", Value::Null)]));
    match ParamValues::from_rimu_spanned(&wrong, &schema) {
        Err(error) => {
            assert!(matches!(error.inner, ParamValuesFromRimuError::Param { key, .. } if key == "name"))
        }
        other => panic!("unexpected result {:?}", other),
    }
    assert!(matches!(
        ParamValues::from_rimu_spanned(&at(text("x")), &schema),
        Err(Spanned { inner: ParamValuesFromRimuError::NotAnObject, .. })
    ));
}

#[test]
fn paths_become_text_again() {
    let path = ParamValue::HostPath("a/b".to_string()).into_rimu();
    assert!(path.same_as(&text("a/b")));
    let nested = ParamValue::List(vec![at(ParamValue::TargetPath("/x".to_string())), at(ParamValue::Boolean(true))]);
    assert!(nested.into_rimu().same_as(&list(vec![text("/x"), Value::Boolean(true)])));
}

#[test]
fn a_type_is_read_from_a_value() {
    let typ = |name: &str| object(vec![("type", text(name))]);
    assert!(matches!(ParamType::from_rimu(&typ("boolean")), Ok(ParamType::Boolean)));
    assert!(matches!(ParamType::from_rimu(&typ("string")), Ok(ParamType::String)));
    assert!(matches!(ParamType::from_rimu(&typ("number")), Ok(ParamType::Number)));
    assert!(matches!(ParamType::from_rimu(&typ("host-path")), Ok(ParamType::HostPath)));
    assert!(matches!(ParamType::from_rimu(&typ("target-path")), Ok(ParamType::TargetPath)));
    match ParamType::from_rimu(&object(vec![("type", text("list")), ("item", typ("string"))])) {
        Ok(ParamType::List { item }) => assert!(matches!(item.inner, ParamType::String)),
        other => panic!("unexpected result {:?}", other),
    }
    match ParamType::from_rimu(&object(vec![
        ("value", object(vec![("item", typ("number")), ("type", text("list"))])),
        ("type", text("object")),
    ])) {
        Ok(ParamType::Object { value }) => assert!(matches!(value.inner, ParamType::List { .. })),
        other => panic!("unexpected result {:?}", other),
    }
    assert!(matches!(ParamType::from_rimu(&text("string")), Err(ParamTypeFromRimuError::NotAnObject)));
    assert!(matches!(ParamType::from_rimu(&object(vec![])), Err(ParamTypeFromRimuError::HasNoType)));
    assert!(matches!(
        ParamType::from_rimu(&object(vec![("type", Value::Null)])),
        Err(ParamTypeFromRimuError::TypeNotAString { .. })
    ));
    assert!(matches!(
        ParamType::from_rimu(&typ("float")),
        Err(ParamTypeFromRimuError::UnknownType(name)) if name == "float"
    ));
    assert!(matches!(ParamType::from_rimu(&typ("list")), Err(ParamTypeFromRimuError::ListMissingItem)));
    assert!(matches!(ParamType::from_rimu(&typ("object")), Err(ParamTypeFromRimuError::ObjectMissingValue)));
    assert!(matches!(
        ParamType::from_rimu(&object(vec![("type", text("list")), ("item", typ("what"))])),
        Err(ParamTypeFromRimuError::ListItem(_))
    ));
    assert!(matches!(
        ParamType::from_rimu(&object(vec![("type", text("object")), ("value", text("x"))])),
        Err(ParamTypeFromRimuError::ObjectValue(_))
    ));
}

#[test]
fn a_field_and_a_schema_are_read_from_values() {
    let field = ParamField::from_rimu(&object(vec![("type", text("string")), ("optional", Value::Boolean(true))]))
        .unwrap();
    assert!(*field.optional());
    let field = ParamField::from_rimu(&object(vec![("type", text("string"))])).unwrap();
    assert!(!*field.optional());
    assert!(matches!(ParamField::from_rimu(&text("x")), Err(ParamFieldFromRimuError::NotAnObject)));
    assert!(matches!(
        ParamField::from_rimu(&object(vec![("type", text("string")), ("optional", text("yes"))])),
        Err(ParamFieldFromRimuError::OptionalNotABoolean { .. })
    ));
    assert!(matches!(
        ParamField::from_rimu(&object(vec![("optional", Value::Boolean(true))])),
        Err(ParamFieldFromRimuError::FieldType(ParamTypeFromRimuError::HasNoType))
    ));
    let string = || object(vec![("type", text("string"))]);
    match ParamTypes::from_rimu(&object(vec![("b", string()), ("a", string())])) {
        Ok(ParamTypes::Struct(fields)) => {
            assert_eq!(fields.keys().collect::<Vec<_>>(), vec!["b", "a"]);
        }
        other => panic!("unexpected result {:?}", other),
    }
    match ParamTypes::from_rimu(&list(vec![object(vec![("a", string())]), object(vec![])])) {
        Ok(ParamTypes::Union(cases)) => {
            assert_eq!(cases.len(), 2);
            assert_eq!(cases[0].len(), 1);
            assert_eq!(cases[1].len(), 0);
        }
        other => panic!("unexpected result {:?}", other),
    }
    assert!(matches!(ParamTypes::from_rimu(&text("x")), Err(ParamTypesFromRimuError::NotAnObjectOrList)));
    assert!(matches!(
        ParamTypes::from_rimu(&object(vec![("a", string()), ("b", text("x"))])),
        Err(ParamTypesFromRimuError::StructEntry { key, .. }) if key == "b"
    ));
    assert!(matches!(
        ParamTypes::from_rimu(&list(vec![object(vec![]), text("x")])),
        Err(ParamTypesFromRimuError::UnionItemNotAnObject { index: 1, .. })
    ));
    assert!(matches!(
        ParamTypes::from_rimu(&list(vec![object(vec![("a", text("x"))])])),
        Err(ParamTypesFromRimuError::UnionItemEntry { index: 0, key, .. }) if key == "a"
    ));
}

#[test]
fn a_mismatch_carries_the_type_and_the_value() {
    let typ = Spanned {
        inner: list_of(ParamType::Number),
        span: Span { source: "schema".to_string(), start: 1, end: 2 },
    };
    let value = Spanned {
        inner: text("seven"),
        span: Span { source: "values".to_string(), start: 5, end: 9 },
    };
    match validate_type(&typ, &value) {
        Err(ValidateValueError::TypeMismatch { expected_type, got_value }) => {
            assert_eq!(format!("{:?}", expected_type.inner), format!("{:?}", list_of(ParamType::Number)));
            assert_eq!(format!("{:?}", expected_type.span), format!("{:?}", typ.span));
            assert!(got_value.inner.same_as(&text("seven")));
            assert_eq!(format!("{:?}", got_value.span), format!("{:?}", value.span));
        }
        other => panic!("unexpected result {:?}", other),
    }
    match validate_type(&at(ParamType::Literal(text("file"))), &at(Value::Boolean(true))) {
        Err(ValidateValueError::TypeMismatch { expected_type, got_value }) => {
            assert!(matches!(&expected_type.inner, ParamType::Literal(Value::String(held)) if held == "file"));
            assert!(matches!(got_value.inner, Value::Boolean(true)));
        }
        other => panic!("unexpected result {:?}", other),
    }
}
