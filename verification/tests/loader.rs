use schema_resolver::{
    load_schema, resolve, Document, GrammarError, GrammarReason, Primitive, ResolveOptions,
    ResolvedClass, ResolvedEnum, ResolvedField, ResolvedProperty, Schema, TypeDef, TypeSpec,
    TypeSpecWithMeta,
};

fn s(text: &str) -> String {
    text.to_string()
}

fn to_document(value: &serde_json::Value) -> Document {
    match value {
        serde_json::Value::Null => Document::Null,
        serde_json::Value::Bool(b) => Document::Bool(*b),
        serde_json::Value::Number(n) => Document::Number(n.to_string()),
        serde_json::Value::String(t) => Document::Text(t.clone()),
        serde_json::Value::Array(items) => Document::List(items.iter().map(to_document).collect()),
        serde_json::Value::Object(entries) => {
            Document::Object(entries.iter().map(|(k, v)| (k.clone(), to_document(v))).collect())
        }
    }
}

fn load(json: &str) -> Result<Schema, GrammarError> {
    let value: serde_json::Value = serde_json::from_str(json).unwrap();
    load_schema(&to_document(&value))
}

fn fault(json: &str) -> (String, GrammarReason) {
    let e = load(json).unwrap_err();
    (e.path, e.reason)
}

fn field(name: &str, field: ResolvedField, optional: bool) -> ResolvedProperty {
    ResolvedProperty { name: s(name), field, optional }
}

fn text_field(name: &str) -> ResolvedProperty {
    field(name, ResolvedField::Primitive(Primitive::String), false)
}

const USER: &str = r##"{
  "$defs": {
    "Role": {
      "enum": ["admin", "user", "guest"],
      "title": "Role",
      "type": "string"
    },
    "__main____Address": {
      "properties": {
        "street": {"title": "Street", "type": "string"},
        "city": {"title": "City", "type": "string"},
        "postal_code": {"title": "Postal Code", "type": "string"}
      },
      "required": ["street", "city", "postal_code"],
      "title": "Address",
      "type": "object"
    },
    "other_demo__Address": {
      "properties": {
        "street": {"title": "Street", "type": "string"},
        "city": {"title": "City", "type": "string"},
        "postal_code": {"title": "Postal Code", "type": "string"}
      },
      "required": ["street", "city", "postal_code"],
      "title": "Address",
      "type": "object"
    },
    "zebra__Address": {
      "properties": {
        "street": {"title": "Street", "type": "string"},
        "city": {"title": "City", "type": "string"},
        "postal_code": {"title": "Postal Code", "type": "string"},
        "continent": {"title": "Continent", "type": "string"}
      },
      "required": ["street", "city", "postal_code", "continent"],
      "title": "Address",
      "type": "object"
    }
  },
  "properties": {
    "name": {"title": "Name", "type": "string"},
    "age": {"title": "Age", "type": "integer"},
    "roles": {
      "items": {"$ref": "#/$defs/Role"},
      "title": "Roles",
      "type": "array"
    },
    "primary_address": {"$ref": "#/$defs/__main____Address"},
    "secondary_addresses": {
      "items": {"$ref": "#/$defs/other_demo__Address"},
      "title": "Secondary Addresses",
      "type": "array"
    },
    "zebra_addresses": {
      "items": {"$ref": "#/$defs/zebra__Address"},
      "title": "Zebra Addresses",
      "type": "array"
    },
    "tertiary_address": {
      "anyOf": [
        {"$ref": "#/$defs/other_demo__Address"},
        {"items": {"$ref": "#/$defs/other_demo__Address"}, "type": "array"}
      ],
      "title": "Tertiary Addresses"
    },
    "gpa": {"title": "Gpa", "type": "number"},
    "alive": {"title": "Alive", "type": "boolean"},
    "nope": {"title": "Nope", "type": "null"}
  },
  "required": [
    "name",
    "age",
    "roles",
    "primary_address",
    "secondary_addresses",
    "zebra_addresses"
  ],
  "title": "User",
  "type": "object"
}"##;

#[test]
fn test_create_output_format() {
    let schema = load(USER).unwrap();
    println!("{:#?}", schema);
    let keys: Vec<&str> = schema.defs().iter().map(|d| d.0.as_str()).collect();
    assert_eq!(keys, vec!["Role", "__main____Address", "other_demo__Address", "zebra__Address"]);
    assert_eq!(schema.properties().len(), 10);
    assert_eq!(schema.required().len(), 6);
}

#[test]
fn the_user_schema_resolves() {
    let schema = load(USER).unwrap();
    let model = resolve(&schema, &ResolveOptions::default()).unwrap();
    assert_eq!(
        model.enums,
        vec![ResolvedEnum { name: s("Role"), values: vec![s("admin"), s("user"), s("guest")] }]
    );
    let three = || vec![text_field("street"), text_field("city"), text_field("postal_code")];
    let mut four = three();
    four.push(text_field("continent"));
    assert_eq!(
        model.classes,
        vec![
            ResolvedClass { name: s("Address"), fields: three() },
            ResolvedClass { name: s("Address_other_demo"), fields: three() },
            ResolvedClass { name: s("Address_zebra"), fields: four },
        ]
    );
    let list = |f: ResolvedField| ResolvedField::List(Box::new(f));
    let class = |n: &str| ResolvedField::Class(s(n));
    assert_eq!(
        model.fields,
        vec![
            field("name", ResolvedField::Primitive(Primitive::String), false),
            field("age", ResolvedField::Primitive(Primitive::Int), false),
            field("roles", list(ResolvedField::Enum(s("Role"))), false),
            field("primary_address", class("Address"), false),
            field("secondary_addresses", list(class("Address_other_demo")), false),
            field("zebra_addresses", list(class("Address_zebra")), false),
            field(
                "tertiary_address",
                ResolvedField::Union(vec![
                    class("Address_other_demo"),
                    list(class("Address_other_demo")),
                ]),
                true
            ),
            field("gpa", ResolvedField::Primitive(Primitive::Float), true),
            field("alive", ResolvedField::Primitive(Primitive::Bool), true),
            field("nope", ResolvedField::Primitive(Primitive::Null), true),
        ]
    );
}

#[test]
fn a_document_built_by_hand_loads() {
    let entry = |k: &str, v: Document| (s(k), v);
    let text = |t: &str| Document::Text(s(t));
    let doc = Document::Object(vec![
        entry("type", text("object")),
        entry(
            "$defs",
            Document::Object(vec![
                entry("b", Document::Object(vec![entry("type", text("integer"))])),
                entry("a", Document::Object(vec![entry("type", text("boolean"))])),
                entry("b", Document::Object(vec![entry("type", text("null"))])),
            ]),
        ),
        entry(
            "properties",
            Document::Object(vec![entry(
                "x",
                Document::Object(vec![
                    entry("description", Document::Number(s("1.5"))),
                    entry("$ref", text("#/$defs/a")),
                ]),
            )]),
        ),
        entry("required", Document::List(vec![text("x")])),
    ]);
    let schema = load_schema(&doc).unwrap();
    assert_eq!(schema.defs(), &vec![(s("a"), TypeDef::Bool), (s("b"), TypeDef::Null)]);
    assert_eq!(schema.properties(), &vec![(s("x"), TypeSpecWithMeta::reference("a"))]);
    assert_eq!(schema.required(), &vec![s("x")]);
}

#[test]
fn a_union_of_one_stays_a_union() {
    let schema = load(
        r##"{"type": "object", "$defs": {},
             "properties": {"x": {"anyOf": [{"type": "string", "enum": ["a"]}]}}}"##,
    )
    .unwrap();
    match &schema.properties()[0].1.type_spec {
        TypeSpec::Union(u) => {
            assert_eq!(u.any_of, vec![TypeSpecWithMeta::inline(TypeDef::enumeration(vec![s("a")]))])
        }
        other => panic!("not a union: {:?}", other),
    }
}

#[test]
fn a_property_without_a_type_is_refused() {
    let e = load(r##"{"type": "object", "$defs": {}, "properties": {"age": {"title": "Age"}}}"##)
        .unwrap_err();
    assert_eq!(e, GrammarError { path: s("properties.age.type"), reason: GrammarReason::MissingField });
    assert_eq!(e.message(), "properties.age.type: missing field");
}

#[test]
fn an_unknown_tag_is_refused() {
    assert_eq!(
        fault(r##"{"type": "object", "$defs": {"T": {"type": "tuple"}}}"##),
        (s("$defs.T.type"), GrammarReason::UnknownTypeTag)
    );
    assert_eq!(
        fault(r##"{"type": "object", "$defs": {}, "properties": {"x": {"type": "String"}}}"##),
        (s("properties.x.type"), GrammarReason::UnknownTypeTag)
    );
}

#[test]
fn wrong_shapes_are_refused() {
    let shape = GrammarReason::UnexpectedShape;
    assert_eq!(fault(r##"[1, 2]"##), (s(""), shape));
    assert_eq!(fault(r##"{"type": "array", "$defs": {}}"##), (s("type"), shape));
    assert_eq!(fault(r##"{"type": 1, "$defs": {}}"##), (s("type"), shape));
    assert_eq!(fault(r##"{"type": "object", "$defs": []}"##), (s("$defs"), shape));
    assert_eq!(fault(r##"{"type": "object", "$defs": {"A": 3}}"##), (s("$defs.A"), shape));
    assert_eq!(
        fault(r##"{"type": "object", "$defs": {}, "properties": []}"##),
        (s("properties"), shape)
    );
    assert_eq!(
        fault(r##"{"type": "object", "$defs": {}, "required": "name"}"##),
        (s("required"), shape)
    );
    assert_eq!(
        fault(r##"{"type": "object", "$defs": {}, "required": ["a", null]}"##),
        (s("required.1"), shape)
    );
    assert_eq!(
        fault(r##"{"type": "object", "$defs": {"Role": {"type": "string", "enum": ["a", "b", 3]}}}"##),
        (s("$defs.Role.enum.2"), shape)
    );
    assert_eq!(
        fault(r##"{"type": "object", "$defs": {}, "properties": {"x": {"$ref": 5}}}"##),
        (s("properties.x.$ref"), shape)
    );
    assert_eq!(
        fault(r##"{"type": "object", "$defs": {}, "properties": {"x": {"$ref": "Role"}}}"##),
        (s("properties.x.$ref"), shape)
    );
    assert_eq!(
        fault(r##"{"type": "object", "$defs": {}, "properties": {"x": {"anyOf": []}}}"##),
        (s("properties.x.anyOf"), shape)
    );
    assert_eq!(
        fault(r##"{"type": "object", "$defs": {}, "properties": {"x": {"anyOf": {}}}}"##),
        (s("properties.x.anyOf"), shape)
    );
    assert_eq!(
        fault(r##"{"type": "object", "$defs": {}, "properties": {"x": {"type": ["string"]}}}"##),
        (s("properties.x.type"), shape)
    );
}

#[test]
fn missing_entries_are_refused() {
    let missing = GrammarReason::MissingField;
    assert_eq!(fault(r##"{"$defs": {}}"##), (s("type"), missing));
    assert_eq!(fault(r##"{"type": "object"}"##), (s("$defs"), missing));
    assert_eq!(
        fault(r##"{"type": "object", "$defs": {"L": {"type": "array"}}}"##),
        (s("$defs.L.items"), missing)
    );
    assert_eq!(
        fault(
            r##"{"type": "object", "$defs": {},
                 "properties": {"x": {"anyOf": [{"type": "null"}, {"items": {}, "type": "array"}]}}}"##
        ),
        (s("properties.x.anyOf.1.items.type"), missing)
    );
    assert_eq!(
        fault(
            r##"{"type": "object",
                 "$defs": {"C": {"type": "object", "properties": {"p": {"type": "object",
                     "properties": {"q": {}}}}}}}"##
        ),
        (s("$defs.C.properties.p.properties.q.type"), missing)
    );
}

#[test]
fn a_reference_wins_over_a_type_and_a_type_over_a_union() {
    let schema = load(
        r##"{"type": "object", "$defs": {},
             "properties": {
               "a": {"anyOf": [], "type": "integer", "$ref": "#/$defs/X"},
               "b": {"anyOf": [], "type": "integer"}}}"##,
    )
    .unwrap();
    assert_eq!(
        schema.properties(),
        &vec![
            (s("a"), TypeSpecWithMeta::reference("X")),
            (s("b"), TypeSpecWithMeta::inline(TypeDef::Int)),
        ]
    );
}

#[test]
fn a_string_is_an_enum_only_with_a_list_of_values() {
    let schema = load(
        r##"{"type": "object",
             "$defs": {"A": {"type": "string"},
                       "B": {"type": "string", "enum": null},
                       "C": {"type": "string", "enum": []},
                       "D": {"type": "string", "enum": ["x", "y", "x"]}}}"##,
    )
    .unwrap();
    assert_eq!(
        schema.defs(),
        &vec![
            (s("A"), TypeDef::string()),
            (s("B"), TypeDef::string()),
            (s("C"), TypeDef::enumeration(vec![])),
            (s("D"), TypeDef::enumeration(vec![s("x"), s("y"), s("x")])),
        ]
    );
    assert_eq!(
        fault(r##"{"type": "object", "$defs": {"E": {"type": "string", "enum": "x"}}}"##),
        (s("$defs.E.enum"), GrammarReason::UnexpectedShape)
    );
}

#[test]
fn the_same_document_gives_the_same_names_again() {
    let json = r##"{"type": "object",
        "$defs": {
          "c__Address": {"type": "object", "properties": {"street": {"type": "string"}}},
          "a__Address": {"type": "object", "properties": {"street": {"type": "string"}}},
          "b__Address": {"type": "object", "properties": {"street": {"type": "string"}}}},
        "properties": {"home": {"$ref": "#/$defs/c__Address"}}}"##;
    let names = |json: &str| -> Vec<String> {
        let model = resolve(&load(json).unwrap(), &ResolveOptions::default()).unwrap();
        model.classes.iter().map(|c| c.name.clone()).collect()
    };
    let first = names(json);
    assert_eq!(first, vec![s("Address"), s("Address_b"), s("Address_c")]);
    assert_eq!(names(json), first);
    let model = resolve(&load(json).unwrap(), &ResolveOptions::default()).unwrap();
    assert_eq!(model.fields, vec![field("home", ResolvedField::Class(s("Address_c")), true)]);
}
