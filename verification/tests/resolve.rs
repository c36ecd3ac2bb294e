use schema_resolver::{
    resolve, OutputModel, Primitive, ResolveError, ResolveOptions, ResolvedClass, ResolvedEnum,
    ResolvedField, ResolvedProperty, Schema, TypeDef, TypeSpec, TypeSpecWithMeta,
};

fn s(text: &str) -> String {
    text.to_string()
}

fn string_prop(name: &str) -> (String, TypeSpecWithMeta) {
    (s(name), TypeSpecWithMeta::inline(TypeDef::string()))
}

fn address() -> TypeDef {
    TypeDef::class(
        vec![string_prop("street"), string_prop("city"), string_prop("postal_code")],
        vec![s("street"), s("city")],
    )
}

fn options() -> ResolveOptions {
    ResolveOptions { max_depth: 16 }
}

fn field(name: &str, field: ResolvedField, optional: bool) -> ResolvedProperty {
    ResolvedProperty { name: s(name), field, optional }
}

fn class_named<'a>(model: &'a OutputModel, name: &str) -> &'a ResolvedClass {
    let found: Vec<&ResolvedClass> = model.classes.iter().filter(|c| c.name == name).collect();
    assert_eq!(found.len(), 1, "classes named {}", name);
    found[0]
}

fn all_names(model: &OutputModel) -> Vec<String> {
    let mut names: Vec<String> = model.enums.iter().map(|e| e.name.clone()).collect();
    names.extend(model.classes.iter().map(|c| c.name.clone()));
    names
}

fn closed(field: &ResolvedField, model: &OutputModel) -> bool {
    match field {
        ResolvedField::Primitive(_) => true,
        ResolvedField::Enum(n) => model.enums.iter().filter(|e| &e.name == n).count() == 1,
        ResolvedField::Class(n) => model.classes.iter().filter(|c| &c.name == n).count() == 1,
        ResolvedField::List(f) => closed(f, model),
        ResolvedField::Union(fs) => !fs.is_empty() && fs.iter().all(|f| closed(f, model)),
    }
}

fn well_formed(model: &OutputModel) -> bool {
    let names = all_names(model);
    let unique = names.iter().all(|n| names.iter().filter(|m| *m == n).count() == 1);
    let fields = model.fields.iter().all(|p| closed(&p.field, model));
    let classes = model.classes.iter().all(|c| c.fields.iter().all(|p| closed(&p.field, model)));
    unique && fields && classes
}

#[test]
fn optionality_follows_the_required_set() {
    let schema = Schema::new().with_def(s("Address"), address());
    let model = resolve(&schema, &options()).unwrap();
    assert_eq!(
        model.classes,
        vec![ResolvedClass {
            name: s("Address"),
            fields: vec![
                field("street", ResolvedField::Primitive(Primitive::String), false),
                field("city", ResolvedField::Primitive(Primitive::String), false),
                field("postal_code", ResolvedField::Primitive(Primitive::String), true),
            ],
        }]
    );
    assert!(model.enums.is_empty());
    assert!(model.fields.is_empty());
}

#[test]
fn colliding_display_names_are_told_apart() {
    let schema = Schema::new()
        .with_def(s("c__Address"), address())
        .with_def(s("a__Address"), address())
        .with_def(s("b__Address"), address());
    let first = resolve(&schema, &options()).unwrap();
    let names: Vec<String> = first.classes.iter().map(|c| c.name.clone()).collect();
    assert_eq!(names, vec![s("Address"), s("Address_b"), s("Address_c")]);
    let second = resolve(&schema, &options()).unwrap();
    assert_eq!(first, second);
}

#[test]
fn a_class_may_refer_to_itself() {
    let node = TypeDef::class(
        vec![
            (s("next"), TypeSpecWithMeta::reference("Node")),
            (
                s("children"),
                TypeSpecWithMeta::inline(TypeDef::array(TypeSpecWithMeta::reference("Node"))),
            ),
        ],
        vec![],
    );
    let schema = Schema::new().with_def(s("Node"), node);
    let model = resolve(&schema, &options()).unwrap();
    assert_eq!(
        model.classes,
        vec![ResolvedClass {
            name: s("Node"),
            fields: vec![
                field("next", ResolvedField::Class(s("Node")), true),
                field(
                    "children",
                    ResolvedField::List(Box::new(ResolvedField::Class(s("Node")))),
                    true
                ),
            ],
        }]
    );
    assert!(well_formed(&model));
}

#[test]
fn classes_may_refer_to_each_other() {
    let a = TypeDef::class(vec![(s("b"), TypeSpecWithMeta::reference("B"))], vec![s("b")]);
    let b = TypeDef::class(vec![(s("a"), TypeSpecWithMeta::reference("A"))], vec![]);
    let schema = Schema::new()
        .with_def(s("A"), a)
        .with_def(s("B"), b)
        .with_property(s("root"), TypeSpecWithMeta::reference("B"));
    let model = resolve(&schema, &options()).unwrap();
    assert_eq!(
        model.classes,
        vec![
            ResolvedClass {
                name: s("B"),
                fields: vec![field("a", ResolvedField::Class(s("A")), true)],
            },
            ResolvedClass {
                name: s("A"),
                fields: vec![field("b", ResolvedField::Class(s("B")), false)],
            },
        ]
    );
    assert_eq!(model.fields, vec![field("root", ResolvedField::Class(s("B")), true)]);
    assert!(well_formed(&model));
}

#[test]
fn a_union_of_a_class_and_a_list_of_it() {
    let schema = Schema::new().with_def(s("Address"), address()).with_property(
        s("tertiary_address"),
        TypeSpecWithMeta::any_of(vec![
            TypeSpecWithMeta::reference("Address"),
            TypeSpecWithMeta::inline(TypeDef::array(TypeSpecWithMeta::reference("Address"))),
        ]),
    );
    let model = resolve(&schema, &options()).unwrap();
    assert_eq!(
        model.fields,
        vec![field(
            "tertiary_address",
            ResolvedField::Union(vec![
                ResolvedField::Class(s("Address")),
                ResolvedField::List(Box::new(ResolvedField::Class(s("Address")))),
            ]),
            true
        )]
    );
    assert_eq!(class_named(&model, "Address").fields.len(), 3);
    assert_eq!(model.classes.len(), 1);
}

#[test]
fn an_unknown_reference_fails() {
    let schema = Schema::new()
        .with_def(s("Address"), address())
        .with_property(s("home"), TypeSpecWithMeta::reference("Adress"))
        .with_required(s("home"));
    let result = resolve(&schema, &options());
    assert_eq!(
        result,
        Err(ResolveError::UnknownReference { key: s("Adress"), path: s("properties.home") })
    );
    assert_eq!(result.unwrap_err().message(), "properties.home: unknown reference Adress");
}

#[test]
fn an_unknown_reference_inside_a_definition_fails() {
    let broken = TypeDef::class(
        vec![(
            s("tags"),
            TypeSpecWithMeta::inline(TypeDef::array(TypeSpecWithMeta::reference("Tag"))),
        )],
        vec![],
    );
    let schema = Schema::new().with_def(s("pkg__Post"), broken);
    assert_eq!(
        resolve(&schema, &options()),
        Err(ResolveError::UnknownReference {
            key: s("Tag"),
            path: s("$defs.pkg__Post.properties.tags.items"),
        })
    );
}

#[test]
fn resolving_twice_gives_the_same_model() {
    let schema = Schema::new()
        .with_def(s("x__Role"), TypeDef::enumeration(vec![s("admin"), s("user")]))
        .with_def(s("y__Role"), TypeDef::enumeration(vec![s("guest")]))
        .with_def(s("Address"), address())
        .with_property(s("role"), TypeSpecWithMeta::reference("y__Role"))
        .with_property(s("home"), TypeSpecWithMeta::inline(address()));
    let first = resolve(&schema, &options()).unwrap();
    let second = resolve(&schema, &options()).unwrap();
    assert_eq!(first, second);
    assert_eq!(format!("{:?}", first), format!("{:?}", second));
    assert_eq!(
        first.enums,
        vec![
            ResolvedEnum { name: s("Role"), values: vec![s("admin"), s("user")] },
            ResolvedEnum { name: s("Role_y"), values: vec![s("guest")] },
        ]
    );
}

#[test]
fn names_are_unique_and_references_are_closed() {
    let inner = TypeDef::class(
        vec![(s("kind"), TypeSpecWithMeta::inline(TypeDef::enumeration(vec![s("a"), s("b")])))],
        vec![s("kind")],
    );
    let schema = Schema::new()
        .with_def(s("home"), address())
        .with_def(s("ns__home"), TypeDef::enumeration(vec![s("x")]))
        .with_def(s("home_"), TypeDef::array(TypeSpecWithMeta::reference("ns__home")))
        .with_property(s("home"), TypeSpecWithMeta::inline(inner))
        .with_property(s("other"), TypeSpecWithMeta::reference("home_"))
        .with_property(s("main"), TypeSpecWithMeta::reference("home"));
    let model = resolve(&schema, &options()).unwrap();
    assert!(well_formed(&model));
    let mut names = all_names(&model);
    names.sort();
    assert_eq!(names, vec![s("home"), s("home__"), s("home___kind"), s("home_ns")]);
    assert_eq!(
        model.fields,
        vec![
            field("home", ResolvedField::Class(s("home__")), true),
            field("other", ResolvedField::List(Box::new(ResolvedField::Enum(s("home_ns")))), true),
            field("main", ResolvedField::Class(s("home")), true),
        ]
    );
}

#[test]
fn an_empty_union_fails() {
    let schema = Schema::new().with_property(s("x"), TypeSpecWithMeta::any_of(vec![]));
    let result = resolve(&schema, &options());
    assert_eq!(result, Err(ResolveError::EmptyUnion { path: s("properties.x") }));
    assert_eq!(result.unwrap_err().message(), "properties.x: empty union");
    let nested = TypeSpecWithMeta::any_of(vec![
        TypeSpecWithMeta::inline(TypeDef::Int),
        TypeSpecWithMeta::any_of(vec![]),
    ]);
    let schema = Schema::new().with_def(
        s("C"),
        TypeDef::class(vec![(s("f"), TypeSpecWithMeta::inline(TypeDef::array(nested)))], vec![]),
    );
    assert_eq!(
        resolve(&schema, &options()),
        Err(ResolveError::EmptyUnion { path: s("$defs.C.properties.f.items.anyOf.1") })
    );
}

#[test]
fn a_required_name_must_be_a_property() {
    let class = TypeDef::class(vec![string_prop("a")], vec![s("a"), s("b"), s("c")]);
    let schema = Schema::new().with_def(s("ns__C"), class);
    let result = resolve(&schema, &options());
    assert_eq!(
        result,
        Err(ResolveError::UnknownRequiredField { path: s("$defs.ns__C"), field: s("b") })
    );
    assert_eq!(result.unwrap_err().message(), "$defs.ns__C: unknown required field b");
    let schema = Schema::new().with_property(s("a"), TypeSpecWithMeta::inline(TypeDef::Int));
    assert_eq!(
        resolve(&schema.with_required(s("z")), &options()),
        Err(ResolveError::UnknownRequiredField { path: s(""), field: s("z") })
    );
    let inline = TypeDef::class(vec![], vec![s("q")]);
    let schema = Schema::new().with_property(s("p"), TypeSpecWithMeta::inline(inline));
    assert_eq!(
        resolve(&schema, &options()),
        Err(ResolveError::UnknownRequiredField { path: s("properties.p"), field: s("q") })
    );
}

fn nested_lists(depth: usize) -> TypeSpecWithMeta {
    let mut spec = TypeSpecWithMeta::inline(TypeDef::Int);
    for _ in 0..depth {
        spec = TypeSpecWithMeta::inline(TypeDef::array(spec));
    }
    spec
}

#[test]
fn the_depth_limit_is_kept() {
    let schema = Schema::new().with_property(s("x"), nested_lists(3));
    let list = |f: ResolvedField| ResolvedField::List(Box::new(f));
    assert_eq!(
        resolve(&schema, &ResolveOptions { max_depth: 4 }).unwrap().fields,
        vec![field("x", list(list(list(ResolvedField::Primitive(Primitive::Int)))), true)]
    );
    let result = resolve(&schema, &ResolveOptions { max_depth: 3 });
    assert_eq!(
        result,
        Err(ResolveError::DepthExceeded { path: s("properties.x.items.items.items") })
    );
    assert_eq!(
        result.unwrap_err().message(),
        "properties.x.items.items.items: depth exceeded"
    );
    assert_eq!(
        resolve(&schema, &ResolveOptions { max_depth: 0 }),
        Err(ResolveError::DepthExceeded { path: s("properties.x") })
    );
    assert!(resolve(&Schema::new(), &ResolveOptions { max_depth: 0 }).is_ok());
    assert_eq!(ResolveOptions::default().max_depth, 64);
}

#[test]
fn references_use_up_depth_only_on_the_first_visit() {
    let schema = Schema::new()
        .with_def(s("A"), TypeDef::class(vec![(s("b"), TypeSpecWithMeta::reference("B"))], vec![]))
        .with_def(s("B"), TypeDef::class(vec![(s("c"), TypeSpecWithMeta::reference("C"))], vec![]))
        .with_def(s("C"), TypeDef::class(vec![string_prop("d")], vec![]));
    assert_eq!(
        resolve(&schema, &ResolveOptions { max_depth: 2 }),
        Err(ResolveError::DepthExceeded { path: s("$defs.C.properties.d") })
    );
    let model = resolve(&schema, &ResolveOptions { max_depth: 3 }).unwrap();
    let names: Vec<&str> = model.classes.iter().map(|c| c.name.as_str()).collect();
    assert_eq!(names, vec!["C", "B", "A"]);
    let schema = schema.with_property(s("a"), TypeSpecWithMeta::reference("A"));
    let model = resolve(&schema, &ResolveOptions { max_depth: 3 }).unwrap();
    assert_eq!(model.fields, vec![field("a", ResolvedField::Class(s("A")), true)]);
}

#[test]
fn an_alias_that_refers_to_itself_fails() {
    let schema = Schema::new()
        .with_def(s("L"), TypeDef::array(TypeSpecWithMeta::reference("M")))
        .with_def(s("M"), TypeDef::array(TypeSpecWithMeta::reference("L")));
    assert_eq!(
        resolve(&schema, &options()),
        Err(ResolveError::DepthExceeded { path: s("$defs.M.items") })
    );
}

#[test]
fn aliases_resolve_to_their_shape() {
    let schema = Schema::new()
        .with_def(s("Id"), TypeDef::Int)
        .with_def(s("Ids"), TypeDef::array(TypeSpecWithMeta::reference("Id")))
        .with_def(s("Name"), TypeDef::string())
        .with_def(s("Flag"), TypeDef::Bool)
        .with_def(s("Nothing"), TypeDef::Null)
        .with_def(s("Ratio"), TypeDef::Float)
        .with_property(s("ids"), TypeSpecWithMeta::reference("Ids"))
        .with_property(s("name"), TypeSpecWithMeta::reference("Name"))
        .with_property(s("flag"), TypeSpecWithMeta::reference("Flag"))
        .with_property(s("nothing"), TypeSpecWithMeta::reference("Nothing"))
        .with_property(s("ratio"), TypeSpecWithMeta::reference("Ratio"))
        .with_required(s("ids"));
    let model = resolve(&schema, &options()).unwrap();
    assert!(model.enums.is_empty());
    assert!(model.classes.is_empty());
    let prim = |p: Primitive| ResolvedField::Primitive(p);
    assert_eq!(
        model.fields,
        vec![
            field("ids", ResolvedField::List(Box::new(prim(Primitive::Int))), false),
            field("name", prim(Primitive::String), true),
            field("flag", prim(Primitive::Bool), true),
            field("nothing", prim(Primitive::Null), true),
            field("ratio", prim(Primitive::Float), true),
        ]
    );
}

#[test]
fn inline_classes_and_enums_get_names_of_their_own() {
    let point = || {
        TypeDef::class(
            vec![
                (s("x"), TypeSpecWithMeta::inline(TypeDef::Float)),
                (
                    s("unit"),
                    TypeSpecWithMeta::inline(TypeDef::enumeration(vec![s("m"), s("ft")])),
                ),
            ],
            vec![s("x")],
        )
    };
    let shape = TypeDef::class(
        vec![
            (s("origin"), TypeSpecWithMeta::inline(point())),
            (s("corners"), TypeSpecWithMeta::inline(TypeDef::array(TypeSpecWithMeta::inline(point())))),
        ],
        vec![],
    );
    let schema = Schema::new()
        .with_def(s("geo__Shape"), shape)
        .with_property(
            s("pick"),
            TypeSpecWithMeta::any_of(vec![
                TypeSpecWithMeta::inline(TypeDef::Null),
                TypeSpecWithMeta::inline(point()),
            ]),
        );
    let model = resolve(&schema, &options()).unwrap();
    assert!(well_formed(&model));
    let enums: Vec<&str> = model.enums.iter().map(|e| e.name.as_str()).collect();
    assert_eq!(enums, vec!["Shape_origin_unit", "Shape_corners_item_unit", "pick_1_unit"]);
    let classes: Vec<&str> = model.classes.iter().map(|c| c.name.as_str()).collect();
    assert_eq!(classes, vec!["Shape_origin", "Shape_corners_item", "Shape", "pick_1"]);
    assert_eq!(
        class_named(&model, "Shape").fields,
        vec![
            field("origin", ResolvedField::Class(s("Shape_origin")), true),
            field(
                "corners",
                ResolvedField::List(Box::new(ResolvedField::Class(s("Shape_corners_item")))),
                true
            ),
        ]
    );
    assert_eq!(
        class_named(&model, "pick_1").fields,
        vec![
            field("x", ResolvedField::Primitive(Primitive::Float), false),
            field("unit", ResolvedField::Enum(s("pick_1_unit")), true),
        ]
    );
    assert_eq!(
        model.fields,
        vec![field(
            "pick",
            ResolvedField::Union(vec![
                ResolvedField::Primitive(Primitive::Null),
                ResolvedField::Class(s("pick_1")),
            ]),
            true
        )]
    );
}

#[test]
fn nested_unions_are_flattened() {
    let int = || TypeSpecWithMeta::inline(TypeDef::Int);
    let text = || TypeSpecWithMeta::inline(TypeDef::string());
    let flag = || TypeSpecWithMeta::inline(TypeDef::Bool);
    let inner = TypeSpecWithMeta::any_of(vec![text(), TypeSpecWithMeta::any_of(vec![flag(), int()])]);
    let listed = TypeSpecWithMeta::inline(TypeDef::array(TypeSpecWithMeta::any_of(vec![
        TypeSpecWithMeta::any_of(vec![int()]),
    ])));
    let schema = Schema::new()
        .with_property(s("u"), TypeSpecWithMeta::any_of(vec![int(), inner, listed]))
        .with_property(s("one"), TypeSpecWithMeta::any_of(vec![text()]));
    let model = resolve(&schema, &options()).unwrap();
    let prim = |p: Primitive| ResolvedField::Primitive(p);
    assert_eq!(
        model.fields,
        vec![
            field(
                "u",
                ResolvedField::Union(vec![
                    prim(Primitive::Int),
                    prim(Primitive::String),
                    prim(Primitive::Bool),
                    prim(Primitive::Int),
                    ResolvedField::List(Box::new(ResolvedField::Union(vec![prim(Primitive::Int)]))),
                ]),
                true
            ),
            field("one", ResolvedField::Union(vec![prim(Primitive::String)]), true),
        ]
    );
    assert!(well_formed(&model));
}

#[test]
fn a_definition_is_emitted_once_however_often_it_is_named() {
    let role = TypeDef::enumeration(vec![s("admin"), s("user")]);
    let team = TypeDef::class(
        vec![
            (s("lead"), TypeSpecWithMeta::reference("Role")),
            (s("deputy"), TypeSpecWithMeta::reference("Role")),
            (s("sub"), TypeSpecWithMeta::reference("Team")),
        ],
        vec![s("lead")],
    );
    let schema = Schema::new()
        .with_def(s("Team"), team)
        .with_def(s("Role"), role)
        .with_property(s("a"), TypeSpecWithMeta::reference("Team"))
        .with_property(s("b"), TypeSpecWithMeta::reference("Role"))
        .with_property(s("c"), TypeSpecWithMeta::reference("Team"));
    let model = resolve(&schema, &options()).unwrap();
    assert_eq!(model.enums.len(), 1);
    assert_eq!(model.classes.len(), 1);
    assert_eq!(model.enums[0], ResolvedEnum { name: s("Role"), values: vec![s("admin"), s("user")] });
    assert_eq!(
        model.classes[0].fields,
        vec![
            field("lead", ResolvedField::Enum(s("Role")), false),
            field("deputy", ResolvedField::Enum(s("Role")), true),
            field("sub", ResolvedField::Class(s("Team")), true),
        ]
    );
    assert!(well_formed(&model));
}

#[test]
fn the_first_error_ends_the_resolution() {
    let schema = Schema::new()
        .with_def(s("A"), TypeDef::class(vec![(s("x"), TypeSpecWithMeta::reference("Z"))], vec![]))
        .with_def(s("Z"), TypeDef::class(vec![(s("y"), TypeSpecWithMeta::reference("Missing"))], vec![]))
        .with_property(s("p"), TypeSpecWithMeta::any_of(vec![]));
    assert_eq!(
        resolve(&schema, &options()),
        Err(ResolveError::UnknownReference { key: s("Missing"), path: s("$defs.Z.properties.y") })
    );
}

fn spec_height(spec: &TypeSpecWithMeta) -> usize {
    match &spec.type_spec {
        TypeSpec::Ref(_) => 1,
        TypeSpec::Inline(def) => 1 + def_height(def),
        TypeSpec::Union(u) => 1 + u.any_of.iter().map(spec_height).max().unwrap_or(0),
    }
}

fn def_height(def: &TypeDef) -> usize {
    match def {
        TypeDef::Class(c) => c.properties.iter().map(|p| spec_height(&p.1)).max().unwrap_or(0),
        TypeDef::Array(a) => spec_height(&a.items),
        _ => 0,
    }
}

fn depth_needed(schema: &Schema) -> usize {
    let table: usize = schema.defs().iter().map(|d| def_height(&d.1)).sum();
    let root = schema.properties().iter().map(|p| spec_height(&p.1)).max().unwrap_or(0);
    table.max(root)
}

fn sound_schemas() -> Vec<Schema> {
    let chain = Schema::new()
        .with_def(s("A"), TypeDef::class(vec![(s("b"), TypeSpecWithMeta::reference("B"))], vec![]))
        .with_def(s("B"), TypeDef::class(vec![(s("c"), TypeSpecWithMeta::reference("C"))], vec![]))
        .with_def(s("C"), TypeDef::class(vec![string_prop("d")], vec![s("d")]));
    let knot = Schema::new()
        .with_def(
            s("A"),
            TypeDef::class(
                vec![
                    (s("b"), TypeSpecWithMeta::reference("B")),
                    (s("grid"), nested_lists(2)),
                    (s("me"), TypeSpecWithMeta::reference("A")),
                ],
                vec![s("b")],
            ),
        )
        .with_def(
            s("B"),
            TypeDef::class(
                vec![(
                    s("a"),
                    TypeSpecWithMeta::any_of(vec![
                        TypeSpecWithMeta::reference("A"),
                        TypeSpecWithMeta::inline(TypeDef::Null),
                    ]),
                )],
                vec![],
            ),
        )
        .with_def(s("Kind"), TypeDef::enumeration(vec![s("x")]))
        .with_def(s("Id"), TypeDef::Int)
        .with_property(
            s("root"),
            TypeSpecWithMeta::any_of(vec![
                TypeSpecWithMeta::reference("B"),
                TypeSpecWithMeta::inline(address()),
                TypeSpecWithMeta::reference("Kind"),
                TypeSpecWithMeta::reference("Id"),
            ]),
        )
        .with_required(s("root"));
    let flat = Schema::new().with_property(s("deep"), nested_lists(5));
    vec![Schema::new(), chain, knot, flat]
}

#[test]
fn a_sound_schema_resolves_where_the_depth_is_enough() {
    for schema in sound_schemas() {
        let needed = depth_needed(&schema);
        for extra in 0..3 {
            let model = resolve(&schema, &ResolveOptions { max_depth: needed + extra }).unwrap();
            assert!(well_formed(&model));
            assert_eq!(model.fields.len(), schema.properties().len());
        }
    }
}

#[test]
fn a_sound_schema_fails_for_want_of_depth_only() {
    for schema in sound_schemas() {
        for depth in 0..depth_needed(&schema) {
            match resolve(&schema, &ResolveOptions { max_depth: depth }) {
                Ok(model) => assert!(well_formed(&model)),
                Err(e) => assert!(matches!(e, ResolveError::DepthExceeded { .. }), "{:?}", e),
            }
        }
    }
}

#[test]
fn the_model_holds_what_the_schema_declares() {
    for schema in sound_schemas() {
        let model = resolve(&schema, &ResolveOptions::default()).unwrap();
        for (property, field) in schema.properties().iter().zip(model.fields.iter()) {
            assert_eq!(property.0, field.name);
            assert_eq!(field.optional, !schema.required().contains(&property.0));
        }
        for (key, def) in schema.defs() {
            match def {
                TypeDef::Class(c) => {
                    let class = class_named(&model, key);
                    let names: Vec<&String> = class.fields.iter().map(|f| &f.name).collect();
                    let declared: Vec<&String> = c.properties.iter().map(|p| &p.0).collect();
                    assert_eq!(names, declared);
                    for f in &class.fields {
                        assert_eq!(f.optional, !c.required.contains(&f.name));
                    }
                }
                TypeDef::StringOrEnum(e) => {
                    let found = model.enums.iter().filter(|x| &x.name == key).count();
                    assert_eq!(found, if e.values.is_some() { 1 } else { 0 });
                }
                _ => {}
            }
        }
    }
}
