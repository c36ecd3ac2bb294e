//! What holds of every output model: its names are unique, and what its
//! fields refer to is in it.

use vstd::prelude::*;
use vstd::seq_lib::lemma_no_dup_in_concat;
use crate::error::ResolveErrorView;
use crate::invariants::{
    all_known, class_def, class_of, entry_emitted, enum_def, enum_of, extends, follows, inv, known,
    names_definition, record_follows,
    known_classes, known_enums, lemma_all_known_grows, lemma_emit_class, lemma_emit_enum,
    lemma_entry_named, lemma_extends_allows, lemma_extends_chain, lemma_extends_self,
    lemma_finish_visit, lemma_record_known_grows, lemma_reserved_stays, lemma_start_visit,
    lemma_take_fresh, record_known, reserved, settled,
};
use crate::model::{
    class_names, enum_names, holds_class, holds_enum, lemma_record_closed_grows, record_closed,
    record_flat, record_shaped, ClassView, EnumView, FieldView, ModelView, Primitive,
    PropertyView,
};
use crate::names::{final_names, lemma_names_upto};
use crate::schema::{def_keys, RawSchema, RawTypeDef, RawTypeSpec};
use crate::semantics::{
    branch_path, branch_stem, def_path, env_of, first_missing, flat, forward_handle,
    initial_registry, items_path, items_stem, property_names, property_path, property_stem,
    resolve_body, resolve_branches, resolve_fields, resolve_model, resolve_spec, visit, visit_all,
    Env, ProgressView, RegistryView,
};

verus! {

/// The field `field` is of the kind that the body `def` asks for: a class
/// or an enum, under the `given` name where one is given, a primitive, or a
/// list whose elements follow the items.
pub open spec fn yields(
    env: Env,
    field: FieldView,
    def: RawTypeDef,
    given: Option<Seq<char>>,
) -> bool {
    match def {
        RawTypeDef::Class(_, _) => field is Class && (given matches Some(n) ==> field
            == FieldView::Class(n)),
        RawTypeDef::StringOrEnum(Some(_)) => field is Enum && (given matches Some(n) ==> field
            == FieldView::Enum(n)),
        RawTypeDef::StringOrEnum(None) => field == FieldView::Primitive(Primitive::String),
        RawTypeDef::Array(items) => field matches FieldView::List(element) && follows(
            env,
            *element,
            *items,
        ),
        RawTypeDef::Int => field == FieldView::Primitive(Primitive::Int),
        RawTypeDef::Float => field == FieldView::Primitive(Primitive::Float),
        RawTypeDef::Bool => field == FieldView::Primitive(Primitive::Bool),
        RawTypeDef::Null => field == FieldView::Primitive(Primitive::Null),
    }
}

/// Resolving a type position keeps the invariant and yields a known field
/// of the kind that the position asks for.
pub proof fn lemma_resolve_spec(
    env: Env,
    reg: RegistryView,
    spec: RawTypeSpec,
    path: Seq<char>,
    stem: Seq<char>,
    fuel: nat,
)
    requires
        inv(env, reg),
    ensures
        resolve_spec(env, reg, spec, path, stem, fuel) matches Ok((after, field)) ==> {
            &&& inv(env, after)
            &&& extends(env, reg, after, None)
            &&& known(env, after, field)
            &&& follows(env, field, spec)
        },
    decreases fuel, 0int, 0int,
{
    if fuel == 0 {
    } else {
        match spec {
            RawTypeSpec::Ref(key) => {
                def_keys(env.defs).index_of_first_ensures(key);
                match def_keys(env.defs).index_of_first(key) {
                    None => {},
                    Some(i) => {
                        lemma_extends_self(env, reg);
                        match reg.states[i] {
                            ProgressView::Resolved(field) => {
                                assert(settled(env, reg, i));
                            },
                            ProgressView::InProgress => {
                                if forward_handle(env, i) is Some {
                                    assert(class_def(env, i, env.names[i]) || enum_def(
                                        env,
                                        i,
                                        env.names[i],
                                    ));
                                }
                            },
                            ProgressView::Unvisited => {
                                lemma_visit(env, reg, i, (fuel - 1) as nat);
                            },
                        }
                    },
                }
            },
            RawTypeSpec::Inline(def) => {
                lemma_resolve_body(env, reg, def, None, path, stem, (fuel - 1) as nat);
            },
            RawTypeSpec::Union(branches) => {
                lemma_resolve_branches(
                    env,
                    reg,
                    branches,
                    0,
                    Seq::empty(),
                    path,
                    stem,
                    (fuel - 1) as nat,
                );
            },
        }
    }
}

/// A visit keeps the invariant, yields a known field and records it.
pub proof fn lemma_visit(env: Env, reg: RegistryView, i: int, fuel: nat)
    requires
        inv(env, reg),
        0 <= i < env.defs.len(),
        reg.states[i] is Unvisited,
    ensures
        visit(env, reg, i, fuel) matches Ok((after, field)) ==> {
            &&& inv(env, after)
            &&& extends(env, reg, after, None)
            &&& known(env, after, field)
            &&& after.states[i] is Resolved
            &&& names_definition(env, i, field)
        },
    decreases fuel, 3int, 0int,
{
    lemma_start_visit(env, reg, i);
    let started = reg.with_state(i, ProgressView::InProgress);
    lemma_resolve_body(
        env,
        started,
        env.defs[i].1,
        Some(env.names[i]),
        def_path(env.defs[i].0),
        env.names[i],
        fuel,
    );
    match resolve_body(
        env,
        started,
        env.defs[i].1,
        Some(env.names[i]),
        def_path(env.defs[i].0),
        env.names[i],
        fuel,
    ) {
        Ok((after, field)) => {
            assert(entry_emitted(env, after, i)) by {
                match env.defs[i].1 {
                    RawTypeDef::Class(properties, required) => {
                        let c = choose|c: int|
                            holds_class(after.classes, c, env.names[i], properties, required)
                                && record_follows(env, after.classes[c].fields, properties);
                        assert(class_of(env, after, i, c));
                    },
                    RawTypeDef::StringOrEnum(Some(values)) => {
                        let e = choose|e: int| holds_enum(after.enums, e, env.names[i], values);
                        assert(enum_of(env, after, i, e));
                    },
                    _ => {},
                }
            }
            lemma_finish_visit(env, reg, after, field, i);
        },
        Err(_) => {},
    }
}

/// The fields that come of the properties of a record are those properties,
/// in their order and under their names, each optional unless required.
pub proof fn lemma_fields_shaped(
    env: Env,
    reg: RegistryView,
    properties: Seq<(Seq<char>, RawTypeSpec)>,
    required: Seq<Seq<char>>,
    i: int,
    done: Seq<PropertyView>,
    path: Seq<char>,
    owner: Seq<char>,
    fuel: nat,
)
    requires
        0 <= i <= properties.len(),
        record_shaped(done, properties.take(i), required),
    ensures
        resolve_fields(env, reg, properties, required, i, done, path, owner, fuel) matches Ok(
            (_, fields),
        ) ==> record_shaped(fields, properties, required),
    decreases properties.len() - i,
{
    if i >= properties.len() {
        assert(properties.take(i) =~= properties);
    } else {
        let name = properties[i].0;
        match resolve_spec(
            env,
            reg,
            properties[i].1,
            property_path(path, name),
            property_stem(owner, name),
            fuel,
        ) {
            Ok((next, field)) => {
                let more = done.push(
                    PropertyView { name, field, optional: !required.contains(name) },
                );
                assert(record_shaped(more, properties.take(i + 1), required)) by {
                    assert forall|k: int| 0 <= k < more.len() implies (#[trigger] more[k]).name
                        == properties.take(i + 1)[k].0 && more[k].optional == !required.contains(
                        properties.take(i + 1)[k].0,
                    ) by {
                        if k < i {
                            assert(more[k] == done[k]);
                            assert(properties.take(i)[k] == properties.take(i + 1)[k]);
                        }
                    }
                }
                lemma_fields_shaped(env, next, properties, required, i + 1, more, path, owner, fuel);
            },
            Err(_) => {},
        }
    }
}

/// Resolving a body keeps the invariant and yields a known field. Where a
/// name is given, it is reserved before, and the entry is emitted under it.
pub proof fn lemma_resolve_body(
    env: Env,
    reg: RegistryView,
    def: RawTypeDef,
    given: Option<Seq<char>>,
    path: Seq<char>,
    stem: Seq<char>,
    fuel: nat,
)
    requires
        inv(env, reg),
        given matches Some(n) ==> reserved(env, reg, n),
    ensures
        resolve_body(env, reg, def, given, path, stem, fuel) matches Ok((after, field)) ==> {
            &&& inv(env, after)
            &&& extends(env, reg, after, given)
            &&& known(env, after, field)
            &&& yields(env, field, def, given)
            &&& given matches Some(n) ==> match def {
                RawTypeDef::Class(properties, required) => exists|c: int|
                    holds_class(after.classes, c, n, properties, required) && record_follows(
                        env,
                        after.classes[c].fields,
                        properties,
                    ),
                RawTypeDef::StringOrEnum(Some(values)) => exists|e: int|
                    holds_enum(after.enums, e, n, values),
                _ => true,
            }
        },
    decreases fuel, 2int, 0int,
{
    lemma_extends_self(env, reg);
    lemma_extends_allows(env, reg, reg, given);
    match def {
        RawTypeDef::StringOrEnum(Some(values)) => {
            let (named, name) = reg.named(given, stem);
            if given is None {
                lemma_take_fresh(env, reg, stem);
            }
            let entry = EnumView { name, values };
            lemma_emit_enum(env, named, entry);
            lemma_extends_chain(env, reg, named, named.with_enum(entry), None, Some(name), given);
            assert(holds_enum(named.with_enum(entry).enums, named.enums.len() as int, name, values));
        },
        RawTypeDef::Class(properties, required) => {
            if first_missing(required, property_names(properties), 0) is None {
                let (named, name) = reg.named(given, stem);
                if given is None {
                    lemma_take_fresh(env, reg, stem);
                }
                lemma_resolve_fields(
                    env,
                    named,
                    properties,
                    required,
                    0,
                    Seq::empty(),
                    path,
                    name,
                    fuel,
                );
                match resolve_fields(
                    env,
                    named,
                    properties,
                    required,
                    0,
                    Seq::empty(),
                    path,
                    name,
                    fuel,
                ) {
                    Ok((after, fields)) => {
                        let entry = ClassView { name, fields };
                        lemma_fields_shaped(
                            env,
                            named,
                            properties,
                            required,
                            0,
                            Seq::empty(),
                            path,
                            name,
                            fuel,
                        );
                        assert(holds_class(
                            after.with_class(entry).classes,
                            after.classes.len() as int,
                            name,
                            properties,
                            required,
                        ));
                        lemma_reserved_stays(env, named, after, name);
                        lemma_emit_class(env, after, entry);
                        lemma_extends_chain(env, reg, named, after, None, None, None);
                        lemma_extends_chain(
                            env,
                            reg,
                            after,
                            after.with_class(entry),
                            None,
                            Some(name),
                            given,
                        );
                    },
                    Err(_) => {},
                }
            }
        },
        RawTypeDef::Array(items) => {
            lemma_resolve_spec(env, reg, *items, items_path(path), items_stem(stem), fuel);
            match resolve_spec(env, reg, *items, items_path(path), items_stem(stem), fuel) {
                Ok((after, field)) => {
                    lemma_extends_allows(env, reg, after, given);
                },
                Err(_) => {},
            }
        },
        _ => {},
    }
}

/// Resolving the properties of a record keeps the invariant and yields
/// known fields.
pub proof fn lemma_resolve_fields(
    env: Env,
    reg: RegistryView,
    properties: Seq<(Seq<char>, RawTypeSpec)>,
    required: Seq<Seq<char>>,
    i: int,
    done: Seq<PropertyView>,
    path: Seq<char>,
    owner: Seq<char>,
    fuel: nat,
)
    requires
        inv(env, reg),
        record_known(env, reg, done),
    ensures
        resolve_fields(env, reg, properties, required, i, done, path, owner, fuel) matches Ok(
            (after, fields),
        ) ==> {
            &&& inv(env, after)
            &&& extends(env, reg, after, None)
            &&& record_known(env, after, fields)
            &&& 0 <= i <= properties.len() && record_follows(env, done, properties.take(i))
                ==> record_follows(env, fields, properties)
        },
    decreases fuel, 1int, properties.len() - i,
{
    if i < 0 || i >= properties.len() {
        lemma_extends_self(env, reg);
    } else {
        let name = properties[i].0;
        lemma_resolve_spec(
            env,
            reg,
            properties[i].1,
            property_path(path, name),
            property_stem(owner, name),
            fuel,
        );
        match resolve_spec(
            env,
            reg,
            properties[i].1,
            property_path(path, name),
            property_stem(owner, name),
            fuel,
        ) {
            Ok((next, field)) => {
                let more = done.push(
                    PropertyView { name, field, optional: !required.contains(name) },
                );
                lemma_record_known_grows(env, reg, next, done);
                assert(record_known(env, next, more)) by {
                    assert forall|k: int| 0 <= k < more.len() implies known(
                        env,
                        next,
                        #[trigger] more[k].field,
                    ) by {
                        if k < done.len() {
                            assert(more[k] == done[k]);
                        }
                    }
                }
                lemma_resolve_fields(env, next, properties, required, i + 1, more, path, owner, fuel);
                match resolve_fields(env, next, properties, required, i + 1, more, path, owner, fuel) {
                    Ok((after, _)) => {
                        lemma_extends_chain(env, reg, next, after, None, None, None);
                    },
                    Err(_) => {},
                }
            },
            Err(_) => {},
        }
    }
}

/// Resolving the alternatives of a union keeps the invariant and yields
/// known fields.
pub proof fn lemma_resolve_branches(
    env: Env,
    reg: RegistryView,
    branches: Seq<RawTypeSpec>,
    i: int,
    done: Seq<FieldView>,
    path: Seq<char>,
    stem: Seq<char>,
    fuel: nat,
)
    requires
        inv(env, reg),
        all_known(env, reg, done),
    ensures
        resolve_branches(env, reg, branches, i, done, path, stem, fuel) matches Ok(
            (after, fields),
        ) ==> {
            &&& inv(env, after)
            &&& extends(env, reg, after, None)
            &&& all_known(env, after, fields)
            &&& 0 <= i <= branches.len() ==> fields.len() >= done.len() + branches.len() - i
        },
    decreases fuel, 1int, branches.len() - i,
{
    if i < 0 || i >= branches.len() {
        lemma_extends_self(env, reg);
    } else {
        lemma_resolve_spec(env, reg, branches[i], branch_path(path, i), branch_stem(stem, i), fuel);
        match resolve_spec(env, reg, branches[i], branch_path(path, i), branch_stem(stem, i), fuel) {
            Ok((next, field)) => {
                let more = done + flat(field);
                lemma_all_known_grows(env, reg, next, done);
                assert(all_known(env, next, more)) by {
                    assert forall|k: int| 0 <= k < more.len() implies known(
                        env,
                        next,
                        #[trigger] more[k],
                    ) by {
                        if k < done.len() {
                            assert(more[k] == done[k]);
                        } else {
                            assert(more[k] == flat(field)[k - done.len()]);
                        }
                    }
                }
                lemma_resolve_branches(env, next, branches, i + 1, more, path, stem, fuel);
                match resolve_branches(env, next, branches, i + 1, more, path, stem, fuel) {
                    Ok((after, _)) => {
                        lemma_extends_chain(env, reg, next, after, None, None, None);
                    },
                    Err(_) => {},
                }
            },
            Err(_) => {},
        }
    }
}

/// No definition is in progress, and those before `upto` are resolved.
pub open spec fn at_rest(reg: RegistryView, upto: int) -> bool {
    &&& forall|j: int| 0 <= j < reg.states.len() ==> !(#[trigger] reg.states[j] is InProgress)
    &&& forall|j: int| 0 <= j < upto && j < reg.states.len() ==> #[trigger] reg.states[j] is Resolved
}

/// After the visits every definition is resolved.
pub proof fn lemma_visit_all(env: Env, reg: RegistryView, i: int, fuel: nat)
    requires
        inv(env, reg),
        0 <= i,
        at_rest(reg, i),
    ensures
        visit_all(env, reg, i, fuel) matches Ok(after) ==> inv(env, after) && at_rest(
            after,
            after.states.len() as int,
        ),
    decreases env.defs.len() - i,
{
    if i < env.defs.len() {
        match reg.states[i] {
            ProgressView::Unvisited => {
                lemma_visit(env, reg, i, fuel);
                match visit(env, reg, i, fuel) {
                    Ok((after, _)) => {
                        assert(at_rest(after, i + 1)) by {
                            assert forall|j: int| 0 <= j < after.states.len() implies !(
                            #[trigger] after.states[j] is InProgress) by {
                                assert(!(reg.states[j] is InProgress));
                            }
                            assert forall|j: int|
                                0 <= j < i + 1 && j < after.states.len() implies #[trigger] after.states[j] is Resolved by {
                                if j < i {
                                    assert(reg.states[j] is Resolved);
                                }
                            }
                        }
                        lemma_visit_all(env, after, i + 1, fuel);
                    },
                    Err(_) => {},
                }
            },
            _ => {
                assert(at_rest(reg, i + 1));
                lemma_visit_all(env, reg, i + 1, fuel);
            },
        }
    }
}

/// Before the first visit the invariant holds.
pub proof fn lemma_initial(schema: RawSchema)
    ensures
        inv(env_of(schema), initial_registry(env_of(schema))),
        at_rest(initial_registry(env_of(schema)), 0),
{
    let env = env_of(schema);
    let reg = initial_registry(env);
    let keys = def_keys(schema.defs);
    lemma_names_upto(keys, keys.len() as int);
    assert(env.names =~= reg.used.subrange(0, env.names.len() as int));
    assert(enum_names(reg.enums) =~= Seq::empty());
    assert(class_names(reg.classes) =~= Seq::empty());
    assert forall|j: int| 0 <= j < env.defs.len() implies #[trigger] settled(env, reg, j) by {}
}

/// Where every definition is resolved, what is known is emitted.
pub proof fn lemma_known_is_emitted(env: Env, reg: RegistryView)
    requires
        inv(env, reg),
        at_rest(reg, reg.states.len() as int),
    ensures
        known_enums(env, reg).subset_of(enum_names(reg.enums).to_set()),
        known_classes(env, reg).subset_of(class_names(reg.classes).to_set()),
{
    assert forall|n: Seq<char>| known_enums(env, reg).contains(n) implies enum_names(
        reg.enums,
    ).to_set().contains(n) by {
        if !enum_names(reg.enums).contains(n) {
            let i = choose|i: int| enum_def(env, i, n);
            assert(reg.states[i] is Resolved);
            assert(settled(env, reg, i));
            lemma_entry_named(env, reg, i);
        }
    }
    assert forall|n: Seq<char>| known_classes(env, reg).contains(n) implies class_names(
        reg.classes,
    ).to_set().contains(n) by {
        if !class_names(reg.classes).contains(n) {
            let i = choose|i: int| class_def(env, i, n);
            assert(reg.states[i] is Resolved);
            assert(settled(env, reg, i));
            lemma_entry_named(env, reg, i);
        }
    }
}

/// The registry at the end of a resolution that succeeds: the invariant
/// holds of it, every definition is resolved, and the root fields are known.
pub proof fn lemma_final_registry(schema: RawSchema, max_depth: nat) -> (after: RegistryView)
    ensures
        resolve_model(schema, max_depth) matches Ok(model) ==> {
            &&& model.enums == after.enums
            &&& model.classes == after.classes
            &&& inv(env_of(schema), after)
            &&& at_rest(after, after.states.len() as int)
            &&& record_known(env_of(schema), after, model.fields)
        },
{
    let env = env_of(schema);
    let start = initial_registry(env);
    lemma_initial(schema);
    lemma_visit_all(env, start, 0, max_depth);
    match visit_all(env, start, 0, max_depth) {
        Ok(reg) => {
            if first_missing(schema.required, property_names(schema.properties), 0) is None {
                assert(record_known(env, reg, Seq::empty()));
                lemma_resolve_fields(
                    env,
                    reg,
                    schema.properties,
                    schema.required,
                    0,
                    Seq::empty(),
                    Seq::empty(),
                    Seq::empty(),
                    max_depth,
                );
                match resolve_fields(
                    env,
                    reg,
                    schema.properties,
                    schema.required,
                    0,
                    Seq::empty(),
                    Seq::empty(),
                    Seq::empty(),
                    max_depth,
                ) {
                    Ok((after, fields)) => {
                        assert(at_rest(after, after.states.len() as int)) by {
                            assert forall|j: int| 0 <= j < after.states.len() implies !(
                            #[trigger] after.states[j] is InProgress) by {
                                assert(!(reg.states[j] is InProgress));
                            }
                            assert forall|j: int|
                                0 <= j < after.states.len() implies #[trigger] after.states[j] is Resolved by {
                                assert(reg.states[j] is Resolved);
                            }
                        }
                        after
                    },
                    Err(_) => start,
                }
            } else {
                start
            }
        },
        Err(_) => start,
    }
}

/// Name uniqueness: in every output model no two entries, enums and classes
/// taken together, have the same name.
pub proof fn lemma_names_unique(schema: RawSchema, max_depth: nat)
    ensures
        resolve_model(schema, max_depth) matches Ok(model) ==> model.names_unique(),
{
    let after = lemma_final_registry(schema, max_depth);
    if resolve_model(schema, max_depth) is Ok {
        let enums = enum_names(after.enums);
        let classes = class_names(after.classes);
        assert forall|a: int, b: int|
            0 <= a < enums.len() && 0 <= b < classes.len() implies enums[a] != classes[b] by {
            assert(enums.contains(enums[a]));
            assert(classes.contains(classes[b]));
        }
        lemma_no_dup_in_concat(enums, classes);
    }
}

/// Referential closure: in every output model each enum or class that a
/// root field or a field of a class names is an entry of the model, of that
/// kind.
pub proof fn lemma_references_closed(schema: RawSchema, max_depth: nat)
    ensures
        resolve_model(schema, max_depth) matches Ok(model) ==> model.closed(),
{
    let env = env_of(schema);
    let after = lemma_final_registry(schema, max_depth);
    match resolve_model(schema, max_depth) {
        Ok(model) => {
            let enums = enum_names(after.enums).to_set();
            let classes = class_names(after.classes).to_set();
            lemma_known_is_emitted(env, after);
            lemma_record_closed_grows(
                model.fields,
                known_enums(env, after),
                known_classes(env, after),
                enums,
                classes,
            );
            assert forall|c: int| 0 <= c < model.classes.len() implies record_closed(
                #[trigger] model.classes[c].fields,
                enums,
                classes,
            ) by {
                assert(record_known(env, after, after.classes[c].fields));
                lemma_record_closed_grows(
                    model.classes[c].fields,
                    known_enums(env, after),
                    known_classes(env, after),
                    enums,
                    classes,
                );
            }
        },
        Err(_) => {},
    }
}

/// In every output model each union has a branch, and no union is a branch
/// of a union.
pub proof fn lemma_unions_flat(schema: RawSchema, max_depth: nat)
    ensures
        resolve_model(schema, max_depth) matches Ok(model) ==> model.flat(),
{
    let env = env_of(schema);
    let after = lemma_final_registry(schema, max_depth);
    match resolve_model(schema, max_depth) {
        Ok(model) => {
            assert forall|c: int| 0 <= c < model.classes.len() implies record_flat(
                #[trigger] model.classes[c].fields,
            ) by {
                assert(record_known(env, after, after.classes[c].fields));
            }
        },
        Err(_) => {},
    }
}

/// Every output model is well formed.
pub proof fn lemma_model_well_formed(schema: RawSchema, max_depth: nat)
    ensures
        resolve_model(schema, max_depth) matches Ok(model) ==> model.wf(),
{
    lemma_names_unique(schema, max_depth);
    lemma_references_closed(schema, max_depth);
    lemma_unions_flat(schema, max_depth);
}

/// The entry of definition `i` is in `model`, under the final name of the
/// key: a class with the fields that the definition declares, each of the
/// kind that its property asks for and optional unless the definition
/// requires it, or an enum with the values that the definition lists. A
/// definition of any other kind has no entry.
pub open spec fn holds_definition(model: ModelView, schema: RawSchema, i: int) -> bool {
    match schema.defs[i].1 {
        RawTypeDef::Class(properties, required) => exists|c: int|
            holds_class(model.classes, c, env_of(schema).names[i], properties, required)
                && record_follows(env_of(schema), model.classes[c].fields, properties),
        RawTypeDef::StringOrEnum(Some(values)) => exists|e: int|
            holds_enum(model.enums, e, env_of(schema).names[i], values),
        _ => true,
    }
}

/// `model` holds what `schema` declares: the entry of each definition, and
/// the root properties as root fields, in their order and under their names,
/// each of the kind that its property asks for and optional unless the
/// schema requires it.
pub open spec fn reflects(model: ModelView, schema: RawSchema) -> bool {
    &&& record_shaped(model.fields, schema.properties, schema.required)
    &&& record_follows(env_of(schema), model.fields, schema.properties)
    &&& forall|i: int| 0 <= i < schema.defs.len() ==> #[trigger] holds_definition(model, schema, i)
}

/// Every class and every enum of the definition table is in the output
/// model; see [`holds_definition`].
pub proof fn lemma_definitions_emitted(schema: RawSchema, max_depth: nat, i: int)
    requires
        0 <= i < schema.defs.len(),
    ensures
        resolve_model(schema, max_depth) matches Ok(model) ==> holds_definition(model, schema, i),
{
    let env = env_of(schema);
    let after = lemma_final_registry(schema, max_depth);
    if resolve_model(schema, max_depth) is Ok {
        assert(after.states[i] is Resolved);
        assert(settled(env, after, i));
        match schema.defs[i].1 {
            RawTypeDef::Class(properties, required) => {
                let c = choose|c: int| class_of(env, after, i, c);
                assert(holds_class(after.classes, c, env.names[i], properties, required));
                assert(record_follows(env, after.classes[c].fields, properties));
            },
            RawTypeDef::StringOrEnum(Some(values)) => {
                let e = choose|e: int| enum_of(env, after, i, e);
                assert(holds_enum(after.enums, e, env.names[i], values));
            },
            _ => {},
        }
    }
}

/// The root fields of every output model are the root properties of the
/// schema, in their order and under their names, each of the kind that its
/// property asks for and optional unless the schema requires it.
pub proof fn lemma_root_fields(schema: RawSchema, max_depth: nat)
    ensures
        resolve_model(schema, max_depth) matches Ok(model) ==> record_shaped(
            model.fields,
            schema.properties,
            schema.required,
        ) && record_follows(env_of(schema), model.fields, schema.properties),
{
    let env = env_of(schema);
    lemma_initial(schema);
    lemma_visit_all(env, initial_registry(env), 0, max_depth);
    match visit_all(env, initial_registry(env), 0, max_depth) {
        Ok(reg) => {
            assert(schema.properties.take(0) =~= Seq::empty());
            assert(record_known(env, reg, Seq::empty()));
            lemma_fields_shaped(
                env,
                reg,
                schema.properties,
                schema.required,
                0,
                Seq::empty(),
                Seq::empty(),
                Seq::empty(),
                max_depth,
            );
            lemma_resolve_fields(
                env,
                reg,
                schema.properties,
                schema.required,
                0,
                Seq::empty(),
                Seq::empty(),
                Seq::empty(),
                max_depth,
            );
        },
        Err(_) => {},
    }
}

/// Every output model holds what the schema declares; see [`reflects`].
pub proof fn lemma_model_reflects(schema: RawSchema, max_depth: nat)
    ensures
        resolve_model(schema, max_depth) matches Ok(model) ==> reflects(model, schema),
{
    lemma_root_fields(schema, max_depth);
    match resolve_model(schema, max_depth) {
        Ok(model) => {
            assert forall|i: int| 0 <= i < schema.defs.len() implies #[trigger] holds_definition(
                model,
                schema,
                i,
            ) by {
                lemma_definitions_emitted(schema, max_depth, i);
            }
        },
        Err(_) => {},
    }
}

/// Determinism: the final names are a function of the keys of the table, in
/// their order. Two schemas with the same keys give their definitions the
/// same names, whatever the definitions hold.
pub proof fn lemma_names_follow_keys(first: RawSchema, second: RawSchema)
    requires
        def_keys(first.defs) == def_keys(second.defs),
    ensures
        env_of(first).names == env_of(second).names,
        env_of(first).names.no_duplicates(),
        env_of(first).names.len() == first.defs.len(),
{
    lemma_names_upto(def_keys(first.defs), first.defs.len() as int);
}

/// Determinism: two resolutions of one schema under one limit end alike,
/// in the same model or in the same error.
pub proof fn lemma_resolution_deterministic(
    schema: RawSchema,
    max_depth: nat,
    first: Result<ModelView, ResolveErrorView>,
    second: Result<ModelView, ResolveErrorView>,
)
    requires
        first == resolve_model(schema, max_depth),
        second == resolve_model(schema, max_depth),
    ensures
        first == second,
{
}

/// A reference to a key that the table lacks is an error, which cites the
/// key and the path of the reference.
pub proof fn lemma_unknown_reference(
    env: Env,
    reg: RegistryView,
    key: Seq<char>,
    path: Seq<char>,
    stem: Seq<char>,
    fuel: nat,
)
    requires
        !def_keys(env.defs).contains(key),
        fuel > 0,
    ensures
        resolve_spec(env, reg, RawTypeSpec::Ref(key), path, stem, fuel) == Err::<
            (RegistryView, FieldView),
            ResolveErrorView,
        >(ResolveErrorView::UnknownReference { key, path }),
{
    def_keys(env.defs).index_of_first_ensures(key);
}

} // verus!
