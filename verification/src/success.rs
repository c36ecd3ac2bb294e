//! When a resolution succeeds, and which errors a schema can be blamed for.
//!
//! A schema is sound where every reference names a key of the table, every
//! union has an alternative, and every record requires only names of its own
//! properties. A sound schema fails for want of depth only. Where moreover
//! no definition is a list, a depth limit of [`depth_needed`] is enough.

use vstd::prelude::*;
use crate::error::ResolveErrorView;
use crate::invariants::{
    all_known, extends, inv, known, lemma_all_known_grows, lemma_record_known_grows,
    lemma_start_visit, lemma_take_fresh, record_known, reserved,
};
use crate::laws::{
    at_rest, lemma_initial, lemma_resolve_branches, lemma_resolve_spec, lemma_visit,
    lemma_visit_all,
};
use crate::model::{FieldView, PropertyView};
use crate::schema::{def_keys, RawSchema, RawTypeDef, RawTypeSpec};
use crate::semantics::{
    branch_path, branch_stem, def_path, env_of, first_missing, flat, initial_registry, items_path, items_stem, property_names, property_path, property_stem,
    resolve_body, resolve_branches, resolve_fields, resolve_model, resolve_spec, visit, visit_all,
    Env, ProgressView, RegistryView,
};

verus! {

/// What is asked of a schema. Each demand rules out one kind of error.
pub struct Demands {
    /// Every reference names a key of the table.
    pub references: bool,
    /// Every union has an alternative.
    pub unions: bool,
    /// Every record requires only names of its own properties.
    pub records: bool,
}

/// Each of the names in `required` is among `names`.
pub open spec fn declared(required: Seq<Seq<char>>, names: Seq<Seq<char>>) -> bool {
    forall|k: int| 0 <= k < required.len() ==> names.contains(#[trigger] required[k])
}

/// The type position `spec` meets the demands `d`, where `keys` are the
/// keys of the table.
pub open spec fn spec_sound(spec: RawTypeSpec, keys: Seq<Seq<char>>, d: Demands) -> bool
    decreases spec,
{
    match spec {
        RawTypeSpec::Ref(key) => d.references ==> keys.contains(key),
        RawTypeSpec::Inline(def) => def_sound(def, keys, d),
        RawTypeSpec::Union(branches) => (d.unions ==> branches.len() > 0) && forall|i: int|
            0 <= i < branches.len() ==> spec_sound(#[trigger] branches[i], keys, d),
    }
}

/// The body `def` meets the demands `d`; see [`spec_sound`].
pub open spec fn def_sound(def: RawTypeDef, keys: Seq<Seq<char>>, d: Demands) -> bool
    decreases def,
{
    match def {
        RawTypeDef::Class(properties, required) => (d.records ==> declared(
            required,
            property_names(properties),
        )) && forall|i: int|
            0 <= i < properties.len() ==> spec_sound((#[trigger] properties[i]).1, keys, d),
        RawTypeDef::Array(items) => spec_sound(*items, keys, d),
        _ => true,
    }
}

/// Every definition of the table meets the demands `d`; see [`spec_sound`].
pub open spec fn table_sound(defs: Seq<(Seq<char>, RawTypeDef)>, d: Demands) -> bool {
    forall|j: int| 0 <= j < defs.len() ==> def_sound((#[trigger] defs[j]).1, def_keys(defs), d)
}

/// The schema meets the demands `d`, in its definitions and in its root;
/// see [`spec_sound`].
pub open spec fn schema_meets(schema: RawSchema, d: Demands) -> bool {
    &&& table_sound(schema.defs, d)
    &&& def_sound(RawTypeDef::Class(schema.properties, schema.required), def_keys(schema.defs), d)
}

/// The schema is sound: every reference names a key of the table, every
/// union has an alternative, and every record requires only names of its
/// own properties.
pub open spec fn schema_sound(schema: RawSchema) -> bool {
    schema_meets(schema, all_demands())
}

/// Whether the demands `d` leave room for the error `e`: an error for want
/// of depth, or one of a kind that `d` does not rule out. An unknown
/// reference names a key that is none of `keys`.
pub open spec fn blamed(e: ResolveErrorView, keys: Seq<Seq<char>>, d: Demands) -> bool {
    match e {
        ResolveErrorView::DepthExceeded { .. } => true,
        ResolveErrorView::UnknownReference { key, .. } => !d.references && !keys.contains(key),
        ResolveErrorView::EmptyUnion { .. } => !d.unions,
        ResolveErrorView::UnknownRequiredField { .. } => !d.records,
    }
}

/// Whether `outcome`, if it is an error, is one that the demands `d` leave
/// room for; see [`blamed`].
pub open spec fn genuine<T>(
    outcome: Result<T, ResolveErrorView>,
    keys: Seq<Seq<char>>,
    d: Demands,
) -> bool {
    outcome matches Err(e) ==> blamed(e, keys, d)
}

/// No definition of the table is a list.
pub open spec fn no_list_defined(defs: Seq<(Seq<char>, RawTypeDef)>) -> bool {
    forall|j: int| 0 <= j < defs.len() ==> !((#[trigger] defs[j]).1 is Array)
}

/// The larger of two numbers.
pub open spec fn larger(a: nat, b: nat) -> nat {
    if a >= b {
        a
    } else {
        b
    }
}

/// How deep the type positions in `spec` are nested, `spec` itself counted.
pub open spec fn spec_height(spec: RawTypeSpec) -> nat
    decreases spec,
{
    match spec {
        RawTypeSpec::Ref(_) => 1,
        RawTypeSpec::Inline(def) => 1 + def_height(def),
        RawTypeSpec::Union(branches) => 1 + specs_height(branches),
    }
}

/// The greatest height of the positions in `specs`.
pub open spec fn specs_height(specs: Seq<RawTypeSpec>) -> nat
    decreases specs,
{
    if specs.len() == 0 {
        0
    } else {
        larger(spec_height(specs.last()), specs_height(specs.drop_last()))
    }
}

/// How deep the type positions in the body `def` are nested.
pub open spec fn def_height(def: RawTypeDef) -> nat
    decreases def,
{
    match def {
        RawTypeDef::Class(properties, _) => properties_height(properties),
        RawTypeDef::Array(items) => spec_height(*items),
        _ => 0,
    }
}

/// The greatest height of the positions of `properties`.
pub open spec fn properties_height(properties: Seq<(Seq<char>, RawTypeSpec)>) -> nat
    decreases properties,
{
    if properties.len() == 0 {
        0
    } else {
        larger(spec_height(properties.last().1), properties_height(properties.drop_last()))
    }
}

/// The heights of the first `n` definitions, added up.
pub open spec fn table_height(defs: Seq<(Seq<char>, RawTypeDef)>, n: int) -> nat
    decreases n,
{
    if n <= 0 {
        0
    } else {
        table_height(defs, n - 1) + def_height(defs[n - 1].1)
    }
}

/// A depth limit under which a sound schema without list definitions is
/// resolved: the heights of all definitions added up, or the height of the
/// root properties if that is more.
pub open spec fn depth_needed(schema: RawSchema) -> nat {
    larger(table_height(schema.defs, schema.defs.len() as int), properties_height(schema.properties))
}

/// The heights of those among the first `n` definitions that no visit has
/// reached, added up.
pub open spec fn pending(env: Env, reg: RegistryView, n: int) -> nat
    decreases n,
{
    if n <= 0 {
        0
    } else if reg.states[n - 1] is Unvisited {
        pending(env, reg, n - 1) + def_height(env.defs[n - 1].1)
    } else {
        pending(env, reg, n - 1)
    }
}

/// The heights of all definitions that no visit has reached, added up.
pub open spec fn pending_all(env: Env, reg: RegistryView) -> nat {
    pending(env, reg, env.defs.len() as int)
}

/// Every definition in progress is a class.
pub open spec fn classes_in_progress(env: Env, reg: RegistryView) -> bool {
    forall|j: int|
        0 <= j < reg.states.len() && #[trigger] reg.states[j] is InProgress ==> env.defs[j].1 is Class
}

/// No position of `specs` is higher than all of them.
pub proof fn lemma_specs_height(specs: Seq<RawTypeSpec>, k: int)
    requires
        0 <= k < specs.len(),
    ensures
        spec_height(specs[k]) <= specs_height(specs),
    decreases specs.len(),
{
    if k < specs.len() - 1 {
        lemma_specs_height(specs.drop_last(), k);
    }
}

/// No property is higher than all of them.
pub proof fn lemma_properties_height(properties: Seq<(Seq<char>, RawTypeSpec)>, k: int)
    requires
        0 <= k < properties.len(),
    ensures
        spec_height(properties[k].1) <= properties_height(properties),
    decreases properties.len(),
{
    if k < properties.len() - 1 {
        lemma_properties_height(properties.drop_last(), k);
    }
}

/// Where every required name is declared, none is missing.
pub proof fn lemma_none_missing(required: Seq<Seq<char>>, names: Seq<Seq<char>>, i: int)
    requires
        declared(required, names),
        0 <= i,
    ensures
        first_missing(required, names, i) is None,
    decreases required.len() - i,
{
    if i < required.len() {
        assert(names.contains(required[i]));
        lemma_none_missing(required, names, i + 1);
    }
}

/// The empty demands.
pub open spec fn no_demands() -> Demands {
    Demands { references: false, unions: false, records: false }
}

/// Every demand.
pub open spec fn all_demands() -> Demands {
    Demands { references: true, unions: true, records: true }
}

/// Every type position meets the empty demands.
pub proof fn lemma_spec_free(spec: RawTypeSpec, keys: Seq<Seq<char>>)
    ensures
        spec_sound(spec, keys, no_demands()),
    decreases spec,
{
    match spec {
        RawTypeSpec::Inline(def) => {
            lemma_def_free(def, keys);
        },
        RawTypeSpec::Union(branches) => {
            assert forall|i: int| 0 <= i < branches.len() implies spec_sound(
                #[trigger] branches[i],
                keys,
                no_demands(),
            ) by {
                lemma_spec_free(branches[i], keys);
            }
        },
        _ => {},
    }
}

/// Every body meets the empty demands.
pub proof fn lemma_def_free(def: RawTypeDef, keys: Seq<Seq<char>>)
    ensures
        def_sound(def, keys, no_demands()),
    decreases def,
{
    match def {
        RawTypeDef::Class(properties, _) => {
            assert forall|i: int| 0 <= i < properties.len() implies spec_sound(
                (#[trigger] properties[i]).1,
                keys,
                no_demands(),
            ) by {
                lemma_spec_free(properties[i].1, keys);
            }
        },
        RawTypeDef::Array(items) => {
            lemma_spec_free(*items, keys);
        },
        _ => {},
    }
}

/// What is pending does not grow while no definition becomes unvisited.
pub proof fn lemma_pending_shrinks(env: Env, reg: RegistryView, after: RegistryView, n: int)
    requires
        0 <= n <= reg.states.len(),
        after.states.len() == reg.states.len(),
        forall|j: int|
            0 <= j < n && #[trigger] after.states[j] is Unvisited ==> reg.states[j] is Unvisited,
    ensures
        pending(env, after, n) <= pending(env, reg, n),
    decreases n,
{
    if n > 0 {
        lemma_pending_shrinks(env, reg, after, n - 1);
        if after.states[n - 1] is Unvisited {
            assert(reg.states[n - 1] is Unvisited);
        }
    }
}

/// What is pending does not grow in the course of a resolution.
pub proof fn lemma_pending_extends(env: Env, reg: RegistryView, after: RegistryView)
    requires
        inv(env, reg),
        extends(env, reg, after, None),
    ensures
        pending_all(env, after) <= pending_all(env, reg),
        classes_in_progress(env, reg) ==> classes_in_progress(env, after),
{
    assert forall|j: int|
        0 <= j < reg.states.len() && #[trigger] after.states[j] is Unvisited implies reg.states[j] is Unvisited by {
        assert(!(reg.states[j] is Resolved));
        assert(!(reg.states[j] is InProgress));
    }
    lemma_pending_shrinks(env, reg, after, env.defs.len() as int);
    if classes_in_progress(env, reg) {
        assert forall|j: int|
            0 <= j < after.states.len() && #[trigger] after.states[j] is InProgress implies env.defs[j].1 is Class by {
            assert(reg.states[j] is InProgress);
        }
    }
}

/// The start of a visit takes the height of the definition off what is
/// pending.
pub proof fn lemma_pending_visit(env: Env, reg: RegistryView, i: int, n: int)
    requires
        0 <= i < reg.states.len(),
        0 <= n <= reg.states.len(),
        reg.states[i] is Unvisited,
    ensures
        pending(env, reg, n) == pending(env, reg.with_state(i, ProgressView::InProgress), n) + (
        if i < n {
            def_height(env.defs[i].1)
        } else {
            0
        }),
    decreases n,
{
    if n > 0 {
        lemma_pending_visit(env, reg, i, n - 1);
    }
}

/// Nothing is pending where every definition is resolved.
pub proof fn lemma_pending_none(env: Env, reg: RegistryView, n: int)
    requires
        0 <= n <= reg.states.len(),
        at_rest(reg, reg.states.len() as int),
    ensures
        pending(env, reg, n) == 0,
    decreases n,
{
    if n > 0 {
        lemma_pending_none(env, reg, n - 1);
        assert(reg.states[n - 1] is Resolved);
    }
}

/// What is pending is no more than the heights of all definitions.
pub proof fn lemma_pending_bounded(env: Env, reg: RegistryView, n: int)
    ensures
        pending(env, reg, n) <= table_height(env.defs, n),
    decreases n,
{
    if n > 0 {
        lemma_pending_bounded(env, reg, n - 1);
    }
}

/// Whether under `fuel` levels of depth the resolution of something of
/// height `height` cannot fail: the schema is held to all demands, no
/// definition is a list, and the depth is enough.
pub open spec fn enough(env: Env, reg: RegistryView, d: Demands, height: nat, fuel: nat) -> bool {
    &&& d.references && d.unions && d.records
    &&& no_list_defined(env.defs)
    &&& classes_in_progress(env, reg)
    &&& fuel >= height + pending_all(env, reg)
}

/// A type position that meets the demands fails only as they leave room
/// for, and not at all where the depth is enough.
pub proof fn lemma_owed_spec(
    env: Env,
    reg: RegistryView,
    d: Demands,
    spec: RawTypeSpec,
    path: Seq<char>,
    stem: Seq<char>,
    fuel: nat,
)
    requires
        inv(env, reg),
        table_sound(env.defs, d),
        spec_sound(spec, def_keys(env.defs), d),
    ensures
        genuine(resolve_spec(env, reg, spec, path, stem, fuel), def_keys(env.defs), d),
        enough(env, reg, d, spec_height(spec), fuel) ==> resolve_spec(
            env,
            reg,
            spec,
            path,
            stem,
            fuel,
        ) is Ok,
    decreases fuel, 0int, 0int,
{
    if fuel == 0 {
    } else {
        match spec {
            RawTypeSpec::Ref(key) => {
                def_keys(env.defs).index_of_first_ensures(key);
                match def_keys(env.defs).index_of_first(key) {
                    Some(i) => match reg.states[i] {
                        ProgressView::Unvisited => {
                            lemma_owed_visit(env, reg, d, i, (fuel - 1) as nat);
                        },
                        _ => {},
                    },
                    None => {},
                }
            },
            RawTypeSpec::Inline(def) => {
                lemma_owed_body(env, reg, d, def, None, path, stem, (fuel - 1) as nat);
            },
            RawTypeSpec::Union(branches) => {
                lemma_owed_branches(
                    env,
                    reg,
                    d,
                    branches,
                    0,
                    Seq::empty(),
                    path,
                    stem,
                    (fuel - 1) as nat,
                );
                lemma_resolve_branches(
                    env,
                    reg,
                    branches,
                    0,
                    Seq::empty(),
                    path,
                    stem,
                    (fuel - 1) as nat,
                );
            },
        }
    }
}

/// The visit of a definition fails only as the demands leave room for, and
/// not at all where the depth is enough.
pub proof fn lemma_owed_visit(env: Env, reg: RegistryView, d: Demands, i: int, fuel: nat)
    requires
        inv(env, reg),
        table_sound(env.defs, d),
        0 <= i < env.defs.len(),
        reg.states[i] is Unvisited,
    ensures
        genuine(visit(env, reg, i, fuel), def_keys(env.defs), d),
        enough(env, reg, d, 0, fuel) ==> visit(env, reg, i, fuel) is Ok,
    decreases fuel, 3int, 0int,
{
    let started = reg.with_state(i, ProgressView::InProgress);
    lemma_start_visit(env, reg, i);
    lemma_pending_visit(env, reg, i, env.defs.len() as int);
    lemma_owed_body(
        env,
        started,
        d,
        env.defs[i].1,
        Some(env.names[i]),
        def_path(env.defs[i].0),
        env.names[i],
        fuel,
    );
    if env.defs[i].1 is Class {
        assert(classes_in_progress(env, reg) ==> classes_in_progress(env, started));
    }
}

/// A body that meets the demands fails only as they leave room for, and
/// not at all where the depth is enough. A body that is no class and no
/// list never fails.
pub proof fn lemma_owed_body(
    env: Env,
    reg: RegistryView,
    d: Demands,
    def: RawTypeDef,
    given: Option<Seq<char>>,
    path: Seq<char>,
    stem: Seq<char>,
    fuel: nat,
)
    requires
        inv(env, reg),
        given matches Some(n) ==> reserved(env, reg, n),
        table_sound(env.defs, d),
        def_sound(def, def_keys(env.defs), d),
    ensures
        genuine(resolve_body(env, reg, def, given, path, stem, fuel), def_keys(env.defs), d),
        enough(env, reg, d, def_height(def), fuel) ==> resolve_body(
            env,
            reg,
            def,
            given,
            path,
            stem,
            fuel,
        ) is Ok,
        !(def is Class) && !(def is Array) ==> resolve_body(
            env,
            reg,
            def,
            given,
            path,
            stem,
            fuel,
        ) is Ok,
    decreases fuel, 2int, 0int,
{
    match def {
        RawTypeDef::Class(properties, required) => {
            if d.records {
                lemma_none_missing(required, property_names(properties), 0);
            }
            let (named, name) = reg.named(given, stem);
            if given is None {
                lemma_take_fresh(env, reg, stem);
                lemma_pending_extends(env, reg, named);
            }
            lemma_owed_fields(
                env,
                named,
                d,
                properties,
                required,
                0,
                Seq::empty(),
                path,
                name,
                fuel,
            );
        },
        RawTypeDef::Array(items) => {
            lemma_owed_spec(env, reg, d, *items, items_path(path), items_stem(stem), fuel);
        },
        _ => {},
    }
}

/// The properties of a record that meet the demands fail only as they
/// leave room for, and not at all where the depth is enough.
pub proof fn lemma_owed_fields(
    env: Env,
    reg: RegistryView,
    d: Demands,
    properties: Seq<(Seq<char>, RawTypeSpec)>,
    required: Seq<Seq<char>>,
    i: int,
    done: Seq<PropertyView>,
    path: Seq<char>,
    owner: Seq<char>,
    fuel: nat,
)
    requires
        inv(env, reg),
        record_known(env, reg, done),
        table_sound(env.defs, d),
        forall|k: int|
            0 <= k < properties.len() ==> spec_sound(
                (#[trigger] properties[k]).1,
                def_keys(env.defs),
                d,
            ),
    ensures
        genuine(
            resolve_fields(env, reg, properties, required, i, done, path, owner, fuel),
            def_keys(env.defs),
            d,
        ),
        enough(env, reg, d, properties_height(properties), fuel) ==> resolve_fields(
            env,
            reg,
            properties,
            required,
            i,
            done,
            path,
            owner,
            fuel,
        ) is Ok,
    decreases fuel, 1int, properties.len() - i,
{
    if i < 0 || i >= properties.len() {
    } else {
        let name = properties[i].0;
        lemma_properties_height(properties, i);
        lemma_owed_spec(
            env,
            reg,
            d,
            properties[i].1,
            property_path(path, name),
            property_stem(owner, name),
            fuel,
        );
        lemma_resolve_spec(
            env,
            reg,
            properties[i].1,
            property_path(path, name),
            property_stem(owner, name),
            fuel,
        );
        match resolve_spec(
            env,
            reg,
            properties[i].1,
            property_path(path, name),
            property_stem(owner, name),
            fuel,
        ) {
            Ok((next, field)) => {
                let more = done.push(
                    PropertyView { name, field, optional: !required.contains(name) },
                );
                lemma_pending_extends(env, reg, next);
                lemma_record_known_grows(env, reg, next, done);
                assert(record_known(env, next, more)) by {
                    assert forall|k: int| 0 <= k < more.len() implies known(
                        env,
                        next,
                        #[trigger] more[k].field,
                    ) by {
                        if k < done.len() {
                            assert(more[k] == done[k]);
                        }
                    }
                }
                lemma_owed_fields(
                    env,
                    next,
                    d,
                    properties,
                    required,
                    i + 1,
                    more,
                    path,
                    owner,
                    fuel,
                );
            },
            Err(_) => {},
        }
    }
}

/// The alternatives of a union that meet the demands fail only as they
/// leave room for, and not at all where the depth is enough.
pub proof fn lemma_owed_branches(
    env: Env,
    reg: RegistryView,
    d: Demands,
    branches: Seq<RawTypeSpec>,
    i: int,
    done: Seq<FieldView>,
    path: Seq<char>,
    stem: Seq<char>,
    fuel: nat,
)
    requires
        inv(env, reg),
        all_known(env, reg, done),
        table_sound(env.defs, d),
        forall|k: int|
            0 <= k < branches.len() ==> spec_sound(#[trigger] branches[k], def_keys(env.defs), d),
    ensures
        genuine(
            resolve_branches(env, reg, branches, i, done, path, stem, fuel),
            def_keys(env.defs),
            d,
        ),
        enough(env, reg, d, specs_height(branches), fuel) ==> resolve_branches(
            env,
            reg,
            branches,
            i,
            done,
            path,
            stem,
            fuel,
        ) is Ok,
    decreases fuel, 1int, branches.len() - i,
{
    if i < 0 || i >= branches.len() {
    } else {
        lemma_specs_height(branches, i);
        lemma_owed_spec(env, reg, d, branches[i], branch_path(path, i), branch_stem(stem, i), fuel);
        lemma_resolve_spec(env, reg, branches[i], branch_path(path, i), branch_stem(stem, i), fuel);
        match resolve_spec(env, reg, branches[i], branch_path(path, i), branch_stem(stem, i), fuel) {
            Ok((next, field)) => {
                let more = done + flat(field);
                lemma_pending_extends(env, reg, next);
                lemma_all_known_grows(env, reg, next, done);
                assert(all_known(env, next, more)) by {
                    assert forall|k: int| 0 <= k < more.len() implies known(
                        env,
                        next,
                        #[trigger] more[k],
                    ) && !(more[k] is Union) by {
                        if k < done.len() {
                            assert(more[k] == done[k]);
                        } else {
                            assert(more[k] == flat(field)[k - done.len()]);
                        }
                    }
                }
                lemma_owed_branches(env, next, d, branches, i + 1, more, path, stem, fuel);
            },
            Err(_) => {},
        }
    }
}

/// The visits of a table that meets the demands fail only as they leave
/// room for, and not at all where the depth is enough.
pub proof fn lemma_owed_all(env: Env, reg: RegistryView, d: Demands, i: int, fuel: nat)
    requires
        inv(env, reg),
        0 <= i,
        at_rest(reg, i),
        table_sound(env.defs, d),
    ensures
        genuine(visit_all(env, reg, i, fuel), def_keys(env.defs), d),
        enough(env, reg, d, 0, fuel) ==> visit_all(env, reg, i, fuel) is Ok,
    decreases env.defs.len() - i,
{
    if i < env.defs.len() {
        match reg.states[i] {
            ProgressView::Unvisited => {
                lemma_owed_visit(env, reg, d, i, fuel);
                lemma_visit(env, reg, i, fuel);
                match visit(env, reg, i, fuel) {
                    Ok((after, _)) => {
                        lemma_pending_extends(env, reg, after);
                        assert(at_rest(after, i + 1)) by {
                            assert forall|j: int| 0 <= j < after.states.len() implies !(
                            #[trigger] after.states[j] is InProgress) by {
                                assert(!(reg.states[j] is InProgress));
                            }
                            assert forall|j: int|
                                0 <= j < i + 1 && j < after.states.len() implies #[trigger] after.states[j] is Resolved by {
                                if j < i {
                                    assert(reg.states[j] is Resolved);
                                }
                            }
                        }
                        lemma_owed_all(env, after, d, i + 1, fuel);
                    },
                    Err(_) => {},
                }
            },
            _ => {
                assert(at_rest(reg, i + 1));
                lemma_owed_all(env, reg, d, i + 1, fuel);
            },
        }
    }
}

/// Errors are genuine: a schema that meets the demands `d` fails only for
/// want of depth or with an error of a kind that `d` does not rule out.
pub proof fn lemma_errors_genuine(schema: RawSchema, max_depth: nat, d: Demands)
    requires
        schema_meets(schema, d),
    ensures
        genuine(resolve_model(schema, max_depth), def_keys(schema.defs), d),
{
    let env = env_of(schema);
    let start = initial_registry(env);
    let root = RawTypeDef::Class(schema.properties, schema.required);
    assert forall|k: int| 0 <= k < schema.properties.len() implies spec_sound(
        (#[trigger] schema.properties[k]).1,
        def_keys(schema.defs),
        d,
    ) by {
        assert(spec_sound((#[trigger] root->Class_0[k]).1, def_keys(schema.defs), d));
    }
    lemma_initial(schema);
    lemma_owed_all(env, start, d, 0, max_depth);
    lemma_visit_all(env, start, 0, max_depth);
    match visit_all(env, start, 0, max_depth) {
        Ok(reg) => {
            if d.records {
                lemma_none_missing(schema.required, property_names(schema.properties), 0);
            }
            assert(record_known(env, reg, Seq::empty()));
            lemma_owed_fields(
                env,
                reg,
                d,
                schema.properties,
                schema.required,
                0,
                Seq::empty(),
                Seq::empty(),
                Seq::empty(),
                max_depth,
            );
        },
        Err(_) => {},
    }
}

/// The key that an unknown reference error cites is none of the table.
pub proof fn lemma_unknown_key_is_unbound(schema: RawSchema, max_depth: nat)
    ensures
        resolve_model(schema, max_depth) matches Err(
            ResolveErrorView::UnknownReference { key, .. },
        ) ==> !def_keys(schema.defs).contains(key),
{
    let keys = def_keys(schema.defs);
    assert forall|j: int| 0 <= j < schema.defs.len() implies def_sound(
        (#[trigger] schema.defs[j]).1,
        keys,
        no_demands(),
    ) by {
        lemma_def_free(schema.defs[j].1, keys);
    }
    lemma_def_free(RawTypeDef::Class(schema.properties, schema.required), keys);
    lemma_errors_genuine(schema, max_depth, no_demands());
}

/// A sound schema fails for want of depth only: an unknown reference, an
/// empty union and an unknown required field are errors of schemas that are
/// not sound.
pub proof fn lemma_sound_schema_fails_for_depth_only(schema: RawSchema, max_depth: nat)
    requires
        schema_sound(schema),
    ensures
        resolve_model(schema, max_depth) matches Err(e) ==> e is DepthExceeded,
{
    lemma_errors_genuine(schema, max_depth, all_demands());
}

/// Success is owed: a sound schema in which no definition is a list is
/// resolved under every depth limit from `depth_needed` on.
pub proof fn lemma_success_owed(schema: RawSchema, max_depth: nat)
    requires
        schema_sound(schema),
        no_list_defined(schema.defs),
        max_depth >= depth_needed(schema),
    ensures
        resolve_model(schema, max_depth) is Ok,
{
    let d = all_demands();
    let env = env_of(schema);
    let start = initial_registry(env);
    lemma_initial(schema);
    lemma_pending_bounded(env, start, env.defs.len() as int);
    lemma_owed_all(env, start, d, 0, max_depth);
    lemma_visit_all(env, start, 0, max_depth);
    match visit_all(env, start, 0, max_depth) {
        Ok(reg) => {
            lemma_none_missing(schema.required, property_names(schema.properties), 0);
            lemma_pending_none(env, reg, env.defs.len() as int);
            assert(record_known(env, reg, Seq::empty()));
            assert(classes_in_progress(env, reg));
            lemma_owed_fields(
                env,
                reg,
                d,
                schema.properties,
                schema.required,
                0,
                Seq::empty(),
                Seq::empty(),
                Seq::empty(),
                max_depth,
            );
        },
        Err(_) => {},
    }
}

} // verus!
