//! What resolution means: a function from a raw schema and a depth limit to
//! an output model or an error, over mathematical values.
//!
//! Definitions are visited in the order of the table. A visit marks its
//! definition as in progress, resolves the body and records the result. A
//! reference to a recorded definition yields the record. A reference to a
//! definition in progress closes a cycle: it yields the name of the class or
//! enum, and fails where the definition has no name to give, as a list that
//! holds itself has none. Every type position that is entered uses up one
//! level of the depth limit; resolution fails at the position that finds
//! none left.
//!
//! A class or an enum that is written out in place is emitted like one of
//! the table, under a name made from its place: the root property `p` gives
//! `p`, the property `p` of the entry `E` gives `E_p`, the items of a list
//! add `_item`, and alternative `i` of a union adds `_i`. While the name is
//! taken, one more `_` is appended.
//!
//! Paths name places for the errors: `properties.p` is a root property,
//! `$defs.K` the definition under the key `K`, and below a place,
//! `.properties.p`, `.items` and `.anyOf.i` lead on.

use vstd::prelude::*;
use crate::error::ResolveErrorView;
use crate::model::{ClassView, EnumView, FieldView, ModelView, Primitive, PropertyView};
use crate::names::{final_names, fresh};
use crate::schema::{def_keys, RawSchema, RawTypeDef, RawTypeSpec};
use crate::text::{decimal, join};

verus! {

/// How far the resolution of a definition has come.
pub enum ProgressView {
    Unvisited,
    InProgress,
    Resolved(FieldView),
}

/// Mathematical model of the resolution registry.
pub struct RegistryView {
    /// The state of each definition, in the order of the table.
    pub states: Seq<ProgressView>,
    /// Every final name handed out so far.
    pub used: Seq<Seq<char>>,
    /// The enums emitted so far.
    pub enums: Seq<EnumView>,
    /// The classes emitted so far.
    pub classes: Seq<ClassView>,
}

/// What a resolution reads and never changes: the table and the final name
/// of each of its keys.
pub struct Env {
    pub defs: Seq<(Seq<char>, RawTypeDef)>,
    pub names: Seq<Seq<char>>,
}

/// The result of resolving one type position.
pub type Outcome = Result<(RegistryView, FieldView), ResolveErrorView>;

impl RegistryView {
    pub open spec fn with_state(self, i: int, state: ProgressView) -> RegistryView {
        RegistryView { states: self.states.update(i, state), ..self }
    }

    pub open spec fn with_used(self, name: Seq<char>) -> RegistryView {
        RegistryView { used: self.used.push(name), ..self }
    }

    pub open spec fn with_enum(self, entry: EnumView) -> RegistryView {
        RegistryView { enums: self.enums.push(entry), ..self }
    }

    pub open spec fn with_class(self, entry: ClassView) -> RegistryView {
        RegistryView { classes: self.classes.push(entry), ..self }
    }

    /// The name of an entry: the given one for a definition, a fresh one
    /// made from `stem` for an inline type, which is then taken.
    pub open spec fn named(self, given: Option<Seq<char>>, stem: Seq<char>) -> (
        RegistryView,
        Seq<char>,
    ) {
        match given {
            Some(name) => (self, name),
            None => (self.with_used(fresh(self.used, stem)), fresh(self.used, stem)),
        }
    }
}

/// The path of the definition under `key`.
pub open spec fn def_path(key: Seq<char>) -> Seq<char> {
    join("$defs"@, "."@, key)
}

/// The path of the property `name` of the class at `path`.
pub open spec fn property_path(path: Seq<char>, name: Seq<char>) -> Seq<char> {
    join(join(path, "."@, "properties"@), "."@, name)
}

/// The path of the items of the array at `path`.
pub open spec fn items_path(path: Seq<char>) -> Seq<char> {
    join(path, "."@, "items"@)
}

/// The path of alternative `i` of the union at `path`.
pub open spec fn branch_path(path: Seq<char>, i: int) -> Seq<char> {
    join(join(path, "."@, "anyOf"@), "."@, decimal(i as nat))
}

/// The stem for names under the property `name` of the entry `owner`.
pub open spec fn property_stem(owner: Seq<char>, name: Seq<char>) -> Seq<char> {
    join(owner, "_"@, name)
}

/// The stem for names under the items of an array with stem `stem`.
pub open spec fn items_stem(stem: Seq<char>) -> Seq<char> {
    join(stem, "_"@, "item"@)
}

/// The stem for names under alternative `i` of a union with stem `stem`.
pub open spec fn branch_stem(stem: Seq<char>, i: int) -> Seq<char> {
    join(stem, "_"@, decimal(i as nat))
}

/// The names of `properties`, in order.
pub open spec fn property_names(properties: Seq<(Seq<char>, RawTypeSpec)>) -> Seq<Seq<char>> {
    Seq::new(properties.len(), |i: int| properties[i].0)
}

/// The first name of `required`, from position `i` on, that is not in
/// `names`.
pub open spec fn first_missing(required: Seq<Seq<char>>, names: Seq<Seq<char>>, i: int) -> Option<
    Seq<char>,
>
    decreases required.len() - i,
{
    if i < 0 || i >= required.len() {
        None
    } else if !names.contains(required[i]) {
        Some(required[i])
    } else {
        first_missing(required, names, i + 1)
    }
}

/// What a reference to definition `i` yields while that definition is in
/// progress: its name if it is a class or an enum, nothing otherwise.
pub open spec fn forward_handle(env: Env, i: int) -> Option<FieldView> {
    match env.defs[i].1 {
        RawTypeDef::Class(_, _) => Some(FieldView::Class(env.names[i])),
        RawTypeDef::StringOrEnum(Some(_)) => Some(FieldView::Enum(env.names[i])),
        _ => None,
    }
}

/// The alternatives that `field` adds to a union: its own alternatives if it
/// is a union, else itself.
pub open spec fn flat(field: FieldView) -> Seq<FieldView> {
    match field {
        FieldView::Union(fields) => fields,
        _ => seq![field],
    }
}

/// Resolves the type position `spec`, found at `path`, with `fuel` levels of
/// depth left.
pub open spec fn resolve_spec(
    env: Env,
    reg: RegistryView,
    spec: RawTypeSpec,
    path: Seq<char>,
    stem: Seq<char>,
    fuel: nat,
) -> Outcome
    decreases fuel, 0int, 0int,
{
    if fuel == 0 {
        Err(ResolveErrorView::DepthExceeded { path })
    } else {
        match spec {
            RawTypeSpec::Ref(key) => match def_keys(env.defs).index_of_first(key) {
                None => Err(ResolveErrorView::UnknownReference { key, path }),
                Some(i) => match reg.states[i] {
                    ProgressView::Resolved(field) => Ok((reg, field)),
                    ProgressView::InProgress => match forward_handle(env, i) {
                        Some(field) => Ok((reg, field)),
                        None => Err(ResolveErrorView::DepthExceeded { path }),
                    },
                    ProgressView::Unvisited => visit(env, reg, i, (fuel - 1) as nat),
                },
            },
            RawTypeSpec::Inline(def) => resolve_body(
                env,
                reg,
                def,
                None,
                path,
                stem,
                (fuel - 1) as nat,
            ),
            RawTypeSpec::Union(branches) => match resolve_branches(
                env,
                reg,
                branches,
                0,
                Seq::empty(),
                path,
                stem,
                (fuel - 1) as nat,
            ) {
                Err(e) => Err(e),
                Ok((after, fields)) => if fields.len() == 0 {
                    Err(ResolveErrorView::EmptyUnion { path })
                } else {
                    Ok((after, FieldView::Union(fields)))
                },
            },
        }
    }
}

/// Visits definition `i`: marks it as in progress, resolves its body under
/// its final name, and records the result.
pub open spec fn visit(env: Env, reg: RegistryView, i: int, fuel: nat) -> Outcome
    decreases fuel, 3int, 0int,
{
    match resolve_body(
        env,
        reg.with_state(i, ProgressView::InProgress),
        env.defs[i].1,
        Some(env.names[i]),
        def_path(env.defs[i].0),
        env.names[i],
        fuel,
    ) {
        Err(e) => Err(e),
        Ok((after, field)) => Ok((after.with_state(i, ProgressView::Resolved(field)), field)),
    }
}

/// Resolves the body `def`. A class or an enum is emitted under the `given`
/// name, or under a fresh name made from `stem` where none is given.
pub open spec fn resolve_body(
    env: Env,
    reg: RegistryView,
    def: RawTypeDef,
    given: Option<Seq<char>>,
    path: Seq<char>,
    stem: Seq<char>,
    fuel: nat,
) -> Outcome
    decreases fuel, 2int, 0int,
{
    match def {
        RawTypeDef::StringOrEnum(None) => Ok((reg, FieldView::Primitive(Primitive::String))),
        RawTypeDef::StringOrEnum(Some(values)) => {
            let (named, name) = reg.named(given, stem);
            Ok((named.with_enum(EnumView { name, values }), FieldView::Enum(name)))
        },
        RawTypeDef::Class(properties, required) => match first_missing(
            required,
            property_names(properties),
            0,
        ) {
            Some(field) => Err(ResolveErrorView::UnknownRequiredField { path, field }),
            None => {
                let (named, name) = reg.named(given, stem);
                match resolve_fields(
                    env,
                    named,
                    properties,
                    required,
                    0,
                    Seq::empty(),
                    path,
                    name,
                    fuel,
                ) {
                    Err(e) => Err(e),
                    Ok((after, fields)) => Ok(
                        (after.with_class(ClassView { name, fields }), FieldView::Class(name)),
                    ),
                }
            },
        },
        RawTypeDef::Array(items) => match resolve_spec(
            env,
            reg,
            *items,
            items_path(path),
            items_stem(stem),
            fuel,
        ) {
            Err(e) => Err(e),
            Ok((after, field)) => Ok((after, FieldView::List(Box::new(field)))),
        },
        RawTypeDef::Int => Ok((reg, FieldView::Primitive(Primitive::Int))),
        RawTypeDef::Float => Ok((reg, FieldView::Primitive(Primitive::Float))),
        RawTypeDef::Bool => Ok((reg, FieldView::Primitive(Primitive::Bool))),
        RawTypeDef::Null => Ok((reg, FieldView::Primitive(Primitive::Null))),
    }
}

/// Resolves the properties of a record from position `i` on and appends
/// them to `done`. A property is optional unless `required` holds its name.
pub open spec fn resolve_fields(
    env: Env,
    reg: RegistryView,
    properties: Seq<(Seq<char>, RawTypeSpec)>,
    required: Seq<Seq<char>>,
    i: int,
    done: Seq<PropertyView>,
    path: Seq<char>,
    owner: Seq<char>,
    fuel: nat,
) -> Result<(RegistryView, Seq<PropertyView>), ResolveErrorView>
    decreases fuel, 1int, properties.len() - i,
{
    if i < 0 || i >= properties.len() {
        Ok((reg, done))
    } else {
        let name = properties[i].0;
        match resolve_spec(
            env,
            reg,
            properties[i].1,
            property_path(path, name),
            property_stem(owner, name),
            fuel,
        ) {
            Err(e) => Err(e),
            Ok((after, field)) => resolve_fields(
                env,
                after,
                properties,
                required,
                i + 1,
                done.push(PropertyView { name, field, optional: !required.contains(name) }),
                path,
                owner,
                fuel,
            ),
        }
    }
}

/// Resolves the alternatives of a union from position `i` on and appends
/// them to `done`, the alternatives of a nested union in its place.
pub open spec fn resolve_branches(
    env: Env,
    reg: RegistryView,
    branches: Seq<RawTypeSpec>,
    i: int,
    done: Seq<FieldView>,
    path: Seq<char>,
    stem: Seq<char>,
    fuel: nat,
) -> Result<(RegistryView, Seq<FieldView>), ResolveErrorView>
    decreases fuel, 1int, branches.len() - i,
{
    if i < 0 || i >= branches.len() {
        Ok((reg, done))
    } else {
        match resolve_spec(
            env,
            reg,
            branches[i],
            branch_path(path, i),
            branch_stem(stem, i),
            fuel,
        ) {
            Err(e) => Err(e),
            Ok((after, field)) => resolve_branches(
                env,
                after,
                branches,
                i + 1,
                done + flat(field),
                path,
                stem,
                fuel,
            ),
        }
    }
}

/// Visits, in the order of the table, each definition from position `i` on
/// that no earlier visit has reached.
pub open spec fn visit_all(env: Env, reg: RegistryView, i: int, fuel: nat) -> Result<
    RegistryView,
    ResolveErrorView,
>
    decreases env.defs.len() - i,
{
    if i < 0 || i >= env.defs.len() {
        Ok(reg)
    } else {
        match reg.states[i] {
            ProgressView::Unvisited => match visit(env, reg, i, fuel) {
                Err(e) => Err(e),
                Ok((after, _)) => visit_all(env, after, i + 1, fuel),
            },
            _ => visit_all(env, reg, i + 1, fuel),
        }
    }
}

/// The environment of a schema: its table and the final names of its keys.
pub open spec fn env_of(schema: RawSchema) -> Env {
    Env { defs: schema.defs, names: final_names(def_keys(schema.defs)) }
}

/// The registry before any visit: the final names of the keys are taken and
/// nothing is emitted.
pub open spec fn initial_registry(env: Env) -> RegistryView {
    RegistryView {
        states: Seq::new(env.defs.len(), |i: int| ProgressView::Unvisited),
        used: env.names,
        enums: Seq::empty(),
        classes: Seq::empty(),
    }
}

/// The output model of `schema` where type positions may be nested
/// `max_depth` deep, or the first error met.
pub open spec fn resolve_model(schema: RawSchema, max_depth: nat) -> Result<
    ModelView,
    ResolveErrorView,
> {
    let env = env_of(schema);
    match visit_all(env, initial_registry(env), 0, max_depth) {
        Err(e) => Err(e),
        Ok(reg) => match first_missing(schema.required, property_names(schema.properties), 0) {
            Some(field) => Err(
                ResolveErrorView::UnknownRequiredField { path: Seq::empty(), field },
            ),
            None => match resolve_fields(
                env,
                reg,
                schema.properties,
                schema.required,
                0,
                Seq::empty(),
                Seq::empty(),
                Seq::empty(),
                max_depth,
            ) {
                Err(e) => Err(e),
                Ok((after, fields)) => Ok(
                    ModelView { enums: after.enums, classes: after.classes, fields },
                ),
            },
        },
    }
}

} // verus!
