//! The type resolver: from a raw schema to the output model.

use vstd::prelude::*;
use crate::error::{ResolveError, ResolveErrorView};
use crate::laws::{lemma_model_reflects, lemma_model_well_formed, reflects};
use crate::model::{
    fields_view, lemma_union_view, record_view, OutputModel, Primitive, PropertyView,
    ResolvedClass, ResolvedEnum, ResolvedField, ResolvedProperty,
};
use crate::names::{assign_name, final_names, names_upto};
use crate::registry::{name_view, Progress, Registry};
use crate::schema::{
    def_keys, defs_view, lemma_class_view, lemma_union_spec_view, properties_view, specs_view,
    Schema, TypeDef, TypeSpec, TypeSpecWithMeta,
};
use crate::semantics::{
    branch_path, branch_stem, def_path, env_of, first_missing, flat, forward_handle,
    initial_registry, items_path, items_stem, property_names, property_path, property_stem,
    resolve_body, resolve_branches, resolve_fields, resolve_model, resolve_spec, visit, visit_all,
    Env, Outcome, RegistryView,
};
use crate::success::{
    blamed, depth_needed, genuine, lemma_errors_genuine, lemma_success_owed, no_list_defined,
    schema_meets, schema_sound, Demands,
};
use crate::text::{contains_text, decimal_text, deep, join_text, text_eq};

verus! {

/// The limits of a resolution.
#[derive(Clone, Copy, Debug, PartialEq, Eq)]
pub struct ResolveOptions {
    /// How deep type positions may be nested.
    pub max_depth: usize,
}

impl Default for ResolveOptions {
    fn default() -> (r: ResolveOptions)
        ensures
            r.max_depth == 64,
    {
        ResolveOptions { max_depth: 64 }
    }
}

/// What a resolution reads: the definition table and the final name of each
/// of its keys.
struct Context<'a> {
    defs: &'a Vec<(String, TypeDef)>,
    names: Vec<String>,
}

impl<'a> View for Context<'a> {
    type V = Env;

    closed spec fn view(&self) -> Env {
        Env { defs: defs_view(self.defs@), names: deep(self.names@) }
    }
}

impl<'a> Context<'a> {
    /// The registry has a state, and the context a name, for each definition.
    spec fn fits(&self, reg: RegistryView) -> bool {
        self.names@.len() == self.defs@.len() && reg.states.len() == self.defs@.len()
    }
}

/// Whether `r` and the registry `reg` are what `model` says.
spec fn agrees(
    r: Result<ResolvedField, ResolveError>,
    reg: RegistryView,
    model: Outcome,
) -> bool {
    match model {
        Ok((m, field)) => r matches Ok(x) && x@ == field && reg == m,
        Err(e) => r matches Err(x) && x@ == e,
    }
}

/// Whether the record `r` and the registry `reg` are what `model` says.
spec fn record_agrees(
    r: Result<Vec<ResolvedProperty>, ResolveError>,
    reg: RegistryView,
    model: Result<(RegistryView, Seq<PropertyView>), ResolveErrorView>,
) -> bool {
    match model {
        Ok((m, fields)) => r matches Ok(x) && record_view(x@) == fields && reg == m,
        Err(e) => r matches Err(x) && x@ == e,
    }
}

/// The position of `key` in the table, if it is bound.
fn find_def(defs: &Vec<(String, TypeDef)>, key: &str) -> (r: Option<usize>)
    ensures
        match def_keys(defs_view(defs@)).index_of_first(key@) {
            Some(i) => r matches Some(x) && x == i && x < defs@.len(),
            None => r is None,
        },
{
    let ghost keys = def_keys(defs_view(defs@));
    let mut i: usize = 0;
    while i < defs.len()
        invariant
            i <= defs.len(),
            keys == def_keys(defs_view(defs@)),
            forall|j: int| 0 <= j < i ==> keys[j] != key@,
        decreases defs.len() - i,
    {
        if text_eq(defs[i].0.as_str(), key) {
            proof {
                keys.index_of_first_ensures(key@);
                assert(keys[i as int] == key@);
            }
            return Some(i);
        }
        i += 1;
    }
    proof {
        keys.index_of_first_ensures(key@);
    }
    None
}

/// The first of the names in `required` that no property bears.
fn find_missing(required: &Vec<String>, properties: &Vec<(String, TypeSpecWithMeta)>) -> (r:
    Option<String>)
    ensures
        match first_missing(deep(required@), property_names(properties_view(properties@)), 0) {
            Some(name) => r matches Some(x) && x@ == name,
            None => r is None,
        },
{
    let ghost names = property_names(properties_view(properties@));
    let mut i: usize = 0;
    while i < required.len()
        invariant
            i <= required.len(),
            names == property_names(properties_view(properties@)),
            first_missing(deep(required@), names, 0) == first_missing(
                deep(required@),
                names,
                i as int,
            ),
        decreases required.len() - i,
    {
        let mut j: usize = 0;
        while j < properties.len() && !text_eq(properties[j].0.as_str(), required[i].as_str())
            invariant
                j <= properties.len(),
                i < required.len(),
                names == property_names(properties_view(properties@)),
                forall|k: int| 0 <= k < j ==> names[k] != required[i as int]@,
            decreases properties.len() - j,
        {
            j += 1;
        }
        if j == properties.len() {
            return Some(required[i].clone());
        }
        assert(names[j as int] == required[i as int]@);
        i += 1;
    }
    None
}

/// Copies of the strings in `items`.
fn clone_texts(items: &Vec<String>) -> (r: Vec<String>)
    ensures
        deep(r@) == deep(items@),
{
    let mut r: Vec<String> = Vec::new();
    let mut i: usize = 0;
    while i < items.len()
        invariant
            i <= items.len(),
            r.len() == i,
            forall|j: int| 0 <= j < i ==> r[j]@ == items[j]@,
        decreases items.len() - i,
    {
        r.push(items[i].clone());
        i += 1;
    }
    assert(deep(r@) =~= deep(items@));
    r
}

/// The path of alternative `i` of the union at `path`.
fn path_of_branch(path: &str, i: usize) -> (r: String)
    ensures
        r@ == branch_path(path@, i as int),
{
    join_text(join_text(path, ".", "anyOf").as_str(), ".", decimal_text(i).as_str())
}

/// The stem for names under alternative `i` of a union with stem `stem`.
fn stem_of_branch(stem: &str, i: usize) -> (r: String)
    ensures
        r@ == branch_stem(stem@, i as int),
{
    join_text(stem, "_", decimal_text(i).as_str())
}

/// The path of the property `name` of the record at `path`.
fn path_of_property(path: &str, name: &str) -> (r: String)
    ensures
        r@ == property_path(path@, name@),
{
    join_text(join_text(path, ".", "properties").as_str(), ".", name)
}

/// What a reference to definition `i` yields while that definition is in
/// progress.
fn forward(ctx: &Context, i: usize) -> (r: Option<ResolvedField>)
    requires
        i < ctx.defs@.len(),
        ctx.names@.len() == ctx.defs@.len(),
    ensures
        match forward_handle(ctx@, i as int) {
            Some(field) => r matches Some(x) && x@ == field,
            None => r is None,
        },
{
    match &ctx.defs[i].1 {
        TypeDef::Class(_) => Some(ResolvedField::Class(ctx.names[i].clone())),
        TypeDef::StringOrEnum(s) => match &s.values {
            Some(_) => Some(ResolvedField::Enum(ctx.names[i].clone())),
            None => None,
        },
        _ => None,
    }
}

/// Resolves the type position `spec`, found at `path`.
#[verifier::loop_isolation(false)]
fn resolve_position(
    ctx: &Context,
    reg: &mut Registry,
    spec: &TypeSpecWithMeta,
    path: &str,
    stem: &str,
    fuel: usize,
) -> (r: Result<ResolvedField, ResolveError>)
    requires
        ctx.fits(old(reg)@),
    ensures
        agrees(r, final(reg)@, resolve_spec(ctx@, old(reg)@, spec@, path@, stem@, fuel as nat)),
        r is Ok ==> ctx.fits(final(reg)@),
    decreases fuel, 0int,
{
    if fuel == 0 {
        return Err(ResolveError::DepthExceeded { path: String::from_str(path) });
    }
    match &spec.type_spec {
        TypeSpec::Ref(target) => {
            match find_def(ctx.defs, target.key.as_str()) {
                None => Err(
                    ResolveError::UnknownReference {
                        key: target.key.clone(),
                        path: String::from_str(path),
                    },
                ),
                Some(i) => match reg.state(i) {
                    Progress::Resolved(field) => Ok(field),
                    Progress::InProgress => match forward(ctx, i) {
                        Some(field) => Ok(field),
                        None => Err(ResolveError::DepthExceeded { path: String::from_str(path) }),
                    },
                    Progress::Unvisited => visit_definition(ctx, reg, i, fuel - 1),
                },
            }
        },
        TypeSpec::Inline(def) => resolve_type(ctx, reg, def, None, path, stem, fuel - 1),
        TypeSpec::Union(u) => {
            let ghost start = reg@;
            let ghost branches = specs_view(u.any_of@);
            proof {
                lemma_union_spec_view(*u);
            }
            let mut fields: Vec<ResolvedField> = Vec::new();
            let mut i: usize = 0;
            assert(fields_view(fields@) =~= Seq::empty());
            while i < u.any_of.len()
                invariant
                    i <= u.any_of.len(),
                    fuel > 0,
                    ctx.fits(reg@),
                    branches == specs_view(u.any_of@),
                    resolve_branches(
                        ctx@,
                        start,
                        branches,
                        0,
                        Seq::empty(),
                        path@,
                        stem@,
                        (fuel - 1) as nat,
                    ) == resolve_branches(
                        ctx@,
                        reg@,
                        branches,
                        i as int,
                        fields_view(fields@),
                        path@,
                        stem@,
                        (fuel - 1) as nat,
                    ),
                decreases u.any_of.len() - i,
            {
                let at = path_of_branch(path, i);
                let under = stem_of_branch(stem, i);
                let ghost before = fields_view(fields@);
                match resolve_position(
                    ctx,
                    reg,
                    &u.any_of[i],
                    at.as_str(),
                    under.as_str(),
                    fuel - 1,
                ) {
                    Err(e) => {
                        return Err(e);
                    },
                    Ok(field) => {
                        let ghost added = flat(field@);
                        match field {
                            ResolvedField::Union(inner) => {
                                proof {
                                    lemma_union_view(inner);
                                }
                                let mut inner = inner;
                                fields.append(&mut inner);
                            },
                            other => {
                                fields.push(other);
                            },
                        }
                        assert(fields_view(fields@) =~= before + added);
                    },
                }
                i += 1;
            }
            if fields.len() == 0 {
                Err(ResolveError::EmptyUnion { path: String::from_str(path) })
            } else {
                proof {
                    lemma_union_view(fields);
                }
                Ok(ResolvedField::Union(fields))
            }
        },
    }
}

/// Visits definition `i`, which no visit has reached yet.
fn visit_definition(ctx: &Context, reg: &mut Registry, i: usize, fuel: usize) -> (r: Result<
    ResolvedField,
    ResolveError,
>)
    requires
        ctx.fits(old(reg)@),
        i < ctx.defs@.len(),
    ensures
        agrees(r, final(reg)@, visit(ctx@, old(reg)@, i as int, fuel as nat)),
        r is Ok ==> ctx.fits(final(reg)@),
    decreases fuel, 3int,
{
    reg.set_state(i, Progress::InProgress);
    let path = join_text("$defs", ".", ctx.defs[i].0.as_str());
    assert(path@ == def_path(ctx@.defs[i as int].0));
    match resolve_type(
        ctx,
        reg,
        &ctx.defs[i].1,
        Some(&ctx.names[i]),
        path.as_str(),
        ctx.names[i].as_str(),
        fuel,
    ) {
        Err(e) => Err(e),
        Ok(field) => {
            reg.set_state(i, Progress::Resolved(field.duplicate()));
            Ok(field)
        },
    }
}

/// Resolves the body `def` of a definition or of an inline type.
fn resolve_type(
    ctx: &Context,
    reg: &mut Registry,
    def: &TypeDef,
    given: Option<&String>,
    path: &str,
    stem: &str,
    fuel: usize,
) -> (r: Result<ResolvedField, ResolveError>)
    requires
        ctx.fits(old(reg)@),
    ensures
        agrees(
            r,
            final(reg)@,
            resolve_body(ctx@, old(reg)@, def@, name_view(given), path@, stem@, fuel as nat),
        ),
        r is Ok ==> ctx.fits(final(reg)@),
    decreases fuel, 2int,
{
    match def {
        TypeDef::StringOrEnum(s) => match &s.values {
            None => Ok(ResolvedField::Primitive(Primitive::String)),
            Some(values) => {
                let name = reg.name_entry(given, stem);
                reg.emit_enum(ResolvedEnum { name: name.clone(), values: clone_texts(values) });
                Ok(ResolvedField::Enum(name))
            },
        },
        TypeDef::Class(c) => {
            proof {
                lemma_class_view(*c);
            }
            match find_missing(&c.required, &c.properties) {
                Some(field) => Err(
                    ResolveError::UnknownRequiredField { path: String::from_str(path), field },
                ),
                None => {
                    let name = reg.name_entry(given, stem);
                    match resolve_record(
                        ctx,
                        reg,
                        &c.properties,
                        &c.required,
                        path,
                        name.as_str(),
                        fuel,
                    ) {
                        Err(e) => Err(e),
                        Ok(fields) => {
                            reg.emit_class(ResolvedClass { name: name.clone(), fields });
                            Ok(ResolvedField::Class(name))
                        },
                    }
                },
            }
        },
        TypeDef::Array(a) => {
            let at = join_text(path, ".", "items");
            let under = join_text(stem, "_", "item");
            assert(at@ == items_path(path@) && under@ == items_stem(stem@));
            match resolve_position(
                ctx,
                reg,
                &a.items,
                at.as_str(),
                under.as_str(),
                fuel,
            ) {
                Err(e) => Err(e),
                Ok(field) => Ok(ResolvedField::List(Box::new(field))),
            }
        },
        TypeDef::Int => Ok(ResolvedField::Primitive(Primitive::Int)),
        TypeDef::Float => Ok(ResolvedField::Primitive(Primitive::Float)),
        TypeDef::Bool => Ok(ResolvedField::Primitive(Primitive::Bool)),
        TypeDef::Null => Ok(ResolvedField::Primitive(Primitive::Null)),
    }
}

/// Resolves the properties of the record at `path`, whose entry is named
/// `owner`.
#[verifier::loop_isolation(false)]
fn resolve_record(
    ctx: &Context,
    reg: &mut Registry,
    properties: &Vec<(String, TypeSpecWithMeta)>,
    required: &Vec<String>,
    path: &str,
    owner: &str,
    fuel: usize,
) -> (r: Result<Vec<ResolvedProperty>, ResolveError>)
    requires
        ctx.fits(old(reg)@),
    ensures
        record_agrees(
            r,
            final(reg)@,
            resolve_fields(
                ctx@,
                old(reg)@,
                properties_view(properties@),
                deep(required@),
                0,
                Seq::empty(),
                path@,
                owner@,
                fuel as nat,
            ),
        ),
        r is Ok ==> ctx.fits(final(reg)@),
    decreases fuel, 1int,
{
    let ghost start = reg@;
    let ghost props = properties_view(properties@);
    let mut fields: Vec<ResolvedProperty> = Vec::new();
    let mut i: usize = 0;
    assert(record_view(fields@) =~= Seq::empty());
    while i < properties.len()
        invariant
            i <= properties.len(),
            ctx.fits(reg@),
            props == properties_view(properties@),
            resolve_fields(
                ctx@,
                start,
                props,
                deep(required@),
                0,
                Seq::empty(),
                path@,
                owner@,
                fuel as nat,
            ) == resolve_fields(
                ctx@,
                reg@,
                props,
                deep(required@),
                i as int,
                record_view(fields@),
                path@,
                owner@,
                fuel as nat,
            ),
        decreases properties.len() - i,
    {
        let name = &properties[i].0;
        let at = path_of_property(path, name.as_str());
        let under = join_text(owner, "_", name.as_str());
        assert(under@ == property_stem(owner@, name@));
        let ghost before = record_view(fields@);
        match resolve_position(
            ctx,
            reg,
            &properties[i].1,
            at.as_str(),
            under.as_str(),
            fuel,
        ) {
            Err(e) => {
                return Err(e);
            },
            Ok(field) => {
                let optional = !contains_text(required, name.as_str());
                let entry = ResolvedProperty { name: name.clone(), field, optional };
                fields.push(entry);
                assert(record_view(fields@) =~= before.push(entry@));
            },
        }
        i += 1;
    }
    Ok(fields)
}

/// The final names of the keys of `defs`, in the order of the table.
pub fn assign_names(defs: &Vec<(String, TypeDef)>) -> (names: Vec<String>)
    ensures
        deep(names@) == final_names(def_keys(defs_view(defs@))),
        names@.len() == defs@.len(),
{
    let ghost keys = def_keys(defs_view(defs@));
    let mut names: Vec<String> = Vec::new();
    let mut i: usize = 0;
    assert(deep(names@) =~= names_upto(keys, 0));
    while i < defs.len()
        invariant
            i <= defs.len(),
            names@.len() == i,
            keys == def_keys(defs_view(defs@)),
            deep(names@) == names_upto(keys, i as int),
        decreases defs.len() - i,
    {
        let ghost earlier = deep(names@);
        let name = assign_name(&names, defs[i].0.as_str());
        names.push(name);
        assert(deep(names@) =~= earlier.push(name@));
        i += 1;
    }
    names
}

/// Runs the resolution of `schema`: final names, the visits, the root.
fn run(schema: &Schema, options: &ResolveOptions) -> (r: Result<OutputModel, ResolveError>)
    ensures
        match resolve_model(schema@, options.max_depth as nat) {
            Ok(model) => r matches Ok(x) && x@ == model,
            Err(e) => r matches Err(x) && x@ == e,
        },
{
    let defs = schema.defs();
    let names = assign_names(defs);
    let mut reg = Registry::new(&names);
    let ctx = Context { defs, names };
    let ghost start = reg@;
    assert(ctx@ == env_of(schema@));
    assert(start.states =~= initial_registry(ctx@).states);
    assert(start.enums =~= initial_registry(ctx@).enums);
    assert(start.classes =~= initial_registry(ctx@).classes);
    assert(start == initial_registry(ctx@));
    let mut i: usize = 0;
    while i < defs.len()
        invariant
            i <= defs.len(),
            ctx.defs == defs,
            ctx.fits(reg@),
            ctx@ == env_of(schema@),
            start == initial_registry(ctx@),
            visit_all(ctx@, start, 0, options.max_depth as nat) == visit_all(
                ctx@,
                reg@,
                i as int,
                options.max_depth as nat,
            ),
        decreases defs.len() - i,
    {
        if reg.is_unvisited(i) {
            match visit_definition(&ctx, &mut reg, i, options.max_depth) {
                Err(e) => {
                    return Err(e);
                },
                Ok(_) => {},
            }
        }
        i += 1;
    }
    proof {
        reveal_strlit("");
        assert(""@ =~= Seq::<char>::empty());
    }
    match find_missing(schema.required(), schema.properties()) {
        Some(field) => Err(ResolveError::UnknownRequiredField { path: String::from_str(""), field }),
        None => match resolve_record(
            &ctx,
            &mut reg,
            schema.properties(),
            schema.required(),
            "",
            "",
            options.max_depth,
        ) {
            Err(e) => Err(e),
            Ok(fields) => Ok(OutputModel { enums: reg.enums, classes: reg.classes, fields }),
        },
    }
}

/// Resolves `schema` into its output model.
///
/// Every key of the definition table gets a final name, in the order of the
/// keys. Then each definition is visited, and at last the root properties are
/// resolved. The first error ends the resolution, and nothing of the model
/// is returned.
///
/// The result is what [`resolve_model`] says. A model that is returned is
/// well formed and holds what the schema declares. An error is one that the
/// schema leaves room for: a schema that meets a demand does not fail with
/// the error which that demand rules out. A sound schema without list
/// definitions is resolved where the depth limit is `depth_needed` or more.
pub fn resolve(schema: &Schema, options: &ResolveOptions) -> (r: Result<OutputModel, ResolveError>)
    ensures
        match resolve_model(schema@, options.max_depth as nat) {
            Ok(model) => r matches Ok(x) && x@ == model,
            Err(e) => r matches Err(x) && x@ == e,
        },
        r matches Ok(x) ==> x@.wf() && reflects(x@, schema@),
        forall|d: Demands| #[trigger]
            schema_meets(schema@, d) ==> (r matches Err(e) ==> blamed(
                e@,
                def_keys(schema@.defs),
                d,
            )),
        schema_sound(schema@) && no_list_defined(schema@.defs) && options.max_depth
            >= depth_needed(schema@) ==> r is Ok,
{
    proof {
        lemma_model_well_formed(schema@, options.max_depth as nat);
        lemma_model_reflects(schema@, options.max_depth as nat);
        assert forall|d: Demands| #[trigger] schema_meets(schema@, d) implies genuine(
            resolve_model(schema@, options.max_depth as nat),
            def_keys(schema@.defs),
            d,
        ) by {
            lemma_errors_genuine(schema@, options.max_depth as nat, d);
        }
        if schema_sound(schema@) && no_list_defined(schema@.defs) && options.max_depth
            >= depth_needed(schema@) {
            lemma_success_owed(schema@, options.max_depth as nat);
        }
    }
    run(schema, options)
}

} // verus!
