//! What holds of the registry all through a resolution, and why each step
//! keeps it.

use vstd::prelude::*;
use crate::model::{
    class_names, enum_names, field_closed, field_flat, holds_class, holds_enum,
    lemma_closed_grows, lemma_record_closed_grows, record_closed, record_flat, ClassView,
    EnumView, FieldView, Primitive, PropertyView,
};
use crate::names::{fresh, lemma_fresh};
use crate::schema::{def_keys, RawTypeDef, RawTypeSpec};
use crate::semantics::{Env, ProgressView, RegistryView};

verus! {

/// Definition `i` is a class with the final name `name`.
pub open spec fn class_def(env: Env, i: int, name: Seq<char>) -> bool {
    0 <= i < env.defs.len() && env.names[i] == name && env.defs[i].1 is Class
}

/// Definition `i` is an enum with the final name `name`.
pub open spec fn enum_def(env: Env, i: int, name: Seq<char>) -> bool {
    0 <= i < env.defs.len() && env.names[i] == name && env.defs[i].1 matches RawTypeDef::StringOrEnum(
        Some(_),
    )
}

/// The names of the enums that are emitted or defined in the table.
pub open spec fn known_enums(env: Env, reg: RegistryView) -> Set<Seq<char>> {
    Set::new(
        |n: Seq<char>| enum_names(reg.enums).contains(n) || exists|i: int| enum_def(env, i, n),
    )
}

/// The names of the classes that are emitted or defined in the table.
pub open spec fn known_classes(env: Env, reg: RegistryView) -> Set<Seq<char>> {
    Set::new(
        |n: Seq<char>| class_names(reg.classes).contains(n) || exists|i: int| class_def(env, i, n),
    )
}

/// Every name in `field` is that of an entry which is emitted or which the
/// visit of a definition will emit, and the unions in `field` are flat.
pub open spec fn known(env: Env, reg: RegistryView, field: FieldView) -> bool {
    field_closed(field, known_enums(env, reg), known_classes(env, reg)) && field_flat(field)
}

/// Every field of `record` is known; see [`known`].
pub open spec fn record_known(env: Env, reg: RegistryView, record: Seq<PropertyView>) -> bool {
    record_closed(record, known_enums(env, reg), known_classes(env, reg)) && record_flat(record)
}

/// The fields of `fields` can be the branches of a union: each is known,
/// see [`known`], and none is a union.
pub open spec fn all_known(env: Env, reg: RegistryView, fields: Seq<FieldView>) -> bool {
    forall|k: int|
        0 <= k < fields.len() ==> known(env, reg, #[trigger] fields[k]) && !(fields[k] is Union)
}

/// An entry named `name` is emitted.
pub open spec fn emitted(reg: RegistryView, name: Seq<char>) -> bool {
    enum_names(reg.enums).contains(name) || class_names(reg.classes).contains(name)
}

/// Definition `j` is not visited yet and has the final name `name`.
pub open spec fn awaits(env: Env, reg: RegistryView, j: int, name: Seq<char>) -> bool {
    0 <= j < reg.states.len() && j < env.names.len() && reg.states[j] is Unvisited && env.names[j]
        == name
}

/// `name` is taken, not emitted, and no definition that is still to be
/// visited bears it: only the entry that holds it can be emitted under it.
pub open spec fn reserved(env: Env, reg: RegistryView, name: Seq<char>) -> bool {
    &&& reg.used.contains(name)
    &&& !emitted(reg, name)
    &&& forall|j: int| !awaits(env, reg, j, name)
}

/// What a reference to the definition under `key` resolves to, as far as
/// the table alone tells: a class or an enum by its final name, a primitive,
/// or some list.
pub open spec fn names_definition(env: Env, j: int, field: FieldView) -> bool {
    match env.defs[j].1 {
        RawTypeDef::Class(_, _) => field == FieldView::Class(env.names[j]),
        RawTypeDef::StringOrEnum(Some(_)) => field == FieldView::Enum(env.names[j]),
        RawTypeDef::StringOrEnum(None) => field == FieldView::Primitive(Primitive::String),
        RawTypeDef::Array(_) => field is List,
        RawTypeDef::Int => field == FieldView::Primitive(Primitive::Int),
        RawTypeDef::Float => field == FieldView::Primitive(Primitive::Float),
        RawTypeDef::Bool => field == FieldView::Primitive(Primitive::Bool),
        RawTypeDef::Null => field == FieldView::Primitive(Primitive::Null),
    }
}

/// The field `field` is of the kind that the type position `spec` asks for.
/// A reference yields what the definition of its key yields, see
/// [`names_definition`]; an inline class or enum yields a class or an enum;
/// a list yields a list whose elements follow its items; a union yields a
/// union.
pub open spec fn follows(env: Env, field: FieldView, spec: RawTypeSpec) -> bool
    decreases spec,
{
    match spec {
        RawTypeSpec::Ref(key) => match def_keys(env.defs).index_of_first(key) {
            Some(j) => names_definition(env, j, field),
            None => false,
        },
        RawTypeSpec::Inline(def) => match def {
            RawTypeDef::Class(_, _) => field is Class,
            RawTypeDef::StringOrEnum(Some(_)) => field is Enum,
            RawTypeDef::StringOrEnum(None) => field == FieldView::Primitive(Primitive::String),
            RawTypeDef::Array(items) => field matches FieldView::List(element) && follows(
                env,
                *element,
                *items,
            ),
            RawTypeDef::Int => field == FieldView::Primitive(Primitive::Int),
            RawTypeDef::Float => field == FieldView::Primitive(Primitive::Float),
            RawTypeDef::Bool => field == FieldView::Primitive(Primitive::Bool),
            RawTypeDef::Null => field == FieldView::Primitive(Primitive::Null),
        },
        RawTypeSpec::Union(_) => field is Union,
    }
}

/// Each field of `record` follows the property at its place; see
/// [`follows`].
pub open spec fn record_follows(
    env: Env,
    record: Seq<PropertyView>,
    properties: Seq<(Seq<char>, RawTypeSpec)>,
) -> bool {
    &&& record.len() == properties.len()
    &&& forall|k: int|
        0 <= k < record.len() ==> follows(env, (#[trigger] record[k]).field, properties[k].1)
}

/// Class `c` of the registry is the entry of definition `j`: it has the
/// final name of the key and the fields that the definition declares.
pub open spec fn class_of(env: Env, reg: RegistryView, j: int, c: int) -> bool {
    &&& env.defs[j].1 matches RawTypeDef::Class(properties, required)
    &&& holds_class(reg.classes, c, env.names[j], properties, required)
    &&& record_follows(env, reg.classes[c].fields, properties)
}

/// Enum `e` of the registry is the entry of definition `j`: it has the final
/// name of the key and the values that the definition lists.
pub open spec fn enum_of(env: Env, reg: RegistryView, j: int, e: int) -> bool {
    &&& env.defs[j].1 matches RawTypeDef::StringOrEnum(Some(values))
    &&& holds_enum(reg.enums, e, env.names[j], values)
}

/// The entry of definition `j`, if it has one, is emitted.
pub open spec fn entry_emitted(env: Env, reg: RegistryView, j: int) -> bool {
    &&& env.defs[j].1 is Class ==> exists|c: int| class_of(env, reg, j, c)
    &&& env.defs[j].1 matches RawTypeDef::StringOrEnum(Some(_)) ==> exists|e: int|
        enum_of(env, reg, j, e)
}

/// The state of definition `j` is final: the visit has emitted its entry,
/// if it has one, and what it recorded is known.
pub open spec fn settled(env: Env, reg: RegistryView, j: int) -> bool {
    reg.states[j] matches ProgressView::Resolved(field) ==> known(env, reg, field)
        && entry_emitted(env, reg, j) && names_definition(env, j, field)
}

/// An entry that is emitted stays emitted.
pub proof fn lemma_entry_stays(env: Env, reg: RegistryView, after: RegistryView, j: int)
    requires
        reg.enums.is_prefix_of(after.enums),
        reg.classes.is_prefix_of(after.classes),
        entry_emitted(env, reg, j),
    ensures
        entry_emitted(env, after, j),
{
    if env.defs[j].1 is Class {
        let c = choose|c: int| class_of(env, reg, j, c);
        assert(reg.classes[c] == after.classes.subrange(0, reg.classes.len() as int)[c]);
        assert(class_of(env, after, j, c));
    }
    if env.defs[j].1 matches RawTypeDef::StringOrEnum(Some(_)) {
        let e = choose|e: int| enum_of(env, reg, j, e);
        assert(reg.enums[e] == after.enums.subrange(0, reg.enums.len() as int)[e]);
        assert(enum_of(env, after, j, e));
    }
}

/// The entry of a definition bears the final name of its key.
pub proof fn lemma_entry_named(env: Env, reg: RegistryView, j: int)
    requires
        entry_emitted(env, reg, j),
    ensures
        env.defs[j].1 is Class ==> class_names(reg.classes).contains(env.names[j]),
        env.defs[j].1 matches RawTypeDef::StringOrEnum(Some(_)) ==> enum_names(
            reg.enums,
        ).contains(env.names[j]),
{
    if env.defs[j].1 is Class {
        let c = choose|c: int| class_of(env, reg, j, c);
        assert(class_names(reg.classes)[c] == env.names[j]);
    }
    if env.defs[j].1 matches RawTypeDef::StringOrEnum(Some(_)) {
        let e = choose|e: int| enum_of(env, reg, j, e);
        assert(enum_names(reg.enums)[e] == env.names[j]);
    }
}

/// The invariant of the registry.
pub open spec fn inv(env: Env, reg: RegistryView) -> bool {
    &&& env.names.len() == env.defs.len()
    &&& reg.states.len() == env.defs.len()
    &&& reg.used.no_duplicates()
    &&& env.names.is_prefix_of(reg.used)
    &&& enum_names(reg.enums).no_duplicates()
    &&& class_names(reg.classes).no_duplicates()
    &&& forall|n: Seq<char>|
        !(enum_names(reg.enums).contains(n) && #[trigger] class_names(reg.classes).contains(n))
    &&& forall|n: Seq<char>| #[trigger] emitted(reg, n) ==> reg.used.contains(n)
    &&& forall|j: int, n: Seq<char>| #[trigger] awaits(env, reg, j, n) ==> !emitted(reg, n)
    &&& forall|j: int| 0 <= j < env.defs.len() ==> #[trigger] settled(env, reg, j)
    &&& forall|c: int|
        0 <= c < reg.classes.len() ==> record_known(env, reg, #[trigger] reg.classes[c].fields)
}

/// How a registry may change between two moments of a resolution. What is
/// recorded stays, definitions in progress stay in progress, and an entry
/// is emitted only under a name that was not taken, under the name of a
/// definition that was not visited, or under the `allowed` name.
pub open spec fn extends(
    env: Env,
    reg: RegistryView,
    after: RegistryView,
    allowed: Option<Seq<char>>,
) -> bool {
    &&& after.states.len() == reg.states.len()
    &&& reg.used.is_prefix_of(after.used)
    &&& reg.enums.is_prefix_of(after.enums)
    &&& reg.classes.is_prefix_of(after.classes)
    &&& forall|j: int|
        0 <= j < reg.states.len() && #[trigger] reg.states[j] is Resolved ==> after.states[j]
            == reg.states[j]
    &&& forall|j: int|
        0 <= j < reg.states.len() ==> (#[trigger] reg.states[j] is InProgress
            <==> after.states[j] is InProgress)
    &&& forall|n: Seq<char>|
        #[trigger] emitted(after, n) && !emitted(reg, n) ==> {
            ||| !reg.used.contains(n)
            ||| exists|j: int| awaits(env, reg, j, n)
            ||| allowed == Some(n)
        }
}

/// A prefix holds what it holds also in the longer sequence.
pub proof fn lemma_prefix_contains<A>(a: Seq<A>, b: Seq<A>, x: A)
    requires
        a.is_prefix_of(b),
        a.contains(x),
    ensures
        b.contains(x),
{
    let i = choose|i: int| 0 <= i < a.len() && a[i] == x;
    assert(a[i] == b.subrange(0, a.len() as int)[i]);
    assert(b[i] == x);
}

/// The names of a longer list of enums start with those of the shorter.
pub proof fn lemma_enum_names_prefix(a: Seq<EnumView>, b: Seq<EnumView>)
    requires
        a.is_prefix_of(b),
    ensures
        enum_names(a).is_prefix_of(enum_names(b)),
{
    assert forall|i: int| 0 <= i < a.len() implies enum_names(a)[i] == enum_names(b)[i] by {
        assert(a[i] == b.subrange(0, a.len() as int)[i]);
    }
    assert(enum_names(a) =~= enum_names(b).subrange(0, a.len() as int));
}

/// The names of a longer list of classes start with those of the shorter.
pub proof fn lemma_class_names_prefix(a: Seq<ClassView>, b: Seq<ClassView>)
    requires
        a.is_prefix_of(b),
    ensures
        class_names(a).is_prefix_of(class_names(b)),
{
    assert forall|i: int| 0 <= i < a.len() implies class_names(a)[i] == class_names(b)[i] by {
        assert(a[i] == b.subrange(0, a.len() as int)[i]);
    }
    assert(class_names(a) =~= class_names(b).subrange(0, a.len() as int));
}

/// What is emitted stays emitted, and what is known stays known.
pub proof fn lemma_emitted_grows(env: Env, reg: RegistryView, after: RegistryView)
    requires
        reg.enums.is_prefix_of(after.enums),
        reg.classes.is_prefix_of(after.classes),
    ensures
        forall|n: Seq<char>|
            enum_names(reg.enums).contains(n) ==> #[trigger] enum_names(after.enums).contains(n),
        forall|n: Seq<char>|
            class_names(reg.classes).contains(n) ==> #[trigger] class_names(after.classes).contains(
                n,
            ),
        forall|n: Seq<char>| emitted(reg, n) ==> #[trigger] emitted(after, n),
        known_enums(env, reg).subset_of(known_enums(env, after)),
        known_classes(env, reg).subset_of(known_classes(env, after)),
{
    lemma_enum_names_prefix(reg.enums, after.enums);
    lemma_class_names_prefix(reg.classes, after.classes);
    assert forall|n: Seq<char>| enum_names(reg.enums).contains(n) implies #[trigger] enum_names(
        after.enums,
    ).contains(n) by {
        lemma_prefix_contains(enum_names(reg.enums), enum_names(after.enums), n);
    }
    assert forall|n: Seq<char>| class_names(reg.classes).contains(n) implies #[trigger] class_names(
        after.classes,
    ).contains(n) by {
        lemma_prefix_contains(class_names(reg.classes), class_names(after.classes), n);
    }
}

/// A known field stays known.
pub proof fn lemma_known_grows(env: Env, reg: RegistryView, after: RegistryView, field: FieldView)
    requires
        reg.enums.is_prefix_of(after.enums),
        reg.classes.is_prefix_of(after.classes),
        known(env, reg, field),
    ensures
        known(env, after, field),
{
    lemma_emitted_grows(env, reg, after);
    lemma_closed_grows(
        field,
        known_enums(env, reg),
        known_classes(env, reg),
        known_enums(env, after),
        known_classes(env, after),
    );
}

/// A known record stays known.
pub proof fn lemma_record_known_grows(
    env: Env,
    reg: RegistryView,
    after: RegistryView,
    record: Seq<PropertyView>,
)
    requires
        reg.enums.is_prefix_of(after.enums),
        reg.classes.is_prefix_of(after.classes),
        record_known(env, reg, record),
    ensures
        record_known(env, after, record),
{
    lemma_emitted_grows(env, reg, after);
    lemma_record_closed_grows(
        record,
        known_enums(env, reg),
        known_classes(env, reg),
        known_enums(env, after),
        known_classes(env, after),
    );
}

/// Known fields stay known.
pub proof fn lemma_all_known_grows(
    env: Env,
    reg: RegistryView,
    after: RegistryView,
    fields: Seq<FieldView>,
)
    requires
        reg.enums.is_prefix_of(after.enums),
        reg.classes.is_prefix_of(after.classes),
        all_known(env, reg, fields),
    ensures
        all_known(env, after, fields),
{
    assert forall|k: int| 0 <= k < fields.len() implies known(env, after, #[trigger] fields[k]) by {
        lemma_known_grows(env, reg, after, fields[k]);
    }
}

/// A registry extends itself.
pub proof fn lemma_extends_self(env: Env, reg: RegistryView)
    ensures
        extends(env, reg, reg, None),
{
    assert(reg.used =~= reg.used.subrange(0, reg.used.len() as int));
    assert(reg.enums =~= reg.enums.subrange(0, reg.enums.len() as int));
    assert(reg.classes =~= reg.classes.subrange(0, reg.classes.len() as int));
}

/// More may be allowed.
pub proof fn lemma_extends_allows(
    env: Env,
    reg: RegistryView,
    after: RegistryView,
    allowed: Option<Seq<char>>,
)
    requires
        extends(env, reg, after, None),
    ensures
        extends(env, reg, after, allowed),
{
}

/// Two changes in a row. The name that the second one allows is allowed in
/// the whole, or it was not taken at the start.
pub proof fn lemma_extends_chain(
    env: Env,
    a: RegistryView,
    b: RegistryView,
    c: RegistryView,
    first: Option<Seq<char>>,
    second: Option<Seq<char>>,
    whole: Option<Seq<char>>,
)
    requires
        extends(env, a, b, first),
        extends(env, b, c, second),
        first is None || first == whole,
        second is None || second == whole || !a.used.contains(second->0),
    ensures
        extends(env, a, c, whole),
{
    assert(a.used =~= c.used.subrange(0, a.used.len() as int)) by {
        assert forall|i: int| 0 <= i < a.used.len() implies a.used[i] == c.used[i] by {
            assert(a.used[i] == b.used.subrange(0, a.used.len() as int)[i]);
            assert(b.used[i] == c.used.subrange(0, b.used.len() as int)[i]);
        }
    }
    assert(a.enums =~= c.enums.subrange(0, a.enums.len() as int)) by {
        assert forall|i: int| 0 <= i < a.enums.len() implies a.enums[i] == c.enums[i] by {
            assert(a.enums[i] == b.enums.subrange(0, a.enums.len() as int)[i]);
            assert(b.enums[i] == c.enums.subrange(0, b.enums.len() as int)[i]);
        }
    }
    assert(a.classes =~= c.classes.subrange(0, a.classes.len() as int)) by {
        assert forall|i: int| 0 <= i < a.classes.len() implies a.classes[i] == c.classes[i] by {
            assert(a.classes[i] == b.classes.subrange(0, a.classes.len() as int)[i]);
            assert(b.classes[i] == c.classes.subrange(0, b.classes.len() as int)[i]);
        }
    }
    assert forall|j: int|
        0 <= j < a.states.len() && #[trigger] a.states[j] is Resolved implies c.states[j]
        == a.states[j] by {
        assert(b.states[j] is Resolved);
    }
    assert forall|j: int| 0 <= j < a.states.len() implies (#[trigger] a.states[j] is InProgress
        <==> c.states[j] is InProgress) by {
        assert(b.states[j] is InProgress <==> c.states[j] is InProgress);
    }
    lemma_emitted_grows(env, a, b);
    assert forall|n: Seq<char>| #[trigger] emitted(c, n) && !emitted(a, n) implies {
        ||| !a.used.contains(n)
        ||| exists|j: int| awaits(env, a, j, n)
        ||| whole == Some(n)
    } by {
        if emitted(b, n) {
        } else {
            if a.used.contains(n) {
                lemma_prefix_contains(a.used, b.used, n);
            }
            if exists|j: int| awaits(env, b, j, n) {
                let j = choose|j: int| awaits(env, b, j, n);
                assert(b.states[j] is Unvisited);
                assert(!(a.states[j] is InProgress));
                assert(!(a.states[j] is Resolved));
                assert(awaits(env, a, j, n));
            }
        }
    }
}

/// A reserved name stays reserved while no change is allowed to emit it.
pub proof fn lemma_reserved_stays(env: Env, reg: RegistryView, after: RegistryView, name: Seq<char>)
    requires
        reserved(env, reg, name),
        extends(env, reg, after, None),
    ensures
        reserved(env, after, name),
{
    lemma_prefix_contains(reg.used, after.used, name);
    if emitted(after, name) {
        let j = choose|j: int| awaits(env, reg, j, name);
        assert(awaits(env, reg, j, name));
    }
    assert forall|j: int| !awaits(env, after, j, name) by {
        if awaits(env, after, j, name) {
            assert(!(reg.states[j] is InProgress));
            assert(!(reg.states[j] is Resolved));
            assert(awaits(env, reg, j, name));
        }
    }
}

/// What is known does not depend on the states.
pub proof fn lemma_known_same(env: Env, reg: RegistryView, other: RegistryView)
    requires
        reg.enums == other.enums,
        reg.classes == other.classes,
    ensures
        known_enums(env, reg) == known_enums(env, other),
        known_classes(env, reg) == known_classes(env, other),
{
    assert(known_enums(env, reg) =~= known_enums(env, other));
    assert(known_classes(env, reg) =~= known_classes(env, other));
}

/// The start of a visit: the definition is in progress and its name is
/// reserved.
pub proof fn lemma_start_visit(env: Env, reg: RegistryView, i: int)
    requires
        inv(env, reg),
        0 <= i < env.defs.len(),
        reg.states[i] is Unvisited,
    ensures
        inv(env, reg.with_state(i, ProgressView::InProgress)),
        reserved(env, reg.with_state(i, ProgressView::InProgress), env.names[i]),
{
    let started = reg.with_state(i, ProgressView::InProgress);
    lemma_known_same(env, reg, started);
    assert forall|j: int, n: Seq<char>| #[trigger] awaits(env, started, j, n) implies !emitted(
        started,
        n,
    ) by {
        assert(awaits(env, reg, j, n));
    }
    lemma_extends_self(env, reg);
    assert forall|j: int| 0 <= j < env.defs.len() implies #[trigger] settled(env, started, j) by {
        assert(settled(env, reg, j));
        if reg.states[j] is Resolved {
            lemma_entry_stays(env, reg, started, j);
        }
    }
    assert forall|c: int| 0 <= c < started.classes.len() implies record_known(
        env,
        started,
        #[trigger] started.classes[c].fields,
    ) by {
        assert(record_known(env, reg, reg.classes[c].fields));
    }
    assert forall|n: Seq<char>| #[trigger] emitted(started, n) implies started.used.contains(n) by {
        assert(emitted(reg, n));
    }
    assert(awaits(env, reg, i, env.names[i]));
    assert(env.names[i] == reg.used.subrange(0, env.names.len() as int)[i]);
    assert forall|j: int| !awaits(env, started, j, env.names[i]) by {
        if awaits(env, started, j, env.names[i]) {
            assert(env.names[j] == reg.used.subrange(0, env.names.len() as int)[j]);
            assert(reg.used[j] == reg.used[i]);
        }
    }
}

/// The end of a visit: the result is recorded.
pub proof fn lemma_finish_visit(
    env: Env,
    reg: RegistryView,
    after: RegistryView,
    field: FieldView,
    i: int,
)
    requires
        inv(env, reg),
        inv(env, after),
        0 <= i < env.defs.len(),
        reg.states[i] is Unvisited,
        extends(env, reg.with_state(i, ProgressView::InProgress), after, Some(env.names[i])),
        known(env, after, field),
        entry_emitted(env, after, i),
        names_definition(env, i, field),
    ensures
        inv(env, after.with_state(i, ProgressView::Resolved(field))),
        extends(env, reg, after.with_state(i, ProgressView::Resolved(field)), None),
        known(env, after.with_state(i, ProgressView::Resolved(field)), field),
{
    let started = reg.with_state(i, ProgressView::InProgress);
    let done = after.with_state(i, ProgressView::Resolved(field));
    lemma_known_same(env, after, done);
    assert forall|j: int, n: Seq<char>| #[trigger] awaits(env, done, j, n) implies !emitted(
        done,
        n,
    ) by {
        assert(awaits(env, after, j, n));
    }
    lemma_extends_self(env, after);
    assert forall|j: int| 0 <= j < env.defs.len() implies #[trigger] settled(env, done, j) by {
        assert(settled(env, after, j));
        if j == i {
            assert(known(env, done, field));
            lemma_entry_stays(env, after, done, i);
        } else if after.states[j] is Resolved {
            lemma_entry_stays(env, after, done, j);
        }
    }
    assert forall|c: int| 0 <= c < done.classes.len() implies record_known(
        env,
        done,
        #[trigger] done.classes[c].fields,
    ) by {
        assert(record_known(env, after, after.classes[c].fields));
    }
    assert forall|n: Seq<char>| #[trigger] emitted(done, n) implies done.used.contains(n) by {
        assert(emitted(after, n));
    }
    assert forall|j: int|
        0 <= j < reg.states.len() && #[trigger] reg.states[j] is Resolved implies done.states[j]
        == reg.states[j] by {
        assert(started.states[j] is Resolved);
    }
    assert forall|j: int| 0 <= j < reg.states.len() implies (#[trigger] reg.states[j] is InProgress
        <==> done.states[j] is InProgress) by {
        if j != i {
            assert(started.states[j] is InProgress <==> after.states[j] is InProgress);
        }
    }
    assert forall|n: Seq<char>| #[trigger] emitted(done, n) && !emitted(reg, n) implies {
        ||| !reg.used.contains(n)
        ||| exists|j: int| awaits(env, reg, j, n)
        ||| None::<Seq<char>> == Some(n)
    } by {
        assert(emitted(after, n) && !emitted(started, n));
        if exists|j: int| awaits(env, started, j, n) {
            let j = choose|j: int| awaits(env, started, j, n);
            assert(awaits(env, reg, j, n));
        } else if n == env.names[i] {
            assert(awaits(env, reg, i, n));
        }
    }
}

/// Taking a fresh name: it is reserved from then on.
pub proof fn lemma_take_fresh(env: Env, reg: RegistryView, stem: Seq<char>)
    requires
        inv(env, reg),
    ensures
        !reg.used.contains(fresh(reg.used, stem)),
        inv(env, reg.with_used(fresh(reg.used, stem))),
        extends(env, reg, reg.with_used(fresh(reg.used, stem)), None),
        reserved(env, reg.with_used(fresh(reg.used, stem)), fresh(reg.used, stem)),
{
    let name = fresh(reg.used, stem);
    let taken = reg.with_used(name);
    lemma_fresh(reg.used, stem);
    lemma_known_same(env, reg, taken);
    lemma_extends_self(env, reg);
    assert(reg.used =~= taken.used.subrange(0, reg.used.len() as int));
    assert(env.names =~= taken.used.subrange(0, env.names.len() as int)) by {
        assert forall|k: int| 0 <= k < env.names.len() implies env.names[k] == taken.used[k] by {
            assert(env.names[k] == reg.used.subrange(0, env.names.len() as int)[k]);
        }
    }
    assert(taken.used[reg.used.len() as int] == name);
    assert forall|n: Seq<char>| #[trigger] emitted(taken, n) implies taken.used.contains(n) by {
        assert(emitted(reg, n));
        lemma_prefix_contains(reg.used, taken.used, n);
    }
    assert forall|j: int, n: Seq<char>| #[trigger] awaits(env, taken, j, n) implies !emitted(
        taken,
        n,
    ) by {
        assert(awaits(env, reg, j, n));
    }
    assert forall|j: int| 0 <= j < env.defs.len() implies #[trigger] settled(env, taken, j) by {
        assert(settled(env, reg, j));
        if reg.states[j] is Resolved {
            lemma_entry_stays(env, reg, taken, j);
        }
    }
    assert(!emitted(taken, name)) by {
        if emitted(reg, name) {
        }
    }
    assert forall|j: int| !awaits(env, taken, j, name) by {
        if awaits(env, taken, j, name) {
            assert(env.names[j] == reg.used.subrange(0, env.names.len() as int)[j]);
            assert(reg.used[j] == name);
        }
    }
}

/// Emitting an enum under a reserved name.
pub proof fn lemma_emit_enum(env: Env, reg: RegistryView, entry: EnumView)
    requires
        inv(env, reg),
        reserved(env, reg, entry.name),
    ensures
        inv(env, reg.with_enum(entry)),
        extends(env, reg, reg.with_enum(entry), Some(entry.name)),
        enum_names(reg.with_enum(entry).enums).contains(entry.name),
        known(env, reg.with_enum(entry), FieldView::Enum(entry.name)),
{
    let after = reg.with_enum(entry);
    lemma_extends_self(env, reg);
    assert(reg.enums =~= after.enums.subrange(0, reg.enums.len() as int));
    assert(enum_names(after.enums) =~= enum_names(reg.enums).push(entry.name));
    assert(enum_names(after.enums)[reg.enums.len() as int] == entry.name);
    lemma_emitted_grows(env, reg, after);
    assert forall|n: Seq<char>|
        enum_names(after.enums).contains(n) implies enum_names(reg.enums).contains(n) || n
        == entry.name by {
        let k = choose|k: int| 0 <= k < after.enums.len() && enum_names(after.enums)[k] == n;
        if k < reg.enums.len() {
            assert(enum_names(reg.enums)[k] == n);
        }
    }
    assert forall|n: Seq<char>| #[trigger] emitted(after, n) implies after.used.contains(n) by {
        if !emitted(reg, n) {
            assert(enum_names(after.enums).contains(n));
        }
    }
    assert forall|j: int, n: Seq<char>| #[trigger] awaits(env, after, j, n) implies !emitted(
        after,
        n,
    ) by {
        assert(awaits(env, reg, j, n));
        if emitted(after, n) {
            assert(enum_names(after.enums).contains(n));
        }
    }
    assert forall|j: int| 0 <= j < env.defs.len() implies #[trigger] settled(env, after, j) by {
        assert(settled(env, reg, j));
        if reg.states[j] is Resolved {
            lemma_known_grows(env, reg, after, reg.states[j]->Resolved_0);
            lemma_entry_stays(env, reg, after, j);
        }
    }
    assert forall|c: int| 0 <= c < after.classes.len() implies record_known(
        env,
        after,
        #[trigger] after.classes[c].fields,
    ) by {
        lemma_record_known_grows(env, reg, after, reg.classes[c].fields);
    }
    assert forall|n: Seq<char>|
        !(enum_names(after.enums).contains(n) && #[trigger] class_names(after.classes).contains(
            n,
        )) by {
        if enum_names(after.enums).contains(n) && class_names(after.classes).contains(n) {
            assert(emitted(reg, entry.name) || enum_names(reg.enums).contains(n));
        }
    }
    assert forall|a: int, b: int|
        0 <= a < after.enums.len() && 0 <= b < after.enums.len() && a != b implies enum_names(
        after.enums,
    )[a] != enum_names(after.enums)[b] by {
        if a < reg.enums.len() && b < reg.enums.len() {
            assert(enum_names(reg.enums)[a] != enum_names(reg.enums)[b]);
        } else if a < reg.enums.len() {
            assert(enum_names(reg.enums)[a] == enum_names(after.enums)[a]);
            assert(enum_names(reg.enums).contains(enum_names(after.enums)[a]));
        } else {
            assert(enum_names(reg.enums)[b] == enum_names(after.enums)[b]);
            assert(enum_names(reg.enums).contains(enum_names(after.enums)[b]));
        }
    }
}

/// Emitting a class under a reserved name.
pub proof fn lemma_emit_class(env: Env, reg: RegistryView, entry: ClassView)
    requires
        inv(env, reg),
        reserved(env, reg, entry.name),
        record_known(env, reg, entry.fields),
    ensures
        inv(env, reg.with_class(entry)),
        extends(env, reg, reg.with_class(entry), Some(entry.name)),
        class_names(reg.with_class(entry).classes).contains(entry.name),
        known(env, reg.with_class(entry), FieldView::Class(entry.name)),
{
    let after = reg.with_class(entry);
    lemma_extends_self(env, reg);
    assert(reg.classes =~= after.classes.subrange(0, reg.classes.len() as int));
    assert(class_names(after.classes) =~= class_names(reg.classes).push(entry.name));
    assert(class_names(after.classes)[reg.classes.len() as int] == entry.name);
    lemma_emitted_grows(env, reg, after);
    assert forall|n: Seq<char>|
        class_names(after.classes).contains(n) implies class_names(reg.classes).contains(n) || n
        == entry.name by {
        let k = choose|k: int| 0 <= k < after.classes.len() && class_names(after.classes)[k] == n;
        if k < reg.classes.len() {
            assert(class_names(reg.classes)[k] == n);
        }
    }
    assert forall|n: Seq<char>| #[trigger] emitted(after, n) implies after.used.contains(n) by {
        if !emitted(reg, n) {
            assert(class_names(after.classes).contains(n));
        }
    }
    assert forall|j: int, n: Seq<char>| #[trigger] awaits(env, after, j, n) implies !emitted(
        after,
        n,
    ) by {
        assert(awaits(env, reg, j, n));
        if emitted(after, n) {
            assert(class_names(after.classes).contains(n));
        }
    }
    assert forall|j: int| 0 <= j < env.defs.len() implies #[trigger] settled(env, after, j) by {
        assert(settled(env, reg, j));
        if reg.states[j] is Resolved {
            lemma_known_grows(env, reg, after, reg.states[j]->Resolved_0);
            lemma_entry_stays(env, reg, after, j);
        }
    }
    assert forall|c: int| 0 <= c < after.classes.len() implies record_known(
        env,
        after,
        #[trigger] after.classes[c].fields,
    ) by {
        if c < reg.classes.len() {
            lemma_record_known_grows(env, reg, after, reg.classes[c].fields);
        } else {
            lemma_record_known_grows(env, reg, after, entry.fields);
        }
    }
    assert forall|n: Seq<char>|
        !(enum_names(after.enums).contains(n) && #[trigger] class_names(after.classes).contains(
            n,
        )) by {
        if enum_names(after.enums).contains(n) && class_names(after.classes).contains(n) {
            assert(emitted(reg, entry.name) || class_names(reg.classes).contains(n));
        }
    }
    assert forall|a: int, b: int|
        0 <= a < after.classes.len() && 0 <= b < after.classes.len() && a != b implies class_names(
        after.classes,
    )[a] != class_names(after.classes)[b] by {
        if a < reg.classes.len() && b < reg.classes.len() {
            assert(class_names(reg.classes)[a] != class_names(reg.classes)[b]);
        } else if a < reg.classes.len() {
            assert(class_names(reg.classes)[a] == class_names(after.classes)[a]);
            assert(class_names(reg.classes).contains(class_names(after.classes)[a]));
        } else {
            assert(class_names(reg.classes)[b] == class_names(after.classes)[b]);
            assert(class_names(reg.classes).contains(class_names(after.classes)[b]));
        }
    }
}

} // verus!
