//! The raw schema tree: a definition table, the root properties and the names
//! that the root requires, as the grammar of the input document has them.

use vstd::prelude::*;
use crate::text::{deep, lemma_lt_total, lemma_lt_transitive, seq_lt, text_eq, text_lt};

verus! {

/// A type position of the raw tree. Of what the document says at the
/// position, the type is kept; titles and descriptions are not.
#[derive(Debug, PartialEq, Eq)]
pub struct TypeSpecWithMeta {
    pub type_spec: TypeSpec,
}

/// What a property, the items of an array or a branch of a union can be.
#[derive(Debug, PartialEq, Eq)]
pub enum TypeSpec {
    Ref(TypeRef),
    Inline(TypeDef),
    Union(UnionRef),
}

/// Alternatives of a union, in the order of the document.
#[derive(Debug, PartialEq, Eq)]
pub struct UnionRef {
    pub any_of: Vec<TypeSpecWithMeta>,
}

/// A reference to an entry of the definition table.
#[derive(Debug, PartialEq, Eq)]
pub struct TypeRef {
    /// Key of the entry that is meant.
    pub key: String,
}

/// The body of a definition or of an inline type.
#[derive(Debug, PartialEq, Eq)]
pub enum TypeDef {
    StringOrEnum(StringOrEnumDef),
    Class(ClassDef),
    Array(Box<ArrayDef>),
    Int,
    Float,
    Bool,
    Null,
}

/// A string, or an enumeration where the allowed values are listed.
#[derive(Debug, PartialEq, Eq)]
pub struct StringOrEnumDef {
    pub values: Option<Vec<String>>,
}

/// A record: its properties in declared order and the names it requires.
#[derive(Debug, PartialEq, Eq)]
pub struct ClassDef {
    pub properties: Vec<(String, TypeSpecWithMeta)>,
    pub required: Vec<String>,
}

/// A list whose elements all have the type `items`.
#[derive(Debug, PartialEq, Eq)]
pub struct ArrayDef {
    pub items: TypeSpecWithMeta,
}

/// Mathematical model of a type position.
pub enum RawTypeSpec {
    Ref(Seq<char>),
    Inline(RawTypeDef),
    Union(Seq<RawTypeSpec>),
}

/// Mathematical model of a type body.
pub enum RawTypeDef {
    StringOrEnum(Option<Seq<Seq<char>>>),
    Class(Seq<(Seq<char>, RawTypeSpec)>, Seq<Seq<char>>),
    Array(Box<RawTypeSpec>),
    Int,
    Float,
    Bool,
    Null,
}

/// Mathematical model of a whole schema.
pub struct RawSchema {
    /// The definition table, in the order in which it is stored.
    pub defs: Seq<(Seq<char>, RawTypeDef)>,
    /// Root properties in declared order.
    pub properties: Seq<(Seq<char>, RawTypeSpec)>,
    /// Names of the root properties that must be present.
    pub required: Seq<Seq<char>>,
}

/// The model of a type position.
pub open spec fn spec_view(spec: TypeSpec) -> RawTypeSpec
    decreases spec,
{
    match spec {
        TypeSpec::Ref(r) => RawTypeSpec::Ref(r.key@),
        TypeSpec::Inline(d) => RawTypeSpec::Inline(def_view(d)),
        TypeSpec::Union(u) => RawTypeSpec::Union(
            Seq::new(
                u.any_of@.len(),
                |i: int|
                    if 0 <= i < u.any_of@.len() {
                        spec_view(u.any_of@[i].type_spec)
                    } else {
                        arbitrary()
                    },
            ),
        ),
    }
}

/// The model of a type body.
pub open spec fn def_view(def: TypeDef) -> RawTypeDef
    decreases def,
{
    match def {
        TypeDef::StringOrEnum(s) => RawTypeDef::StringOrEnum(
            match s.values {
                Some(v) => Some(deep(v@)),
                None => None,
            },
        ),
        TypeDef::Class(c) => RawTypeDef::Class(
            Seq::new(
                c.properties@.len(),
                |i: int|
                    if 0 <= i < c.properties@.len() {
                        (c.properties@[i].0@, spec_view(c.properties@[i].1.type_spec))
                    } else {
                        arbitrary()
                    },
            ),
            deep(c.required@),
        ),
        TypeDef::Array(a) => RawTypeDef::Array(Box::new(spec_view(a.items.type_spec))),
        TypeDef::Int => RawTypeDef::Int,
        TypeDef::Float => RawTypeDef::Float,
        TypeDef::Bool => RawTypeDef::Bool,
        TypeDef::Null => RawTypeDef::Null,
    }
}

impl View for TypeSpecWithMeta {
    type V = RawTypeSpec;

    open spec fn view(&self) -> RawTypeSpec {
        spec_view(self.type_spec)
    }
}

impl View for TypeSpec {
    type V = RawTypeSpec;

    open spec fn view(&self) -> RawTypeSpec {
        spec_view(*self)
    }
}

impl View for TypeDef {
    type V = RawTypeDef;

    open spec fn view(&self) -> RawTypeDef {
        def_view(*self)
    }
}

/// The views of a list of type positions.
pub open spec fn specs_view(v: Seq<TypeSpecWithMeta>) -> Seq<RawTypeSpec> {
    Seq::new(v.len(), |i: int| v[i]@)
}

/// The view of a union lists the views of its alternatives.
pub proof fn lemma_union_spec_view(u: UnionRef)
    ensures
        TypeSpec::Union(u)@ == RawTypeSpec::Union(specs_view(u.any_of@)),
{
    assert(TypeSpec::Union(u)@->Union_0 =~= specs_view(u.any_of@));
}

/// The view of a class lists the views of its properties and of the names
/// that it requires.
pub proof fn lemma_class_view(c: ClassDef)
    ensures
        TypeDef::Class(c)@ == RawTypeDef::Class(properties_view(c.properties@), deep(c.required@)),
{
    assert(TypeDef::Class(c)@->Class_0 =~= properties_view(c.properties@));
}

/// The views of a list of named type positions.
pub open spec fn properties_view(v: Seq<(String, TypeSpecWithMeta)>) -> Seq<
    (Seq<char>, RawTypeSpec),
> {
    Seq::new(v.len(), |i: int| (v[i].0@, v[i].1@))
}

/// The views of the entries of a definition table.
pub open spec fn defs_view(v: Seq<(String, TypeDef)>) -> Seq<(Seq<char>, RawTypeDef)> {
    Seq::new(v.len(), |i: int| (v[i].0@, v[i].1@))
}

/// The keys of a definition table, in its order.
pub open spec fn def_keys(defs: Seq<(Seq<char>, RawTypeDef)>) -> Seq<Seq<char>> {
    Seq::new(defs.len(), |i: int| defs[i].0)
}

/// Each key comes strictly before every later one.
pub open spec fn strictly_sorted(keys: Seq<Seq<char>>) -> bool {
    forall|i: int, j: int| 0 <= i < j < keys.len() ==> seq_lt(#[trigger] keys[i], #[trigger] keys[j])
}

/// How many leading entries of `defs` have a key before `key`.
pub open spec fn lower_bound(defs: Seq<(Seq<char>, RawTypeDef)>, key: Seq<char>) -> int
    decreases defs.len(),
{
    if defs.len() == 0 || !seq_lt(defs[0].0, key) {
        0
    } else {
        1 + lower_bound(defs.drop_first(), key)
    }
}

/// The table `defs` where `key` is bound to `def`: an entry with that key is
/// replaced, a new key is put at its place in the order.
pub open spec fn bind(
    defs: Seq<(Seq<char>, RawTypeDef)>,
    key: Seq<char>,
    def: RawTypeDef,
) -> Seq<(Seq<char>, RawTypeDef)> {
    let p = lower_bound(defs, key);
    if p < defs.len() && defs[p].0 == key {
        defs.update(p, (key, def))
    } else {
        defs.insert(p, (key, def))
    }
}

/// The table that binds the entries of `entries` one after the other.
pub open spec fn table_of(entries: Seq<(Seq<char>, RawTypeDef)>) -> Seq<(Seq<char>, RawTypeDef)>
    decreases entries.len(),
{
    if entries.len() == 0 {
        Seq::empty()
    } else {
        bind(table_of(entries.drop_last()), entries.last().0, entries.last().1)
    }
}

/// The leading `lower_bound` entries come before `key`, the next one does not.
pub proof fn lemma_lower_bound(defs: Seq<(Seq<char>, RawTypeDef)>, key: Seq<char>)
    ensures
        0 <= lower_bound(defs, key) <= defs.len(),
        forall|j: int| 0 <= j < lower_bound(defs, key) ==> seq_lt(#[trigger] defs[j].0, key),
        lower_bound(defs, key) < defs.len() ==> !seq_lt(defs[lower_bound(defs, key)].0, key),
    decreases defs.len(),
{
    if defs.len() == 0 || !seq_lt(defs[0].0, key) {
    } else {
        let rest = defs.drop_first();
        lemma_lower_bound(rest, key);
        assert forall|j: int| 0 <= j < lower_bound(defs, key) implies seq_lt(
            #[trigger] defs[j].0,
            key,
        ) by {
            if j > 0 {
                assert(defs[j] == rest[j - 1]);
            }
        }
        if lower_bound(defs, key) < defs.len() {
            assert(defs[lower_bound(defs, key)] == rest[lower_bound(rest, key)]);
        }
    }
}

/// Binding a key keeps a sorted table sorted.
pub proof fn lemma_bind_sorted(defs: Seq<(Seq<char>, RawTypeDef)>, key: Seq<char>, def: RawTypeDef)
    requires
        strictly_sorted(def_keys(defs)),
    ensures
        strictly_sorted(def_keys(bind(defs, key, def))),
{
    let p = lower_bound(defs, key);
    let out = bind(defs, key, def);
    let keys = def_keys(defs);
    lemma_lower_bound(defs, key);
    if p < defs.len() && defs[p].0 == key {
        assert(def_keys(out) =~= keys);
    } else {
        assert forall|i: int, j: int| 0 <= i < j < def_keys(out).len() implies seq_lt(
            #[trigger] def_keys(out)[i],
            #[trigger] def_keys(out)[j],
        ) by {
            let a = if i < p { keys[i] } else if i == p { key } else { keys[i - 1] };
            let b = if j < p { keys[j] } else if j == p { key } else { keys[j - 1] };
            assert(def_keys(out)[i] == a);
            assert(def_keys(out)[j] == b);
            if p < defs.len() {
                lemma_lt_total(keys[p], key);
            }
            if i < p && j == p {
                assert(seq_lt(defs[i].0, key));
            } else if i < p && j > p {
                assert(seq_lt(keys[i], keys[j - 1]));
            } else if i == p {
                if j - 1 > p {
                    assert(seq_lt(keys[p], keys[j - 1]));
                    lemma_lt_transitive(key, keys[p], keys[j - 1]);
                }
            } else if i > p {
                assert(seq_lt(keys[i - 1], keys[j - 1]));
            } else {
                assert(seq_lt(keys[i], keys[j]));
            }
        }
    }
}

/// A table built by binding keys one by one is sorted.
pub proof fn lemma_table_of_sorted(entries: Seq<(Seq<char>, RawTypeDef)>)
    ensures
        strictly_sorted(def_keys(table_of(entries))),
    decreases entries.len(),
{
    if entries.len() > 0 {
        lemma_table_of_sorted(entries.drop_last());
        lemma_bind_sorted(table_of(entries.drop_last()), entries.last().0, entries.last().1);
    }
}

impl TypeSpecWithMeta {
    /// A reference to the definition under `key`.
    pub fn reference(key: &str) -> (r: TypeSpecWithMeta)
        ensures
            r@ == RawTypeSpec::Ref(key@),
    {
        TypeSpecWithMeta { type_spec: TypeSpec::Ref(TypeRef { key: String::from_str(key) }) }
    }

    /// A type that is written out in place.
    pub fn inline(def: TypeDef) -> (r: TypeSpecWithMeta)
        ensures
            r@ == RawTypeSpec::Inline(def@),
    {
        TypeSpecWithMeta { type_spec: TypeSpec::Inline(def) }
    }

    /// A union of `branches`, in their order.
    pub fn any_of(branches: Vec<TypeSpecWithMeta>) -> (r: TypeSpecWithMeta)
        ensures
            r@ == RawTypeSpec::Union(specs_view(branches@)),
    {
        let u = UnionRef { any_of: branches };
        proof {
            lemma_union_spec_view(u);
        }
        TypeSpecWithMeta { type_spec: TypeSpec::Union(u) }
    }
}

impl TypeDef {
    /// The type of all strings.
    pub fn string() -> (r: TypeDef)
        ensures
            r@ == RawTypeDef::StringOrEnum(None),
    {
        TypeDef::StringOrEnum(StringOrEnumDef { values: None })
    }

    /// An enumeration of `values`, in their order.
    pub fn enumeration(values: Vec<String>) -> (r: TypeDef)
        ensures
            r@ == RawTypeDef::StringOrEnum(Some(deep(values@))),
    {
        TypeDef::StringOrEnum(StringOrEnumDef { values: Some(values) })
    }

    /// A record with `properties`, of which it requires those in `required`.
    pub fn class(properties: Vec<(String, TypeSpecWithMeta)>, required: Vec<String>) -> (r: TypeDef)
        ensures
            r@ == RawTypeDef::Class(properties_view(properties@), deep(required@)),
    {
        let c = ClassDef { properties, required };
        proof {
            lemma_class_view(c);
        }
        TypeDef::Class(c)
    }

    /// A list of `items`.
    pub fn array(items: TypeSpecWithMeta) -> (r: TypeDef)
        ensures
            r@ == RawTypeDef::Array(Box::new(items@)),
    {
        TypeDef::Array(Box::new(ArrayDef { items }))
    }
}

impl RawSchema {
    /// The keys of the definition table are strictly increasing, so that no
    /// key is bound twice and the stored order is the lexicographic one.
    pub open spec fn wf(self) -> bool {
        strictly_sorted(def_keys(self.defs))
    }
}

/// A raw schema. The definition table is kept ordered by key.
#[derive(Debug, PartialEq, Eq)]
pub struct Schema {
    defs: Vec<(String, TypeDef)>,
    properties: Vec<(String, TypeSpecWithMeta)>,
    required: Vec<String>,
}

impl View for Schema {
    type V = RawSchema;

    closed spec fn view(&self) -> RawSchema {
        RawSchema {
            defs: defs_view(self.defs@),
            properties: properties_view(self.properties@),
            required: deep(self.required@),
        }
    }
}

impl Schema {
    #[verifier::type_invariant]
    spec fn ordered(&self) -> bool {
        strictly_sorted(def_keys(defs_view(self.defs@)))
    }

    /// A schema without definitions and without properties.
    pub fn new() -> (s: Schema)
        ensures
            s@.defs.len() == 0,
            s@.properties.len() == 0,
            s@.required.len() == 0,
            s@.wf(),
    {
        Schema { defs: Vec::new(), properties: Vec::new(), required: Vec::new() }
    }

    /// This schema with `key` bound to `def` in the definition table.
    pub fn with_def(self, key: String, def: TypeDef) -> (s: Schema)
        ensures
            s@.defs == bind(self@.defs, key@, def@),
            s@.properties == self@.properties,
            s@.required == self@.required,
            s@.wf(),
    {
        proof {
            use_type_invariant(&self);
        }
        let Schema { defs, properties, required } = self;
        let mut defs = defs;
        let ghost before = defs_view(defs@);
        let mut p: usize = 0;
        assert(before.skip(0) =~= before);
        while p < defs.len() && text_lt(defs[p].0.as_str(), key.as_str())
            invariant
                p <= defs.len(),
                before == defs_view(defs@),
                lower_bound(before, key@) == p + lower_bound(before.skip(p as int), key@),
            decreases defs.len() - p,
        {
            assert(before.skip(p as int)[0] == before[p as int]);
            assert(before.skip(p as int).drop_first() =~= before.skip(p + 1));
            p += 1;
        }
        proof {
            if p < defs.len() {
                assert(before.skip(p as int)[0] == before[p as int]);
            }
            lemma_bind_sorted(before, key@, def@);
        }
        if p < defs.len() && text_eq(defs[p].0.as_str(), key.as_str()) {
            defs.set(p, (key, def));
        } else {
            defs.insert(p, (key, def));
        }
        assert(defs_view(defs@) =~= bind(before, key@, def@));
        Schema { defs, properties, required }
    }

    /// This schema with one more root property, after those it has.
    pub fn with_property(self, name: String, spec: TypeSpecWithMeta) -> (s: Schema)
        ensures
            s@.defs == self@.defs,
            s@.properties == self@.properties.push((name@, spec@)),
            s@.required == self@.required,
            s@.wf(),
    {
        proof {
            use_type_invariant(&self);
        }
        let Schema { defs, properties, required } = self;
        let mut properties = properties;
        let ghost before = properties_view(properties@);
        properties.push((name, spec));
        assert(properties_view(properties@) =~= before.push((name@, spec@)));
        Schema { defs, properties, required }
    }

    /// This schema with the root property `name` marked as required.
    pub fn with_required(self, name: String) -> (s: Schema)
        ensures
            s@.defs == self@.defs,
            s@.properties == self@.properties,
            s@.required == self@.required.push(name@),
            s@.wf(),
    {
        proof {
            use_type_invariant(&self);
        }
        let Schema { defs, properties, required } = self;
        let mut required = required;
        let ghost before = deep(required@);
        required.push(name);
        assert(deep(required@) =~= before.push(name@));
        Schema { defs, properties, required }
    }

    /// This schema with `properties` as its root properties.
    pub fn with_properties(self, properties: Vec<(String, TypeSpecWithMeta)>) -> (s: Schema)
        ensures
            s@.defs == self@.defs,
            s@.properties == properties_view(properties@),
            s@.required == self@.required,
            s@.wf(),
    {
        proof {
            use_type_invariant(&self);
        }
        let Schema { defs, properties: _, required } = self;
        Schema { defs, properties, required }
    }

    /// This schema with `required` as the names that its root requires.
    pub fn with_requirements(self, required: Vec<String>) -> (s: Schema)
        ensures
            s@.defs == self@.defs,
            s@.properties == self@.properties,
            s@.required == deep(required@),
            s@.wf(),
    {
        proof {
            use_type_invariant(&self);
        }
        let Schema { defs, properties, required: _ } = self;
        Schema { defs, properties, required }
    }

    /// The definition table, ordered by key.
    pub fn defs(&self) -> (r: &Vec<(String, TypeDef)>)
        ensures
            defs_view(r@) == self@.defs,
            self@.wf(),
    {
        proof {
            use_type_invariant(self);
        }
        &self.defs
    }

    /// The root properties in declared order.
    pub fn properties(&self) -> (r: &Vec<(String, TypeSpecWithMeta)>)
        ensures
            properties_view(r@) == self@.properties,
    {
        &self.properties
    }

    /// The names that the root requires.
    pub fn required(&self) -> (r: &Vec<String>)
        ensures
            deep(r@) == self@.required,
    {
        &self.required
    }
}

} // verus!
