//! The grammar loader: from a structured document to the raw schema.

use vstd::prelude::*;
use crate::document::{
    entries_view, items_view, lemma_list_view, lemma_map_view, lemma_position, position, Document,
    DocumentView,
};
use crate::error::{GrammarError, GrammarReason};
use crate::grammar::{
    parse_def, parse_defs, parse_primitive, parse_properties, parse_record, parse_schema,
    parse_spec, parse_specs, parse_target, parse_texts, parse_texts_from,
};
use crate::schema::{
    lemma_class_view, lemma_union_spec_view, properties_view, specs_view,
    table_of, ArrayDef, ClassDef, RawTypeDef, Schema, TypeDef, TypeRef, TypeSpec,
    TypeSpecWithMeta, UnionRef,
};
use crate::text::{chars_of, decimal_text, deep, text_eq};

verus! {

/// The position of the first entry of `entries` under `key`.
pub fn find_entry(entries: &Vec<(String, Document)>, key: &str) -> (r: Option<usize>)
    ensures
        match r {
            Some(i) => position(entries_view(entries@), key@) == i && i < entries@.len(),
            None => position(entries_view(entries@), key@) == -1,
        },
{
    let ghost model = entries_view(entries@);
    proof {
        lemma_position(model, key@);
    }
    let mut i: usize = 0;
    while i < entries.len()
        invariant
            i <= entries.len(),
            model == entries_view(entries@),
            forall|j: int| 0 <= j < i ==> model[j].0 != key@,
            -1 <= position(model, key@) < model.len(),
            position(model, key@) >= 0 ==> model[position(model, key@)].0 == key@,
            forall|j: int|
                0 <= j < model.len() && (j < position(model, key@) || position(model, key@) < 0)
                    ==> (#[trigger] model[j]).0 != key@,
        decreases entries.len() - i,
    {
        if text_eq(entries[i].0.as_str(), key) {
            assert(model[i as int].0 == key@);
            return Some(i);
        }
        i += 1;
    }
    proof {
        if position(model, key@) >= 0 {
            assert(model[position(model, key@)].0 == key@);
        }
    }
    None
}

/// The texts of a list of strings.
pub fn load_texts(doc: &Document) -> (r: Result<Vec<String>, GrammarError>)
    ensures
        match parse_texts(doc@) {
            Ok(texts) => r matches Ok(x) && deep(x@) == texts,
            Err(e) => r matches Err(x) && x@ == e,
        },
{
    match doc {
        Document::List(items) => {
            proof {
                lemma_list_view(*items);
            }
            let ghost model = items_view(items@);
            let mut texts: Vec<String> = Vec::new();
            let mut i: usize = 0;
            assert(deep(texts@) =~= Seq::empty());
            while i < items.len()
                invariant
                    i <= items.len(),
                    model == items_view(items@),
                    doc@ == DocumentView::List(model),
                    parse_texts_from(model, 0, Seq::empty()) == parse_texts_from(
                        model,
                        i as int,
                        deep(texts@),
                    ),
                decreases items.len() - i,
            {
                match &items[i] {
                    Document::Text(t) => {
                        let ghost before = deep(texts@);
                        texts.push(t.clone());
                        assert(deep(texts@) =~= before.push(t@));
                    },
                    _ => {
                        return Err(
                            GrammarError::at(
                                decimal_text(i).as_str(),
                                GrammarReason::UnexpectedShape,
                            ),
                        );
                    },
                }
                i += 1;
            }
            Ok(texts)
        },
        _ => Err(GrammarError::here(GrammarReason::UnexpectedShape)),
    }
}

/// The key that the text of a reference names.
pub fn load_target(doc: &Document) -> (r: Result<String, GrammarError>)
    ensures
        match parse_target(doc@) {
            Ok(key) => r matches Ok(x) && x@ == key,
            Err(e) => r matches Err(x) && x@ == e,
        },
{
    match doc {
        Document::Text(t) => {
            let text = chars_of(t.as_str());
            let lead = chars_of("#/$defs/");
            if text.len() < lead.len() {
                return Err(GrammarError::here(GrammarReason::UnexpectedShape));
            }
            let mut i: usize = 0;
            while i < lead.len()
                invariant
                    i <= lead.len(),
                    lead.len() <= text.len(),
                    lead@ == "#/$defs/"@,
                    text@ == t@,
                    doc@ == DocumentView::Text(t@),
                    forall|j: int| 0 <= j < i ==> lead@[j] == text@[j],
                decreases lead.len() - i,
            {
                if lead[i] != text[i] {
                    assert(lead@[i as int] != text@.subrange(0, lead@.len() as int)[i as int]);
                    return Err(GrammarError::here(GrammarReason::UnexpectedShape));
                }
                i += 1;
            }
            assert(lead@ =~= text@.subrange(0, lead@.len() as int));
            Ok(String::from_str(t.as_str().substring_char(lead.len(), text.len())))
        },
        _ => Err(GrammarError::here(GrammarReason::UnexpectedShape)),
    }
}

/// The primitive body that `tag` stands for, if it stands for one.
fn load_primitive(tag: &str) -> (r: Option<TypeDef>)
    ensures
        match parse_primitive(tag@) {
            Some(def) => r matches Some(x) && x@ == def,
            None => r is None,
        },
{
    if text_eq(tag, "integer") {
        Some(TypeDef::Int)
    } else if text_eq(tag, "number") {
        Some(TypeDef::Float)
    } else if text_eq(tag, "boolean") {
        Some(TypeDef::Bool)
    } else if text_eq(tag, "null") {
        Some(TypeDef::Null)
    } else {
        None
    }
}

/// The type position that `doc` stands for.
#[verifier::loop_isolation(false)]
pub fn load_spec(doc: &Document) -> (r: Result<TypeSpecWithMeta, GrammarError>)
    ensures
        match parse_spec(doc@) {
            Ok(spec) => r matches Ok(x) && x@ == spec,
            Err(e) => r matches Err(x) && x@ == e,
        },
    decreases doc, 1int,
{
    match doc {
        Document::Object(entries) => {
            proof {
                lemma_map_view(*entries);
            }
            match find_entry(entries, "$ref") {
                Some(target) => match load_target(&entries[target].1) {
                    Ok(key) => Ok(TypeSpecWithMeta { type_spec: TypeSpec::Ref(TypeRef { key }) }),
                    Err(e) => Err(e.under("$ref")),
                },
                None => match find_entry(entries, "type") {
                    Some(_) => match load_def(doc) {
                        Ok(def) => Ok(TypeSpecWithMeta { type_spec: TypeSpec::Inline(def) }),
                        Err(e) => Err(e),
                    },
                    None => match find_entry(entries, "anyOf") {
                        Some(a) => match &entries[a].1 {
                            Document::List(items) => {
                                proof {
                                    lemma_list_view(*items);
                                }
                                if items.len() == 0 {
                                    return Err(
                                        GrammarError::at("anyOf", GrammarReason::UnexpectedShape),
                                    );
                                }
                                let ghost model = items_view(items@);
                                let mut any_of: Vec<TypeSpecWithMeta> = Vec::new();
                                let mut i: usize = 0;
                                assert(specs_view(any_of@) =~= Seq::empty());
                                while i < items.len()
                                    invariant
                                        i <= items.len(),
                                        parse_specs(model, 0, Seq::empty()) == parse_specs(
                                            model,
                                            i as int,
                                            specs_view(any_of@),
                                        ),
                                    decreases items.len() - i,
                                {
                                    assert(decreases_to!(*entries => entries[a as int]));
                                    assert(decreases_to!(*items => items[i as int]));
                                    match load_spec(&items[i]) {
                                        Ok(spec) => {
                                            let ghost before = specs_view(any_of@);
                                            any_of.push(spec);
                                            assert(specs_view(any_of@) =~= before.push(spec@));
                                        },
                                        Err(e) => {
                                            return Err(
                                                e.under(decimal_text(i).as_str()).under("anyOf"),
                                            );
                                        },
                                    }
                                    i += 1;
                                }
                                let u = UnionRef { any_of };
                                proof {
                                    lemma_union_spec_view(u);
                                }
                                Ok(TypeSpecWithMeta { type_spec: TypeSpec::Union(u) })
                            },
                            _ => Err(GrammarError::at("anyOf", GrammarReason::UnexpectedShape)),
                        },
                        None => Err(GrammarError::at("type", GrammarReason::MissingField)),
                    },
                },
            }
        },
        _ => Err(GrammarError::here(GrammarReason::UnexpectedShape)),
    }
}

/// The type body that `doc` stands for.
pub fn load_def(doc: &Document) -> (r: Result<TypeDef, GrammarError>)
    ensures
        match parse_def(doc@) {
            Ok(def) => r matches Ok(x) && x@ == def,
            Err(e) => r matches Err(x) && x@ == e,
        },
    decreases doc, 0int,
{
    match doc {
        Document::Object(entries) => {
            proof {
                lemma_map_view(*entries);
            }
            match find_entry(entries, "type") {
                Some(tag) => match &entries[tag].1 {
                    Document::Text(t) => {
                        if text_eq(t.as_str(), "string") {
                            match find_entry(entries, "enum") {
                                Some(values) => match &entries[values].1 {
                                    Document::Null => Ok(TypeDef::string()),
                                    listed => match load_texts(listed) {
                                        Ok(texts) => Ok(TypeDef::enumeration(texts)),
                                        Err(e) => Err(e.under("enum")),
                                    },
                                },
                                None => Ok(TypeDef::string()),
                            }
                        } else if text_eq(t.as_str(), "object") {
                            match load_record(entries) {
                                Ok(class) => {
                                    proof {
                                        lemma_class_view(class);
                                    }
                                    Ok(TypeDef::Class(class))
                                },
                                Err(e) => Err(e),
                            }
                        } else if text_eq(t.as_str(), "array") {
                            match find_entry(entries, "items") {
                                Some(items) => {
                                    assert(decreases_to!(*entries => entries[items as int]));
                                    match load_spec(&entries[items].1) {
                                        Ok(spec) => Ok(
                                            TypeDef::Array(Box::new(ArrayDef { items: spec })),
                                        ),
                                        Err(e) => Err(e.under("items")),
                                    }
                                },
                                None => Err(GrammarError::at("items", GrammarReason::MissingField)),
                            }
                        } else {
                            match load_primitive(t.as_str()) {
                                Some(def) => Ok(def),
                                None => Err(
                                    GrammarError::at("type", GrammarReason::UnknownTypeTag),
                                ),
                            }
                        }
                    },
                    _ => Err(GrammarError::at("type", GrammarReason::UnexpectedShape)),
                },
                None => Err(GrammarError::at("type", GrammarReason::MissingField)),
            }
        },
        _ => Err(GrammarError::here(GrammarReason::UnexpectedShape)),
    }
}

/// The properties and the required names among the entries of a map.
#[verifier::loop_isolation(false)]
pub fn load_record(entries: &Vec<(String, Document)>) -> (r: Result<ClassDef, GrammarError>)
    ensures
        match parse_record(entries_view(entries@)) {
            Ok((properties, required)) => r matches Ok(x) && properties_view(x.properties@)
                == properties && deep(x.required@) == required,
            Err(e) => r matches Err(x) && x@ == e,
        },
    decreases entries, 0int,
{
    let mut properties: Vec<(String, TypeSpecWithMeta)> = Vec::new();
    assert(properties_view(properties@) =~= Seq::empty());
    match find_entry(entries, "properties") {
        Some(p) => match &entries[p].1 {
            Document::Object(named) => {
                proof {
                    lemma_map_view(*named);
                }
                let ghost model = entries_view(named@);
                let mut i: usize = 0;
                while i < named.len()
                    invariant
                        i <= named.len(),
                        parse_properties(model, 0, Seq::empty()) == parse_properties(
                            model,
                            i as int,
                            properties_view(properties@),
                        ),
                    decreases named.len() - i,
                {
                    assert(decreases_to!(*entries => entries[p as int]));
                    assert(decreases_to!(*named => named[i as int]));
                    match load_spec(&named[i].1) {
                        Ok(spec) => {
                            let ghost before = properties_view(properties@);
                            let name = named[i].0.clone();
                            properties.push((name, spec));
                            assert(properties_view(properties@) =~= before.push(
                                (named[i as int].0@, spec@),
                            ));
                        },
                        Err(e) => {
                            return Err(e.under(named[i].0.as_str()).under("properties"));
                        },
                    }
                    i += 1;
                }
            },
            _ => {
                return Err(GrammarError::at("properties", GrammarReason::UnexpectedShape));
            },
        },
        None => {},
    }
    match find_entry(entries, "required") {
        Some(r) => match load_texts(&entries[r].1) {
            Ok(required) => Ok(ClassDef { properties, required }),
            Err(e) => Err(e.under("required")),
        },
        None => {
            let required: Vec<String> = Vec::new();
            assert(deep(required@) =~= Seq::empty());
            Ok(ClassDef { properties, required })
        },
    }
}

/// Loads the raw schema that `doc` stands for.
///
/// The result is the schema, with its definition table ordered by key, or
/// the first fault of the document with the path of the offending node.
#[verifier::loop_isolation(false)]
pub fn load_schema(doc: &Document) -> (r: Result<Schema, GrammarError>)
    ensures
        match parse_schema(doc@) {
            Ok(schema) => r matches Ok(x) && x@ == schema,
            Err(e) => r matches Err(x) && x@ == e,
        },
        r matches Ok(x) ==> x@.wf(),
{
    match doc {
        Document::Object(entries) => {
            proof {
                lemma_map_view(*entries);
            }
            match find_entry(entries, "type") {
                Some(tag) => match &entries[tag].1 {
                    Document::Text(t) => {
                        if !text_eq(t.as_str(), "object") {
                            return Err(GrammarError::at("type", GrammarReason::UnexpectedShape));
                        }
                    },
                    _ => {
                        return Err(GrammarError::at("type", GrammarReason::UnexpectedShape));
                    },
                },
                None => {
                    return Err(GrammarError::at("type", GrammarReason::MissingField));
                },
            }
            let mut schema = Schema::new();
            match find_entry(entries, "$defs") {
                Some(d) => match &entries[d].1 {
                    Document::Object(named) => {
                        proof {
                            lemma_map_view(*named);
                        }
                        let ghost model = entries_view(named@);
                        let ghost mut done: Seq<(Seq<char>, RawTypeDef)> = Seq::empty();
                        let mut i: usize = 0;
                        assert(schema@.defs =~= table_of(done));
                        while i < named.len()
                            invariant
                                i <= named.len(),
                                schema@.defs == table_of(done),
                                schema@.properties.len() == 0,
                                schema@.required.len() == 0,
                                parse_defs(model, 0, Seq::empty()) == parse_defs(
                                    model,
                                    i as int,
                                    done,
                                ),
                            decreases named.len() - i,
                        {
                            match load_def(&named[i].1) {
                                Ok(def) => {
                                    proof {
                                        let more = done.push((named[i as int].0@, def@));
                                        assert(more.drop_last() =~= done);
                                        done = more;
                                    }
                                    schema = schema.with_def(named[i].0.clone(), def);
                                },
                                Err(e) => {
                                    return Err(e.under(named[i].0.as_str()).under("$defs"));
                                },
                            }
                            i += 1;
                        }
                    },
                    _ => {
                        return Err(GrammarError::at("$defs", GrammarReason::UnexpectedShape));
                    },
                },
                None => {
                    return Err(GrammarError::at("$defs", GrammarReason::MissingField));
                },
            }
            match load_record(entries) {
                Ok(root) => {
                    let ClassDef { properties, required } = root;
                    Ok(schema.with_properties(properties).with_requirements(required))
                },
                Err(e) => Err(e),
            }
        },
        _ => Err(GrammarError::here(GrammarReason::UnexpectedShape)),
    }
}

} // verus!
