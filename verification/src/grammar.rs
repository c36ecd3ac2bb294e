//! The grammar of schema documents: which documents are schemas, and which
//! raw tree each of them stands for.
//!
//! A schema is a map with the `type` tag `object`, a `$defs` map of type
//! bodies, and optionally a `properties` map and a `required` list. A type
//! body is a map with a `type` tag: `string` (with an optional `enum` list
//! of strings, for which null counts as absent), `object` (with optional
//! `properties` and `required`),
//! `array` (with `items`), `integer`, `number`, `boolean` or `null`. A type
//! position is a map with a `$ref` entry, whose text is `#/$defs/` and a key;
//! else one with a `type` tag, which is an inline body; else one with an
//! `anyOf` list of type positions, which must not be empty. Other entries of
//! these maps are not read.

use vstd::prelude::*;
use crate::document::{position, DocumentView};
use crate::error::{GrammarErrorView, GrammarReason};
use crate::schema::{lemma_table_of_sorted, table_of, RawSchema, RawTypeDef, RawTypeSpec};
use crate::text::decimal;

verus! {

/// An error at the node `path`.
pub open spec fn fail(path: Seq<char>, reason: GrammarReason) -> GrammarErrorView {
    GrammarErrorView { path, reason }
}

/// The properties and the required names of a record.
pub type RawRecord = (Seq<(Seq<char>, RawTypeSpec)>, Seq<Seq<char>>);

/// The texts of `items` from position `i` on, after those in `done`.
pub open spec fn parse_texts_from(items: Seq<DocumentView>, i: int, done: Seq<Seq<char>>) -> Result<
    Seq<Seq<char>>,
    GrammarErrorView,
>
    decreases items.len() - i,
{
    if i < 0 || i >= items.len() {
        Ok(done)
    } else {
        match items[i] {
            DocumentView::Text(t) => parse_texts_from(items, i + 1, done.push(t)),
            _ => Err(fail(decimal(i as nat), GrammarReason::UnexpectedShape)),
        }
    }
}

/// The texts of a list of strings.
pub open spec fn parse_texts(doc: DocumentView) -> Result<Seq<Seq<char>>, GrammarErrorView> {
    match doc {
        DocumentView::List(items) => parse_texts_from(items, 0, Seq::empty()),
        _ => Err(fail(Seq::empty(), GrammarReason::UnexpectedShape)),
    }
}

/// The key that the text of a reference names.
pub open spec fn parse_target(doc: DocumentView) -> Result<Seq<char>, GrammarErrorView> {
    match doc {
        DocumentView::Text(t) => if "#/$defs/"@.is_prefix_of(t) {
            Ok(t.skip("#/$defs/"@.len() as int))
        } else {
            Err(fail(Seq::empty(), GrammarReason::UnexpectedShape))
        },
        _ => Err(fail(Seq::empty(), GrammarReason::UnexpectedShape)),
    }
}

/// The primitive body that `tag` stands for, if it stands for one.
pub open spec fn parse_primitive(tag: Seq<char>) -> Option<RawTypeDef> {
    if tag == "integer"@ {
        Some(RawTypeDef::Int)
    } else if tag == "number"@ {
        Some(RawTypeDef::Float)
    } else if tag == "boolean"@ {
        Some(RawTypeDef::Bool)
    } else if tag == "null"@ {
        Some(RawTypeDef::Null)
    } else {
        None
    }
}

/// The type position that `doc` stands for.
pub open spec fn parse_spec(doc: DocumentView) -> Result<RawTypeSpec, GrammarErrorView>
    decreases doc, 1int,
{
    match doc {
        DocumentView::Object(entries) => {
            let target = position(entries, "$ref"@);
            let tag = position(entries, "type"@);
            let alternatives = position(entries, "anyOf"@);
            if 0 <= target < entries.len() {
                match parse_target(entries[target].1) {
                    Ok(key) => Ok(RawTypeSpec::Ref(key)),
                    Err(e) => Err(e.under("$ref"@)),
                }
            } else if tag >= 0 {
                match parse_def(doc) {
                    Ok(def) => Ok(RawTypeSpec::Inline(def)),
                    Err(e) => Err(e),
                }
            } else if 0 <= alternatives < entries.len() {
                match entries[alternatives].1 {
                    DocumentView::List(items) => if items.len() == 0 {
                        Err(fail("anyOf"@, GrammarReason::UnexpectedShape))
                    } else {
                        match parse_specs(items, 0, Seq::empty()) {
                            Ok(branches) => Ok(RawTypeSpec::Union(branches)),
                            Err(e) => Err(e.under("anyOf"@)),
                        }
                    },
                    _ => Err(fail("anyOf"@, GrammarReason::UnexpectedShape)),
                }
            } else {
                Err(fail("type"@, GrammarReason::MissingField))
            }
        },
        _ => Err(fail(Seq::empty(), GrammarReason::UnexpectedShape)),
    }
}

/// The type positions that `items` stand for from position `i` on, after
/// those in `done`.
pub open spec fn parse_specs(items: Seq<DocumentView>, i: int, done: Seq<RawTypeSpec>) -> Result<
    Seq<RawTypeSpec>,
    GrammarErrorView,
>
    decreases items, items.len() - i,
{
    if i < 0 || i >= items.len() {
        Ok(done)
    } else {
        match parse_spec(items[i]) {
            Ok(spec) => parse_specs(items, i + 1, done.push(spec)),
            Err(e) => Err(e.under(decimal(i as nat))),
        }
    }
}

/// The type body that `doc` stands for.
pub open spec fn parse_def(doc: DocumentView) -> Result<RawTypeDef, GrammarErrorView>
    decreases doc, 0int,
{
    match doc {
        DocumentView::Object(entries) => {
            let tag = position(entries, "type"@);
            if 0 <= tag < entries.len() {
                match entries[tag].1 {
                    DocumentView::Text(t) => if t == "string"@ {
                        let values = position(entries, "enum"@);
                        if 0 <= values < entries.len() && !(entries[values].1 is Null) {
                            match parse_texts(entries[values].1) {
                                Ok(texts) => Ok(RawTypeDef::StringOrEnum(Some(texts))),
                                Err(e) => Err(e.under("enum"@)),
                            }
                        } else {
                            Ok(RawTypeDef::StringOrEnum(None))
                        }
                    } else if t == "object"@ {
                        match parse_record(entries) {
                            Ok((properties, required)) => Ok(
                                RawTypeDef::Class(properties, required),
                            ),
                            Err(e) => Err(e),
                        }
                    } else if t == "array"@ {
                        let items = position(entries, "items"@);
                        if 0 <= items < entries.len() {
                            match parse_spec(entries[items].1) {
                                Ok(spec) => Ok(RawTypeDef::Array(Box::new(spec))),
                                Err(e) => Err(e.under("items"@)),
                            }
                        } else {
                            Err(fail("items"@, GrammarReason::MissingField))
                        }
                    } else {
                        match parse_primitive(t) {
                            Some(def) => Ok(def),
                            None => Err(fail("type"@, GrammarReason::UnknownTypeTag)),
                        }
                    },
                    _ => Err(fail("type"@, GrammarReason::UnexpectedShape)),
                }
            } else {
                Err(fail("type"@, GrammarReason::MissingField))
            }
        },
        _ => Err(fail(Seq::empty(), GrammarReason::UnexpectedShape)),
    }
}

/// The properties and the required names among the entries of a map.
/// Either may be absent, and is then empty.
pub open spec fn parse_record(entries: Seq<(Seq<char>, DocumentView)>) -> Result<
    RawRecord,
    GrammarErrorView,
>
    decreases entries, 0int,
{
    let p = position(entries, "properties"@);
    let r = position(entries, "required"@);
    let properties = if 0 <= p < entries.len() {
        match entries[p].1 {
            DocumentView::Object(named) => match parse_properties(named, 0, Seq::empty()) {
                Ok(done) => Ok(done),
                Err(e) => Err(e.under("properties"@)),
            },
            _ => Err(fail("properties"@, GrammarReason::UnexpectedShape)),
        }
    } else {
        Ok(Seq::empty())
    };
    match properties {
        Err(e) => Err(e),
        Ok(done) => if 0 <= r < entries.len() {
            match parse_texts(entries[r].1) {
                Ok(required) => Ok((done, required)),
                Err(e) => Err(e.under("required"@)),
            }
        } else {
            Ok((done, Seq::empty()))
        },
    }
}

/// The properties that `named` stands for from position `i` on, after those
/// in `done`.
pub open spec fn parse_properties(
    named: Seq<(Seq<char>, DocumentView)>,
    i: int,
    done: Seq<(Seq<char>, RawTypeSpec)>,
) -> Result<Seq<(Seq<char>, RawTypeSpec)>, GrammarErrorView>
    decreases named, named.len() - i,
{
    if i < 0 || i >= named.len() {
        Ok(done)
    } else {
        match parse_spec(named[i].1) {
            Ok(spec) => parse_properties(named, i + 1, done.push((named[i].0, spec))),
            Err(e) => Err(e.under(named[i].0)),
        }
    }
}

/// The definitions that `named` stands for from position `i` on, after
/// those in `done`.
pub open spec fn parse_defs(
    named: Seq<(Seq<char>, DocumentView)>,
    i: int,
    done: Seq<(Seq<char>, RawTypeDef)>,
) -> Result<Seq<(Seq<char>, RawTypeDef)>, GrammarErrorView>
    decreases named.len() - i,
{
    if i < 0 || i >= named.len() {
        Ok(done)
    } else {
        match parse_def(named[i].1) {
            Ok(def) => parse_defs(named, i + 1, done.push((named[i].0, def))),
            Err(e) => Err(e.under(named[i].0)),
        }
    }
}

/// The definition table among the entries of the root.
pub open spec fn parse_table(entries: Seq<(Seq<char>, DocumentView)>) -> Result<
    Seq<(Seq<char>, RawTypeDef)>,
    GrammarErrorView,
> {
    let d = position(entries, "$defs"@);
    if d < 0 {
        Err(fail("$defs"@, GrammarReason::MissingField))
    } else {
        match entries[d].1 {
            DocumentView::Object(named) => match parse_defs(named, 0, Seq::empty()) {
                Ok(defs) => Ok(table_of(defs)),
                Err(e) => Err(e.under("$defs"@)),
            },
            _ => Err(fail("$defs"@, GrammarReason::UnexpectedShape)),
        }
    }
}

/// Whether the entries of the root bear the tag of a record.
pub open spec fn parse_root_tag(entries: Seq<(Seq<char>, DocumentView)>) -> Result<
    (),
    GrammarErrorView,
> {
    let tag = position(entries, "type"@);
    if tag < 0 {
        Err(fail("type"@, GrammarReason::MissingField))
    } else {
        match entries[tag].1 {
            DocumentView::Text(t) => if t == "object"@ {
                Ok(())
            } else {
                Err(fail("type"@, GrammarReason::UnexpectedShape))
            },
            _ => Err(fail("type"@, GrammarReason::UnexpectedShape)),
        }
    }
}

/// The raw schema that `doc` stands for, or the first fault found in it.
pub open spec fn parse_schema(doc: DocumentView) -> Result<RawSchema, GrammarErrorView> {
    match doc {
        DocumentView::Object(entries) => match parse_root_tag(entries) {
            Err(e) => Err(e),
            Ok(_) => match parse_table(entries) {
                Err(e) => Err(e),
                Ok(defs) => match parse_record(entries) {
                    Err(e) => Err(e),
                    Ok((properties, required)) => Ok(RawSchema { defs, properties, required }),
                },
            },
        },
        _ => Err(fail(Seq::empty(), GrammarReason::UnexpectedShape)),
    }
}

/// In every schema that a document stands for, the keys of the definition
/// table are strictly increasing: no key is bound twice, and the order of
/// the table is the lexicographic one.
pub proof fn lemma_parsed_schema_ordered(doc: DocumentView)
    ensures
        parse_schema(doc) matches Ok(schema) ==> schema.wf(),
{
    match doc {
        DocumentView::Object(entries) => {
            let d = position(entries, "$defs"@);
            if d >= 0 {
                match entries[d].1 {
                    DocumentView::Object(named) => {
                        match parse_defs(named, 0, Seq::empty()) {
                            Ok(defs) => {
                                lemma_table_of_sorted(defs);
                            },
                            Err(_) => {},
                        }
                    },
                    _ => {},
                }
            }
        },
        _ => {},
    }
}

} // verus!
