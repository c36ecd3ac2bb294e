use schema_resolver::names::{assign_name, display_name, fresh_name, qualified_name};
use schema_resolver::resolver::assign_names;
use schema_resolver::text::{chars_of, contains_text, decimal_text, join_text, text_eq, text_lt};
use schema_resolver::{Schema, TypeDef};

fn s(text: &str) -> String {
    text.to_string()
}

#[test]
fn display_names_follow_the_last_separator() {
    assert_eq!(display_name("__main____Address"), "Address");
    assert_eq!(display_name("other_demo__Address"), "Address");
    assert_eq!(display_name("Role"), "Role");
    assert_eq!(display_name("a__b__c"), "c");
    assert_eq!(display_name("a___b"), "b");
    assert_eq!(display_name("a_b"), "a_b");
    assert_eq!(display_name("a__"), "a__");
    assert_eq!(display_name("__"), "__");
    assert_eq!(display_name("__x"), "x");
    assert_eq!(display_name("_"), "_");
    assert_eq!(display_name(""), "");
    assert_eq!(display_name("pkg__Größe"), "Größe");
}

#[test]
fn qualified_names_append_the_namespace() {
    assert_eq!(qualified_name("other_demo__Address"), "Address_other_demo");
    assert_eq!(qualified_name("__main____Address"), "Address___main__");
    assert_eq!(qualified_name("a__b__c"), "c_a__b");
    assert_eq!(qualified_name("Role"), "Role_");
    assert_eq!(qualified_name("__x"), "x_");
    assert_eq!(qualified_name("a__"), "a___");
}

#[test]
fn fresh_names_grow_until_free() {
    let used = vec![s("A"), s("A_"), s("A___"), s("B")];
    assert_eq!(fresh_name(&used, s("A")), "A__");
    assert_eq!(fresh_name(&used, s("A_")), "A__");
    assert_eq!(fresh_name(&used, s("A__")), "A__");
    assert_eq!(fresh_name(&used, s("A___")), "A____");
    assert_eq!(fresh_name(&used, s("C")), "C");
    assert_eq!(fresh_name(&Vec::new(), s("")), "");
}

#[test]
fn a_taken_display_name_is_qualified() {
    let used = vec![s("Address")];
    assert_eq!(assign_name(&used, "zebra__Address"), "Address_zebra");
    assert_eq!(assign_name(&used, "zebra__Role"), "Role");
    assert_eq!(assign_name(&used, "Address"), "Address_");
    let used = vec![s("Address"), s("Address_zebra")];
    assert_eq!(assign_name(&used, "zebra__Address"), "Address_zebra_");
}

#[test]
fn names_of_a_table_are_assigned_in_key_order() {
    let schema = Schema::new()
        .with_def(s("zebra__Address"), TypeDef::Int)
        .with_def(s("__main____Address"), TypeDef::Int)
        .with_def(s("Role"), TypeDef::Int)
        .with_def(s("Address_zebra"), TypeDef::Int)
        .with_def(s("other_demo__Address"), TypeDef::Int);
    let keys: Vec<&str> = schema.defs().iter().map(|d| d.0.as_str()).collect();
    assert_eq!(
        keys,
        vec!["Address_zebra", "Role", "__main____Address", "other_demo__Address", "zebra__Address"]
    );
    assert_eq!(
        assign_names(schema.defs()),
        vec![
            s("Address_zebra"),
            s("Role"),
            s("Address"),
            s("Address_other_demo"),
            s("Address_zebra_"),
        ]
    );
}

#[test]
fn binding_a_key_again_replaces_its_definition() {
    let schema = Schema::new()
        .with_def(s("b"), TypeDef::Int)
        .with_def(s("a"), TypeDef::Bool)
        .with_def(s("b"), TypeDef::Null)
        .with_def(s("ab"), TypeDef::Float)
        .with_def(s(""), TypeDef::Int);
    assert_eq!(
        schema.defs(),
        &vec![
            (s(""), TypeDef::Int),
            (s("a"), TypeDef::Bool),
            (s("ab"), TypeDef::Float),
            (s("b"), TypeDef::Null),
        ]
    );
}

#[test]
fn texts_are_ordered_by_character() {
    assert!(text_lt("", "a"));
    assert!(!text_lt("", ""));
    assert!(!text_lt("a", ""));
    assert!(text_lt("a", "b"));
    assert!(text_lt("a", "ab"));
    assert!(!text_lt("ab", "a"));
    assert!(text_lt("Z", "_"));
    assert!(text_lt("_", "a"));
    assert!(text_lt("abc", "abd"));
    assert!(!text_lt("abd", "abc"));
    assert!(!text_lt("abc", "abc"));
    assert!(text_lt("z", "é"));
    assert!(text_lt("é", "日本"));
    for (a, b) in [("a", "b"), ("Role", "__main__"), ("é", "z"), ("x", "x"), ("", "0")] {
        assert_eq!(text_lt(a, b), a < b);
        assert_eq!(text_lt(b, a), b < a);
    }
}

#[test]
fn text_helpers_agree_with_the_standard_library() {
    assert_eq!(chars_of("héllo"), vec!['h', 'é', 'l', 'l', 'o']);
    assert!(text_eq("type", "type"));
    assert!(!text_eq("type", "types"));
    assert!(!text_eq("type", "typo"));
    assert!(text_eq("", ""));
    assert!(contains_text(&vec![s("a"), s("b")], "b"));
    assert!(!contains_text(&vec![s("a"), s("b")], "c"));
    assert!(!contains_text(&Vec::new(), ""));
    assert_eq!(join_text("", ".", "x"), "x");
    assert_eq!(join_text("a", ".", "x"), "a.x");
    assert_eq!(join_text("a", "_", ""), "a_");
}

#[test]
fn decimals_have_no_leading_zeros() {
    assert_eq!(decimal_text(0), "0");
    assert_eq!(decimal_text(7), "7");
    assert_eq!(decimal_text(10), "10");
    assert_eq!(decimal_text(109), "109");
    assert_eq!(decimal_text(9876543210), "9876543210");
    assert_eq!(decimal_text(usize::MAX), usize::MAX.to_string());
}
