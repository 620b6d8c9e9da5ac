use struct_migration::chain::{from_impls, migration_steps, version_chain, ChainStep, FromImpl};
use struct_migration::comment::MigrationComment;
use struct_migration::field::MigrationField;
use struct_migration::field_map::FieldMap;
use struct_migration::order::{compare_names, NameOrder};
use struct_migration::plan::{final_conversion, generate_older_version_impl, FieldInit, PlanError};
use struct_migration::tokens::{read_tokens, Token};

fn tokens(src: &str) -> Vec<Token> {
    read_tokens(src.parse::<proc_macro2::TokenStream>().unwrap()).unwrap()
}

fn changes(src: &str) -> Vec<MigrationField> {
    let toks = tokens(&format!(r#""a" => "b" {{ {} }}"#, src));
    MigrationComment::parse_all(&toks).unwrap().changes
}

fn fields(names: &[&str]) -> FieldMap<()> {
    let mut m = FieldMap::new();
    for n in names {
        m.insert(n.to_string(), ());
    }
    m
}

fn plan(old: &[&str], src: &str) -> Result<Vec<(String, FieldInit)>, PlanError> {
    generate_older_version_impl(&fields(old), &changes(src)).map(|p| p.entries().clone())
}

fn entry(name: &str, init: FieldInit) -> (String, FieldInit) {
    (name.to_string(), init)
}

#[test]
fn no_changes_carries_every_field() {
    assert_eq!(
        plan(&["b", "a"], "").unwrap(),
        vec![entry("a", FieldInit::Carried), entry("b", FieldInit::Carried)]
    );
}

#[test]
fn each_change_sets_its_field() {
    let p = plan(
        &["a", "b", "c", "d", "e"],
        "+ x: u8, + y: u8 { 1 }, - a: u8, + b => b2: u8, + c: u8 => c2: u16, d => d2: u8, e: u8 => u16, \
         (b: u8, c: u8) => z: u8 { b + c }",
    )
    .unwrap();
    assert_eq!(
        p,
        vec![
            entry("b2", FieldInit::Cloned(3)),
            entry("c2", FieldInit::ClonedInto(4)),
            entry("d2", FieldInit::Moved(5)),
            entry("e", FieldInit::MovedInto(6)),
            entry("x", FieldInit::Default(0)),
            entry("y", FieldInit::Block(1)),
            entry("z", FieldInit::Converted(7)),
        ]
    );
}

#[test]
fn last_change_to_name_a_field_decides() {
    assert_eq!(plan(&["a"], "+ a: u8 - a: u8").unwrap(), vec![]);
    assert_eq!(plan(&["a"], "- a: u8 + a: u8").unwrap(), vec![entry("a", FieldInit::Default(1))]);
    assert_eq!(
        plan(&["a", "q"], "+ b => c: u8").unwrap(),
        vec![entry("a", FieldInit::Carried), entry("c", FieldInit::Cloned(0)), entry("q", FieldInit::Carried)]
    );
}

#[test]
fn copies_and_renames_need_one_source_or_a_converter() {
    assert_eq!(plan(&["a", "b"], "+ (a: u8, b: u8) => c: u8 { a }").unwrap().len(), 3);
    let multi_copy = changes("(a: u8, b: u8) => c: u8 { a }");
    let mut copy = multi_copy;
    if let MigrationField::Rename { source, target, .. } = copy.remove(0) {
        let as_copy = MigrationField::Copy { source, target, converter: None };
        assert_eq!(
            generate_older_version_impl(&fields(&["a", "b"]), &[as_copy]).err(),
            Some(PlanError::CopyNeedsConverter)
        );
    } else {
        panic!("expected a rename");
    }
    let mut rename = changes("(a: u8, b: u8) => c: u8 { a }");
    if let MigrationField::Rename { source, target, .. } = rename.remove(0) {
        let without = MigrationField::Rename { source, target, converter: None };
        assert_eq!(
            generate_older_version_impl(&fields(&["a", "b"]), &[without]).err(),
            Some(PlanError::RenameNeedsConverter)
        );
    } else {
        panic!("expected a rename");
    }
}

#[test]
fn fields_follow_string_order() {
    let m = fields(&["b", "_c", "B", "a", "ä", "b"]);
    let names: Vec<&str> = m.entries().iter().map(|(n, _)| n.as_str()).collect();
    assert_eq!(names, vec!["B", "_c", "a", "b", "ä"]);
    let mut m = m;
    m.remove(&"a".to_string());
    m.remove(&"zz".to_string());
    assert_eq!(m.len(), 4);
    assert_eq!(compare_names(&"a".to_string(), &"ab".to_string()), NameOrder::Before);
    assert_eq!(compare_names(&"b".to_string(), &"ab".to_string()), NameOrder::After);
    assert_eq!(compare_names(&"é".to_string(), &"é".to_string()), NameOrder::Same);
}

fn history(src: &str) -> Vec<MigrationComment> {
    let mut out = Vec::new();
    for step in src.split(';') {
        if !step.trim().is_empty() {
            out.push(MigrationComment::parse_all(&tokens(step)).unwrap());
        }
    }
    out
}

#[test]
fn chain_walks_back_from_the_current_version() {
    let steps = history(r#""0.2" => "0.3"; "0.1" => "0.2"; "0.0" => "0.1"; "x" => "0.2""#);
    assert_eq!(version_chain(&"0.3".to_string(), &steps), Some(vec![0, 1, 2]));
    assert_eq!(version_chain(&"0.2".to_string(), &steps), Some(vec![1, 2]));
    assert_eq!(version_chain(&"9".to_string(), &steps), Some(Vec::<usize>::new()));
}

#[test]
fn chain_that_comes_back_never_ends() {
    let steps = history(r#""1" => "2"; "2" => "1"; "0" => "3""#);
    assert_eq!(version_chain(&"2".to_string(), &steps), None);
    assert_eq!(version_chain(&"3".to_string(), &steps), Some(vec![2]));
    let self_loop = history(r#""a" => "a""#);
    assert_eq!(version_chain(&"a".to_string(), &self_loop), None);
}

#[test]
fn chain_steps_link() {
    let steps = history(r#""b" => "c"; "a" => "b""#);
    let chain = version_chain(&"c".to_string(), &steps).unwrap();
    assert_eq!(steps[chain[0]].to, "c");
    for w in chain.windows(2) {
        assert_eq!(steps[w[1]].to, steps[w[0]].from);
    }
    assert!(steps.iter().all(|s| s.to != steps[*chain.last().unwrap()].from));
}

#[test]
fn types_are_compared_as_written() {
    assert_eq!(
        plan(&["a"], "+ a: Vec<u8> => b: Vec<u8>").unwrap(),
        vec![entry("a", FieldInit::Carried), entry("b", FieldInit::Cloned(0))]
    );
    assert_eq!(
        plan(&["a"], "+ a: Vec<u8> => b: std::vec::Vec<u8>").unwrap(),
        vec![entry("a", FieldInit::Carried), entry("b", FieldInit::ClonedInto(0))]
    );
    assert_eq!(plan(&["a"], "a: Vec<u8> => b: Vec<u8>").unwrap(), vec![entry("b", FieldInit::Moved(0))]);
}

#[test]
fn only_the_first_step_leads_into_the_current_version() {
    let steps = history(r#""0.2" => "0.3"; "0.1" => "0.2"; "0.3" => "0.4""#);
    assert_eq!(
        migration_steps(&"0.3".to_string(), &steps),
        Some(vec![ChainStep { step: 0, into_current: true }, ChainStep { step: 1, into_current: false }])
    );
    let circle = history(r#""0.3" => "0.3""#);
    assert_eq!(migration_steps(&"0.3".to_string(), &circle), None);
}

#[test]
fn spacing_does_not_tell_types_apart() {
    assert_eq!(
        plan(&["a"], "+ a: Vec<Vec<u8>> => b: Vec<Vec<u8> >").unwrap(),
        vec![entry("a", FieldInit::Carried), entry("b", FieldInit::Cloned(0))]
    );
}

#[test]
fn each_older_step_also_converts_into_the_current_struct() {
    let steps = history(r#""0.2" => "0.3"; "0.1" => "0.2"; "0.3" => "0.4""#);
    let chain = migration_steps(&"0.3".to_string(), &steps).unwrap();
    assert_eq!(
        from_impls(&chain),
        vec![
            FromImpl::Step { step: 0, into_current: true },
            FromImpl::Step { step: 1, into_current: false },
            FromImpl::Through { step: 1 },
            FromImpl::FromFinal,
            FromImpl::IntoFinal,
        ]
    );
    assert_eq!(from_impls(&[]), vec![FromImpl::FromFinal, FromImpl::IntoFinal]);
}

#[test]
fn the_versioned_twin_carries_every_field_both_ways() {
    let planned = final_conversion(&fields(&["name", "age", "email"]));
    assert_eq!(
        planned.entries().clone(),
        vec![entry("age", FieldInit::Carried), entry("email", FieldInit::Carried), entry("name", FieldInit::Carried)]
    );
    assert_eq!(final_conversion(&fields(&[])).len(), 0);
}

#[test]
fn same_names_with_one_value() {
    let mut m: FieldMap<u8> = FieldMap::new();
    m.insert("b".to_string(), 2);
    m.insert("a".to_string(), 1);
    let keys = m.keys_with(7u16);
    assert_eq!(keys.entries().clone(), vec![("a".to_string(), 7u16), ("b".to_string(), 7u16)]);
}
