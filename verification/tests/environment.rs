use scriptlet::ast::Node;
use scriptlet::ast::Type;
use scriptlet::env::Bindings;
use scriptlet::env::ProcBodies;
use scriptlet::table::ArithOp;
use scriptlet::table::NumTable;

#[test]
fn bindings_overwrite_keeps_one_entry() {
    let mut b = Bindings::new();
    let name = String::from("a");
    b.set(&name, Type::Num, String::from("5"));
    b.set(&name, Type::Str, String::from("x"));
    assert_eq!(b.len(), 1);
    match b.get(&name) {
        Some((t, v)) => {
            assert!(matches!(t, Type::Str));
            assert_eq!(v, "x");
        }
        None => panic!("binding should exist"),
    }
}

#[test]
fn bindings_missing_name_is_none() {
    let b = Bindings::new();
    assert!(b.get(&String::from("ghost")).is_none());
}

#[test]
fn registry_redefinition_replaces_the_body() {
    let mut p = ProcBodies::new();
    let name = String::from("p");
    p.set(&name, Node::Block(vec![]));
    p.set(&name, Node::Block(vec![Node::Comment(String::from("// x"))]));
    assert!(p.contains(&name));
    assert!(!p.contains(&String::from("q")));
    match p.get(&name) {
        Some(Node::Block(items)) => assert_eq!(items.len(), 1),
        _ => panic!("stored body should be the latest block"),
    }
}

#[test]
fn table_keeps_the_latest_result() {
    let mut t = NumTable::new();
    t.insert(ArithOp::Add, String::from("1"), String::from("2"), String::from("3"));
    t.insert(ArithOp::Add, String::from("1"), String::from("2"), String::from("4"));
    let one = String::from("1");
    let two = String::from("2");
    assert_eq!(t.lookup(ArithOp::Add, &one, &two), Some(String::from("4")));
    assert_eq!(t.lookup(ArithOp::Sub, &one, &two), None);
}
