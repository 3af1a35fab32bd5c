//! The registry: dictionary names, nested contexts, named objects.

use nested::{Context, ReprTree, TypeID, TypeTerm};

#[test]
fn dictionary_names() {
    let mut ctx = Context::new();
    // the list constructor is known from the start
    assert_eq!(ctx.get_typeid("List"), Some(TypeID::Fun(0)));

    let a = ctx.add_typename("Char");
    assert_eq!(a, TypeID::Fun(1));
    // adding the same name again keeps its id
    assert_eq!(ctx.add_typename("Char"), a);
    assert_eq!(ctx.get_fun_typeid("Char"), Some(1));

    let v = ctx.add_varname("Radix");
    assert_eq!(v, TypeID::Var(0));
    assert_eq!(ctx.get_var_typeid("Radix"), Some(0));
    assert_eq!(ctx.get_fun_typeid("Radix"), None);

    ctx.add_synonym("Character", "Char");
    assert_eq!(ctx.get_typeid("Character"), Some(a));

    assert_eq!(ctx.get_typename(&a).as_deref(), Some("Char"));
    assert_eq!(ctx.get_typeid("Unknown"), None);
}

#[test]
fn nested_contexts() {
    let mut parent = Context::new();
    parent.add_typename("Char");
    parent.add_list_typename("Seq");
    parent.add_obj(
        "x".to_string(),
        TypeTerm::TypeID(parent.get_typeid("Char").unwrap()),
    );

    let child = Context::with_parent(Some(parent));
    assert_eq!(child.depth(), 1);
    // the child starts from the parent's dictionary and list types
    assert_eq!(child.get_typeid("Char"), Some(TypeID::Fun(1)));
    let seq_term = TypeTerm::TypeID(child.get_typeid("Seq").unwrap());
    assert!(child.is_list_type(&seq_term));
    assert!(!child.is_list_type(&TypeTerm::TypeID(child.get_typeid("Char").unwrap())));
    // objects of the parent stay reachable
    assert!(child.get_obj(&"x".to_string()).is_some());
    assert!(child.get_obj(&"y".to_string()).is_none());
}

#[test]
fn char_object() {
    let mut ctx = Context::new();
    ctx.add_typename("Char");
    let rt = ReprTree::from_char(&ctx, 'q').unwrap();
    let char_type = TypeTerm::TypeID(ctx.get_typeid("Char").unwrap());
    assert_eq!(rt.get_type(), &char_type);
    assert_eq!(rt.view_char(&char_type), 'q');
}

#[test]
fn list_type_heads() {
    let mut ctx = Context::new();
    ctx.add_list_typename("Seq");
    let digit = ctx.add_typename("Digit");
    let seq_id = ctx.get_typeid("Seq").unwrap();
    let app = TypeTerm::App(vec![
        TypeTerm::TypeID(seq_id),
        TypeTerm::TypeID(digit),
    ]);
    assert!(ctx.is_list_type(&app));
    let ladder = TypeTerm::Ladder(vec![app, TypeTerm::TypeID(digit)]);
    assert!(ctx.is_list_type(&ladder));
    assert!(!ctx.is_list_type(&TypeTerm::Num(3)));
}
