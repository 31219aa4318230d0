use pascal_front::env::{Env, ProcedureItem, SymbolTable, VariableItem};

fn s(text: &str) -> String {
    String::from(text)
}

#[test]
fn new_environment_has_no_scope() {
    let env = Env::new();
    assert_eq!(env.stack.len(), 0);
    assert!(!env.find_symbol(s("x")));
}

#[test]
fn scopes_are_numbered_by_their_depth() {
    let mut env = Env::new();
    env.enter_scope();
    env.enter_scope();
    env.enter_scope();
    assert_eq!(env.stack.len(), 3);
    assert_eq!(env.stack[0].get_level(), 0);
    assert_eq!(env.stack[1].get_level(), 1);
    assert_eq!(env.stack[2].get_level(), 2);
    env.exit_scope();
    assert_eq!(env.stack.len(), 2);
    env.enter_scope();
    assert_eq!(env.stack[2].get_level(), 2);
}

#[test]
fn declared_variable_is_found_in_its_scope() {
    let mut env = Env::new();
    env.enter_scope();
    assert!(!env.check_repeat(s("x")));
    env.add_variable(s("x"), s("global"), 0);
    assert!(env.check_repeat(s("x")));
    assert!(env.find_symbol(s("x")));
    assert!(!env.check_repeat(s("y")));
    assert!(!env.find_symbol(s("y")));
    let item = &env.stack[0].variables[0];
    assert_eq!(item.vname, "x");
    assert_eq!(item.vproc, "global");
    assert_eq!(item.vkind, 0);
    assert_eq!(item.vlev, 0);
    assert!(item.vtype.is_empty());
}

#[test]
fn declared_procedure_is_found_in_its_scope() {
    let mut env = Env::new();
    env.enter_scope();
    env.enter_scope();
    env.add_procedure(s("f"));
    assert!(env.check_repeat(s("f")));
    assert!(env.find_symbol(s("f")));
    let item = &env.stack[1].procedures[0];
    assert_eq!(item.pname, "f");
    assert_eq!(item.plev, 1);
    assert!(item.ptype.is_empty());
}

#[test]
fn inner_scope_shadows_and_gives_back() {
    let mut env = Env::new();
    env.enter_scope();
    env.add_variable(s("x"), s("global"), 0);
    env.enter_scope();
    assert!(!env.check_repeat(s("x")));
    assert!(env.find_symbol(s("x")));
    env.add_variable(s("x"), s("F"), 1);
    assert!(env.check_repeat(s("x")));
    assert!(env.find_symbol(s("x")));
    assert_eq!(env.stack[1].variables[0].vlev, 1);
    env.exit_scope();
    assert!(env.find_symbol(s("x")));
    assert!(env.check_repeat(s("x")));
    assert_eq!(env.stack[0].variables[0].vproc, "global");
    env.exit_scope();
    assert!(!env.find_symbol(s("x")));
}

#[test]
fn names_of_a_closed_scope_are_gone() {
    let mut env = Env::new();
    env.enter_scope();
    env.enter_scope();
    env.add_variable(s("inner"), s("F"), 0);
    env.add_procedure(s("g"));
    env.exit_scope();
    assert!(!env.find_symbol(s("inner")));
    assert!(!env.find_symbol(s("g")));
}

#[test]
fn later_declaration_takes_the_place_of_the_earlier() {
    let mut env = Env::new();
    env.enter_scope();
    env.add_variable(s("x"), s("first"), 0);
    env.add_variable(s("x"), s("second"), 1);
    assert!(env.check_repeat(s("x")));
    env.delete_cariable(s("x"));
    assert!(!env.check_repeat(s("x")));
    assert!(!env.find_symbol(s("x")));
}

#[test]
fn deleting_takes_only_the_name_given() {
    let mut env = Env::new();
    env.enter_scope();
    env.add_variable(s("x"), s("F"), 0);
    env.add_variable(s("y"), s("F"), 0);
    env.add_procedure(s("x"));
    env.add_procedure(s("f"));
    env.delete_cariable(s("x"));
    assert!(env.check_repeat(s("x")));
    assert!(env.check_repeat(s("y")));
    env.delete_procedure(s("x"));
    assert!(!env.check_repeat(s("x")));
    assert!(env.check_repeat(s("f")));
    env.delete_procedure(s("missing"));
    env.delete_cariable(s("missing"));
    assert!(env.check_repeat(s("y")));
    assert!(env.check_repeat(s("f")));
}

#[test]
fn deleting_reaches_only_the_innermost_scope() {
    let mut env = Env::new();
    env.enter_scope();
    env.add_variable(s("x"), s("global"), 0);
    env.enter_scope();
    env.delete_cariable(s("x"));
    assert!(env.find_symbol(s("x")));
}

#[test]
fn items_and_tables_start_empty() {
    let v = VariableItem::new(s("a"), s("p"), 1, 4);
    assert_eq!((v.vname.as_str(), v.vproc.as_str(), v.vkind, v.vlev), ("a", "p", 1, 4));
    assert!(v.vtype.is_empty());
    let p = ProcedureItem::new(s("f"), 2);
    assert_eq!((p.pname.as_str(), p.plev), ("f", 2));
    assert!(p.ptype.is_empty());
    let t = SymbolTable::new(7);
    assert_eq!(t.get_level(), 7);
    assert!(t.variables.is_empty());
    assert!(t.procedures.is_empty());
}

#[test]
fn table_holds_what_is_put_in_it() {
    let mut t = SymbolTable::new(0);
    t.put_variable(VariableItem::new(s("a"), s("p"), 0, 0));
    t.put_procedure(ProcedureItem::new(s("f"), 0));
    assert!(t.has_variable(&s("a")));
    assert!(!t.has_variable(&s("f")));
    assert!(t.has_procedure(&s("f")));
    assert!(!t.has_procedure(&s("a")));
    t.drop_variable(&s("a"));
    t.drop_procedure(&s("f"));
    assert!(!t.has_variable(&s("a")));
    assert!(!t.has_procedure(&s("f")));
}
