use hulk_compiler::semantic::symbol_table::{Symbol, SymbolKind, SymbolTable};
use hulk_compiler::semantic::HulkType;

fn var_type(t: &SymbolTable, name: &str) -> Option<HulkType> {
    match t.lookup(name) {
        Some(Symbol { kind: SymbolKind::Variable { ty, .. }, .. }) => Some(ty.copy()),
        _ => None,
    }
}

#[test]
fn lookup_sees_define() {
    let mut t = SymbolTable::new();
    assert!(t.define("x", Symbol::variable("x", HulkType::Number, false)));
    assert_eq!(var_type(&t, "x"), Some(HulkType::Number));
    assert!(t.lookup("y").is_none());
}

#[test]
fn redefinition_in_same_scope_is_refused() {
    let mut t = SymbolTable::new();
    assert!(t.define("x", Symbol::variable("x", HulkType::Number, false)));
    assert!(!t.define("x", Symbol::variable("x", HulkType::Boolean, false)));
    assert_eq!(var_type(&t, "x"), Some(HulkType::Number));
}

#[test]
fn inner_scope_shadows_until_closed() {
    let mut t = SymbolTable::new();
    t.define("x", Symbol::variable("x", HulkType::Number, false));
    t.push_scope();
    assert!(t.define("x", Symbol::variable("x", HulkType::StringT, true)));
    t.define("y", Symbol::variable("y", HulkType::Boolean, true));
    assert_eq!(var_type(&t, "x"), Some(HulkType::StringT));
    assert_eq!(t.depth(), 1);
    t.pop_scope();
    assert_eq!(var_type(&t, "x"), Some(HulkType::Number));
    assert!(t.lookup("y").is_none());
    assert_eq!(t.depth(), 0);
}

#[test]
fn global_scope_is_never_popped() {
    let mut t = SymbolTable::new();
    t.define("x", Symbol::variable("x", HulkType::Number, false));
    t.pop_scope();
    assert_eq!(t.depth(), 0);
    assert_eq!(var_type(&t, "x"), Some(HulkType::Number));
}

#[test]
fn update_type_changes_innermost_variable() {
    let mut t = SymbolTable::new();
    t.define("x", Symbol::variable("x", HulkType::Number, false));
    t.push_scope();
    t.define("x", Symbol::function("x", vec![], HulkType::Null));
    assert!(t.update_type("x", HulkType::Boolean));
    t.pop_scope();
    assert_eq!(var_type(&t, "x"), Some(HulkType::Boolean));
    assert!(!t.update_type("nothing", HulkType::Boolean));
}

#[test]
fn update_function_return_changes_innermost_function() {
    let mut t = SymbolTable::new();
    t.define("f", Symbol::function("f", vec![HulkType::Number], HulkType::Unknown));
    assert!(t.update_function_return("f", HulkType::StringT));
    match t.lookup("f") {
        Some(Symbol { kind: SymbolKind::Function { params, return_type }, .. }) => {
            assert_eq!(params, &vec![HulkType::Number]);
            assert_eq!(return_type, &HulkType::StringT);
        }
        _ => panic!("f must stay a function"),
    }
    assert!(t.in_current_scope("f"));
    assert!(!t.update_function_return("g", HulkType::StringT));
}
