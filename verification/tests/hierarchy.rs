use hulk_compiler::semantic::type_system::{FuncSignature, ProtocolInfo, TypeInfo};
use hulk_compiler::semantic::{HulkType, TypeHierarchy};

fn sig(ret: HulkType) -> FuncSignature {
    FuncSignature { params: vec![], return_type: ret }
}

fn declared(name: &str, parent: Option<&str>) -> TypeInfo {
    TypeInfo {
        name: name.to_string(),
        parent: parent.map(|p| p.to_string()),
        constructor_params: vec![],
        attributes: vec![],
        methods: vec![],
        is_builtin: false,
    }
}

fn hierarchy() -> TypeHierarchy {
    let mut h = TypeHierarchy::new();
    let mut animal = declared("Animal", None);
    animal.methods.push(("speak".to_string(), sig(HulkType::StringT)));
    animal.attributes.push(("name".to_string(), HulkType::StringT));
    h.types.push(animal);
    let mut dog = declared("Dog", Some("Animal"));
    dog.attributes.push(("age".to_string(), HulkType::Number));
    h.types.push(dog);
    h.types.push(declared("Puppy", Some("Dog")));
    h.protocols.push(ProtocolInfo {
        name: "Named".to_string(),
        extends: None,
        methods: vec![("name".to_string(), sig(HulkType::StringT))],
    });
    h.protocols.push(ProtocolInfo { name: "Pet".to_string(), extends: Some("Named".to_string()), methods: vec![] });
    h
}

#[test]
fn methods_are_found_up_the_parents() {
    let h = hierarchy();
    let found = h.lookup_method("Puppy", "speak").expect("inherited method");
    assert_eq!(found.return_type, HulkType::StringT);
    assert!(h.lookup_method("Puppy", "fly").is_none());
    assert!(h.lookup_method("Ghost", "speak").is_none());
}

#[test]
fn attributes_are_found_up_the_parents() {
    let h = hierarchy();
    assert_eq!(h.lookup_attribute("Puppy", "age"), Some(HulkType::Number));
    assert_eq!(h.lookup_attribute("Puppy", "name"), Some(HulkType::StringT));
    assert_eq!(h.lookup_attribute("Animal", "age"), None);
}

#[test]
fn protocol_methods_are_found_through_extends() {
    let h = hierarchy();
    assert_eq!(h.lookup_method_in_protocol("Pet", "name").map(|s| s.return_type), Some(HulkType::StringT));
    assert!(h.lookup_method_in_protocol("Pet", "bark").is_none());
}

#[test]
fn subtyping_follows_parents() {
    let h = hierarchy();
    assert!(h.is_subtype("Puppy", "Animal"));
    assert!(h.is_subtype("Dog", "Dog"));
    assert!(h.is_subtype("Dog", "Object"));
    assert!(!h.is_subtype("Animal", "Dog"));
    assert_eq!(h.parent_name("Puppy"), Some("Dog".to_string()));
    assert_eq!(h.parent_name("Animal"), None);
}

#[test]
fn common_ancestor_of_siblings() {
    let mut h = hierarchy();
    h.types.push(declared("Cat", Some("Animal")));
    let a = HulkType::UserDefined("Puppy".to_string());
    let b = HulkType::UserDefined("Cat".to_string());
    assert_eq!(h.lca(&a, &b), HulkType::UserDefined("Animal".to_string()));
    assert_eq!(h.lca(&HulkType::Never, &b), b);
    assert_eq!(h.lca(&HulkType::Number, &HulkType::StringT), HulkType::Object);
}

#[test]
fn protocols_are_met_through_inherited_methods() {
    let mut h = hierarchy();
    let mut named = declared("Tag", None);
    named.methods.push(("name".to_string(), sig(HulkType::StringT)));
    h.types.push(named);
    h.types.push(declared("SubTag", Some("Tag")));
    assert!(h.conforms_protocol("SubTag", "Pet"));
    assert!(h.conforms(&HulkType::UserDefined("SubTag".to_string()), &HulkType::Protocol("Named".to_string())));
    assert!(!h.conforms_protocol("Dog", "Pet"));
    assert_eq!(h.missing_protocol_method("Dog", "Named"), Some("name".to_string()));
    assert_eq!(h.missing_protocol_method("Tag", "Named"), None);
}

#[test]
fn missing_protocol_method_compares_own_methods_only() {
    let mut h = hierarchy();
    let mut named = declared("Tag", None);
    named.methods.push(("name".to_string(), sig(HulkType::StringT)));
    h.types.push(named);
    h.types.push(declared("SubTag", Some("Tag")));
    assert_eq!(h.missing_protocol_method("SubTag", "Named"), Some("name".to_string()));
    assert_eq!(h.missing_protocol_method("Tag", "Pet"), None);
    assert_eq!(h.missing_protocol_method("Ghost", "Named"), None);
    assert_eq!(h.missing_protocol_method("Tag", "Unknown"), None);
}

#[test]
fn a_signature_that_does_not_fit_violates_the_protocol() {
    let mut h = hierarchy();
    let mut wrong = declared("Wrong", None);
    wrong.methods.push(("name".to_string(), sig(HulkType::Number)));
    h.types.push(wrong);
    assert_eq!(h.missing_protocol_method("Wrong", "Named"), None);
    assert_eq!(h.first_protocol_violation("Wrong", "Named"), Some("name".to_string()));
    assert!(!h.conforms_protocol("Wrong", "Named"));
}

#[test]
fn a_parent_cycle_is_detected() {
    let mut h = hierarchy();
    h.types.push(declared("A", Some("B")));
    h.types.push(declared("B", Some("A")));
    assert!(h.has_circular_inheritance("A"));
    assert!(!h.has_circular_inheritance("Puppy"));
    assert!(!h.has_circular_inheritance("Nowhere"));
    assert_eq!(h.parent_of(&HulkType::UserDefined("Puppy".to_string())), Some(HulkType::UserDefined("Dog".to_string())));
    assert_eq!(h.parent_of(&HulkType::Number), Some(HulkType::Object));
}

#[test]
fn the_common_ancestor_accepts_both_types() {
    let h = hierarchy();
    let cases = [
        (HulkType::UserDefined("Puppy".to_string()), HulkType::UserDefined("Animal".to_string())),
        (HulkType::UserDefined("Dog".to_string()), HulkType::UserDefined("Puppy".to_string())),
        (HulkType::Number, HulkType::UserDefined("Dog".to_string())),
        (HulkType::Null, HulkType::Boolean),
    ];
    for (a, b) in cases.iter() {
        let r = h.lca(a, b);
        assert!(h.conforms(a, &r), "{:?} should fit {:?}", a, r);
        assert!(h.conforms(b, &r), "{:?} should fit {:?}", b, r);
    }
    assert_eq!(h.lca(&HulkType::UserDefined("Puppy".to_string()), &HulkType::UserDefined("Animal".to_string())),
        HulkType::UserDefined("Animal".to_string()));
    assert_eq!(h.lca(&HulkType::Number, &HulkType::Never), HulkType::Number);
}

#[test]
fn a_subtype_is_a_name_on_the_line_of_parents() {
    let h = hierarchy();
    assert!(h.is_subtype("Puppy", "Puppy"));
    assert!(h.is_subtype("Puppy", "Dog"));
    assert!(h.is_subtype("Puppy", "Animal"));
    assert!(h.is_subtype("Puppy", "Object"));
    assert!(!h.is_subtype("Animal", "Dog"));
    assert!(!h.is_subtype("Dog", "Puppy"));
}
