use gdscript_ls::typedb::{
    BinaryOperatorEntry, ClassEntry, ConstantEntry, MemberEntry, SymbolType, TypeDatabase,
    UnaryOperatorEntry, VariantType,
};

fn class(name: &str, parent: Option<&str>) -> ClassEntry {
    ClassEntry {
        name: name.to_string(),
        parent: parent.map(|s| s.to_string()),
        methods: Vec::new(),
        properties: Vec::new(),
        constructors: Vec::new(),
        constants: Vec::new(),
        binary_operators: Vec::new(),
        unary_operators: Vec::new(),
    }
}

fn member(name: &str, ttype: &str) -> MemberEntry {
    MemberEntry { name: name.to_string(), ttype: ttype.to_string() }
}

fn small_typedb() -> TypeDatabase {
    let mut entries = Vec::new();

    let mut int_class = class("int", None);
    int_class.binary_operators.push(BinaryOperatorEntry {
        token: "+".to_string(),
        right: "int".to_string(),
        result: "int".to_string(),
    });
    int_class.binary_operators.push(BinaryOperatorEntry {
        token: "+".to_string(),
        right: "float".to_string(),
        result: "float".to_string(),
    });
    int_class.unary_operators.push(UnaryOperatorEntry {
        token: "-".to_string(),
        result: "int".to_string(),
    });
    entries.push(int_class);

    let mut vector3 = class("Vector3", None);
    vector3.constructors.push(member("Vector3", "Vector3"));
    vector3.constants.push(ConstantEntry {
        name: "ZERO".to_string(),
        value: "Vector3(0, 0, 0)".to_string(),
    });
    entries.push(vector3);

    let mut base = class("Base", None);
    base.properties.push(member("health", "int"));
    base.methods.push(member("heal", "int"));
    entries.push(base);

    let mut derived = class("Derived", Some("Base"));
    derived.properties.push(member("speed", "float"));
    entries.push(derived);

    let mut global_scope = class("@GlobalScope", None);
    global_scope.methods.push(member("absi", "int"));
    entries.push(global_scope);

    TypeDatabase::from_entries(&entries)
}

#[test]
fn type_string_classification() {
    assert_eq!(SymbolType::from_str("int"), SymbolType::Variant(VariantType::Int));
    assert_eq!(SymbolType::from_str("float[]"), SymbolType::Array(VariantType::Float));
    assert_eq!(SymbolType::from_str("Enemy"), SymbolType::Object("Enemy".to_string()));
    assert_eq!(SymbolType::from_str("Enemy[]"), SymbolType::ObjectArray("Enemy".to_string()));
    assert_eq!(SymbolType::from_str("Transform2d"), SymbolType::Variant(VariantType::Transform2d));
}

#[test]
fn type_string_rendering() {
    assert_eq!(SymbolType::Variant(VariantType::Nil).to_string(), "void");
    assert_eq!(SymbolType::Array(VariantType::Int).to_string(), "int[]");
    assert_eq!(SymbolType::Object("Enemy".to_string()).to_string(), "Enemy");
    assert_eq!(SymbolType::ObjectArray("Enemy".to_string()).to_string(), "Enemy[]");
}

#[test]
fn type_string_round_trip() {
    for name in ["int", "float[]", "Enemy", "Enemy[]", "Vector3", "PackedByteArray"] {
        assert_eq!(SymbolType::from_str(name).to_string(), name);
    }
}

#[test]
fn property_lookup_walks_inheritance() {
    let db = small_typedb();
    assert_eq!(
        db.get_symbol_type("Derived", "speed"),
        Some(&SymbolType::Variant(VariantType::Float))
    );
    assert_eq!(
        db.get_symbol_type("Derived", "health"),
        Some(&SymbolType::Variant(VariantType::Int))
    );
    assert_eq!(db.get_symbol_type("Derived", "missing"), None);
    assert_eq!(db.get_symbol_type("NoSuchClass", "health"), None);
}

#[test]
fn callable_lookup_falls_back_to_global_scope() {
    let db = small_typedb();
    assert_eq!(
        db.get_callable_type("Derived", "heal"),
        Some(&SymbolType::Variant(VariantType::Int))
    );
    assert_eq!(
        db.get_callable_type("Derived", "absi"),
        Some(&SymbolType::Variant(VariantType::Int))
    );
    // Starting at the global scope itself must not retry it.
    assert_eq!(db.get_callable_type("@GlobalScope", "missing"), None);
}

#[test]
fn operator_tables_answer_exact_rows() {
    let db = small_typedb();
    assert_eq!(
        db.get_binary_operator_type("int", "+", &SymbolType::Variant(VariantType::Int)),
        Some(&SymbolType::Variant(VariantType::Int))
    );
    assert_eq!(
        db.get_binary_operator_type("int", "+", &SymbolType::Variant(VariantType::Float)),
        Some(&SymbolType::Variant(VariantType::Float))
    );
    assert_eq!(
        db.get_binary_operator_type("int", "*", &SymbolType::Variant(VariantType::Int)),
        None
    );
    assert_eq!(
        db.get_unary_operator_type("int", "-"),
        Some(&SymbolType::Variant(VariantType::Int))
    );
    assert_eq!(db.get_unary_operator_type("int", "!"), None);
}

#[test]
fn constant_type_resolved_from_stored_literal() {
    let db = small_typedb();
    assert_eq!(
        db.get_constant_type("Vector3", "ZERO"),
        Some(SymbolType::Variant(VariantType::Vector3))
    );
    assert_eq!(db.get_constant_type("Vector3", "ONE"), None);
    assert_eq!(db.get_constant_type("NoSuchClass", "ZERO"), None);
}

#[test]
fn constructor_comes_from_first_description() {
    let db = small_typedb();
    let vector3 = db.get_class("Vector3").expect("class exists");
    let constructor = vector3.constructor.as_ref().expect("constructor exists");
    assert_eq!(constructor.return_type, SymbolType::Variant(VariantType::Vector3));
    let base = db.get_class("Base").expect("class exists");
    assert!(base.constructor.is_none());
}
