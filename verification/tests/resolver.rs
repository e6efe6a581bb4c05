use gdscript_ls::symbol_table::{Scope, SymbolTable};
use gdscript_ls::tree::{parse_file, SyntaxNode};
use gdscript_ls::typedb::{
    BinaryOperatorEntry, ClassEntry, ConstantEntry, MemberEntry, SymbolType, TypeDatabase,
    UnaryOperatorEntry, VariantType,
};

fn class(name: &str, parent: Option<&str>) -> ClassEntry {
    ClassEntry {
        name: name.to_string(),
        parent: parent.map(|s| s.to_string()),
        methods: Vec::new(),
        properties: Vec::new(),
        constructors: Vec::new(),
        constants: Vec::new(),
        binary_operators: Vec::new(),
        unary_operators: Vec::new(),
    }
}

fn member(name: &str, ttype: &str) -> MemberEntry {
    MemberEntry { name: name.to_string(), ttype: ttype.to_string() }
}

fn test_typedb() -> TypeDatabase {
    let mut entries = Vec::new();

    let mut int_class = class("int", None);
    int_class.binary_operators.push(BinaryOperatorEntry {
        token: "+".to_string(),
        right: "int".to_string(),
        result: "int".to_string(),
    });
    int_class.unary_operators.push(UnaryOperatorEntry {
        token: "-".to_string(),
        result: "int".to_string(),
    });
    entries.push(int_class);

    let mut vector3 = class("Vector3", None);
    vector3.constructors.push(member("Vector3", "Vector3"));
    vector3.constants.push(ConstantEntry {
        name: "ZERO".to_string(),
        value: "Vector3(0, 0, 0)".to_string(),
    });
    entries.push(vector3);

    let mut node = class("Node", None);
    node.methods.push(member("get_name", "String"));
    entries.push(node);

    let mut node3d = class("Node3D", Some("Node"));
    node3d.properties.push(member("transform", "Transform3d"));
    entries.push(node3d);

    entries.push(class("PhysicsBody3D", Some("Node3D")));

    let mut character_body = class("CharacterBody3D", Some("PhysicsBody3D"));
    character_body.properties.push(member("velocity", "Vector3"));
    entries.push(character_body);

    let mut global_scope = class("@GlobalScope", None);
    global_scope.methods.push(member("max", "Variant"));
    global_scope.methods.push(member("randi", "int"));
    entries.push(global_scope);

    TypeDatabase::from_entries(&entries)
}

fn build_table<'a>(typedb: &'a TypeDatabase, file: &str) -> (SymbolTable<'a>, SyntaxNode) {
    let tree = parse_file(file).expect("source should parse");
    let mut st = SymbolTable::new(typedb);
    st.build_table(&tree);
    (st, tree)
}

fn function_body_scope<'a>(st: &'a SymbolTable, tree: &SyntaxNode) -> &'a Scope {
    let func = tree
        .children
        .iter()
        .find(|c| c.kind == "function_definition")
        .expect("file should hold a function");
    let body = func
        .children
        .iter()
        .find(|c| c.field.as_deref() == Some("body"))
        .expect("function should hold a body");
    st.map
        .iter()
        .find(|s| s.start_byte == body.start_byte && s.end_byte == body.end_byte)
        .expect("body scope should exist")
}

fn assert_var_type(scope: &Scope, var_name: &str, ty: Option<SymbolType>) {
    let var = scope
        .vars
        .iter()
        .find(|v| v.name == var_name)
        .unwrap_or_else(|| panic!("no declaration of {var_name}"));
    assert_eq!(var.ttype, ty);
}

#[test]
fn simple_variable_assignments() {
    let file = "func foo():
\tvar b = false
\tvar i = 123
\tvar f = 42.0
\tvar s = \"hello\"";
    let typedb = test_typedb();
    let (st, tree) = build_table(&typedb, file);
    let scope = function_body_scope(&st, &tree);
    assert_var_type(scope, "b", Some(SymbolType::Variant(VariantType::Bool)));
    assert_var_type(scope, "i", Some(SymbolType::Variant(VariantType::Int)));
    assert_var_type(scope, "f", Some(SymbolType::Variant(VariantType::Float)));
    assert_var_type(scope, "s", Some(SymbolType::Variant(VariantType::String)));
}

#[test]
fn assign_constant_from_class() {
    let file = "func foo():
\tvar v = Vector3.ZERO";
    let typedb = test_typedb();
    let (st, tree) = build_table(&typedb, file);
    let scope = function_body_scope(&st, &tree);
    assert_var_type(scope, "v", Some(SymbolType::Variant(VariantType::Vector3)));
}

#[test]
fn assign_result_of_binary_operator() {
    let file = "func foo():
\tvar a = 123
\tvar b = 456
\tvar r = a + b";
    let typedb = test_typedb();
    let (st, tree) = build_table(&typedb, file);
    let scope = function_body_scope(&st, &tree);
    assert_var_type(scope, "r", Some(SymbolType::Variant(VariantType::Int)));
}

#[test]
fn assign_field_from_parent_class() {
    let file = "extends CharacterBody3D
func foo():
\tvar one_level = velocity
\tvar three_level = transform";
    let typedb = test_typedb();
    let (st, tree) = build_table(&typedb, file);
    let scope = function_body_scope(&st, &tree);
    assert_var_type(scope, "one_level", Some(SymbolType::Variant(VariantType::Vector3)));
    assert_var_type(scope, "three_level", Some(SymbolType::Variant(VariantType::Transform3d)));
}

#[test]
fn shadowing_respects_declaration_order() {
    let file = "var b = false
func foo():
\tvar c = b
\tvar b = 10
\tvar d = b";
    let typedb = test_typedb();
    let (st, tree) = build_table(&typedb, file);
    let scope = function_body_scope(&st, &tree);
    // Before the inner declaration ends, `b` is the module-level boolean;
    // after it, the inner integer.
    assert_var_type(scope, "c", Some(SymbolType::Variant(VariantType::Bool)));
    assert_var_type(scope, "d", Some(SymbolType::Variant(VariantType::Int)));
}

#[test]
fn module_scope_declarations_visible_before_their_line() {
    let file = "func foo():
\tvar x = early
var early = 123";
    let typedb = test_typedb();
    let (st, tree) = build_table(&typedb, file);
    let scope = function_body_scope(&st, &tree);
    // Root-scope offsets are reset to the start of file after the build,
    // so a module-level declaration is visible everywhere. The function
    // body was built before the reset, so the initializer itself still
    // saw the textual order; the lookup below goes through the root
    // scope after the reset.
    let root_scope = &st.map[0];
    assert_eq!(root_scope.parent, gdscript_ls::symbol_table::NO_SCOPE);
    for var in &root_scope.vars {
        assert_eq!(var.byte, 0);
    }
    // Visibility is at-or-before, so the reset declarations are found
    // even at position 0.
    let looked_up = st.get_symbol_type(scope.id, "early", 0);
    assert_eq!(looked_up, Some(&SymbolType::Variant(VariantType::Int)));
}

#[test]
fn generic_passthrough_takes_first_argument_type() {
    let file = "extends Node
func foo():
\tvar a = 123
\tvar r = max(a, 456)";
    let typedb = test_typedb();
    let (st, tree) = build_table(&typedb, file);
    let scope = function_body_scope(&st, &tree);
    assert_var_type(scope, "r", Some(SymbolType::Variant(VariantType::Int)));
}

#[test]
fn call_without_passthrough_keeps_declared_return_type() {
    let file = "extends Node
func foo():
\tvar r = randi()";
    let typedb = test_typedb();
    let (st, tree) = build_table(&typedb, file);
    let scope = function_body_scope(&st, &tree);
    assert_var_type(scope, "r", Some(SymbolType::Variant(VariantType::Int)));
}

#[test]
fn constructor_call_yields_class_value() {
    let file = "func foo():
\tvar v = Vector3(1, 2, 3)";
    let typedb = test_typedb();
    let (st, tree) = build_table(&typedb, file);
    let scope = function_body_scope(&st, &tree);
    assert_var_type(scope, "v", Some(SymbolType::Variant(VariantType::Vector3)));
}

#[test]
fn unmodeled_expression_stays_unresolved() {
    let file = "func foo():
\tvar l = func(): pass
\tvar x = 1";
    let typedb = test_typedb();
    let (st, tree) = build_table(&typedb, file);
    let scope = function_body_scope(&st, &tree);
    // A lambda has no inference rule: unresolved, and the rest of the
    // file is still processed.
    assert_var_type(scope, "l", None);
    assert_var_type(scope, "x", Some(SymbolType::Variant(VariantType::Int)));
}

#[test]
fn unary_operator_typed_from_table() {
    let file = "func foo():
\tvar a = 123
\tvar n = -a";
    let typedb = test_typedb();
    let (st, tree) = build_table(&typedb, file);
    let scope = function_body_scope(&st, &tree);
    assert_var_type(scope, "n", Some(SymbolType::Variant(VariantType::Int)));
}

#[test]
fn annotated_declaration_is_static_typed() {
    let file = "func foo():
\tvar v: Vector3 = something_unknown";
    let typedb = test_typedb();
    let (st, tree) = build_table(&typedb, file);
    let scope = function_body_scope(&st, &tree);
    let var = scope.vars.iter().find(|v| v.name == "v").expect("v declared");
    assert!(var.static_typed);
    assert_eq!(var.ttype, Some(SymbolType::Variant(VariantType::Vector3)));
}

#[test]
fn typed_parameters_visible_in_function_body() {
    let file = "func foo(speed: int):
\tvar s = speed";
    let typedb = test_typedb();
    let (st, tree) = build_table(&typedb, file);
    let scope = function_body_scope(&st, &tree);
    assert_var_type(scope, "speed", Some(SymbolType::Variant(VariantType::Int)));
    assert_var_type(scope, "s", Some(SymbolType::Variant(VariantType::Int)));
}

#[test]
fn branch_bodies_get_their_own_scopes() {
    let file = "func foo():
\tvar a = 123
\tif a:
\t\tvar b = 1.0
\telif a:
\t\tvar c = false
\telse:
\t\tvar d = \"x\"
\tmatch a:
\t\t1:
\t\t\tvar e = 2
\t\t_:
\t\t\tvar f = 3";
    let typedb = test_typedb();
    let (st, _tree) = build_table(&typedb, file);
    let mut found = Vec::new();
    for scope in &st.map {
        for var in &scope.vars {
            found.push((var.name.clone(), var.ttype.clone()));
        }
    }
    for (name, expected) in [
        ("b", SymbolType::Variant(VariantType::Float)),
        ("c", SymbolType::Variant(VariantType::Bool)),
        ("d", SymbolType::Variant(VariantType::String)),
        ("e", SymbolType::Variant(VariantType::Int)),
        ("f", SymbolType::Variant(VariantType::Int)),
    ] {
        let entry = found.iter().find(|(n, _)| n == name);
        assert_eq!(entry, Some(&(name.to_string(), Some(expected))), "{name}");
    }
    // Each branch and arm body is a scope of its own under the function.
    assert!(st.map.len() >= 7);
}

#[test]
fn parenthesized_and_attribute_chains() {
    let file = "extends CharacterBody3D
func foo():
\tvar p = (velocity)
\tvar q = (velocity).ZERO";
    let typedb = test_typedb();
    let (st, tree) = build_table(&typedb, file);
    let scope = function_body_scope(&st, &tree);
    // A parenthesized expression has its inner expression's type.
    assert_var_type(scope, "p", Some(SymbolType::Variant(VariantType::Vector3)));
    // `(velocity)` resolves to a Vector3 instance, so ZERO is sought as
    // a property through the inheritance walk -- there is none, so the
    // access is unresolved (constants are reached through class names).
    assert_var_type(scope, "q", None);
}

#[test]
fn attribute_lookup_walks_inheritance() {
    let file = "func foo(body: CharacterBody3D):
\tvar v = body.velocity
\tvar t = body.transform
\tvar n = body.get_name()";
    let typedb = test_typedb();
    let (st, tree) = build_table(&typedb, file);
    let scope = function_body_scope(&st, &tree);
    // `velocity` sits on the class itself, `transform` three ancestors
    // up, and `get_name` is a method found by the same walk.
    assert_var_type(scope, "v", Some(SymbolType::Variant(VariantType::Vector3)));
    assert_var_type(scope, "t", Some(SymbolType::Variant(VariantType::Transform3d)));
    assert_var_type(scope, "n", Some(SymbolType::Variant(VariantType::String)));
}

#[test]
fn attribute_method_falls_back_to_global_scope() {
    let file = "func foo(body: CharacterBody3D):
\tvar r = body.randi()";
    let typedb = test_typedb();
    let (st, tree) = build_table(&typedb, file);
    let scope = function_body_scope(&st, &tree);
    // `randi` sits on no class in the chain; the walk retries the
    // global-scope pseudo-class.
    assert_var_type(scope, "r", Some(SymbolType::Variant(VariantType::Int)));
}

#[test]
fn parse_file_converts_real_nodes() {
    let source = "var a = 10";
    let tree = parse_file(source).expect("source should parse");
    // A conversion that handed its input back unchanged could not
    // produce a child of the statement kind with the right extent.
    assert_eq!(tree.text, source);
    assert!(!tree.children.is_empty());
    let stmt = &tree.children[0];
    assert_eq!(stmt.kind, "variable_statement");
    assert_eq!(stmt.start_byte, 0);
    assert_eq!(stmt.end_byte, source.len());
    assert_eq!(stmt.text, "var a = 10");
}
