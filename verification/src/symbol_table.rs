use vstd::prelude::*;

use crate::tree::{
    is_child_of, lemma_child_by_field_is_child, lemma_child_decreases, parse_file, parsed_tree,
    spec_child_by_field, SyntaxNode,
};
use crate::strings::str_eq;
use crate::typedb::{
    opt_type_view, spec_find_constant, spec_find_method, spec_find_property, ClassInfo,
    SymbolType, SymbolTypeView, TypeDatabase, VariantType,
};
use crate::utils::{point_to_position, Position};

verus! {

/// The scope identity that stands for "above the file root": lookups that
/// reach it fall back to the file's declared base class.
pub const NO_SCOPE: usize = usize::MAX;

/// How many chained class-constant resolutions an inference may follow
/// (each one re-parses a stored literal and infers over the fresh tree).
pub const INFER_FUEL: usize = 16;

/// One named declaration: visible to lookups after `byte`, rendered at
/// `hint_position`, with `static_typed` telling an explicit annotation
/// from an inferred type.
#[derive(Debug)]
pub struct Symbol {
    pub name: String,
    pub byte: usize,
    pub hint_position: Position,
    pub static_typed: bool,
    pub ttype: Option<SymbolType>,
}

/// One lexical binding region. Its `id` is its index in the table's scope
/// list; `parent` is the enclosing scope's id, or [`NO_SCOPE`] for the
/// root. The byte extent is that of the syntax node the scope was built
/// for.
#[derive(Debug)]
pub struct Scope {
    pub id: usize,
    pub parent: usize,
    pub start_byte: usize,
    pub end_byte: usize,
    pub vars: Vec<Symbol>,
}

impl Scope {
    /// A fresh scope over the given body node. The definitive `id` is
    /// assigned when the scope enters a table
    /// ([`SymbolTable::insert_new_scope`]).
    pub fn new(node: &SyntaxNode, parent_scope: usize) -> (s: Scope)
        ensures
            s.id == 0,
            s.parent == parent_scope,
            s.start_byte == node.start_byte,
            s.end_byte == node.end_byte,
            s.vars@ =~= Seq::<Symbol>::empty(),
    {
        Scope {
            id: 0,
            parent: parent_scope,
            start_byte: node.start_byte,
            end_byte: node.end_byte,
            vars: Vec::new(),
        }
    }
}

/// The scope tree of one file: scopes in insertion (preorder) order, the
/// file's declared base class if an `extends` statement named one, and
/// the catalog the resolver consults.
pub struct SymbolTable<'a> {
    pub map: Vec<Scope>,
    pub class_parent: Option<SymbolType>,
    pub typedb: &'a TypeDatabase,
}

/// Every scope sits at the index its id names, and parents come earlier
/// in the list (or are [`NO_SCOPE`]), so parent walks terminate.
pub open spec fn scopes_wf(scopes: Seq<Scope>) -> bool {
    forall|i: int|
        0 <= i < scopes.len() ==> (#[trigger] scopes[i]).id == i && (scopes[i].parent == NO_SCOPE
            || scopes[i].parent < i)
}

pub open spec fn opt_symbol_view(o: Option<SymbolType>) -> Option<SymbolTypeView> {
    match o {
        Some(t) => Some(t@),
        None => None,
    }
}

/// Scans a scope's declarations in source order: a declaration is a
/// candidate only when its end offset lies at or before `position`,
/// and the first candidate named `symbol` wins — even an untyped one,
/// which then shadows outer declarations.
pub open spec fn spec_scan_vars(vars: Seq<Symbol>, symbol: Seq<char>, position: usize) -> Option<
    Option<SymbolTypeView>,
>
    decreases vars.len(),
{
    if vars.len() == 0 {
        None
    } else if vars[0].byte <= position && vars[0].name@ == symbol {
        Some(opt_symbol_view(vars[0].ttype))
    } else {
        spec_scan_vars(vars.drop_first(), symbol, position)
    }
}

/// The fallback past the root scope: a property of the file's declared
/// base class, resolved through the catalog's inheritance walk.
pub open spec fn spec_class_parent_lookup(
    db: TypeDatabase,
    class_parent: Option<SymbolType>,
    symbol: Seq<char>,
) -> Option<SymbolTypeView> {
    match class_parent {
        Some(p) => db.spec_property_type(
            SymbolType::spec_to_string(p@),
            symbol,
            db.lookup_fuel(),
        ),
        None => None,
    }
}

/// Lexical lookup of `symbol` at `position`, walking from `scope`
/// outwards: within each scope only declarations ending at or before
/// `position` are visible; past the root the declared base class is
/// consulted.
pub open spec fn spec_symbol_type(
    db: TypeDatabase,
    scopes: Seq<Scope>,
    class_parent: Option<SymbolType>,
    scope: usize,
    symbol: Seq<char>,
    position: usize,
) -> Option<SymbolTypeView>
    decreases scope,
{
    if scope == NO_SCOPE {
        spec_class_parent_lookup(db, class_parent, symbol)
    } else if scope >= scopes.len() {
        None
    } else {
        let sc = scopes[scope as int];
        match spec_scan_vars(sc.vars@, symbol, position) {
            Some(t) => t,
            None => if sc.parent == NO_SCOPE {
                spec_class_parent_lookup(db, class_parent, symbol)
            } else if sc.parent < scope {
                spec_symbol_type(db, scopes, class_parent, sc.parent, symbol, position)
            } else {
                None
            },
        }
    }
}

/// Expression type inference, one case per modeled expression kind; any
/// other kind is unresolved. `fuel` bounds chained class-constant
/// resolutions, each of which re-parses a stored literal.
pub open spec fn spec_infer(
    db: TypeDatabase,
    scopes: Seq<Scope>,
    class_parent: Option<SymbolType>,
    scope: usize,
    node: SyntaxNode,
    fuel: nat,
) -> Option<SymbolTypeView>
    decreases fuel, node, 1int,
{
    if node.kind@ == "integer"@ {
        Some(SymbolTypeView::Variant(VariantType::Int))
    } else if node.kind@ == "float"@ {
        Some(SymbolTypeView::Variant(VariantType::Float))
    } else if node.kind@ == "false"@ || node.kind@ == "true"@ {
        Some(SymbolTypeView::Variant(VariantType::Bool))
    } else if node.kind@ == "string"@ {
        Some(SymbolTypeView::Variant(VariantType::String))
    } else if node.kind@ == "binary_operator"@ {
        spec_infer_binary(db, scopes, class_parent, scope, node, fuel)
    } else if node.kind@ == "identifier"@ {
        spec_symbol_type(db, scopes, class_parent, scope, node.text@, node.start_byte)
    } else if node.kind@ == "attribute"@ {
        spec_infer_attribute(db, scopes, class_parent, scope, node, fuel)
    } else if node.kind@ == "call"@ {
        spec_infer_call(db, scopes, class_parent, scope, node, fuel)
    } else if node.kind@ == "parenthesized_expression"@ {
        spec_infer_paren(db, scopes, class_parent, scope, node, fuel)
    } else if node.kind@ == "unary_operator"@ {
        spec_infer_unary(db, scopes, class_parent, scope, node, fuel)
    } else {
        None
    }
}

/// A parenthesized expression has the type of its inner expression (the
/// child between the parentheses).
pub open spec fn spec_infer_paren(
    db: TypeDatabase,
    scopes: Seq<Scope>,
    class_parent: Option<SymbolType>,
    scope: usize,
    node: SyntaxNode,
    fuel: nat,
) -> Option<SymbolTypeView>
    decreases fuel, node, 0int,
{
    if node.children@.len() < 2 {
        None
    } else {
        spec_infer(db, scopes, class_parent, scope, node.children@[1], fuel)
    }
}

/// A unary application: the operand's type string keys the operator
/// table of the operand's class.
pub open spec fn spec_infer_unary(
    db: TypeDatabase,
    scopes: Seq<Scope>,
    class_parent: Option<SymbolType>,
    scope: usize,
    node: SyntaxNode,
    fuel: nat,
) -> Option<SymbolTypeView>
    decreases fuel, node, 0int,
{
    if node.children@.len() < 2 {
        None
    } else {
        match spec_infer(db, scopes, class_parent, scope, node.children@[1], fuel) {
            None => None,
            Some(t) => db.spec_unary_operator_type(
                SymbolType::spec_to_string(t),
                node.children@[0].kind@,
            ),
        }
    }
}

/// A binary application: both operand types must resolve; the left
/// operand's type string and the literal operator token key the operator
/// table.
pub open spec fn spec_infer_binary(
    db: TypeDatabase,
    scopes: Seq<Scope>,
    class_parent: Option<SymbolType>,
    scope: usize,
    node: SyntaxNode,
    fuel: nat,
) -> Option<SymbolTypeView>
    decreases fuel, node, 0int,
    via spec_infer_binary_decreases
{
    match spec_child_by_field(node, "left"@) {
        None => None,
        Some(left) => match spec_child_by_field(node, "right"@) {
            None => None,
            Some(right) => match spec_infer(db, scopes, class_parent, scope, left, fuel) {
                None => None,
                Some(lt) => match spec_infer(db, scopes, class_parent, scope, right, fuel) {
                    None => None,
                    Some(rt) => if node.children@.len() < 2 {
                        None
                    } else {
                        db.spec_binary_operator_type(
                            SymbolType::spec_to_string(lt),
                            node.children@[1].kind@,
                            rt,
                        )
                    },
                },
            },
        },
    }
}

#[via_fn]
proof fn spec_infer_binary_decreases(
    db: TypeDatabase,
    scopes: Seq<Scope>,
    class_parent: Option<SymbolType>,
    scope: usize,
    node: SyntaxNode,
    fuel: nat,
) {
    lemma_child_by_field_is_child(node, "left"@);
    lemma_child_by_field_is_child(node, "right"@);
    let l = spec_child_by_field(node, "left"@);
    if l is Some {
        lemma_child_decreases(l->Some_0, node);
    }
    let r = spec_child_by_field(node, "right"@);
    if r is Some {
        lemma_child_decreases(r->Some_0, node);
    }
}

/// An attribute access `a.b`: the left side resolves to a class name
/// (through a parenthesized expression's inferred type, a visible
/// symbol's type, or literally as a class name). A plain name on the
/// right is then a class constant (resolved by re-parsing its stored
/// literal, which consumes one unit of fuel) or, on an instance, a
/// property found by the catalog's inheritance walk; a call on the
/// right is a method found by the same walk with the global-scope
/// retry.
pub open spec fn spec_infer_attribute(
    db: TypeDatabase,
    scopes: Seq<Scope>,
    class_parent: Option<SymbolType>,
    scope: usize,
    node: SyntaxNode,
    fuel: nat,
) -> Option<SymbolTypeView>
    decreases fuel, node, 0int,
{
    if node.children@.len() < 1 {
        None
    } else {
        let lhs = node.children@[0];
        let resolved: Option<(bool, Seq<char>)> = if lhs.kind@
            == "parenthesized_expression"@ {
            match spec_infer_paren(db, scopes, class_parent, scope, lhs, fuel) {
                None => None,
                Some(t) => Some((false, SymbolType::spec_to_string(t))),
            }
        } else {
            match spec_symbol_type(db, scopes, class_parent, scope, lhs.text@, lhs.start_byte) {
                Some(t) => Some((false, SymbolType::spec_to_string(t))),
                None => Some((true, lhs.text@)),
            }
        };
        match resolved {
            None => None,
            Some((is_class, class_name)) => {
                if node.children@.len() < 3 {
                    None
                } else {
                    let attribute_node = node.children@[2];
                    if attribute_node.kind@ == "identifier"@ {
                        if is_class {
                            match db.spec_class(class_name) {
                                None => None,
                                Some(c) => match spec_find_constant(
                                    c.constants@,
                                    attribute_node.text@,
                                ) {
                                    None => None,
                                    Some(value) => match parsed_tree(value) {
                                        None => None,
                                        Some(root) => if root.children@.len() < 1 {
                                            None
                                        } else if root.children@[0].children@.len() < 1 {
                                            None
                                        } else if fuel == 0 {
                                            None
                                        } else {
                                            spec_infer(
                                                db,
                                                scopes,
                                                class_parent,
                                                NO_SCOPE,
                                                root.children@[0].children@[0],
                                                (fuel - 1) as nat,
                                            )
                                        },
                                    },
                                },
                            }
                        } else {
                            db.spec_property_type(
                                class_name,
                                attribute_node.text@,
                                db.lookup_fuel(),
                            )
                        }
                    } else if attribute_node.kind@ == "attribute_call"@ {
                        if attribute_node.children@.len() < 1 {
                            None
                        } else {
                            db.spec_callable_type(class_name, attribute_node.children@[0].text@)
                        }
                    } else {
                        None
                    }
                }
            },
        }
    }
}

/// A call: a known class name with a constructor yields the
/// constructor's type; otherwise, with a declared base class, the
/// callable's return type is resolved through the catalog, and when that
/// is the generic object sentinel the call's first argument's type is
/// passed through instead.
pub open spec fn spec_infer_call(
    db: TypeDatabase,
    scopes: Seq<Scope>,
    class_parent: Option<SymbolType>,
    scope: usize,
    node: SyntaxNode,
    fuel: nat,
) -> Option<SymbolTypeView>
    decreases fuel, node, 0int,
    via spec_infer_call_decreases
{
    if node.children@.len() < 1 {
        None
    } else {
        let name = node.children@[0].text@;
        let ctor: Option<SymbolTypeView> = match db.spec_class(name) {
            Some(c) => match c.constructor {
                Some(k) => Some(k.return_type@),
                None => None,
            },
            None => None,
        };
        match ctor {
            Some(t) => Some(t),
            None => match class_parent {
                Some(parent) => {
                    let inferred = db.spec_callable_type(
                        SymbolType::spec_to_string(parent@),
                        name,
                    );
                    if inferred == Some(SymbolTypeView::Object("Variant"@)) {
                        match spec_child_by_field(node, "arguments"@) {
                            Some(args) => if args.children@.len() < 2 {
                                inferred
                            } else {
                                spec_infer(
                                    db,
                                    scopes,
                                    class_parent,
                                    scope,
                                    args.children@[1],
                                    fuel,
                                )
                            },
                            None => inferred,
                        }
                    } else {
                        inferred
                    }
                },
                None => None,
            },
        }
    }
}

#[via_fn]
proof fn spec_infer_call_decreases(
    db: TypeDatabase,
    scopes: Seq<Scope>,
    class_parent: Option<SymbolType>,
    scope: usize,
    node: SyntaxNode,
    fuel: nat,
) {
    lemma_child_by_field_is_child(node, "arguments"@);
    let a = spec_child_by_field(node, "arguments"@);
    if a is Some {
        lemma_child_decreases(a->Some_0, node);
    }
}

fn scan_vars<'b>(vars: &'b Vec<Symbol>, symbol: &str, position: usize) -> (r: Option<&'b Symbol>)
    ensures
        match r {
            Some(s) => spec_scan_vars(vars@, symbol@, position) == Some(opt_symbol_view(s.ttype)),
            None => spec_scan_vars(vars@, symbol@, position) is None,
        },
{
    let n = vars.len();
    proof {
        assert(vars@.skip(0) =~= vars@);
    }
    let mut i: usize = 0;
    while i < n
        invariant
            i <= n,
            n == vars.len(),
            spec_scan_vars(vars@, symbol@, position) == spec_scan_vars(
                vars@.skip(i as int),
                symbol@,
                position,
            ),
        decreases n - i,
    {
        proof {
            assert(vars@.skip(i as int)[0] == vars@[i as int]);
        }
        if vars[i].byte <= position && str_eq(vars[i].name.as_str(), symbol) {
            return Some(&vars[i]);
        }
        proof {
            assert(vars@.skip(i as int).drop_first() =~= vars@.skip(i as int + 1));
        }
        i += 1;
    }
    proof {
        assert(vars@.skip(n as int) =~= Seq::<Symbol>::empty());
    }
    None
}

impl<'a> SymbolTable<'a> {
    /// A fresh, empty table over the given catalog.
    pub fn new(typedb: &'a TypeDatabase) -> (st: SymbolTable<'a>)
        ensures
            st.map@ =~= Seq::<Scope>::empty(),
            st.class_parent is None,
            st.typedb == typedb,
    {
        SymbolTable { map: Vec::new(), class_parent: None, typedb }
    }

    /// The scope with the given id, if the table holds one.
    pub fn get_scope(&self, id: usize) -> (r: Option<&Scope>)
        ensures
            match r {
                Some(s) => id < self.map@.len() && *s == self.map@[id as int],
                None => id >= self.map@.len(),
            },
    {
        if id < self.map.len() {
            Some(&self.map[id])
        } else {
            None
        }
    }

    fn class_parent_property(&self, symbol: &str) -> (r: Option<&SymbolType>)
        ensures
            opt_type_view(r) == spec_class_parent_lookup(
                *self.typedb,
                self.class_parent,
                symbol@,
            ),
    {
        match &self.class_parent {
            Some(parent) => {
                let type_string = parent.to_string();
                self.typedb.get_symbol_type(type_string.as_str(), symbol)
            },
            None => None,
        }
    }

    /// Lexical lookup of `symbol` visible at byte `position`, walking
    /// from `scope` towards the root and then into the declared base
    /// class; see [`spec_symbol_type`].
    pub fn get_symbol_type(&self, scope: usize, symbol: &str, position: usize) -> (r: Option<
        &SymbolType,
    >)
        requires
            scopes_wf(self.map@),
        ensures
            opt_type_view(r) == spec_symbol_type(
                *self.typedb,
                self.map@,
                self.class_parent,
                scope,
                symbol@,
                position,
            ),
        decreases scope,
    {
        if scope == NO_SCOPE {
            return self.class_parent_property(symbol);
        }
        if scope >= self.map.len() {
            return None;
        }
        let sc = &self.map[scope];
        proof {
            assert((self.map@[scope as int]).id == scope as int);
        }
        match scan_vars(&sc.vars, symbol, position) {
            Some(sym) => sym.ttype.as_ref(),
            None => {
                if sc.parent == NO_SCOPE {
                    self.class_parent_property(symbol)
                } else {
                    self.get_symbol_type(sc.parent, symbol, position)
                }
            },
        }
    }

    fn infer_identifier_type(&self, scope_id: usize, identifier: &SyntaxNode) -> (r: Option<
        SymbolType,
    >)
        requires
            scopes_wf(self.map@),
        ensures
            opt_symbol_view(r) == spec_symbol_type(
                *self.typedb,
                self.map@,
                self.class_parent,
                scope_id,
                identifier.text@,
                identifier.start_byte,
            ),
    {
        match self.get_symbol_type(scope_id, identifier.text.as_str(), identifier.start_byte) {
            Some(t) => Some(t.clone()),
            None => None,
        }
    }

    fn infer_fueled(&self, scope_id: usize, node: &SyntaxNode, fuel: usize) -> (r: Option<
        SymbolType,
    >)
        requires
            scopes_wf(self.map@),
        ensures
            opt_symbol_view(r) == spec_infer(
                *self.typedb,
                self.map@,
                self.class_parent,
                scope_id,
                *node,
                fuel as nat,
            ),
        decreases fuel, *node, 1int,
    {
        if node.is_kind("integer") {
            Some(SymbolType::Variant(VariantType::Int))
        } else if node.is_kind("float") {
            Some(SymbolType::Variant(VariantType::Float))
        } else if node.is_kind("false") || node.is_kind("true") {
            Some(SymbolType::Variant(VariantType::Bool))
        } else if node.is_kind("string") {
            Some(SymbolType::Variant(VariantType::String))
        } else if node.is_kind("binary_operator") {
            self.infer_binary_fueled(scope_id, node, fuel)
        } else if node.is_kind("identifier") {
            self.infer_identifier_type(scope_id, node)
        } else if node.is_kind("attribute") {
            self.infer_attribute_fueled(scope_id, node, fuel)
        } else if node.is_kind("call") {
            self.infer_call_fueled(scope_id, node, fuel)
        } else if node.is_kind("parenthesized_expression") {
            self.infer_parenthesized_expression_fueled(scope_id, node, fuel)
        } else if node.is_kind("unary_operator") {
            self.infer_unary_fueled(scope_id, node, fuel)
        } else {
            None
        }
    }

    fn infer_parenthesized_expression_fueled(
        &self,
        scope_id: usize,
        node: &SyntaxNode,
        fuel: usize,
    ) -> (r: Option<SymbolType>)
        requires
            scopes_wf(self.map@),
        ensures
            opt_symbol_view(r) == spec_infer_paren(
                *self.typedb,
                self.map@,
                self.class_parent,
                scope_id,
                *node,
                fuel as nat,
            ),
        decreases fuel, *node, 0int,
    {
        match node.child(1) {
            None => None,
            Some(inner) => {
                proof {
                    assert(decreases_to!(*node => node.children@[1]));
                }
                self.infer_fueled(scope_id, inner, fuel)
            },
        }
    }

    fn infer_unary_fueled(&self, scope_id: usize, node: &SyntaxNode, fuel: usize) -> (r: Option<
        SymbolType,
    >)
        requires
            scopes_wf(self.map@),
        ensures
            opt_symbol_view(r) == spec_infer_unary(
                *self.typedb,
                self.map@,
                self.class_parent,
                scope_id,
                *node,
                fuel as nat,
            ),
        decreases fuel, *node, 0int,
    {
        let inner = match node.child(1) {
            Some(c) => c,
            None => {
                return None;
            },
        };
        proof {
            assert(decreases_to!(*node => node.children@[1]));
        }
        let inner_type = match self.infer_fueled(scope_id, inner, fuel) {
            Some(t) => t,
            None => {
                return None;
            },
        };
        let inner_type_str = inner_type.to_string();
        let op = match node.child(0) {
            Some(o) => o,
            None => {
                return None;
            },
        };
        match self.typedb.get_unary_operator_type(inner_type_str.as_str(), op.kind.as_str()) {
            Some(t) => Some(t.clone()),
            None => None,
        }
    }

    fn infer_binary_fueled(&self, scope_id: usize, bin_op: &SyntaxNode, fuel: usize) -> (r: Option<
        SymbolType,
    >)
        requires
            scopes_wf(self.map@),
        ensures
            opt_symbol_view(r) == spec_infer_binary(
                *self.typedb,
                self.map@,
                self.class_parent,
                scope_id,
                *bin_op,
                fuel as nat,
            ),
        decreases fuel, *bin_op, 0int,
    {
        let left_node = match bin_op.child_by_field("left") {
            Some(c) => c,
            None => {
                return None;
            },
        };
        let right_node = match bin_op.child_by_field("right") {
            Some(c) => c,
            None => {
                return None;
            },
        };
        proof {
            lemma_child_decreases(*left_node, *bin_op);
            lemma_child_decreases(*right_node, *bin_op);
        }
        let left_type = match self.infer_fueled(scope_id, left_node, fuel) {
            Some(t) => t,
            None => {
                return None;
            },
        };
        let right_type = match self.infer_fueled(scope_id, right_node, fuel) {
            Some(t) => t,
            None => {
                return None;
            },
        };
        let left_type_str = left_type.to_string();
        let op = match bin_op.child(1) {
            Some(o) => o,
            None => {
                return None;
            },
        };
        match self.typedb.get_binary_operator_type(
            left_type_str.as_str(),
            op.kind.as_str(),
            &right_type,
        ) {
            Some(t) => Some(t.clone()),
            None => None,
        }
    }

    fn infer_call_fueled(&self, scope_id: usize, node: &SyntaxNode, fuel: usize) -> (r: Option<
        SymbolType,
    >)
        requires
            scopes_wf(self.map@),
        ensures
            opt_symbol_view(r) == spec_infer_call(
                *self.typedb,
                self.map@,
                self.class_parent,
                scope_id,
                *node,
                fuel as nat,
            ),
        decreases fuel, *node, 0int,
    {
        let name_node = match node.child(0) {
            Some(c) => c,
            None => {
                return None;
            },
        };
        let name = name_node.text.as_str();
        if let Some(class) = self.typedb.get_class(name) {
            if let Some(constructor) = &class.constructor {
                return Some(constructor.return_type.clone());
            }
        }
        match &self.class_parent {
            Some(parent) => {
                let type_string = parent.to_string();
                let inferred = self.typedb.get_callable_type(type_string.as_str(), name);
                let is_sentinel = match inferred {
                    Some(t) => match t {
                        SymbolType::Object(n) => str_eq(n.as_str(), "Variant"),
                        _ => false,
                    },
                    None => false,
                };
                if is_sentinel {
                    if let Some(arguments) = node.child_by_field("arguments") {
                        if let Some(first_child) = arguments.child(1) {
                            proof {
                                lemma_child_decreases(*arguments, *node);
                                assert(decreases_to!(*arguments => arguments.children@[1]));
                            }
                            return self.infer_fueled(scope_id, first_child, fuel);
                        }
                    }
                }
                match inferred {
                    Some(t) => Some(t.clone()),
                    None => None,
                }
            },
            None => None,
        }
    }

    fn infer_attribute_fueled(&self, scope_id: usize, node: &SyntaxNode, fuel: usize) -> (r:
        Option<SymbolType>)
        requires
            scopes_wf(self.map@),
        ensures
            opt_symbol_view(r) == spec_infer_attribute(
                *self.typedb,
                self.map@,
                self.class_parent,
                scope_id,
                *node,
                fuel as nat,
            ),
        decreases fuel, *node, 0int,
    {
        let lhs_node = match node.child(0) {
            Some(c) => c,
            None => {
                return None;
            },
        };
        let is_class: bool;
        let class_name: String;
        if lhs_node.is_kind("parenthesized_expression") {
            proof {
                assert(decreases_to!(*node => node.children@[0]));
            }
            let paren_expr_type = match self.infer_parenthesized_expression_fueled(
                scope_id,
                lhs_node,
                fuel,
            ) {
                Some(t) => t,
                None => {
                    return None;
                },
            };
            class_name = paren_expr_type.to_string();
            is_class = false;
        } else {
            match self.get_symbol_type(scope_id, lhs_node.text.as_str(), lhs_node.start_byte) {
                Some(ttype) => {
                    class_name = ttype.to_string();
                    is_class = false;
                },
                None => {
                    class_name = lhs_node.text.clone();
                    is_class = true;
                },
            }
        }
        let attribute_node = match node.child(2) {
            Some(c) => c,
            None => {
                return None;
            },
        };
        if attribute_node.is_kind("identifier") {
            let field_name = attribute_node.text.as_str();
            if is_class {
                let constant = match self.typedb.get_constant_value(
                    class_name.as_str(),
                    field_name,
                ) {
                    Some(v) => v,
                    None => {
                        return None;
                    },
                };
                let parsed = match parse_file(constant.as_str()) {
                    Some(p) => p,
                    None => {
                        return None;
                    },
                };
                let expression_statement = match parsed.child(0) {
                    Some(c) => c,
                    None => {
                        return None;
                    },
                };
                let expression = match expression_statement.child(0) {
                    Some(c) => c,
                    None => {
                        return None;
                    },
                };
                if fuel == 0 {
                    return None;
                }
                self.infer_fueled(NO_SCOPE, expression, fuel - 1)
            } else {
                match self.typedb.get_symbol_type(class_name.as_str(), field_name) {
                    Some(t) => Some(t.clone()),
                    None => None,
                }
            }
        } else if attribute_node.is_kind("attribute_call") {
            let method_name_node = match attribute_node.child(0) {
                Some(c) => c,
                None => {
                    return None;
                },
            };
            match self.typedb.get_callable_type(
                class_name.as_str(),
                method_name_node.text.as_str(),
            ) {
                Some(t) => Some(t.clone()),
                None => None,
            }
        } else {
            None
        }
    }

    /// Infers the static type of an expression node, or `None` when the
    /// expression is not modeled or under-determined; see [`spec_infer`].
    pub fn infer_type(&self, scope_id: usize, node: &SyntaxNode) -> (r: Option<SymbolType>)
        requires
            scopes_wf(self.map@),
        ensures
            opt_symbol_view(r) == spec_infer(
                *self.typedb,
                self.map@,
                self.class_parent,
                scope_id,
                *node,
                INFER_FUEL as nat,
            ),
    {
        self.infer_fueled(scope_id, node, INFER_FUEL)
    }

    /// Infers the type of an attribute access; see [`spec_infer_attribute`].
    pub fn infer_attribute_type(&self, scope_id: usize, node: &SyntaxNode) -> (r: Option<
        SymbolType,
    >)
        requires
            scopes_wf(self.map@),
        ensures
            opt_symbol_view(r) == spec_infer_attribute(
                *self.typedb,
                self.map@,
                self.class_parent,
                scope_id,
                *node,
                INFER_FUEL as nat,
            ),
    {
        self.infer_attribute_fueled(scope_id, node, INFER_FUEL)
    }

    /// Infers the result type of a binary operator application; see
    /// [`spec_infer_binary`].
    pub fn infer_binary_operator_type(&self, scope_id: usize, bin_op: &SyntaxNode) -> (r: Option<
        SymbolType,
    >)
        requires
            scopes_wf(self.map@),
        ensures
            opt_symbol_view(r) == spec_infer_binary(
                *self.typedb,
                self.map@,
                self.class_parent,
                scope_id,
                *bin_op,
                INFER_FUEL as nat,
            ),
    {
        self.infer_binary_fueled(scope_id, bin_op, INFER_FUEL)
    }
}

/// One recorded declaration: named after its name node, visible after
/// `byte`, rendered at the name node's end point, with the given
/// annotation flag and type.
pub open spec fn symbol_recorded(
    sym: Symbol,
    name_node: SyntaxNode,
    byte: usize,
    static_typed: bool,
    ttype: Option<SymbolTypeView>,
) -> bool {
    &&& sym.name@ == name_node.text@
    &&& sym.byte == byte
    &&& sym.hint_position == (Position {
        line: name_node.end_row as u32,
        character: name_node.end_col as u32,
    })
    &&& sym.static_typed == static_typed
    &&& opt_symbol_view(sym.ttype) == ttype
}

/// The scope list after appending `sym` to scope `scope`: everything
/// else untouched.
pub open spec fn scope_pushed(s0: Seq<Scope>, s1: Seq<Scope>, scope: usize, sym: Symbol) -> bool {
    &&& scope < s0.len()
    &&& s1.len() == s0.len()
    &&& forall|j: int| 0 <= j < s0.len() && j != scope ==> s1[j] == s0[j]
    &&& s1[scope as int].id == s0[scope as int].id
    &&& s1[scope as int].parent == s0[scope as int].parent
    &&& s1[scope as int].start_byte == s0[scope as int].start_byte
    &&& s1[scope as int].end_byte == s0[scope as int].end_byte
    &&& s1[scope as int].vars@ == s0[scope as int].vars@.push(sym)
}

/// The scope list after opening a fresh scope over `body` under
/// `parent`: appended at the end, empty, with the next id.
pub open spec fn scope_opened(
    s0: Seq<Scope>,
    s1: Seq<Scope>,
    body: SyntaxNode,
    parent: usize,
) -> bool {
    &&& s1.len() == s0.len() + 1
    &&& forall|j: int| 0 <= j < s0.len() ==> s1[j] == s0[j]
    &&& s1[s0.len() as int].id == s0.len()
    &&& s1[s0.len() as int].parent == parent
    &&& s1[s0.len() as int].start_byte == body.start_byte
    &&& s1[s0.len() as int].end_byte == body.end_byte
    &&& s1[s0.len() as int].vars@ == Seq::<Symbol>::empty()
}

/// How one declaration statement extends the current scope: the symbol
/// carries the annotated type when a type field is present (and is then
/// marked static), else the type inferred for the initializer against
/// the table as built so far, else no type. A declaration without a
/// name field records nothing.
pub open spec fn var_declared(
    db: TypeDatabase,
    s0: Seq<Scope>,
    cp: Option<SymbolType>,
    s1: Seq<Scope>,
    child: SyntaxNode,
    scope: usize,
) -> bool {
    match spec_child_by_field(child, "name"@) {
        None => s1 == s0,
        Some(name_node) => exists|sym: Symbol|
            #[trigger] scope_pushed(s0, s1, scope, sym) && (match spec_child_by_field(
                child,
                "type"@,
            ) {
                Some(type_node) => symbol_recorded(
                    sym,
                    name_node,
                    child.end_byte,
                    true,
                    Some(SymbolType::spec_from_string(type_node.text@)),
                ),
                None => match spec_child_by_field(child, "value"@) {
                    Some(value_node) => symbol_recorded(
                        sym,
                        name_node,
                        child.end_byte,
                        false,
                        spec_infer(db, s0, cp, scope, value_node, INFER_FUEL as nat),
                    ),
                    None => symbol_recorded(sym, name_node, child.end_byte, false, None),
                },
            }),
    }
}

/// One parameter seeded into a fresh function scope: only typed
/// parameters with a first child count; they are visible from the body
/// start and always marked static.
pub open spec fn param_seeded(
    s0: Seq<Scope>,
    s1: Seq<Scope>,
    parameter: SyntaxNode,
    scope: usize,
    body_start: usize,
) -> bool {
    if parameter.kind@ == "typed_parameter"@ && parameter.children@.len() >= 1 {
        exists|sym: Symbol|
            #[trigger] scope_pushed(s0, s1, scope, sym) && symbol_recorded(
                sym,
                parameter.children@[0],
                body_start,
                true,
                match spec_child_by_field(parameter, "type"@) {
                    Some(type_node) => Some(SymbolType::spec_from_string(type_node.text@)),
                    None => None,
                },
            )
    } else {
        s1 == s0
    }
}

/// Trigger scaffolding: names one intermediate scope list of a build,
/// so that the existential steps of the build relations can be
/// instantiated from the states the builder actually passed through.
pub open spec fn scopes_stage(scopes: Seq<Scope>) -> bool {
    true
}

/// Trigger scaffolding: names one intermediate builder state (scope
/// list and recorded base class); see [`scopes_stage`].
pub open spec fn build_stage(scopes: Seq<Scope>, class_parent: Option<SymbolType>) -> bool {
    true
}

/// The first `n` parameter nodes seeded in order.
pub open spec fn params_seeded(
    s0: Seq<Scope>,
    s1: Seq<Scope>,
    params: Seq<SyntaxNode>,
    n: int,
    scope: usize,
    body_start: usize,
) -> bool
    decreases n,
{
    if n <= 0 || n > params.len() {
        s1 == s0
    } else {
        exists|mid: Seq<Scope>|
            params_seeded(s0, mid, params, n - 1, scope, body_start) && #[trigger] param_seeded(
                mid,
                s1,
                params[n - 1],
                scope,
                body_start,
            )
    }
}

/// Seeding one more parameter extends the seeded prefix.
pub proof fn lemma_params_seeded_step(
    s0: Seq<Scope>,
    mid: Seq<Scope>,
    s1: Seq<Scope>,
    params: Seq<SyntaxNode>,
    n: int,
    scope: usize,
    body_start: usize,
)
    requires
        0 < n <= params.len(),
        params_seeded(s0, mid, params, n - 1, scope, body_start),
        param_seeded(mid, s1, params[n - 1], scope, body_start),
    ensures
        params_seeded(s0, s1, params, n, scope, body_start),
{
}

/// The state transition the builder makes for the whole of one body
/// node: its children processed in order; see [`child_built`].
pub open spec fn built_body(
    db: TypeDatabase,
    s0: Seq<Scope>,
    cp0: Option<SymbolType>,
    s1: Seq<Scope>,
    cp1: Option<SymbolType>,
    body: SyntaxNode,
    scope: usize,
) -> bool
    decreases body, body.children@.len() + 1, 1int,
{
    built_children(db, s0, cp0, s1, cp1, body, body.children@.len() as int, scope)
}

/// The state transition for the first `n` children of `body`.
pub open spec fn built_children(
    db: TypeDatabase,
    s0: Seq<Scope>,
    cp0: Option<SymbolType>,
    s1: Seq<Scope>,
    cp1: Option<SymbolType>,
    body: SyntaxNode,
    n: int,
    scope: usize,
) -> bool
    decreases body, n, 1int,
{
    if n <= 0 || n > body.children@.len() {
        s1 == s0 && cp1 == cp0
    } else {
        exists|sm: Seq<Scope>, cm: Option<SymbolType>|
            #[trigger] build_stage(sm, cm) && built_children(db, s0, cp0, sm, cm, body, n - 1, scope)
                && child_built(db, sm, cm, s1, cp1, body.children@[n - 1], scope)
    }
}

/// The state transition for one child of a body: a declaration records
/// a symbol; a function definition opens a scope, seeds its typed
/// parameters, and recurses; a conditional opens a scope for its body
/// and one per alternative branch; loop bodies and branch clauses open
/// one scope; an extends statement names the base class; a match
/// statement opens one scope per arm; anything else changes nothing.
pub open spec fn child_built(
    db: TypeDatabase,
    s0: Seq<Scope>,
    cp0: Option<SymbolType>,
    s1: Seq<Scope>,
    cp1: Option<SymbolType>,
    child: SyntaxNode,
    scope: usize,
) -> bool
    decreases child, child.children@.len() + 1, 2int,
    via child_built_decreases
{
    if child.kind@ == "variable_statement"@ || child.kind@ == "const_statement"@ {
        cp1 == cp0 && var_declared(db, s0, cp0, s1, child, scope)
    } else if child.kind@ == "function_definition"@ {
        match spec_child_by_field(child, "body"@) {
            None => s1 == s0 && cp1 == cp0,
            Some(body_node) => exists|so: Seq<Scope>, ss: Seq<Scope>|
                #![trigger scope_opened(s0, so, body_node, scope), scopes_stage(ss)]
                scope_opened(s0, so, body_node, scope) && scopes_stage(ss) && (match spec_child_by_field(
                    child,
                    "parameters"@,
                ) {
                    Some(ps) => params_seeded(
                        so,
                        ss,
                        ps.children@,
                        ps.children@.len() as int,
                        s0.len() as usize,
                        body_node.start_byte,
                    ),
                    None => ss == so,
                }) && built_body(db, ss, cp0, s1, cp1, body_node, s0.len() as usize),
        }
    } else if child.kind@ == "if_statement"@ {
        exists|sm: Seq<Scope>, cm: Option<SymbolType>|
            #[trigger] build_stage(sm, cm) && (match spec_child_by_field(child, "body"@) {
                None => sm == s0 && cm == cp0,
                Some(body_node) => exists|so: Seq<Scope>|
                    #[trigger] scope_opened(s0, so, body_node, scope) && built_body(
                        db,
                        so,
                        cp0,
                        sm,
                        cm,
                        body_node,
                        s0.len() as usize,
                    ),
            }) && alternatives_built(
                db,
                sm,
                cm,
                s1,
                cp1,
                child,
                child.children@.len() as int,
                scope,
            )
    } else if child.kind@ == "elif_clause"@ || child.kind@ == "else_clause"@ || child.kind@
        == "for_statement"@ {
        match spec_child_by_field(child, "body"@) {
            None => s1 == s0 && cp1 == cp0,
            Some(body_node) => exists|so: Seq<Scope>|
                #[trigger] scope_opened(s0, so, body_node, scope) && built_body(
                    db,
                    so,
                    cp0,
                    s1,
                    cp1,
                    body_node,
                    s0.len() as usize,
                ),
        }
    } else if child.kind@ == "extends_statement"@ {
        s1 == s0 && opt_symbol_view(cp1) == (if child.children@.len() >= 2 {
            Some(SymbolType::spec_from_string(child.children@[1].text@))
        } else {
            Option::<SymbolTypeView>::None
        })
    } else if child.kind@ == "match_statement"@ {
        match spec_child_by_field(child, "body"@) {
            None => s1 == s0 && cp1 == cp0,
            Some(match_body) => arms_built(
                db,
                s0,
                cp0,
                s1,
                cp1,
                match_body,
                match_body.children@.len() as int,
                scope,
            ),
        }
    } else {
        s1 == s0 && cp1 == cp0
    }
}

#[via_fn]
proof fn child_built_decreases(
    db: TypeDatabase,
    s0: Seq<Scope>,
    cp0: Option<SymbolType>,
    s1: Seq<Scope>,
    cp1: Option<SymbolType>,
    child: SyntaxNode,
    scope: usize,
) {
    lemma_child_by_field_is_child(child, "body"@);
    let b = spec_child_by_field(child, "body"@);
    if b is Some {
        lemma_child_decreases(b->Some_0, child);
    }
}

/// The state transition for the first `n` children of an `if`
/// statement, counting only those held under the alternative field:
/// each opens one scope for its own body and recurses into it.
pub open spec fn alternatives_built(
    db: TypeDatabase,
    s0: Seq<Scope>,
    cp0: Option<SymbolType>,
    s1: Seq<Scope>,
    cp1: Option<SymbolType>,
    child: SyntaxNode,
    n: int,
    scope: usize,
) -> bool
    decreases child, n, 0int,
    via alternatives_built_decreases
{
    if n <= 0 || n > child.children@.len() {
        s1 == s0 && cp1 == cp0
    } else {
        exists|sm: Seq<Scope>, cm: Option<SymbolType>|
            #[trigger] build_stage(sm, cm) && alternatives_built(db, s0, cp0, sm, cm, child, n - 1, scope)
                && alternative_built(db, sm, cm, s1, cp1, child.children@[n - 1], scope)
    }
}

/// The state transition for one child of an `if` statement: only a
/// child held under the alternative field with a body of its own opens
/// a scope and recurses; anything else changes nothing.
pub open spec fn alternative_built(
    db: TypeDatabase,
    s0: Seq<Scope>,
    cp0: Option<SymbolType>,
    s1: Seq<Scope>,
    cp1: Option<SymbolType>,
    alternative: SyntaxNode,
    scope: usize,
) -> bool
    decreases alternative, alternative.children@.len() + 1, 2int,
    via alternative_built_decreases
{
    if alternative.field matches Some(f) && f@ == "alternative"@ {
        match spec_child_by_field(alternative, "body"@) {
            None => s1 == s0 && cp1 == cp0,
            Some(body_node) => exists|so: Seq<Scope>|
                #[trigger] scope_opened(s0, so, body_node, scope) && built_body(
                    db,
                    so,
                    cp0,
                    s1,
                    cp1,
                    body_node,
                    s0.len() as usize,
                ),
        }
    } else {
        s1 == s0 && cp1 == cp0
    }
}

#[via_fn]
proof fn alternative_built_decreases(
    db: TypeDatabase,
    s0: Seq<Scope>,
    cp0: Option<SymbolType>,
    s1: Seq<Scope>,
    cp1: Option<SymbolType>,
    alternative: SyntaxNode,
    scope: usize,
) {
    lemma_child_by_field_is_child(alternative, "body"@);
    let b = spec_child_by_field(alternative, "body"@);
    if b is Some {
        lemma_child_decreases(b->Some_0, alternative);
    }
}

#[via_fn]
proof fn alternatives_built_decreases(
    db: TypeDatabase,
    s0: Seq<Scope>,
    cp0: Option<SymbolType>,
    s1: Seq<Scope>,
    cp1: Option<SymbolType>,
    child: SyntaxNode,
    n: int,
    scope: usize,
) {
    if 0 < n <= child.children@.len() {
        assert(decreases_to!(child => child.children@[n - 1]));
    }
}

/// The state transition for the first `n` pattern sections of a match
/// statement's body: each section with a body opens one scope for it,
/// bound to the enclosing scope, and recurses into it.
pub open spec fn arms_built(
    db: TypeDatabase,
    s0: Seq<Scope>,
    cp0: Option<SymbolType>,
    s1: Seq<Scope>,
    cp1: Option<SymbolType>,
    match_body: SyntaxNode,
    n: int,
    scope: usize,
) -> bool
    decreases match_body, n, 0int,
    via arms_built_decreases
{
    if n <= 0 || n > match_body.children@.len() {
        s1 == s0 && cp1 == cp0
    } else {
        exists|sm: Seq<Scope>, cm: Option<SymbolType>|
            #[trigger] build_stage(sm, cm) && arms_built(db, s0, cp0, sm, cm, match_body, n - 1, scope)
                && arm_built(db, sm, cm, s1, cp1, match_body.children@[n - 1], scope)
    }
}

/// The state transition for one pattern section of a match body: a
/// section with a body opens a scope for it and recurses; one without
/// changes nothing.
pub open spec fn arm_built(
    db: TypeDatabase,
    s0: Seq<Scope>,
    cp0: Option<SymbolType>,
    s1: Seq<Scope>,
    cp1: Option<SymbolType>,
    section: SyntaxNode,
    scope: usize,
) -> bool
    decreases section, section.children@.len() + 1, 2int,
    via arm_built_decreases
{
    match spec_child_by_field(section, "body"@) {
        None => s1 == s0 && cp1 == cp0,
        Some(pattern_body) => exists|so: Seq<Scope>|
            #[trigger] scope_opened(s0, so, pattern_body, scope) && built_body(
                db,
                so,
                cp0,
                s1,
                cp1,
                pattern_body,
                s0.len() as usize,
            ),
    }
}

#[via_fn]
proof fn arm_built_decreases(
    db: TypeDatabase,
    s0: Seq<Scope>,
    cp0: Option<SymbolType>,
    s1: Seq<Scope>,
    cp1: Option<SymbolType>,
    section: SyntaxNode,
    scope: usize,
) {
    lemma_child_by_field_is_child(section, "body"@);
    let b = spec_child_by_field(section, "body"@);
    if b is Some {
        lemma_child_decreases(b->Some_0, section);
    }
}

#[via_fn]
proof fn arms_built_decreases(
    db: TypeDatabase,
    s0: Seq<Scope>,
    cp0: Option<SymbolType>,
    s1: Seq<Scope>,
    cp1: Option<SymbolType>,
    match_body: SyntaxNode,
    n: int,
    scope: usize,
) {
    if 0 < n <= match_body.children@.len() {
        assert(decreases_to!(match_body => match_body.children@[n - 1]));
    }
}

/// Processing one more child extends the processed prefix.
pub proof fn lemma_built_children_step(
    db: TypeDatabase,
    s0: Seq<Scope>,
    cp0: Option<SymbolType>,
    sm: Seq<Scope>,
    cm: Option<SymbolType>,
    s1: Seq<Scope>,
    cp1: Option<SymbolType>,
    body: SyntaxNode,
    n: int,
    scope: usize,
)
    requires
        0 < n <= body.children@.len(),
        built_children(db, s0, cp0, sm, cm, body, n - 1, scope),
        child_built(db, sm, cm, s1, cp1, body.children@[n - 1], scope),
    ensures
        built_children(db, s0, cp0, s1, cp1, body, n, scope),
{
    assert(build_stage(sm, cm));
}

/// Processing one more alternative extends the processed prefix.
pub proof fn lemma_alternatives_built_step(
    db: TypeDatabase,
    s0: Seq<Scope>,
    cp0: Option<SymbolType>,
    sm: Seq<Scope>,
    cm: Option<SymbolType>,
    s1: Seq<Scope>,
    cp1: Option<SymbolType>,
    child: SyntaxNode,
    n: int,
    scope: usize,
)
    requires
        0 < n <= child.children@.len(),
        alternatives_built(db, s0, cp0, sm, cm, child, n - 1, scope),
        alternative_built(db, sm, cm, s1, cp1, child.children@[n - 1], scope),
    ensures
        alternatives_built(db, s0, cp0, s1, cp1, child, n, scope),
{
    assert(build_stage(sm, cm));
}

/// Processing one more pattern section extends the processed prefix.
pub proof fn lemma_arms_built_step(
    db: TypeDatabase,
    s0: Seq<Scope>,
    cp0: Option<SymbolType>,
    sm: Seq<Scope>,
    cm: Option<SymbolType>,
    s1: Seq<Scope>,
    cp1: Option<SymbolType>,
    match_body: SyntaxNode,
    n: int,
    scope: usize,
)
    requires
        0 < n <= match_body.children@.len(),
        arms_built(db, s0, cp0, sm, cm, match_body, n - 1, scope),
        arm_built(db, sm, cm, s1, cp1, match_body.children@[n - 1], scope),
    ensures
        arms_built(db, s0, cp0, s1, cp1, match_body, n, scope),
{
    assert(build_stage(sm, cm));
}

/// An alternative with a body, once its scope is opened and its body
/// built, has made its transition.
pub proof fn lemma_alternative_built_body(
    db: TypeDatabase,
    s0: Seq<Scope>,
    cp0: Option<SymbolType>,
    s1: Seq<Scope>,
    cp1: Option<SymbolType>,
    alternative: SyntaxNode,
    scope: usize,
    so: Seq<Scope>,
    body_node: SyntaxNode,
)
    requires
        alternative.field matches Some(f) && f@ == "alternative"@,
        spec_child_by_field(alternative, "body"@) == Some(body_node),
        scope_opened(s0, so, body_node, scope),
        built_body(db, so, cp0, s1, cp1, body_node, s0.len() as usize),
    ensures
        alternative_built(db, s0, cp0, s1, cp1, alternative, scope),
{
}

/// A pattern section with a body, once its scope is opened and its
/// body built, has made its transition.
pub proof fn lemma_arm_built_body(
    db: TypeDatabase,
    s0: Seq<Scope>,
    cp0: Option<SymbolType>,
    s1: Seq<Scope>,
    cp1: Option<SymbolType>,
    section: SyntaxNode,
    scope: usize,
    so: Seq<Scope>,
    body_node: SyntaxNode,
)
    requires
        spec_child_by_field(section, "body"@) == Some(body_node),
        scope_opened(s0, so, body_node, scope),
        built_body(db, so, cp0, s1, cp1, body_node, s0.len() as usize),
    ensures
        arm_built(db, s0, cp0, s1, cp1, section, scope),
{
}

/// The statement kinds the builder tells apart are distinct strings.
proof fn lemma_statement_kinds_distinct()
    ensures
        "variable_statement"@ != "const_statement"@,
        "variable_statement"@ != "function_definition"@,
        "variable_statement"@ != "if_statement"@,
        "variable_statement"@ != "elif_clause"@,
        "variable_statement"@ != "else_clause"@,
        "variable_statement"@ != "for_statement"@,
        "variable_statement"@ != "extends_statement"@,
        "variable_statement"@ != "match_statement"@,
        "const_statement"@ != "function_definition"@,
        "const_statement"@ != "if_statement"@,
        "const_statement"@ != "elif_clause"@,
        "const_statement"@ != "else_clause"@,
        "const_statement"@ != "for_statement"@,
        "const_statement"@ != "extends_statement"@,
        "const_statement"@ != "match_statement"@,
        "function_definition"@ != "if_statement"@,
        "function_definition"@ != "elif_clause"@,
        "function_definition"@ != "else_clause"@,
        "function_definition"@ != "for_statement"@,
        "function_definition"@ != "extends_statement"@,
        "function_definition"@ != "match_statement"@,
        "if_statement"@ != "elif_clause"@,
        "if_statement"@ != "else_clause"@,
        "if_statement"@ != "for_statement"@,
        "if_statement"@ != "extends_statement"@,
        "if_statement"@ != "match_statement"@,
        "elif_clause"@ != "extends_statement"@,
        "elif_clause"@ != "match_statement"@,
        "else_clause"@ != "extends_statement"@,
        "else_clause"@ != "match_statement"@,
        "for_statement"@ != "extends_statement"@,
        "for_statement"@ != "match_statement"@,
        "extends_statement"@ != "match_statement"@,
{
    reveal_strlit("variable_statement");
    reveal_strlit("const_statement");
    reveal_strlit("function_definition");
    reveal_strlit("if_statement");
    reveal_strlit("elif_clause");
    reveal_strlit("else_clause");
    reveal_strlit("for_statement");
    reveal_strlit("extends_statement");
    reveal_strlit("match_statement");
    assert("variable_statement"@.len() == 18);
    assert("const_statement"@.len() == 15);
    assert("function_definition"@.len() == 19);
    assert("if_statement"@.len() == 12);
    assert("elif_clause"@.len() == 11);
    assert("else_clause"@.len() == 11);
    assert("for_statement"@.len() == 13);
    assert("extends_statement"@.len() == 17);
    assert("match_statement"@.len() == 15);
    assert("const_statement"@[0] == 'c' && "match_statement"@[0] == 'm');
    assert("elif_clause"@[2] == 'i' && "else_clause"@[2] == 's');
}

/// A declaration statement's transition is its recorded symbol.
pub proof fn lemma_child_built_declaration(
    db: TypeDatabase,
    s0: Seq<Scope>,
    cp0: Option<SymbolType>,
    s1: Seq<Scope>,
    child: SyntaxNode,
    scope: usize,
)
    requires
        child.kind@ == "variable_statement"@ || child.kind@ == "const_statement"@,
        var_declared(db, s0, cp0, s1, child, scope),
    ensures
        child_built(db, s0, cp0, s1, cp0, child, scope),
{
}

/// A function definition's transition: scope opened, typed parameters
/// seeded, body built.
pub proof fn lemma_child_built_function(
    db: TypeDatabase,
    s0: Seq<Scope>,
    cp0: Option<SymbolType>,
    s1: Seq<Scope>,
    cp1: Option<SymbolType>,
    child: SyntaxNode,
    scope: usize,
    so: Seq<Scope>,
    ss: Seq<Scope>,
    body_node: SyntaxNode,
)
    requires
        child.kind@ == "function_definition"@,
        spec_child_by_field(child, "body"@) == Some(body_node),
        scope_opened(s0, so, body_node, scope),
        match spec_child_by_field(child, "parameters"@) {
            Some(ps) => params_seeded(
                so,
                ss,
                ps.children@,
                ps.children@.len() as int,
                s0.len() as usize,
                body_node.start_byte,
            ),
            None => ss == so,
        },
        built_body(db, ss, cp0, s1, cp1, body_node, s0.len() as usize),
    ensures
        child_built(db, s0, cp0, s1, cp1, child, scope),
{
    lemma_statement_kinds_distinct();
    assert(scopes_stage(ss));
}

/// An `if` statement's transition: its own body's scope, then each
/// alternative.
pub proof fn lemma_child_built_if(
    db: TypeDatabase,
    s0: Seq<Scope>,
    cp0: Option<SymbolType>,
    sm: Seq<Scope>,
    cm: Option<SymbolType>,
    s1: Seq<Scope>,
    cp1: Option<SymbolType>,
    child: SyntaxNode,
    scope: usize,
)
    requires
        child.kind@ == "if_statement"@,
        match spec_child_by_field(child, "body"@) {
            None => sm == s0 && cm == cp0,
            Some(body_node) => exists|so: Seq<Scope>|
                #[trigger] scope_opened(s0, so, body_node, scope) && built_body(
                    db,
                    so,
                    cp0,
                    sm,
                    cm,
                    body_node,
                    s0.len() as usize,
                ),
        },
        alternatives_built(db, sm, cm, s1, cp1, child, child.children@.len() as int, scope),
    ensures
        child_built(db, s0, cp0, s1, cp1, child, scope),
{
    lemma_statement_kinds_distinct();
    assert(build_stage(sm, cm));
}

/// A branch clause or loop body's transition: one scope opened and
/// built.
pub proof fn lemma_child_built_branch(
    db: TypeDatabase,
    s0: Seq<Scope>,
    cp0: Option<SymbolType>,
    s1: Seq<Scope>,
    cp1: Option<SymbolType>,
    child: SyntaxNode,
    scope: usize,
    so: Seq<Scope>,
    body_node: SyntaxNode,
)
    requires
        child.kind@ == "elif_clause"@ || child.kind@ == "else_clause"@ || child.kind@
            == "for_statement"@,
        spec_child_by_field(child, "body"@) == Some(body_node),
        scope_opened(s0, so, body_node, scope),
        built_body(db, so, cp0, s1, cp1, body_node, s0.len() as usize),
    ensures
        child_built(db, s0, cp0, s1, cp1, child, scope),
{
    lemma_statement_kinds_distinct();
}

/// A match statement's transition: each pattern section in order.
pub proof fn lemma_child_built_match(
    db: TypeDatabase,
    s0: Seq<Scope>,
    cp0: Option<SymbolType>,
    s1: Seq<Scope>,
    cp1: Option<SymbolType>,
    child: SyntaxNode,
    scope: usize,
    match_body: SyntaxNode,
)
    requires
        child.kind@ == "match_statement"@,
        spec_child_by_field(child, "body"@) == Some(match_body),
        arms_built(db, s0, cp0, s1, cp1, match_body, match_body.children@.len() as int, scope),
    ensures
        child_built(db, s0, cp0, s1, cp1, child, scope),
{
    lemma_statement_kinds_distinct();
}

/// The new scope list keeps every old scope's identity and extent; only
/// declarations may have been appended, and new scopes added at the end.
pub open spec fn scopes_extend(old_s: Seq<Scope>, new_s: Seq<Scope>) -> bool {
    &&& new_s.len() >= old_s.len()
    &&& forall|i: int|
        0 <= i < old_s.len() ==> (#[trigger] new_s[i]).id == old_s[i].id && new_s[i].parent
            == old_s[i].parent && new_s[i].start_byte == old_s[i].start_byte && new_s[i].end_byte
            == old_s[i].end_byte
}

impl<'a> SymbolTable<'a> {
    /// Appends a fresh scope over `body` and hands back its id.
    pub fn insert_new_scope(&mut self, body: &SyntaxNode, parent_scope: usize) -> (id: usize)
        requires
            scopes_wf(old(self).map@),
            parent_scope == NO_SCOPE || parent_scope < old(self).map@.len(),
        ensures
            scopes_wf(final(self).map@),
            scopes_extend(old(self).map@, final(self).map@),
            final(self).map@.len() == old(self).map@.len() + 1,
            id == old(self).map@.len(),
            forall|i: int|
                0 <= i < old(self).map@.len() ==> final(self).map@[i] == old(self).map@[i],
            final(self).map@[id as int].id == id,
            final(self).map@[id as int].parent == parent_scope,
            final(self).map@[id as int].start_byte == body.start_byte,
            final(self).map@[id as int].end_byte == body.end_byte,
            final(self).map@[id as int].vars@ =~= Seq::<Symbol>::empty(),
            scope_opened(old(self).map@, final(self).map@, *body, parent_scope),
            final(self).class_parent == old(self).class_parent,
            final(self).typedb == old(self).typedb,
    {
        let new_scope = Scope::new(body, parent_scope);
        self.map.push(new_scope);
        let id = self.map.len() - 1;
        let sc = &mut self.map[id];
        sc.id = id;
        proof {
            assert forall|i: int|
                0 <= i < self.map@.len() implies (#[trigger] self.map@[i]).id == i && (
            self.map@[i].parent == NO_SCOPE || self.map@[i].parent < i) by {
                if i < old(self).map@.len() {
                    assert(self.map@[i] == old(self).map@[i]);
                }
            }
        }
        id
    }

    fn push_symbol(&mut self, scope: usize, symbol: Symbol)
        requires
            scopes_wf(old(self).map@),
            scope < old(self).map@.len(),
        ensures
            scopes_wf(final(self).map@),
            scopes_extend(old(self).map@, final(self).map@),
            final(self).map@.len() == old(self).map@.len(),
            forall|i: int|
                0 <= i < old(self).map@.len() && i != scope ==> final(self).map@[i] == old(
                    self,
                ).map@[i],
            final(self).map@[scope as int].vars@ == old(self).map@[scope as int].vars@.push(
                symbol,
            ),
            scope_pushed(old(self).map@, final(self).map@, scope, symbol),
            final(self).class_parent == old(self).class_parent,
            final(self).typedb == old(self).typedb,
    {
        let sc = &mut self.map[scope];
        sc.vars.push(symbol);
        proof {
            assert forall|i: int|
                0 <= i < self.map@.len() implies (#[trigger] self.map@[i]).id == i && (
            self.map@[i].parent == NO_SCOPE || self.map@[i].parent < i) by {
                if i != scope {
                    assert(self.map@[i] == old(self).map@[i]);
                }
            }
        }
    }

    /// Walks one body node: records declarations in the current scope
    /// (typed by their annotation, else by inferring their initializer),
    /// opens child scopes for function bodies, branch bodies, loop bodies
    /// and match arms, seeds function scopes with their typed parameters,
    /// and notes the class an `extends` statement names; the exact state
    /// transition is [`built_body`].
    pub fn build_body(&mut self, body: &SyntaxNode, scope: usize)
        requires
            scopes_wf(old(self).map@),
            scope < old(self).map@.len(),
        ensures
            scopes_wf(final(self).map@),
            scopes_extend(old(self).map@, final(self).map@),
            final(self).typedb == old(self).typedb,
            built_body(
                *old(self).typedb,
                old(self).map@,
                old(self).class_parent,
                final(self).map@,
                final(self).class_parent,
                *body,
                scope,
            ),
        decreases *body,
    {
        let ghost db = *self.typedb;
        let n = body.children.len();
        let mut i: usize = 0;
        while i < n
            invariant
                n == body.children@.len(),
                i <= n,
                scopes_wf(self.map@),
                scopes_extend(old(self).map@, self.map@),
                scope < old(self).map@.len(),
                self.typedb == old(self).typedb,
                db == *old(self).typedb,
                built_children(
                    db,
                    old(self).map@,
                    old(self).class_parent,
                    self.map@,
                    self.class_parent,
                    *body,
                    i as int,
                    scope,
                ),
            decreases n - i,
        {
            let child = &body.children[i];
            let ghost sm = self.map@;
            let ghost cm = self.class_parent;
            proof {
                assert(is_child_of(body.children@[i as int], *body));
                lemma_child_decreases(body.children@[i as int], *body);
            }
            if child.is_kind("variable_statement") || child.is_kind("const_statement") {
                if let Some(name_node) = child.child_by_field("name") {
                    let value_node = child.child_by_field("value");
                    let type_node = child.child_by_field("type");
                    let mut static_typed = false;
                    let mut ttype: Option<SymbolType> = None;
                    if let Some(type_node) = type_node {
                        ttype = Some(SymbolType::from_str(type_node.text.as_str()));
                        static_typed = true;
                    } else if let Some(value_node) = value_node {
                        ttype = self.infer_type(scope, value_node);
                    }
                    let symbol = Symbol {
                        name: name_node.text.clone(),
                        byte: child.end_byte,
                        hint_position: point_to_position((name_node.end_row, name_node.end_col)),
                        static_typed,
                        ttype,
                    };
                    let ghost gsym = symbol;
                    self.push_symbol(scope, symbol);
                    proof {
                        assert(scope_pushed(sm, self.map@, scope, gsym));
                        assert(var_declared(db, sm, cm, self.map@, body.children@[i as int], scope));
                        lemma_child_built_declaration(
                            db,
                            sm,
                            cm,
                            self.map@,
                            body.children@[i as int],
                            scope,
                        );
                    }
                }
            } else if child.is_kind("function_definition") {
                if let Some(body_node) = child.child_by_field("body") {
                    let new_scope_id = self.insert_new_scope(body_node, scope);
                    let ghost so = self.map@;
                    if let Some(parameters) = child.child_by_field("parameters") {
                        let function_begins = body_node.start_byte;
                        let m = parameters.children.len();
                        let mut j: usize = 0;
                        while j < m
                            invariant
                                m == parameters.children@.len(),
                                j <= m,
                                scopes_wf(self.map@),
                                scopes_extend(old(self).map@, self.map@),
                                scope < old(self).map@.len(),
                                new_scope_id < self.map@.len(),
                                new_scope_id == sm.len(),
                                function_begins == body_node.start_byte,
                                self.typedb == old(self).typedb,
                                db == *old(self).typedb,
                                self.class_parent == cm,
                                params_seeded(
                                    so,
                                    self.map@,
                                    parameters.children@,
                                    j as int,
                                    new_scope_id,
                                    body_node.start_byte,
                                ),
                            decreases m - j,
                        {
                            let parameter = &parameters.children[j];
                            let ghost pm = self.map@;
                            if parameter.is_kind("typed_parameter") {
                                if let Some(name_node) = parameter.child(0) {
                                    let ttype = match parameter.child_by_field("type") {
                                        Some(type_node) => Some(
                                            SymbolType::from_str(type_node.text.as_str()),
                                        ),
                                        None => None,
                                    };
                                    let symbol = Symbol {
                                        name: name_node.text.clone(),
                                        byte: function_begins,
                                        hint_position: point_to_position(
                                            (name_node.end_row, name_node.end_col),
                                        ),
                                        static_typed: true,
                                        ttype,
                                    };
                                    let ghost gsym = symbol;
                                    self.push_symbol(new_scope_id, symbol);
                                    proof {
                                        assert(scope_pushed(pm, self.map@, new_scope_id, gsym));
                                        assert(param_seeded(
                                            pm,
                                            self.map@,
                                            parameters.children@[j as int],
                                            new_scope_id,
                                            body_node.start_byte,
                                        ));
                                    }
                                }
                            }
                            proof {
                                assert(param_seeded(
                                    pm,
                                    self.map@,
                                    parameters.children@[j as int],
                                    new_scope_id,
                                    body_node.start_byte,
                                ));
                                lemma_params_seeded_step(
                                    so,
                                    pm,
                                    self.map@,
                                    parameters.children@,
                                    j as int + 1,
                                    new_scope_id,
                                    body_node.start_byte,
                                );
                            }
                            j += 1;
                        }
                    }
                    let ghost ss = self.map@;
                    proof {
                        lemma_child_decreases(*body_node, body.children@[i as int]);
                    }
                    self.build_body(body_node, new_scope_id);
                    proof {
                        assert(scope_opened(sm, so, *body_node, scope));
                        assert(built_body(
                            db,
                            ss,
                            cm,
                            self.map@,
                            self.class_parent,
                            *body_node,
                            sm.len() as usize,
                        ));
                        lemma_child_built_function(
                            db,
                            sm,
                            cm,
                            self.map@,
                            self.class_parent,
                            body.children@[i as int],
                            scope,
                            so,
                            ss,
                            *body_node,
                        );
                    }
                }
            } else if child.is_kind("if_statement") {
                if let Some(body_node) = child.child_by_field("body") {
                    let branch_scope = self.insert_new_scope(body_node, scope);
                    let ghost so = self.map@;
                    proof {
                        lemma_child_decreases(*body_node, body.children@[i as int]);
                    }
                    self.build_body(body_node, branch_scope);
                    proof {
                        assert(scope_opened(sm, so, *body_node, scope));
                        assert(built_body(
                            db,
                            so,
                            cm,
                            self.map@,
                            self.class_parent,
                            *body_node,
                            sm.len() as usize,
                        ));
                    }
                }
                let ghost smid = self.map@;
                let ghost cmid = self.class_parent;
                let m = child.children.len();
                let mut j: usize = 0;
                while j < m
                    invariant
                        m == child.children@.len(),
                        j <= m,
                        scopes_wf(self.map@),
                        scopes_extend(old(self).map@, self.map@),
                        scope < old(self).map@.len(),
                        self.typedb == old(self).typedb,
                        db == *old(self).typedb,
                        decreases_to!(*body => *child),
                        alternatives_built(
                            db,
                            smid,
                            cmid,
                            self.map@,
                            self.class_parent,
                            *child,
                            j as int,
                            scope,
                        ),
                    decreases m - j,
                {
                    let alternative = &child.children[j];
                    let ghost am = self.map@;
                    let ghost acm = self.class_parent;
                    let is_alternative = match &alternative.field {
                        Some(f) => str_eq(f.as_str(), "alternative"),
                        None => false,
                    };
                    if is_alternative {
                        if let Some(body_node) = alternative.child_by_field("body") {
                            let branch_scope = self.insert_new_scope(body_node, scope);
                            let ghost ao = self.map@;
                            proof {
                                assert(is_child_of(child.children@[j as int], *child));
                                lemma_child_decreases(child.children@[j as int], *child);
                                lemma_child_decreases(*body_node, child.children@[j as int]);
                            }
                            self.build_body(body_node, branch_scope);
                            proof {
                                assert(scope_opened(am, ao, *body_node, scope));
                                assert(built_body(
                                    db,
                                    ao,
                                    acm,
                                    self.map@,
                                    self.class_parent,
                                    *body_node,
                                    am.len() as usize,
                                ));
                                lemma_alternative_built_body(
                                    db,
                                    am,
                                    acm,
                                    self.map@,
                                    self.class_parent,
                                    child.children@[j as int],
                                    scope,
                                    ao,
                                    *body_node,
                                );
                            }
                        }
                    }
                    proof {
                        assert(alternative_built(
                            db,
                            am,
                            acm,
                            self.map@,
                            self.class_parent,
                            child.children@[j as int],
                            scope,
                        ));
                        lemma_alternatives_built_step(
                            db,
                            smid,
                            cmid,
                            am,
                            acm,
                            self.map@,
                            self.class_parent,
                            *child,
                            j as int + 1,
                            scope,
                        );
                    }
                    j += 1;
                }
                proof {
                    lemma_child_built_if(
                        db,
                        sm,
                        cm,
                        smid,
                        cmid,
                        self.map@,
                        self.class_parent,
                        body.children@[i as int],
                        scope,
                    );
                }
            } else if child.is_kind("elif_clause") || child.is_kind("else_clause")
                || child.is_kind("for_statement") {
                if let Some(body_node) = child.child_by_field("body") {
                    let branch_scope = self.insert_new_scope(body_node, scope);
                    let ghost so = self.map@;
                    proof {
                        lemma_child_decreases(*body_node, body.children@[i as int]);
                    }
                    self.build_body(body_node, branch_scope);
                    proof {
                        assert(scope_opened(sm, so, *body_node, scope));
                        assert(built_body(
                            db,
                            so,
                            cm,
                            self.map@,
                            self.class_parent,
                            *body_node,
                            sm.len() as usize,
                        ));
                        lemma_child_built_branch(
                            db,
                            sm,
                            cm,
                            self.map@,
                            self.class_parent,
                            body.children@[i as int],
                            scope,
                            so,
                            *body_node,
                        );
                    }
                }
            } else if child.is_kind("extends_statement") {
                self.class_parent = match child.child(1) {
                    Some(type_node) => Some(SymbolType::from_str(type_node.text.as_str())),
                    None => None,
                };
            } else if child.is_kind("match_statement") {
                if let Some(match_body) = child.child_by_field("body") {
                    let m = match_body.children.len();
                    let mut j: usize = 0;
                    while j < m
                        invariant
                            m == match_body.children@.len(),
                            j <= m,
                            scopes_wf(self.map@),
                            scopes_extend(old(self).map@, self.map@),
                            scope < old(self).map@.len(),
                            self.typedb == old(self).typedb,
                            db == *old(self).typedb,
                            decreases_to!(*body => *match_body),
                            arms_built(
                                db,
                                sm,
                                cm,
                                self.map@,
                                self.class_parent,
                                *match_body,
                                j as int,
                                scope,
                            ),
                        decreases m - j,
                    {
                        let pattern_section = &match_body.children[j];
                        let ghost am = self.map@;
                        let ghost acm = self.class_parent;
                        if let Some(pattern_body) = pattern_section.child_by_field("body") {
                            let arm_scope = self.insert_new_scope(pattern_body, scope);
                            let ghost ao = self.map@;
                            proof {
                                assert(is_child_of(match_body.children@[j as int], *match_body));
                                lemma_child_decreases(match_body.children@[j as int], *match_body);
                                lemma_child_decreases(
                                    *pattern_body,
                                    match_body.children@[j as int],
                                );
                            }
                            self.build_body(pattern_body, arm_scope);
                            proof {
                                assert(scope_opened(am, ao, *pattern_body, scope));
                                assert(built_body(
                                    db,
                                    ao,
                                    acm,
                                    self.map@,
                                    self.class_parent,
                                    *pattern_body,
                                    am.len() as usize,
                                ));
                                lemma_arm_built_body(
                                    db,
                                    am,
                                    acm,
                                    self.map@,
                                    self.class_parent,
                                    match_body.children@[j as int],
                                    scope,
                                    ao,
                                    *pattern_body,
                                );
                            }
                        }
                        proof {
                            assert(arm_built(
                                db,
                                am,
                                acm,
                                self.map@,
                                self.class_parent,
                                match_body.children@[j as int],
                                scope,
                            ));
                            lemma_arms_built_step(
                                db,
                                sm,
                                cm,
                                am,
                                acm,
                                self.map@,
                                self.class_parent,
                                *match_body,
                                j as int + 1,
                                scope,
                            );
                        }
                        j += 1;
                    }
                    proof {
                        lemma_child_built_match(
                            db,
                            sm,
                            cm,
                            self.map@,
                            self.class_parent,
                            body.children@[i as int],
                            scope,
                            *match_body,
                        );
                    }
                }
            }
            proof {
                lemma_statement_kinds_distinct();
                assert(child_built(
                    db,
                    sm,
                    cm,
                    self.map@,
                    self.class_parent,
                    body.children@[i as int],
                    scope,
                ));
                lemma_built_children_step(
                    db,
                    old(self).map@,
                    old(self).class_parent,
                    sm,
                    cm,
                    self.map@,
                    self.class_parent,
                    *body,
                    i as int + 1,
                    scope,
                );
            }
            i += 1;
        }
    }

}

/// One symbol after the root-offset reset: everything kept but the
/// declaration offset, which is now the start of file.
pub open spec fn symbol_reset(a: Symbol, b: Symbol) -> bool {
    &&& b.name == a.name
    &&& b.hint_position == a.hint_position
    &&& b.static_typed == a.static_typed
    &&& b.ttype == a.ttype
    &&& b.byte == 0
}

/// The scope list after resetting the root scope's declaration offsets:
/// only the root's symbols change, and only their offsets.
pub open spec fn root_offsets_reset(s0: Seq<Scope>, s1: Seq<Scope>, root: int) -> bool {
    &&& 0 <= root < s0.len()
    &&& s1.len() == s0.len()
    &&& forall|j: int| 0 <= j < s0.len() && j != root ==> s1[j] == s0[j]
    &&& s1[root].id == s0[root].id
    &&& s1[root].parent == s0[root].parent
    &&& s1[root].start_byte == s0[root].start_byte
    &&& s1[root].end_byte == s0[root].end_byte
    &&& s1[root].vars@.len() == s0[root].vars@.len()
    &&& forall|k: int|
        0 <= k < s0[root].vars@.len() ==> symbol_reset(s0[root].vars@[k], s1[root].vars@[k])
}

impl<'a> SymbolTable<'a> {
    /// Builds the whole scope tree from the file root, then resets every
    /// root-scope declaration offset to the start of file, so that
    /// module-level declarations are visible everywhere regardless of
    /// textual order: a root scope is opened over the file, the file's
    /// statements are walked ([`built_body`]), and the root's offsets
    /// are reset ([`root_offsets_reset`]).
    pub fn build_table(&mut self, root: &SyntaxNode)
        requires
            scopes_wf(old(self).map@),
        ensures
            scopes_wf(final(self).map@),
            scopes_extend(old(self).map@, final(self).map@),
            final(self).map@.len() > old(self).map@.len(),
            final(self).map@[old(self).map@.len() as int].parent == NO_SCOPE,
            forall|k: int|
                0 <= k < final(self).map@[old(self).map@.len() as int].vars@.len() ==> final(
                    self
                ).map@[old(self).map@.len() as int].vars@[k].byte == 0,
            final(self).typedb == old(self).typedb,
            exists|so: Seq<Scope>, sb: Seq<Scope>|
                #![trigger scope_opened(old(self).map@, so, *root, NO_SCOPE), scopes_stage(sb)]
                scope_opened(old(self).map@, so, *root, NO_SCOPE) && scopes_stage(sb)
                    && built_body(
                    *old(self).typedb,
                    so,
                    old(self).class_parent,
                    sb,
                    final(self).class_parent,
                    *root,
                    old(self).map@.len() as usize,
                ) && root_offsets_reset(sb, final(self).map@, old(self).map@.len() as int),
    {
        let ghost db = *self.typedb;
        let new_scope_id = self.insert_new_scope(root, NO_SCOPE);
        let ghost so = self.map@;
        self.build_body(root, new_scope_id);
        let ghost sb = self.map@;
        let ghost cpb = self.class_parent;
        let m = self.map[new_scope_id].vars.len();
        let ghost entry_map = self.map@;
        let mut j: usize = 0;
        while j < m
            invariant
                new_scope_id < self.map@.len(),
                m == self.map@[new_scope_id as int].vars@.len(),
                j <= m,
                scopes_wf(self.map@),
                self.map@.len() == entry_map.len(),
                forall|i: int|
                    0 <= i < entry_map.len() && i != new_scope_id ==> self.map@[i] == entry_map[i],
                (#[trigger] self.map@[new_scope_id as int]).parent
                    == entry_map[new_scope_id as int].parent,
                self.map@[new_scope_id as int].id == entry_map[new_scope_id as int].id,
                self.map@[new_scope_id as int].start_byte
                    == entry_map[new_scope_id as int].start_byte,
                self.map@[new_scope_id as int].end_byte == entry_map[new_scope_id as int].end_byte,
                forall|k: int|
                    0 <= k < j ==> symbol_reset(
                        entry_map[new_scope_id as int].vars@[k],
                        self.map@[new_scope_id as int].vars@[k],
                    ),
                forall|k: int|
                    j <= k < m ==> self.map@[new_scope_id as int].vars@[k]
                        == entry_map[new_scope_id as int].vars@[k],
                self.typedb == old(self).typedb,
                self.class_parent == cpb,
                scopes_extend(old(self).map@, self.map@),
            decreases m - j,
        {
            let sc = &mut self.map[new_scope_id];
            let var = &mut sc.vars[j];
            var.byte = 0;
            proof {
                assert forall|ii: int|
                    0 <= ii < self.map@.len() implies (#[trigger] self.map@[ii]).id == ii && (
                self.map@[ii].parent == NO_SCOPE || self.map@[ii].parent < ii) by {
                    if ii != new_scope_id {
                        assert(self.map@[ii] == entry_map[ii]);
                    }
                }
            }
            j += 1;
        }
        proof {
            assert(scope_opened(old(self).map@, so, *root, NO_SCOPE));
            assert(scopes_stage(sb));
            assert(built_body(
                db,
                so,
                old(self).class_parent,
                sb,
                self.class_parent,
                *root,
                old(self).map@.len() as usize,
            ));
            assert(root_offsets_reset(sb, self.map@, old(self).map@.len() as int));
        }
    }
}

/// Shadowing: with a single declaration of `symbol` in the current
/// scope, a lookup positioned strictly before that declaration's end
/// offset passes it by and resolves through the enclosing scope (or,
/// at a root scope, through the declared base class); a lookup
/// positioned at or after it finds the inner declaration.
pub proof fn lemma_shadowing(
    db: TypeDatabase,
    scopes: Seq<Scope>,
    class_parent: Option<SymbolType>,
    scope: usize,
    symbol: Seq<char>,
    position: usize,
)
    requires
        scopes_wf(scopes),
        scope < scopes.len(),
        scope != NO_SCOPE,
        scopes[scope as int].vars@.len() == 1,
        scopes[scope as int].vars@[0].name@ == symbol,
    ensures
        position < scopes[scope as int].vars@[0].byte ==> spec_symbol_type(
            db,
            scopes,
            class_parent,
            scope,
            symbol,
            position,
        ) == (if scopes[scope as int].parent == NO_SCOPE {
            spec_class_parent_lookup(db, class_parent, symbol)
        } else {
            spec_symbol_type(
                db,
                scopes,
                class_parent,
                scopes[scope as int].parent,
                symbol,
                position,
            )
        }),
        position >= scopes[scope as int].vars@[0].byte ==> spec_symbol_type(
            db,
            scopes,
            class_parent,
            scope,
            symbol,
            position,
        ) == opt_symbol_view(scopes[scope as int].vars@[0].ttype),
{
    assert((scopes[scope as int]).id == scope as int);
    assert(scopes[scope as int].vars@.drop_first() =~= Seq::<Symbol>::empty());
    reveal_with_fuel(spec_scan_vars, 2);
}

/// Literal typing: integer, float, boolean and string literals have
/// their fixed variant kinds, whatever the table and catalog hold.
pub proof fn lemma_literal_typing(
    db: TypeDatabase,
    scopes: Seq<Scope>,
    class_parent: Option<SymbolType>,
    scope: usize,
    node: SyntaxNode,
    fuel: nat,
)
    ensures
        node.kind@ == "integer"@ ==> spec_infer(db, scopes, class_parent, scope, node, fuel)
            == Some(SymbolTypeView::Variant(VariantType::Int)),
        node.kind@ == "float"@ ==> spec_infer(db, scopes, class_parent, scope, node, fuel)
            == Some(SymbolTypeView::Variant(VariantType::Float)),
        node.kind@ == "false"@ || node.kind@ == "true"@ ==> spec_infer(
            db,
            scopes,
            class_parent,
            scope,
            node,
            fuel,
        ) == Some(SymbolTypeView::Variant(VariantType::Bool)),
        node.kind@ == "string"@ ==> spec_infer(db, scopes, class_parent, scope, node, fuel)
            == Some(SymbolTypeView::Variant(VariantType::String)),
{
    reveal_strlit("integer");
    reveal_strlit("float");
    reveal_strlit("false");
    reveal_strlit("true");
    reveal_strlit("string");
    assert("integer"@.len() == 7);
    assert("float"@.len() == 5);
    assert("false"@.len() == 5);
    assert("true"@.len() == 4);
    assert("string"@.len() == 6);
    assert("false"@[1] == 'a' && "float"@[1] == 'l');
}

/// Graceful degradation: an expression kind with no inference rule is
/// unresolved — never an error and never an arbitrary type.
pub proof fn lemma_unmodeled_unresolved(
    db: TypeDatabase,
    scopes: Seq<Scope>,
    class_parent: Option<SymbolType>,
    scope: usize,
    node: SyntaxNode,
    fuel: nat,
)
    requires
        node.kind@ != "integer"@,
        node.kind@ != "float"@,
        node.kind@ != "false"@,
        node.kind@ != "true"@,
        node.kind@ != "string"@,
        node.kind@ != "binary_operator"@,
        node.kind@ != "identifier"@,
        node.kind@ != "attribute"@,
        node.kind@ != "call"@,
        node.kind@ != "parenthesized_expression"@,
        node.kind@ != "unary_operator"@,
    ensures
        spec_infer(db, scopes, class_parent, scope, node, fuel) is None,
{
}

/// Generic passthrough: when a call does not name a constructible class,
/// its resolved return type is the generic object sentinel, and it has a
/// first argument, the call's type is that argument's inferred type.
pub proof fn lemma_generic_passthrough(
    db: TypeDatabase,
    scopes: Seq<Scope>,
    class_parent: Option<SymbolType>,
    scope: usize,
    node: SyntaxNode,
    fuel: nat,
    args: SyntaxNode,
)
    requires
        node.kind@ == "call"@,
        node.children@.len() >= 1,
        match db.spec_class(node.children@[0].text@) {
            Some(c) => c.constructor is None,
            None => true,
        },
        class_parent matches Some(p) && db.spec_callable_type(
            SymbolType::spec_to_string(p@),
            node.children@[0].text@,
        ) == Some(SymbolTypeView::Object("Variant"@)),
        spec_child_by_field(node, "arguments"@) == Some(args),
        args.children@.len() >= 2,
    ensures
        spec_infer(db, scopes, class_parent, scope, node, fuel) == spec_infer(
            db,
            scopes,
            class_parent,
            scope,
            args.children@[1],
            fuel,
        ),
{
    reveal_strlit("integer");
    reveal_strlit("float");
    reveal_strlit("false");
    reveal_strlit("true");
    reveal_strlit("string");
    reveal_strlit("binary_operator");
    reveal_strlit("identifier");
    reveal_strlit("attribute");
    reveal_strlit("call");
    assert("integer"@.len() == 7);
    assert("float"@.len() == 5);
    assert("false"@.len() == 5);
    assert("true"@.len() == 4);
    assert("string"@.len() == 6);
    assert("binary_operator"@.len() == 15);
    assert("identifier"@.len() == 10);
    assert("attribute"@.len() == 9);
    assert("call"@.len() == 4);
    assert("call"@[0] == 'c' && "true"@[0] == 't');
}

/// The type of a class constant, resolved lazily: look the stored
/// literal up, parse it as a standalone expression, and infer that
/// expression's type with no local scopes and no base class.
pub open spec fn spec_constant_type(
    db: TypeDatabase,
    class: Seq<char>,
    name: Seq<char>,
) -> Option<SymbolTypeView> {
    match db.spec_class(class) {
        None => None,
        Some(c) => match spec_find_constant(c.constants@, name) {
            None => None,
            Some(value) => match parsed_tree(value) {
                None => None,
                Some(root) => if root.children@.len() < 1 {
                    None
                } else if root.children@[0].children@.len() < 1 {
                    None
                } else {
                    spec_infer(
                        db,
                        Seq::<Scope>::empty(),
                        Option::<SymbolType>::None,
                        NO_SCOPE,
                        root.children@[0].children@[0],
                        INFER_FUEL as nat,
                    )
                },
            },
        },
    }
}

impl TypeDatabase {
    /// Resolves the type of `class`'s constant `const_name` by re-parsing
    /// its stored literal text; see [`spec_constant_type`].
    pub fn get_constant_type(&self, class: &str, const_name: &str) -> (r: Option<SymbolType>)
        ensures
            opt_symbol_view(r) == spec_constant_type(*self, class@, const_name@),
    {
        let class_info = match self.get_class(class) {
            Some(c) => c,
            None => {
                return None;
            },
        };
        let constant = match class_info.constant_value(const_name) {
            Some(v) => v,
            None => {
                return None;
            },
        };
        let parsed = match parse_file(constant.as_str()) {
            Some(p) => p,
            None => {
                return None;
            },
        };
        let expression_statement = match parsed.child(0) {
            Some(c) => c,
            None => {
                return None;
            },
        };
        let expression = match expression_statement.child(0) {
            Some(c) => c,
            None => {
                return None;
            },
        };
        let st = SymbolTable::new(self);
        st.infer_fueled(NO_SCOPE, expression, INFER_FUEL)
    }
}

} // verus!
