use vstd::prelude::*;

use crate::strings::str_eq;

verus! {

/// The fixed set of builtin primitive/value categories of the host
/// environment. The names under which these appear in the catalog's type
/// strings are given by [`VariantType::spec_name`].
#[allow(non_camel_case_types)]
#[derive(Debug, Clone, Copy, PartialEq, Eq, Structural)]
pub enum VariantType {
    Nil,
    Bool,
    Int,
    Float,
    String,
    Vector2,
    Vector2i,
    Rect2,
    Rect2i,
    Vector3,
    Vector3i,
    Transform2d,
    Vector4,
    Vector4i,
    Plane,
    Quaternion,
    Aabb,
    Basis,
    Transform3d,
    Projection,
    Color,
    String_name,
    Node_path,
    Rid,
    Object,
    Callable,
    Signal,
    Dictionary,
    Array,
    PackedByteArray,
    PackedInt32Array,
    PackedInt64Array,
    PackedFloat32Array,
    PackedFloat64Array,
    PackedStringArray,
    PackedVector2Array,
    PackedVector3Array,
    PackedColorArray,
    PackedVector4Array,
}

impl VariantType {
    /// The catalog name of this variant kind.
    pub open spec fn spec_name(self) -> Seq<char> {
        match self {
            VariantType::Nil => "void"@,
            VariantType::Bool => "bool"@,
            VariantType::Int => "int"@,
            VariantType::Float => "float"@,
            VariantType::String => "String"@,
            VariantType::Vector2 => "Vector2"@,
            VariantType::Vector2i => "Vector2i"@,
            VariantType::Rect2 => "Rect2"@,
            VariantType::Rect2i => "Rect2i"@,
            VariantType::Vector3 => "Vector3"@,
            VariantType::Vector3i => "Vector3i"@,
            VariantType::Transform2d => "Transform2d"@,
            VariantType::Vector4 => "Vector4"@,
            VariantType::Vector4i => "Vector4i"@,
            VariantType::Plane => "Plane"@,
            VariantType::Quaternion => "Quaternion"@,
            VariantType::Aabb => "Aabb"@,
            VariantType::Basis => "Basis"@,
            VariantType::Transform3d => "Transform3d"@,
            VariantType::Projection => "Projection"@,
            VariantType::Color => "Color"@,
            VariantType::String_name => "String_name"@,
            VariantType::Node_path => "Node_path"@,
            VariantType::Rid => "Rid"@,
            VariantType::Object => "Object"@,
            VariantType::Callable => "Callable"@,
            VariantType::Signal => "Signal"@,
            VariantType::Dictionary => "Dictionary"@,
            VariantType::Array => "Array"@,
            VariantType::PackedByteArray => "PackedByteArray"@,
            VariantType::PackedInt32Array => "PackedInt32Array"@,
            VariantType::PackedInt64Array => "PackedInt64Array"@,
            VariantType::PackedFloat32Array => "PackedFloat32Array"@,
            VariantType::PackedFloat64Array => "PackedFloat64Array"@,
            VariantType::PackedStringArray => "PackedStringArray"@,
            VariantType::PackedVector2Array => "PackedVector2Array"@,
            VariantType::PackedVector3Array => "PackedVector3Array"@,
            VariantType::PackedColorArray => "PackedColorArray"@,
            VariantType::PackedVector4Array => "PackedVector4Array"@,
        }
    }

    /// The variant kind whose catalog name is `s`, if any.
    pub open spec fn spec_from_name(s: Seq<char>) -> Option<VariantType> {
        if s == "void"@ {
            Some(VariantType::Nil)
        } else if s == "bool"@ {
            Some(VariantType::Bool)
        } else if s == "int"@ {
            Some(VariantType::Int)
        } else if s == "float"@ {
            Some(VariantType::Float)
        } else if s == "String"@ {
            Some(VariantType::String)
        } else if s == "Vector2"@ {
            Some(VariantType::Vector2)
        } else if s == "Vector2i"@ {
            Some(VariantType::Vector2i)
        } else if s == "Rect2"@ {
            Some(VariantType::Rect2)
        } else if s == "Rect2i"@ {
            Some(VariantType::Rect2i)
        } else if s == "Vector3"@ {
            Some(VariantType::Vector3)
        } else if s == "Vector3i"@ {
            Some(VariantType::Vector3i)
        } else if s == "Transform2d"@ {
            Some(VariantType::Transform2d)
        } else if s == "Vector4"@ {
            Some(VariantType::Vector4)
        } else if s == "Vector4i"@ {
            Some(VariantType::Vector4i)
        } else if s == "Plane"@ {
            Some(VariantType::Plane)
        } else if s == "Quaternion"@ {
            Some(VariantType::Quaternion)
        } else if s == "Aabb"@ {
            Some(VariantType::Aabb)
        } else if s == "Basis"@ {
            Some(VariantType::Basis)
        } else if s == "Transform3d"@ {
            Some(VariantType::Transform3d)
        } else if s == "Projection"@ {
            Some(VariantType::Projection)
        } else if s == "Color"@ {
            Some(VariantType::Color)
        } else if s == "String_name"@ {
            Some(VariantType::String_name)
        } else if s == "Node_path"@ {
            Some(VariantType::Node_path)
        } else if s == "Rid"@ {
            Some(VariantType::Rid)
        } else if s == "Object"@ {
            Some(VariantType::Object)
        } else if s == "Callable"@ {
            Some(VariantType::Callable)
        } else if s == "Signal"@ {
            Some(VariantType::Signal)
        } else if s == "Dictionary"@ {
            Some(VariantType::Dictionary)
        } else if s == "Array"@ {
            Some(VariantType::Array)
        } else if s == "PackedByteArray"@ {
            Some(VariantType::PackedByteArray)
        } else if s == "PackedInt32Array"@ {
            Some(VariantType::PackedInt32Array)
        } else if s == "PackedInt64Array"@ {
            Some(VariantType::PackedInt64Array)
        } else if s == "PackedFloat32Array"@ {
            Some(VariantType::PackedFloat32Array)
        } else if s == "PackedFloat64Array"@ {
            Some(VariantType::PackedFloat64Array)
        } else if s == "PackedStringArray"@ {
            Some(VariantType::PackedStringArray)
        } else if s == "PackedVector2Array"@ {
            Some(VariantType::PackedVector2Array)
        } else if s == "PackedVector3Array"@ {
            Some(VariantType::PackedVector3Array)
        } else if s == "PackedColorArray"@ {
            Some(VariantType::PackedColorArray)
        } else if s == "PackedVector4Array"@ {
            Some(VariantType::PackedVector4Array)
        } else {
            None
        }
    }

    /// Renders this variant kind as its catalog name.
    pub fn to_string(&self) -> (r: String)
        ensures
            r@ == self.spec_name(),
    {
        match self {
            VariantType::Nil => "void".to_owned(),
            VariantType::Bool => "bool".to_owned(),
            VariantType::Int => "int".to_owned(),
            VariantType::Float => "float".to_owned(),
            VariantType::String => "String".to_owned(),
            VariantType::Vector2 => "Vector2".to_owned(),
            VariantType::Vector2i => "Vector2i".to_owned(),
            VariantType::Rect2 => "Rect2".to_owned(),
            VariantType::Rect2i => "Rect2i".to_owned(),
            VariantType::Vector3 => "Vector3".to_owned(),
            VariantType::Vector3i => "Vector3i".to_owned(),
            VariantType::Transform2d => "Transform2d".to_owned(),
            VariantType::Vector4 => "Vector4".to_owned(),
            VariantType::Vector4i => "Vector4i".to_owned(),
            VariantType::Plane => "Plane".to_owned(),
            VariantType::Quaternion => "Quaternion".to_owned(),
            VariantType::Aabb => "Aabb".to_owned(),
            VariantType::Basis => "Basis".to_owned(),
            VariantType::Transform3d => "Transform3d".to_owned(),
            VariantType::Projection => "Projection".to_owned(),
            VariantType::Color => "Color".to_owned(),
            VariantType::String_name => "String_name".to_owned(),
            VariantType::Node_path => "Node_path".to_owned(),
            VariantType::Rid => "Rid".to_owned(),
            VariantType::Object => "Object".to_owned(),
            VariantType::Callable => "Callable".to_owned(),
            VariantType::Signal => "Signal".to_owned(),
            VariantType::Dictionary => "Dictionary".to_owned(),
            VariantType::Array => "Array".to_owned(),
            VariantType::PackedByteArray => "PackedByteArray".to_owned(),
            VariantType::PackedInt32Array => "PackedInt32Array".to_owned(),
            VariantType::PackedInt64Array => "PackedInt64Array".to_owned(),
            VariantType::PackedFloat32Array => "PackedFloat32Array".to_owned(),
            VariantType::PackedFloat64Array => "PackedFloat64Array".to_owned(),
            VariantType::PackedStringArray => "PackedStringArray".to_owned(),
            VariantType::PackedVector2Array => "PackedVector2Array".to_owned(),
            VariantType::PackedVector3Array => "PackedVector3Array".to_owned(),
            VariantType::PackedColorArray => "PackedColorArray".to_owned(),
            VariantType::PackedVector4Array => "PackedVector4Array".to_owned(),
        }
    }

    /// Parses a catalog name into a variant kind.
    pub fn from_str(s: &str) -> (r: Option<VariantType>)
        ensures
            r == Self::spec_from_name(s@),
    {
        if str_eq(s, "void") {
            Some(VariantType::Nil)
        } else if str_eq(s, "bool") {
            Some(VariantType::Bool)
        } else if str_eq(s, "int") {
            Some(VariantType::Int)
        } else if str_eq(s, "float") {
            Some(VariantType::Float)
        } else if str_eq(s, "String") {
            Some(VariantType::String)
        } else if str_eq(s, "Vector2") {
            Some(VariantType::Vector2)
        } else if str_eq(s, "Vector2i") {
            Some(VariantType::Vector2i)
        } else if str_eq(s, "Rect2") {
            Some(VariantType::Rect2)
        } else if str_eq(s, "Rect2i") {
            Some(VariantType::Rect2i)
        } else if str_eq(s, "Vector3") {
            Some(VariantType::Vector3)
        } else if str_eq(s, "Vector3i") {
            Some(VariantType::Vector3i)
        } else if str_eq(s, "Transform2d") {
            Some(VariantType::Transform2d)
        } else if str_eq(s, "Vector4") {
            Some(VariantType::Vector4)
        } else if str_eq(s, "Vector4i") {
            Some(VariantType::Vector4i)
        } else if str_eq(s, "Plane") {
            Some(VariantType::Plane)
        } else if str_eq(s, "Quaternion") {
            Some(VariantType::Quaternion)
        } else if str_eq(s, "Aabb") {
            Some(VariantType::Aabb)
        } else if str_eq(s, "Basis") {
            Some(VariantType::Basis)
        } else if str_eq(s, "Transform3d") {
            Some(VariantType::Transform3d)
        } else if str_eq(s, "Projection") {
            Some(VariantType::Projection)
        } else if str_eq(s, "Color") {
            Some(VariantType::Color)
        } else if str_eq(s, "String_name") {
            Some(VariantType::String_name)
        } else if str_eq(s, "Node_path") {
            Some(VariantType::Node_path)
        } else if str_eq(s, "Rid") {
            Some(VariantType::Rid)
        } else if str_eq(s, "Object") {
            Some(VariantType::Object)
        } else if str_eq(s, "Callable") {
            Some(VariantType::Callable)
        } else if str_eq(s, "Signal") {
            Some(VariantType::Signal)
        } else if str_eq(s, "Dictionary") {
            Some(VariantType::Dictionary)
        } else if str_eq(s, "Array") {
            Some(VariantType::Array)
        } else if str_eq(s, "PackedByteArray") {
            Some(VariantType::PackedByteArray)
        } else if str_eq(s, "PackedInt32Array") {
            Some(VariantType::PackedInt32Array)
        } else if str_eq(s, "PackedInt64Array") {
            Some(VariantType::PackedInt64Array)
        } else if str_eq(s, "PackedFloat32Array") {
            Some(VariantType::PackedFloat32Array)
        } else if str_eq(s, "PackedFloat64Array") {
            Some(VariantType::PackedFloat64Array)
        } else if str_eq(s, "PackedStringArray") {
            Some(VariantType::PackedStringArray)
        } else if str_eq(s, "PackedVector2Array") {
            Some(VariantType::PackedVector2Array)
        } else if str_eq(s, "PackedVector3Array") {
            Some(VariantType::PackedVector3Array)
        } else if str_eq(s, "PackedColorArray") {
            Some(VariantType::PackedColorArray)
        } else if str_eq(s, "PackedVector4Array") {
            Some(VariantType::PackedVector4Array)
        } else {
            None
        }
    }
}

/// The mathematical shape of a [`SymbolType`]: the same four cases, with
/// class names as character sequences.
pub enum SymbolTypeView {
    Variant(VariantType),
    Array(VariantType),
    Object(Seq<char>),
    ObjectArray(Seq<char>),
}

/// The static type of a symbol or expression: a builtin value kind, a
/// homogeneous array of such a kind, a class instance, or an array of class
/// instances.
#[derive(Debug)]
pub enum SymbolType {
    Variant(VariantType),
    Array(VariantType),
    Object(String),
    ObjectArray(String),
}

impl View for SymbolType {
    type V = SymbolTypeView;

    open spec fn view(&self) -> SymbolTypeView {
        match self {
            SymbolType::Variant(v) => SymbolTypeView::Variant(*v),
            SymbolType::Array(v) => SymbolTypeView::Array(*v),
            SymbolType::Object(name) => SymbolTypeView::Object(name@),
            SymbolType::ObjectArray(name) => SymbolTypeView::ObjectArray(name@),
        }
    }
}

impl Clone for SymbolType {
    fn clone(&self) -> (r: Self)
        ensures
            r == *self,
    {
        match self {
            SymbolType::Variant(v) => SymbolType::Variant(*v),
            SymbolType::Array(v) => SymbolType::Array(*v),
            SymbolType::Object(name) => SymbolType::Object(name.clone()),
            SymbolType::ObjectArray(name) => SymbolType::ObjectArray(name.clone()),
        }
    }
}

impl PartialEq for SymbolType {
    fn eq(&self, other: &Self) -> (r: bool) {
        match (self, other) {
            (SymbolType::Variant(a), SymbolType::Variant(b)) => *a == *b,
            (SymbolType::Array(a), SymbolType::Array(b)) => *a == *b,
            (SymbolType::Object(a), SymbolType::Object(b)) => *a == *b,
            (SymbolType::ObjectArray(a), SymbolType::ObjectArray(b)) => *a == *b,
            _ => false,
        }
    }
}

impl vstd::std_specs::cmp::PartialEqSpecImpl for SymbolType {
    open spec fn obeys_eq_spec() -> bool {
        true
    }

    open spec fn eq_spec(&self, other: &SymbolType) -> bool {
        self@ == other@
    }
}

impl SymbolType {
    /// The string rendering of a type: the bare variant or class name, with
    /// a trailing array marker for the two array cases. This string is also
    /// the key under which the catalog lists the type's class.
    pub open spec fn spec_to_string(v: SymbolTypeView) -> Seq<char> {
        match v {
            SymbolTypeView::Variant(k) => k.spec_name(),
            SymbolTypeView::Array(k) => k.spec_name() + "[]"@,
            SymbolTypeView::Object(name) => name,
            SymbolTypeView::ObjectArray(name) => name + "[]"@,
        }
    }

    /// The type denoted by a catalog type string: an array form when the
    /// string carries the array marker, a recognized variant kind by its
    /// name, and otherwise a class by that name. Total: unrecognized names
    /// become classes.
    pub open spec fn spec_from_string(s: Seq<char>) -> SymbolTypeView {
        if s.len() >= 2 && s[s.len() - 2] == '[' && s[s.len() - 1] == ']' {
            let element = s.subrange(0, s.len() - 2);
            match VariantType::spec_from_name(element) {
                Some(v) => SymbolTypeView::Array(v),
                None => SymbolTypeView::ObjectArray(element),
            }
        } else {
            match VariantType::spec_from_name(s) {
                Some(v) => SymbolTypeView::Variant(v),
                None => SymbolTypeView::Object(s),
            }
        }
    }

    /// Renders the type as the catalog's string form.
    pub fn to_string(&self) -> (r: String)
        ensures
            r@ == Self::spec_to_string(self@),
    {
        match self {
            SymbolType::Variant(k) => k.to_string(),
            SymbolType::Array(k) => k.to_string().concat("[]"),
            SymbolType::Object(name) => name.clone(),
            SymbolType::ObjectArray(name) => name.clone().concat("[]"),
        }
    }

    /// Parses a catalog type string. Never fails: see [`Self::spec_from_string`].
    pub fn from_str(s: &str) -> (r: SymbolType)
        ensures
            r@ == Self::spec_from_string(s@),
    {
        let n = s.unicode_len();
        if n >= 2 && s.get_char(n - 2) == '[' && s.get_char(n - 1) == ']' {
            let element = s.substring_char(0, n - 2);
            match VariantType::from_str(element) {
                Some(v) => SymbolType::Array(v),
                None => SymbolType::ObjectArray(String::from_str(element)),
            }
        } else {
            match VariantType::from_str(s) {
                Some(v) => SymbolType::Variant(v),
                None => SymbolType::Object(String::from_str(s)),
            }
        }
    }
}

/// One method of a catalog class, reduced to what inference consumes: the
/// name and the declared return type.
#[derive(Debug)]
pub struct MethodInfo {
    pub name: String,
    pub return_type: SymbolType,
}

/// One property of a catalog class.
#[derive(Debug)]
pub struct PropertyInfo {
    pub name: String,
    pub ttype: SymbolType,
}

/// One class constant: its type is not pre-computed; the literal source
/// text is kept and parsed on demand.
#[derive(Debug)]
pub struct Constant {
    pub name: String,
    pub value: String,
}

/// The return type of a class's first constructor.
#[derive(Debug)]
pub struct Constructor {
    pub return_type: SymbolType,
}

/// One row of a class's binary operator table: applying `token` to a left
/// operand of this class and a right operand of type `right` yields `result`.
#[derive(Debug)]
pub struct BinaryOperator {
    pub token: String,
    pub right: SymbolType,
    pub result: SymbolType,
}

/// One row of a class's unary operator table.
#[derive(Debug)]
pub struct UnaryOperator {
    pub token: String,
    pub result: SymbolType,
}

/// Everything the catalog knows about one class.
#[derive(Debug)]
pub struct ClassInfo {
    pub name: String,
    pub parent: Option<String>,
    pub methods: Vec<MethodInfo>,
    pub properties: Vec<PropertyInfo>,
    pub constructor: Option<Constructor>,
    pub constants: Vec<Constant>,
    pub binary_operators: Vec<BinaryOperator>,
    pub unary_operators: Vec<UnaryOperator>,
}

/// The builtin class knowledge base: loaded once at startup, read-only
/// afterwards. Class lookup is by name; the first entry with a given name
/// wins.
#[derive(Debug)]
pub struct TypeDatabase {
    pub classes: Vec<ClassInfo>,
}

/// The name of the distinguished catalog entry holding receiver-less
/// builtin functions.
pub open spec fn global_scope_name() -> Seq<char> {
    "@GlobalScope"@
}

/// Lifts an optional borrowed type to its view.
pub open spec fn opt_type_view(r: Option<&SymbolType>) -> Option<SymbolTypeView> {
    match r {
        Some(t) => Some(t@),
        None => None,
    }
}

/// First method with the given name, if any.
pub open spec fn spec_find_method(methods: Seq<MethodInfo>, name: Seq<char>) -> Option<
    SymbolTypeView,
>
    decreases methods.len(),
{
    if methods.len() == 0 {
        None
    } else if methods[0].name@ == name {
        Some(methods[0].return_type@)
    } else {
        spec_find_method(methods.drop_first(), name)
    }
}

/// First property with the given name, if any.
pub open spec fn spec_find_property(properties: Seq<PropertyInfo>, name: Seq<char>) -> Option<
    SymbolTypeView,
>
    decreases properties.len(),
{
    if properties.len() == 0 {
        None
    } else if properties[0].name@ == name {
        Some(properties[0].ttype@)
    } else {
        spec_find_property(properties.drop_first(), name)
    }
}

/// First constant with the given name; yields the stored literal text.
pub open spec fn spec_find_constant(constants: Seq<Constant>, name: Seq<char>) -> Option<
    Seq<char>,
>
    decreases constants.len(),
{
    if constants.len() == 0 {
        None
    } else if constants[0].name@ == name {
        Some(constants[0].value@)
    } else {
        spec_find_constant(constants.drop_first(), name)
    }
}

/// First binary operator row matching the token and the right operand type.
pub open spec fn spec_find_binary_operator(
    rows: Seq<BinaryOperator>,
    token: Seq<char>,
    right: SymbolTypeView,
) -> Option<SymbolTypeView>
    decreases rows.len(),
{
    if rows.len() == 0 {
        None
    } else if rows[0].token@ == token && rows[0].right@ == right {
        Some(rows[0].result@)
    } else {
        spec_find_binary_operator(rows.drop_first(), token, right)
    }
}

/// First unary operator row matching the token.
pub open spec fn spec_find_unary_operator(rows: Seq<UnaryOperator>, token: Seq<char>) -> Option<
    SymbolTypeView,
>
    decreases rows.len(),
{
    if rows.len() == 0 {
        None
    } else if rows[0].token@ == token {
        Some(rows[0].result@)
    } else {
        spec_find_unary_operator(rows.drop_first(), token)
    }
}

/// First class with the given name, if any.
pub open spec fn spec_find_class(classes: Seq<ClassInfo>, name: Seq<char>) -> Option<ClassInfo>
    decreases classes.len(),
{
    if classes.len() == 0 {
        None
    } else if classes[0].name@ == name {
        Some(classes[0])
    } else {
        spec_find_class(classes.drop_first(), name)
    }
}

impl TypeDatabase {
    /// Enough fuel to walk any acyclic inheritance chain: the fuel counts
    /// parent edges, and a chain with as many edges as the catalog has
    /// classes must repeat one.
    pub open spec fn lookup_fuel(&self) -> nat {
        self.classes@.len()
    }

    pub open spec fn spec_class(&self, name: Seq<char>) -> Option<ClassInfo> {
        spec_find_class(self.classes@, name)
    }

    /// The type of `symbol` as a property of `class`, walking the
    /// inheritance chain upwards; `None` once the chain ends or the fuel
    /// runs out (which, with [`Self::lookup_fuel`], only a cyclic parent
    /// relation can cause).
    pub open spec fn spec_property_type(
        &self,
        class: Seq<char>,
        symbol: Seq<char>,
        fuel: nat,
    ) -> Option<SymbolTypeView>
        decreases fuel,
    {
        match self.spec_class(class) {
            None => None,
            Some(c) => match spec_find_property(c.properties@, symbol) {
                Some(t) => Some(t),
                None => match c.parent {
                    Some(p) => if fuel == 0 {
                        None
                    } else {
                        self.spec_property_type(p@, symbol, (fuel - 1) as nat)
                    },
                    None => None,
                },
            },
        }
    }

    /// The return type of `callable` as a method of `class` or an ancestor.
    pub open spec fn spec_method_chain_type(
        &self,
        class: Seq<char>,
        callable: Seq<char>,
        fuel: nat,
    ) -> Option<SymbolTypeView>
        decreases fuel,
    {
        match self.spec_class(class) {
            None => None,
            Some(c) => match spec_find_method(c.methods@, callable) {
                Some(t) => Some(t),
                None => match c.parent {
                    Some(p) => if fuel == 0 {
                        None
                    } else {
                        self.spec_method_chain_type(p@, callable, (fuel - 1) as nat)
                    },
                    None => None,
                },
            },
        }
    }

    /// Method lookup with the global-scope fallback: when the inheritance
    /// chain is exhausted, retry once against the global-scope pseudo-class,
    /// unless the query already started there.
    pub open spec fn spec_callable_type(&self, class: Seq<char>, callable: Seq<char>) -> Option<
        SymbolTypeView,
    > {
        match self.spec_method_chain_type(class, callable, self.lookup_fuel()) {
            Some(t) => Some(t),
            None => if class != global_scope_name() {
                self.spec_method_chain_type(global_scope_name(), callable, self.lookup_fuel())
            } else {
                None
            },
        }
    }

    /// The result type of `left token right`, read from the operator table
    /// of the class the left type string names.
    pub open spec fn spec_binary_operator_type(
        &self,
        left: Seq<char>,
        token: Seq<char>,
        right: SymbolTypeView,
    ) -> Option<SymbolTypeView> {
        match self.spec_class(left) {
            None => None,
            Some(c) => spec_find_binary_operator(c.binary_operators@, token, right),
        }
    }

    /// The result type of `token operand`, read from the operator table of
    /// the class the operand type string names.
    pub open spec fn spec_unary_operator_type(
        &self,
        operand: Seq<char>,
        token: Seq<char>,
    ) -> Option<SymbolTypeView> {
        match self.spec_class(operand) {
            None => None,
            Some(c) => spec_find_unary_operator(c.unary_operators@, token),
        }
    }

    /// Looks a class up by name.
    pub fn get_class(&self, name: &str) -> (r: Option<&ClassInfo>)
        ensures
            match r {
                Some(c) => self.spec_class(name@) == Some(*c),
                None => self.spec_class(name@) is None,
            },
    {
        let n = self.classes.len();
        proof {
            assert(self.classes@.skip(0) =~= self.classes@);
        }
        let mut i: usize = 0;
        while i < n
            invariant
                i <= n,
                n == self.classes.len(),
                spec_find_class(self.classes@, name@) == spec_find_class(
                    self.classes@.skip(i as int),
                    name@,
                ),
            decreases n - i,
        {
            proof {
                assert(self.classes@.skip(i as int)[0] == self.classes@[i as int]);
            }
            if str_eq(self.classes[i].name.as_str(), name) {
                return Some(&self.classes[i]);
            }
            proof {
                assert(self.classes@.skip(i as int).drop_first() =~= self.classes@.skip(
                    i as int + 1,
                ));
            }
            i += 1;
        }
        proof {
            assert(self.classes@.skip(n as int) =~= Seq::<ClassInfo>::empty());
        }
        None
    }

    fn property_type_fueled<'a>(&'a self, class: &str, symbol: &str, fuel: usize) -> (r: Option<
        &'a SymbolType,
    >)
        ensures
            opt_type_view(r) == self.spec_property_type(class@, symbol@, fuel as nat),
        decreases fuel,
    {
        match self.get_class(class) {
            None => None,
            Some(c) => match find_property(&c.properties, symbol) {
                Some(t) => Some(t),
                None => match &c.parent {
                    Some(p) => if fuel == 0 {
                        None
                    } else {
                        self.property_type_fueled(p.as_str(), symbol, fuel - 1)
                    },
                    None => None,
                },
            },
        }
    }

    /// The type of `symbol` as a property of `class` or of an ancestor:
    /// the class's own properties first, else the parent chain.
    pub fn get_symbol_type<'a>(&'a self, class: &str, symbol: &str) -> (r: Option<&'a SymbolType>)
        ensures
            opt_type_view(r) == self.spec_property_type(class@, symbol@, self.lookup_fuel()),
    {
        self.property_type_fueled(class, symbol, self.classes.len())
    }

    fn method_chain_type_fueled<'a>(&'a self, class: &str, callable: &str, fuel: usize) -> (r:
        Option<&'a SymbolType>)
        ensures
            opt_type_view(r) == self.spec_method_chain_type(class@, callable@, fuel as nat),
        decreases fuel,
    {
        match self.get_class(class) {
            None => None,
            Some(c) => match find_method(&c.methods, callable) {
                Some(t) => Some(t),
                None => match &c.parent {
                    Some(p) => if fuel == 0 {
                        None
                    } else {
                        self.method_chain_type_fueled(p.as_str(), callable, fuel - 1)
                    },
                    None => None,
                },
            },
        }
    }

    /// The return type of `callable` in `class`, its ancestors, or, failing
    /// those, the global-scope pseudo-class (unless `class` already is it,
    /// which would make the retry pointless).
    pub fn get_callable_type<'a>(&'a self, class: &str, callable: &str) -> (r: Option<
        &'a SymbolType,
    >)
        ensures
            opt_type_view(r) == self.spec_callable_type(class@, callable@),
    {
        let fuel = self.classes.len();
        let direct = self.method_chain_type_fueled(class, callable, fuel);
        if direct.is_some() {
            return direct;
        }
        if !str_eq(class, "@GlobalScope") {
            self.method_chain_type_fueled("@GlobalScope", callable, fuel)
        } else {
            None
        }
    }

    /// The stored literal text of a constant of `class` (own constants
    /// only; constants are not inherited).
    pub fn get_constant_value<'a>(&'a self, class: &str, const_name: &str) -> (r: Option<
        &'a String,
    >)
        ensures
            match r {
                Some(v) => match self.spec_class(class@) {
                    Some(c) => spec_find_constant(c.constants@, const_name@) == Some(v@),
                    None => false,
                },
                None => match self.spec_class(class@) {
                    Some(c) => spec_find_constant(c.constants@, const_name@) is None,
                    None => true,
                },
            },
    {
        match self.get_class(class) {
            None => None,
            Some(c) => find_constant(&c.constants, const_name),
        }
    }

    /// The result type of a binary operator application, from the operator
    /// table of the left operand's class.
    pub fn get_binary_operator_type<'a>(
        &'a self,
        left_type: &str,
        op: &str,
        right: &SymbolType,
    ) -> (r: Option<&'a SymbolType>)
        ensures
            opt_type_view(r) == self.spec_binary_operator_type(left_type@, op@, right@),
    {
        match self.get_class(left_type) {
            None => None,
            Some(c) => find_binary_operator(&c.binary_operators, op, right),
        }
    }

    /// The result type of a unary operator application, from the operator
    /// table of the operand's class.
    pub fn get_unary_operator_type<'a>(&'a self, operand_type: &str, op: &str) -> (r: Option<
        &'a SymbolType,
    >)
        ensures
            opt_type_view(r) == self.spec_unary_operator_type(operand_type@, op@),
    {
        match self.get_class(operand_type) {
            None => None,
            Some(c) => find_unary_operator(&c.unary_operators, op),
        }
    }
}

impl ClassInfo {
    /// This class's own property of the given name (no inheritance walk).
    pub fn property_type(&self, name: &str) -> (r: Option<&SymbolType>)
        ensures
            opt_type_view(r) == spec_find_property(self.properties@, name@),
    {
        find_property(&self.properties, name)
    }

    /// This class's own method of the given name (no inheritance walk).
    pub fn method_return_type(&self, name: &str) -> (r: Option<&SymbolType>)
        ensures
            opt_type_view(r) == spec_find_method(self.methods@, name@),
    {
        find_method(&self.methods, name)
    }

    /// The stored literal text of this class's own constant.
    pub fn constant_value(&self, name: &str) -> (r: Option<&String>)
        ensures
            match r {
                Some(v) => spec_find_constant(self.constants@, name@) == Some(v@),
                None => spec_find_constant(self.constants@, name@) is None,
            },
    {
        find_constant(&self.constants, name)
    }
}

fn find_property<'a>(properties: &'a Vec<PropertyInfo>, name: &str) -> (r: Option<&'a SymbolType>)
    ensures
        opt_type_view(r) == spec_find_property(properties@, name@),
{
    let n = properties.len();
    proof {
        assert(properties@.skip(0) =~= properties@);
    }
    let mut i: usize = 0;
    while i < n
        invariant
            i <= n,
            n == properties.len(),
            spec_find_property(properties@, name@) == spec_find_property(
                properties@.skip(i as int),
                name@,
            ),
        decreases n - i,
    {
        proof {
            assert(properties@.skip(i as int)[0] == properties@[i as int]);
        }
        if str_eq(properties[i].name.as_str(), name) {
            return Some(&properties[i].ttype);
        }
        proof {
            assert(properties@.skip(i as int).drop_first() =~= properties@.skip(i as int + 1));
        }
        i += 1;
    }
    proof {
        assert(properties@.skip(n as int) =~= Seq::<PropertyInfo>::empty());
    }
    None
}

fn find_method<'a>(methods: &'a Vec<MethodInfo>, name: &str) -> (r: Option<&'a SymbolType>)
    ensures
        opt_type_view(r) == spec_find_method(methods@, name@),
{
    let n = methods.len();
    proof {
        assert(methods@.skip(0) =~= methods@);
    }
    let mut i: usize = 0;
    while i < n
        invariant
            i <= n,
            n == methods.len(),
            spec_find_method(methods@, name@) == spec_find_method(methods@.skip(i as int), name@),
        decreases n - i,
    {
        proof {
            assert(methods@.skip(i as int)[0] == methods@[i as int]);
        }
        if str_eq(methods[i].name.as_str(), name) {
            return Some(&methods[i].return_type);
        }
        proof {
            assert(methods@.skip(i as int).drop_first() =~= methods@.skip(i as int + 1));
        }
        i += 1;
    }
    proof {
        assert(methods@.skip(n as int) =~= Seq::<MethodInfo>::empty());
    }
    None
}

fn find_constant<'a>(constants: &'a Vec<Constant>, name: &str) -> (r: Option<&'a String>)
    ensures
        match r {
            Some(v) => spec_find_constant(constants@, name@) == Some(v@),
            None => spec_find_constant(constants@, name@) is None,
        },
{
    let n = constants.len();
    proof {
        assert(constants@.skip(0) =~= constants@);
    }
    let mut i: usize = 0;
    while i < n
        invariant
            i <= n,
            n == constants.len(),
            spec_find_constant(constants@, name@) == spec_find_constant(
                constants@.skip(i as int),
                name@,
            ),
        decreases n - i,
    {
        proof {
            assert(constants@.skip(i as int)[0] == constants@[i as int]);
        }
        if str_eq(constants[i].name.as_str(), name) {
            return Some(&constants[i].value);
        }
        proof {
            assert(constants@.skip(i as int).drop_first() =~= constants@.skip(i as int + 1));
        }
        i += 1;
    }
    proof {
        assert(constants@.skip(n as int) =~= Seq::<Constant>::empty());
    }
    None
}

fn find_binary_operator<'a>(rows: &'a Vec<BinaryOperator>, token: &str, right: &SymbolType) -> (r:
    Option<&'a SymbolType>)
    ensures
        opt_type_view(r) == spec_find_binary_operator(rows@, token@, right@),
{
    let n = rows.len();
    proof {
        assert(rows@.skip(0) =~= rows@);
    }
    let mut i: usize = 0;
    while i < n
        invariant
            i <= n,
            n == rows.len(),
            spec_find_binary_operator(rows@, token@, right@) == spec_find_binary_operator(
                rows@.skip(i as int),
                token@,
                right@,
            ),
        decreases n - i,
    {
        proof {
            assert(rows@.skip(i as int)[0] == rows@[i as int]);
        }
        if str_eq(rows[i].token.as_str(), token) && rows[i].right == *right {
            return Some(&rows[i].result);
        }
        proof {
            assert(rows@.skip(i as int).drop_first() =~= rows@.skip(i as int + 1));
        }
        i += 1;
    }
    proof {
        assert(rows@.skip(n as int) =~= Seq::<BinaryOperator>::empty());
    }
    None
}

fn find_unary_operator<'a>(rows: &'a Vec<UnaryOperator>, token: &str) -> (r: Option<
    &'a SymbolType,
>)
    ensures
        opt_type_view(r) == spec_find_unary_operator(rows@, token@),
{
    let n = rows.len();
    proof {
        assert(rows@.skip(0) =~= rows@);
    }
    let mut i: usize = 0;
    while i < n
        invariant
            i <= n,
            n == rows.len(),
            spec_find_unary_operator(rows@, token@) == spec_find_unary_operator(
                rows@.skip(i as int),
                token@,
            ),
        decreases n - i,
    {
        proof {
            assert(rows@.skip(i as int)[0] == rows@[i as int]);
        }
        if str_eq(rows[i].token.as_str(), token) {
            return Some(&rows[i].result);
        }
        proof {
            assert(rows@.skip(i as int).drop_first() =~= rows@.skip(i as int + 1));
        }
        i += 1;
    }
    proof {
        assert(rows@.skip(n as int) =~= Seq::<UnaryOperator>::empty());
    }
    None
}

/// Inheritance fallback, ground case: a property the class itself
/// declares is found there, whatever fuel remains.
pub proof fn lemma_property_on_class(
    db: TypeDatabase,
    class: Seq<char>,
    symbol: Seq<char>,
    fuel: nat,
)
    requires
        db.spec_class(class) matches Some(c) && spec_find_property(c.properties@, symbol)
            is Some,
    ensures
        db.spec_property_type(class, symbol, fuel) == spec_find_property(
            db.spec_class(class)->Some_0.properties@,
            symbol,
        ),
{
}

/// Inheritance fallback, step case: a property the class does not
/// declare itself is sought on its parent, one fuel unit down; so a
/// property declared on any ancestor within reach resolves.
pub proof fn lemma_property_from_parent(
    db: TypeDatabase,
    class: Seq<char>,
    symbol: Seq<char>,
    fuel: nat,
)
    requires
        fuel > 0,
        db.spec_class(class) matches Some(c) && spec_find_property(c.properties@, symbol) is None
            && c.parent is Some,
    ensures
        db.spec_property_type(class, symbol, fuel) == db.spec_property_type(
            db.spec_class(class)->Some_0.parent->Some_0@,
            symbol,
            (fuel - 1) as nat,
        ),
{
}

/// One named member of a class description, with its type (for a method:
/// its return type) still in the catalog's string form.
#[derive(Debug)]
pub struct MemberEntry {
    pub name: String,
    pub ttype: String,
}

/// One named constant of a class description, with its literal source text.
#[derive(Debug)]
pub struct ConstantEntry {
    pub name: String,
    pub value: String,
}

/// One binary operator row of a class description, types in string form.
#[derive(Debug)]
pub struct BinaryOperatorEntry {
    pub token: String,
    pub right: String,
    pub result: String,
}

/// One unary operator row of a class description, type in string form.
#[derive(Debug)]
pub struct UnaryOperatorEntry {
    pub token: String,
    pub result: String,
}

/// The description of one class as the catalog asset delivers it: all
/// types still strings, constructors still a list.
#[derive(Debug)]
pub struct ClassEntry {
    pub name: String,
    pub parent: Option<String>,
    pub methods: Vec<MemberEntry>,
    pub properties: Vec<MemberEntry>,
    pub constructors: Vec<MemberEntry>,
    pub constants: Vec<ConstantEntry>,
    pub binary_operators: Vec<BinaryOperatorEntry>,
    pub unary_operators: Vec<UnaryOperatorEntry>,
}

pub open spec fn method_built_from(m: MethodInfo, e: MemberEntry) -> bool {
    m.name@ == e.name@ && m.return_type@ == SymbolType::spec_from_string(e.ttype@)
}

pub open spec fn property_built_from(p: PropertyInfo, e: MemberEntry) -> bool {
    p.name@ == e.name@ && p.ttype@ == SymbolType::spec_from_string(e.ttype@)
}

pub open spec fn constant_built_from(c: Constant, e: ConstantEntry) -> bool {
    c.name@ == e.name@ && c.value@ == e.value@
}

pub open spec fn binary_operator_built_from(b: BinaryOperator, e: BinaryOperatorEntry) -> bool {
    b.token@ == e.token@ && b.right@ == SymbolType::spec_from_string(e.right@) && b.result@
        == SymbolType::spec_from_string(e.result@)
}

pub open spec fn unary_operator_built_from(u: UnaryOperator, e: UnaryOperatorEntry) -> bool {
    u.token@ == e.token@ && u.result@ == SymbolType::spec_from_string(e.result@)
}

/// How one [`ClassInfo`] arises from its [`ClassEntry`]: every type string
/// parsed by [`SymbolType::spec_from_string`], members kept in order, and
/// the constructor taken from the first constructor description, if any.
pub open spec fn class_built_from(c: ClassInfo, e: ClassEntry) -> bool {
    &&& c.name@ == e.name@
    &&& match (c.parent, e.parent) {
        (Some(a), Some(b)) => a@ == b@,
        (None, None) => true,
        _ => false,
    }
    &&& c.methods@.len() == e.methods@.len()
    &&& forall|i: int|
        0 <= i < c.methods@.len() ==> method_built_from(c.methods@[i], e.methods@[i])
    &&& c.properties@.len() == e.properties@.len()
    &&& forall|i: int|
        0 <= i < c.properties@.len() ==> property_built_from(c.properties@[i], e.properties@[i])
    &&& match c.constructor {
        Some(k) => e.constructors@.len() > 0 && k.return_type@ == SymbolType::spec_from_string(
            e.constructors@[0].ttype@,
        ),
        None => e.constructors@.len() == 0,
    }
    &&& c.constants@.len() == e.constants@.len()
    &&& forall|i: int|
        0 <= i < c.constants@.len() ==> constant_built_from(c.constants@[i], e.constants@[i])
    &&& c.binary_operators@.len() == e.binary_operators@.len()
    &&& forall|i: int|
        0 <= i < c.binary_operators@.len() ==> binary_operator_built_from(
            c.binary_operators@[i],
            e.binary_operators@[i],
        )
    &&& c.unary_operators@.len() == e.unary_operators@.len()
    &&& forall|i: int|
        0 <= i < c.unary_operators@.len() ==> unary_operator_built_from(
            c.unary_operators@[i],
            e.unary_operators@[i],
        )
}

fn build_class(e: &ClassEntry) -> (c: ClassInfo)
    ensures
        class_built_from(c, *e),
{
    let mut methods: Vec<MethodInfo> = Vec::new();
    let mut i: usize = 0;
    while i < e.methods.len()
        invariant
            i <= e.methods@.len(),
            methods@.len() == i,
            forall|j: int| 0 <= j < i ==> method_built_from(methods@[j], e.methods@[j]),
        decreases e.methods@.len() - i,
    {
        methods.push(
            MethodInfo {
                name: e.methods[i].name.clone(),
                return_type: SymbolType::from_str(e.methods[i].ttype.as_str()),
            },
        );
        i += 1;
    }

    let mut properties: Vec<PropertyInfo> = Vec::new();
    let mut i: usize = 0;
    while i < e.properties.len()
        invariant
            i <= e.properties@.len(),
            properties@.len() == i,
            forall|j: int| 0 <= j < i ==> property_built_from(properties@[j], e.properties@[j]),
        decreases e.properties@.len() - i,
    {
        properties.push(
            PropertyInfo {
                name: e.properties[i].name.clone(),
                ttype: SymbolType::from_str(e.properties[i].ttype.as_str()),
            },
        );
        i += 1;
    }

    let constructor: Option<Constructor> = if e.constructors.len() > 0 {
        Some(
            Constructor {
                return_type: SymbolType::from_str(e.constructors[0].ttype.as_str()),
            },
        )
    } else {
        None
    };

    let mut constants: Vec<Constant> = Vec::new();
    let mut i: usize = 0;
    while i < e.constants.len()
        invariant
            i <= e.constants@.len(),
            constants@.len() == i,
            forall|j: int| 0 <= j < i ==> constant_built_from(constants@[j], e.constants@[j]),
        decreases e.constants@.len() - i,
    {
        constants.push(
            Constant { name: e.constants[i].name.clone(), value: e.constants[i].value.clone() },
        );
        i += 1;
    }

    let mut binary_operators: Vec<BinaryOperator> = Vec::new();
    let mut i: usize = 0;
    while i < e.binary_operators.len()
        invariant
            i <= e.binary_operators@.len(),
            binary_operators@.len() == i,
            forall|j: int|
                0 <= j < i ==> binary_operator_built_from(
                    binary_operators@[j],
                    e.binary_operators@[j],
                ),
        decreases e.binary_operators@.len() - i,
    {
        binary_operators.push(
            BinaryOperator {
                token: e.binary_operators[i].token.clone(),
                right: SymbolType::from_str(e.binary_operators[i].right.as_str()),
                result: SymbolType::from_str(e.binary_operators[i].result.as_str()),
            },
        );
        i += 1;
    }

    let mut unary_operators: Vec<UnaryOperator> = Vec::new();
    let mut i: usize = 0;
    while i < e.unary_operators.len()
        invariant
            i <= e.unary_operators@.len(),
            unary_operators@.len() == i,
            forall|j: int|
                0 <= j < i ==> unary_operator_built_from(
                    unary_operators@[j],
                    e.unary_operators@[j],
                ),
        decreases e.unary_operators@.len() - i,
    {
        unary_operators.push(
            UnaryOperator {
                token: e.unary_operators[i].token.clone(),
                result: SymbolType::from_str(e.unary_operators[i].result.as_str()),
            },
        );
        i += 1;
    }

    let parent: Option<String> = match &e.parent {
        Some(p) => Some(p.clone()),
        None => None,
    };

    ClassInfo {
        name: e.name.clone(),
        parent,
        methods,
        properties,
        constructor,
        constants,
        binary_operators,
        unary_operators,
    }
}

impl TypeDatabase {
    /// Builds the catalog from the parsed class descriptions: every type
    /// string is classified into a [`SymbolType`], the first constructor
    /// description (if any) supplies the constructor's return type, and
    /// classes keep the order in which the entries arrived.
    pub fn from_entries(entries: &Vec<ClassEntry>) -> (db: TypeDatabase)
        ensures
            db.classes@.len() == entries@.len(),
            forall|i: int|
                0 <= i < entries@.len() ==> class_built_from(db.classes@[i], entries@[i]),
    {
        let mut classes: Vec<ClassInfo> = Vec::new();
        let mut i: usize = 0;
        while i < entries.len()
            invariant
                i <= entries@.len(),
                classes@.len() == i,
                forall|j: int| 0 <= j < i ==> class_built_from(classes@[j], entries@[j]),
            decreases entries@.len() - i,
        {
            let c = build_class(&entries[i]);
            classes.push(c);
            i += 1;
        }
        TypeDatabase { classes }
    }
}

} // verus!
