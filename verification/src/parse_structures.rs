use crate::maps::{AssocMap, MapKey};
use vstd::prelude::*;

verus! {

/// A position in a document: zero-based row and UTF-8 byte column, ordered by row, then column.
#[derive(Clone, Copy, Debug, PartialEq, Eq, Structural)]
pub struct Point {
    pub row: usize,
    pub column: usize,
}

/// `a` comes strictly before `b`.
pub open spec fn point_lt(a: Point, b: Point) -> bool {
    a.row < b.row || (a.row == b.row && a.column < b.column)
}

/// `a` comes before or at `b`.
pub open spec fn point_le(a: Point, b: Point) -> bool {
    a.row < b.row || (a.row == b.row && a.column <= b.column)
}

/// A span of source text, given both as byte offsets and as points.
#[derive(Clone, Copy, Debug, PartialEq, Eq, Structural)]
pub struct TextRange {
    pub start_byte: usize,
    pub end_byte: usize,
    pub start_point: Point,
    pub end_point: Point,
}

/// Stores the Index into `GlobalSemanticModel::classes`.
#[derive(Copy, Clone, Debug, Eq, PartialEq, Hash, Structural)]
pub struct ClassId(pub usize);

/// Stores the Index into the per-class public method vec in `GlobalSemanticModel::methods`.
#[derive(Copy, Clone, Debug, Eq, PartialEq, Hash, Structural)]
pub struct PublicMethodId(pub usize);

/// Stores the Index into `LocalSemanticModel::methods`.
#[derive(Copy, Clone, Debug, Eq, PartialEq, Hash, Structural)]
pub struct PrivateMethodId(pub usize);

/// Stores the Index into the per-class public variable vec in `GlobalSemanticModel::variables`.
#[derive(Copy, Clone, Debug, Eq, PartialEq, Hash, Structural)]
pub struct PublicVarId(pub usize);

/// Stores the Index into `LocalSemanticModel::variables`.
#[derive(Copy, Clone, Debug, Eq, PartialEq, Hash, Structural)]
pub struct PrivateVarId(pub usize);

#[derive(Copy, Clone, Debug, Eq, PartialEq, Hash, Structural)]
pub struct PropertyId(pub usize);

#[derive(Copy, Clone, Debug, Eq, PartialEq, Hash, Structural)]
pub struct ParameterId(pub usize);

/// Index into `GlobalSemanticModel::private`, the vec that holds all local semantic models.
#[derive(Copy, Clone, Debug, Eq, PartialEq, Hash, Structural)]
pub struct LocalSemanticModelId(pub usize);

/// Key used to identify a method by type and name.
#[derive(Clone, Debug)]
pub struct MethodKey {
    /// Class method or instance method.
    pub method_type: MethodType,
    /// Method name.
    pub name: String,
}

/// DFS visitation state.
#[derive(Copy, Clone, Debug, PartialEq, Eq, Structural)]
pub enum DfsState {
    Unvisited,
    Visiting,
    Done,
}

/// Reference to a method implementation in a class (public or private).
///
/// Exactly one of `pub_id` or `priv_id` is expected to be `Some`.
#[derive(Copy, Clone, Debug, Eq, PartialEq, Hash, Structural)]
pub struct MethodRef {
    pub class: ClassId,
    pub pub_id: Option<PublicMethodId>,
    pub priv_id: Option<PrivateMethodId>,
}

/// Reference to a public method implementation in a class.
#[derive(Copy, Clone, Debug, Eq, PartialEq, Hash, Structural)]
pub struct PublicMethodRef {
    pub class: ClassId,
    pub id: PublicMethodId,
}

impl MapKey for ClassId {
    type KeyView = ClassId;

    open spec fn key_view(&self) -> ClassId {
        *self
    }

    fn same_key(&self, other: &Self) -> (b: bool) {
        self.0 == other.0
    }

    fn copy_key(&self) -> (r: Self) {
        *self
    }
}

impl MapKey for MethodRef {
    type KeyView = MethodRef;

    open spec fn key_view(&self) -> MethodRef {
        *self
    }

    fn same_key(&self, other: &Self) -> (b: bool) {
        let a = match (self.pub_id, other.pub_id) {
            (Some(x), Some(y)) => x.0 == y.0,
            (None, None) => true,
            _ => false,
        };
        let b = match (self.priv_id, other.priv_id) {
            (Some(x), Some(y)) => x.0 == y.0,
            (None, None) => true,
            _ => false,
        };
        self.class.0 == other.class.0 && a && b
    }

    fn copy_key(&self) -> (r: Self) {
        *self
    }
}

impl MapKey for PublicMethodRef {
    type KeyView = PublicMethodRef;

    open spec fn key_view(&self) -> PublicMethodRef {
        *self
    }

    fn same_key(&self, other: &Self) -> (b: bool) {
        self.class.0 == other.class.0 && self.id.0 == other.id.0
    }

    fn copy_key(&self) -> (r: Self) {
        *self
    }
}

/// Language keyword values supported for classes/methods.
#[derive(Clone, Copy, Debug, Eq, PartialEq, Structural)]
pub enum Language {
    Objectscript,
    TSql,
    Python,
    ISpl,
}

/// Semantic representation of a parsed ObjectScript class.
#[derive(Debug)]
pub struct Class {
    /// Class Name.
    pub name: String,
    /// Imported classes referenced by this class.
    pub imports: Vec<ClassId>,
    /// Direct parent classes in the `Extends` list.
    pub inherited_classes: Vec<ClassId>,
    /// Inheritance conflict resolution direction (`left`, or `right`, default is `left`).
    pub inheritance_direction: String,
    /// Optional ProcedureBlock default for this class.
    pub is_procedure_block: Option<bool>,
    /// Optional default Language keyword for this class.
    pub default_language: Option<Language>,
    /// Stores method name -> id for each private method in this class.
    pub private_methods: AssocMap<String, PrivateMethodId>,
    /// Stores method name -> id for each public method in this class.
    pub public_methods: AssocMap<String, PublicMethodId>,
    /// Stores property name -> id for each private property in this class.
    pub private_properties: AssocMap<String, PropertyId>,
    /// Stores property name -> id for each public property in this class.
    pub public_properties: AssocMap<String, PropertyId>,
    /// Stores parameter name -> id for each parameter in this class.
    pub parameters: AssocMap<String, ParameterId>,
    /// Stores all method calls to external classes for this class.
    pub method_calls: Vec<MethodCallSite>,
    /// Whether this class entry is considered live/usable.
    pub active: bool,
}

/// Semantic representation of a class property declaration.
#[derive(Clone, Debug)]
pub struct ClassProperty {
    pub name: String,
    pub property_type: Option<String>,
    pub is_public: bool,
    pub range: TextRange,
}

/// Semantic representation of a class parameter declaration.
#[derive(Clone, Debug)]
pub struct ClassParameter {
    pub name: String,
    pub property_type: Option<String>,
    pub default_argument_value: Option<String>,
    pub range: TextRange,
}

/// Distinguishes instance methods from class methods.
#[derive(Clone, Copy, Debug, Eq, PartialEq, Hash, Structural)]
pub enum MethodType {
    InstanceMethod,
    ClassMethod,
}

/// Semantic Representation of an ObjectScript Method.
#[derive(Debug)]
pub struct Method {
    /// Class Method or Instance Method.
    pub method_type: MethodType,
    /// Expected return type.
    pub return_type: Option<ReturnType>,
    /// Method Name.
    pub name: String,
    /// Stores variable name -> id for all private variables in this method.
    pub private_variables: AssocMap<String, PrivateVarId>,
    /// Stores variable name -> id for all public variables in this method.
    pub public_variables: AssocMap<String, PublicVarId>,
    /// Whether method is public or not.
    pub is_public: bool,
    /// Whether method is a procedure block or not. If None, method defaults to procedure block.
    pub is_procedure_block: Option<bool>,
    /// Stores language of method. If None, method defaults to ObjectScript.
    pub language: Option<Language>,
    /// Stores CodeMode of method.
    pub code_mode: CodeMode,
    /// Names declared in `PublicList(...)` of ProcedureBlocks.
    pub public_variables_declared: Vec<String>,
}

/// CodeMode keyword values supported for methods.
#[derive(Clone, Copy, Debug, Eq, PartialEq, Structural)]
pub enum CodeMode {
    Call,
    Code,
    Expression,
    ObjectGenerator,
}

/// Parsed representation of a class method call expression.
#[derive(Clone, Debug)]
pub struct ClassMethodCall {
    pub name: String,
    pub class_name: String,
    pub method_name: String,
    pub is_public: bool,
}

/// Parsed representation of an OREF (object reference) method call.
#[derive(Clone, Debug)]
pub struct OrefMethodCall {
    pub name: String,
    pub class_name: String,
    pub method_name: String,
    pub is_public: bool,
}

/// Parsed representation of an OREF creation site.
#[derive(Clone, Debug)]
pub struct Oref {
    pub name: String,
    pub class_name: String,
    pub is_public: bool,
}

/// Semantic representation of a variable discovered in a method.
#[derive(Debug)]
pub struct Variable {
    /// Variable name.
    pub name: String,
    /// Optional type of the argument if the variable originated from a method argument.
    pub arg_type: Option<ReturnType>,
    /// Types discovered from the RHS expression that defines/assigns this variable.
    pub var_type: Vec<VarType>,
    /// Whether variable is public or not.
    pub is_public: bool,
}

/// Normalized return/type categories recognized.
#[derive(Debug)]
pub enum ReturnType {
    String,
    Integer,
    TinyInteger,
    Number,
    Binary,
    Decimal,
    Boolean,
    Date,
    Status,
    TimeStamp,
    DynamicObject,
    DynamicArray,
    Float,
    Double,
    HttpResponse,
    Other(String),
}

/// Normalized expression atom categories used to classify RHS variable types/dependencies.
#[derive(Debug)]
pub enum VarType {
    JsonObjectLiteral,
    JsonArrayLiteral,
    Macro,
    String,
    Number,
    RoutineTagCall,
    RelativeDotMethod,
    OrefMethodCall,
    ClassMethodCall,
    SuperclassMethodCall,
    InstanceVariable(String),
    RelativeDotProperty,
    OrefChainExpr,
    RelativeDotParameter,
    ClassParameterRef,
    SystemDefined,
    DollarSf,
    ExtrinsicFunction,
    Gvn(String),
    Lvn(String),
    Glvn(String),
    Other(String),
}

/// File type for a workspace document.
#[derive(Clone, Copy, Debug, Eq, PartialEq, Structural)]
pub enum FileType {
    Cls,
    Mac,
    Inc,
}

/// Unresolved method call site extracted from a method body.
#[derive(Debug)]
pub struct UnresolvedCallSite {
    /// Name of Class being called (e.g. `"Foo.Bar"`).
    pub callee_class: String,
    /// Name of method being called (e.g. `"Baz"`).
    pub callee_method: String,
    /// Range covering the method call.
    pub call_range: TextRange,
    /// Ranges for each argument expression.
    pub arg_ranges: Vec<TextRange>,
}

/// A method call to a method defined outside of the calling class.
#[derive(Debug)]
pub struct MethodCallSite {
    /// Name of the method containing the method call.
    pub caller_method: String,
    /// Name of Class being called.
    pub callee_class: String,
    /// Name of method being called.
    pub callee_method: String,
    /// Resolved public method reference if known; otherwise `None`.
    pub callee_symbol: Option<PublicMethodRef>,
    /// Range covering the method call.
    pub call_range: TextRange,
    /// Ranges for each argument expression.
    pub arg_ranges: Vec<TextRange>,
}

} // verus!
