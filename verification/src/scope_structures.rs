use crate::maps::MapKey;
use crate::parse_structures::TextRange;
use vstd::prelude::*;

verus! {

/// The Key into `ScopeTree::scopes` representing a single `Scope`.
#[derive(Copy, Hash, Eq, PartialEq, Clone, Debug, Structural)]
pub struct ScopeId(pub usize);

/// Stores the index into `Scope::variable_symbols`.
#[derive(Copy, Clone, Debug, Eq, PartialEq, Hash, Structural)]
pub struct VariableSymbolId(pub usize);

/// Stores the index into the per-class public variable symbol vec in `GlobalSemanticModel::variable_defs`.
#[derive(Copy, Clone, Debug, Eq, PartialEq, Hash, Structural)]
pub struct VariableGlobalSymbolId(pub usize);

/// Stores the index into `GlobalSemanticModel::class_defs`.
#[derive(Copy, Clone, Debug, Eq, PartialEq, Hash, Structural)]
pub struct ClassGlobalSymbolId(pub usize);

/// Stores the index into the per-class public method symbol vec in `GlobalSemanticModel::method_defs`.
#[derive(Copy, Clone, Debug, Eq, PartialEq, Hash, Structural)]
pub struct MethodGlobalSymbolId(pub usize);

impl MapKey for ClassGlobalSymbolId {
    type KeyView = ClassGlobalSymbolId;

    open spec fn key_view(&self) -> ClassGlobalSymbolId {
        *self
    }

    fn same_key(&self, other: &Self) -> (b: bool) {
        self.0 == other.0
    }

    fn copy_key(&self) -> (r: Self) {
        *self
    }
}

/// A variable definition symbol for a public variable (definition site + dependency metadata).
#[derive(Debug)]
pub struct VariableGlobalSymbol {
    /// Variable name.
    pub name: String,
    /// Document URL containing the variable definition.
    pub url: String,
    /// Source range of the variable definition.
    pub location: TextRange,
    /// Names of other variables referenced by this definition.
    pub var_dependencies: Vec<String>,
    /// Names of properties referenced by this definition.
    pub property_dependencies: Vec<String>,
}

/// A method definition symbol for a public method.
#[derive(Debug)]
pub struct MethodGlobalSymbol {
    /// Method Name
    pub name: String,
    /// Document URL containing the method definition.
    pub url: String,
    /// Source range of the method definition.
    pub location: TextRange,
}

/// A class definition symbol (definition site + liveness flag).
#[derive(Debug)]
pub struct ClassGlobalSymbol {
    /// Class Name
    pub name: String,
    /// Document URL containing the class definition.
    pub url: String,
    /// Source range of the class definition.
    pub location: TextRange,
    /// Whether this symbol currently represents a live document/class (false after removal).
    pub alive: bool,
}

/// A private variable symbol (definition + references + dependency metadata).
#[derive(Debug)]
pub struct VariableSymbol {
    /// Variable name.
    pub name: String,
    /// Source range of the variable definition.
    pub location: TextRange,
    /// Source ranges of references/uses associated with this symbol.
    pub references: Vec<TextRange>,
    /// Names of other variables referenced by this definition.
    pub var_dependencies: Vec<String>,
    /// Names of properties referenced by this definition.
    pub property_dependencies: Vec<String>,
}

/// A Private Method Symbol
#[derive(Debug)]
pub struct MethodSymbol {
    /// Method name
    pub name: String,
    /// Source range of the method definition.
    pub location: TextRange,
}

} // verus!
