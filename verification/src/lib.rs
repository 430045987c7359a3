//! Semantic model and language-server logic for InterSystems ObjectScript classes.
pub mod maps;
pub mod parse_structures;
pub mod scope_structures;
pub mod override_index;
pub mod local_semantic;
pub mod global_semantic;
pub mod class;
pub mod method;
pub mod text;
pub mod syntax;
pub mod keywords;
pub mod expressions;
pub mod variable;
pub mod calls;
pub mod scope_tree;
pub mod document;
pub mod config;
pub mod workspace;
pub mod lsp;
