use objectscript_lsp::calls::build_method_calls_from_unresolved;
use objectscript_lsp::config::{are_snippets_enabled, Config};
use objectscript_lsp::document::{file_type_from_extension, file_type_from_path, str_ends_with};
use objectscript_lsp::expressions::find_return_type;
use objectscript_lsp::keywords::{
    eq_ignore_ascii_case, first_containing, get_keyword, keyword_child_types, keyword_from, str_contains, str_eq,
};
use objectscript_lsp::lsp::deepest_workspace;
use objectscript_lsp::maps::AssocMap;
use objectscript_lsp::override_index::OverrideIndex;
use objectscript_lsp::parse_structures::{
    ClassId, FileType, Point, PublicMethodId, PublicMethodRef, ReturnType, TextRange,
    UnresolvedCallSite,
};
use objectscript_lsp::scope_structures::{ClassGlobalSymbolId, ScopeId, VariableGlobalSymbolId};
use objectscript_lsp::scope_tree::{point_in_range, ScopeTree};

fn pt(row: usize, column: usize) -> Point {
    Point { row, column }
}

fn range(sr: usize, sc: usize, er: usize, ec: usize) -> TextRange {
    TextRange { start_byte: 0, end_byte: 0, start_point: pt(sr, sc), end_point: pt(er, ec) }
}

#[test]
fn str_contains_finds_substrings() {
    assert!(str_contains("classmethod_keyword", "keyword"));
    assert!(str_contains("abc", ""));
    assert!(!str_contains("abc", "abcd"));
    assert!(!str_contains("method", "class"));
}

#[test]
fn str_eq_compares_bytes() {
    assert!(str_eq("Foo", "Foo"));
    assert!(!str_eq("Foo", "foo"));
}

#[test]
fn eq_ignore_ascii_case_folds_letters_only() {
    assert!(eq_ignore_ascii_case("ObjectScript", "objectscript"));
    assert!(eq_ignore_ascii_case("TSQL", "tsql"));
    assert!(!eq_ignore_ascii_case("tsql", "tsq"));
    assert!(!eq_ignore_ascii_case("a1", "a2"));
}

#[test]
fn first_containing_returns_first_match_or_empty() {
    let types = vec!["method_keyword_codemode".to_string(), "method_keyword_language".to_string(), "keyword_language_2".to_string()];
    assert_eq!(first_containing(&types, "language"), "method_keyword_language".to_string());
    assert_eq!(first_containing(&types, "absent"), String::new());
    assert_eq!(first_containing(&Vec::new(), "x"), String::new());
}

#[test]
fn get_keyword_result_contains_filter_or_is_empty() {
    let r = get_keyword("method_keywords", "language");
    assert!(r.is_empty() || r.contains("language"));
    assert_eq!(get_keyword("no_such_node_type_here", "language"), String::new());
}

#[test]
fn find_return_type_maps_known_and_other_names() {
    assert!(matches!(find_return_type("%string".to_string()), Some(ReturnType::String)));
    assert!(matches!(find_return_type("%counter".to_string()), Some(ReturnType::Integer)));
    assert!(matches!(find_return_type("%tinyint".to_string()), Some(ReturnType::TinyInteger)));
    assert!(matches!(find_return_type("%status".to_string()), Some(ReturnType::Status)));
    assert!(matches!(find_return_type("%time".to_string()), Some(ReturnType::Number)));
    // type names are matched as written
    assert!(matches!(find_return_type("%Integer".to_string()), Some(ReturnType::Other(s)) if s == "%Integer"));
    match find_return_type("Sample.Person".to_string()) {
        Some(ReturnType::Other(s)) => assert_eq!(s, "Sample.Person"),
        other => panic!("unexpected {:?}", other),
    }
}

#[test]
fn config_default_enables_everything() {
    let c = Config::default();
    assert!(c.enable_snippets && c.enable_formatting && c.enable_lint && c.enable_strict_mode);
}

#[test]
fn snippets_need_setting_and_client_support() {
    assert!(are_snippets_enabled(true, Some(true)));
    assert!(!are_snippets_enabled(true, Some(false)));
    assert!(!are_snippets_enabled(true, None));
    assert!(!are_snippets_enabled(false, Some(true)));
}

#[test]
fn file_types_by_extension_and_path() {
    assert_eq!(file_type_from_extension("cls"), Some(FileType::Cls));
    assert_eq!(file_type_from_extension("mac"), Some(FileType::Mac));
    assert_eq!(file_type_from_extension("inc"), Some(FileType::Inc));
    assert_eq!(file_type_from_extension("txt"), None);
    assert_eq!(file_type_from_path("file:///ws/src/Foo.cls"), Some(FileType::Cls));
    assert_eq!(file_type_from_path("/ws/routine.mac"), Some(FileType::Mac));
    assert_eq!(file_type_from_path("/ws/README.md"), None);
    assert!(str_ends_with("abc.cls", ".cls"));
    assert!(!str_ends_with("cls", ".cls"));
}

#[test]
fn deepest_workspace_prefers_longest_prefix() {
    let comps = |s: &str| s.split('/').map(|c| c.to_string()).collect::<Vec<String>>();
    let doc = comps("home/u/ws/inner/src/A.cls");
    let workspaces = vec![comps("home/u/ws"), comps("home/u/ws/inner"), comps("home/u/other")];
    assert_eq!(deepest_workspace(&doc, &workspaces), Some(1));
    assert_eq!(deepest_workspace(&comps("tmp/x.cls"), &workspaces), None);
    assert_eq!(deepest_workspace(&doc, &Vec::new()), None);
}

#[test]
fn unresolved_calls_resolve_through_override_index() {
    let mut classes: AssocMap<String, ClassId> = AssocMap::new();
    classes.insert("Pkg.A".to_string(), ClassId(0));
    let mut idx = OverrideIndex::new();
    let mut table: AssocMap<String, PublicMethodRef> = AssocMap::new();
    table.insert("Run".to_string(), PublicMethodRef { class: ClassId(0), id: PublicMethodId(2) });
    idx.effective_public_methods.insert(ClassId(0), table);
    let calls = vec![
        UnresolvedCallSite { callee_class: "Pkg.A".to_string(), callee_method: "Run".to_string(), call_range: range(1, 0, 1, 5), arg_ranges: vec![] },
        UnresolvedCallSite { callee_class: "Pkg.A".to_string(), callee_method: "Stop".to_string(), call_range: range(2, 0, 2, 5), arg_ranges: vec![] },
        UnresolvedCallSite { callee_class: "Pkg.B".to_string(), callee_method: "Run".to_string(), call_range: range(3, 0, 3, 5), arg_ranges: vec![] },
    ];
    let sites = build_method_calls_from_unresolved(&classes, &idx, calls, "Caller".to_string());
    assert_eq!(sites.len(), 3);
    assert_eq!(sites[0].caller_method, "Caller");
    assert_eq!(sites[0].callee_symbol, Some(PublicMethodRef { class: ClassId(0), id: PublicMethodId(2) }));
    assert_eq!(sites[1].callee_symbol, None);
    assert_eq!(sites[2].callee_symbol, None);
    assert_eq!(sites[2].callee_class, "Pkg.B");
    assert_eq!(sites[1].call_range, range(2, 0, 2, 5));
}

#[test]
fn point_in_range_is_half_open() {
    assert!(point_in_range(pt(1, 0), pt(1, 0), pt(2, 0)));
    assert!(!point_in_range(pt(2, 0), pt(1, 0), pt(2, 0)));
    assert!(point_in_range(pt(1, 9), pt(1, 0), pt(2, 0)));
    assert!(!point_in_range(pt(0, 9), pt(1, 0), pt(2, 0)));
}

#[test]
fn scope_tree_finds_innermost_scope_and_variables() {
    let mut st = ScopeTree::new(ClassGlobalSymbolId(7));
    assert_eq!(st.class_def(), ClassGlobalSymbolId(7));
    assert_eq!(st.find_current_scope(pt(3, 3)), Some(ScopeId(0)));
    let m = st.add_scope(pt(2, 0), pt(10, 0), ScopeId(0), true);
    assert_eq!(m, ScopeId(1));
    let inner = st.add_scope(pt(4, 0), pt(6, 0), m, true);
    assert_eq!(inner, ScopeId(2));
    assert_eq!(st.find_current_scope(pt(1, 0)), Some(ScopeId(0)));
    assert_eq!(st.find_current_scope(pt(3, 0)), Some(ScopeId(1)));
    assert_eq!(st.find_current_scope(pt(5, 2)), Some(ScopeId(2)));
    assert_eq!(st.find_current_scope(pt(6, 0)), Some(ScopeId(1)));

    let def = range(3, 4, 3, 5);
    let id = st.new_variable_symbol("x".to_string(), def, vec![], vec![]);
    assert!(id.is_some());
    assert_eq!(st.get_variable_definition(pt(8, 0), "x"), Some(def));
    assert_eq!(st.get_variable_definition(pt(5, 0), "x"), None);
    assert_eq!(st.get_variable_definition(pt(8, 0), "y"), None);

    st.new_public_var_symbol("g".to_string(), range(7, 0, 7, 1), VariableGlobalSymbolId(4));
    assert_eq!(
        st.pub_variable_in_scope(pt(9, 0), "g"),
        Some((ClassGlobalSymbolId(7), VariableGlobalSymbolId(4)))
    );
    assert_eq!(st.pub_variable_in_scope(pt(1, 0), "g"), None);

    st.new_method_symbol("Helper".to_string(), range(2, 0, 10, 0));
    assert_eq!(st.get_private_method_symbol("Helper").map(|m| m.location), Some(range(2, 0, 10, 0)));
    assert!(st.get_private_method_symbol("Other").is_none());
}

const NODE_TYPES_SAMPLE: &str = r#"[
  {"type": "method_keyword", "named": true},
  {"type": "class_keyword", "named": true,
   "children": {"multiple": false, "required": true,
     "types": [{"type": "kw_procedure_block", "named": true}, {"named": true},
               {"type": "kw_language", "named": true}, {"type": "kw_inheritance", "named": true}]}},
  {"type": "class_keyword", "named": true,
   "children": {"types": [{"type": "kw_other", "named": true}]}}
]"#;

#[test]
fn keyword_child_types_lists_children_of_first_matching_entry() {
    let types = keyword_child_types(NODE_TYPES_SAMPLE, "class_keyword");
    assert_eq!(
        types,
        Some(vec!["kw_procedure_block".to_string(), "kw_language".to_string(), "kw_inheritance".to_string()])
    );
}

#[test]
fn keyword_child_types_none_without_children_or_entry_or_json() {
    assert_eq!(keyword_child_types(NODE_TYPES_SAMPLE, "method_keyword"), None);
    assert_eq!(keyword_child_types(NODE_TYPES_SAMPLE, "no_such_type"), None);
    assert_eq!(keyword_child_types("not json at all", "class_keyword"), None);
    assert_eq!(keyword_child_types(r#"{"type": "class_keyword"}"#, "class_keyword"), None);
}

#[test]
fn keyword_from_picks_first_child_type_containing_filter() {
    assert_eq!(keyword_from(NODE_TYPES_SAMPLE, "class_keyword", "language"), "kw_language".to_string());
    assert_eq!(keyword_from(NODE_TYPES_SAMPLE, "class_keyword", "kw_"), "kw_procedure_block".to_string());
    assert_eq!(keyword_from(NODE_TYPES_SAMPLE, "class_keyword", "other"), String::new());
    assert_eq!(keyword_from(NODE_TYPES_SAMPLE, "method_keyword", "language"), String::new());
}
