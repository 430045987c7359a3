use objectscript_lsp::calls::build_method_calls;
use objectscript_lsp::expressions::{find_var_type_from_expression, method_keywords_with, MethodKeywordKinds};
use objectscript_lsp::lsp::{definition_request, implementation_request};
use objectscript_lsp::method::initial_build_method;
use objectscript_lsp::parse_structures::{
    Class, CodeMode, Language, Method, MethodType, Point, ReturnType, TextRange, VarType,
};
use objectscript_lsp::scope_structures::{ClassGlobalSymbolId, ScopeId};
use objectscript_lsp::scope_tree::initial_build_scope_tree;
use objectscript_lsp::syntax::{SyntaxNode, SyntaxTree};
use objectscript_lsp::text::LspPosition;
use objectscript_lsp::variable::build_variable_from_argument;
use std::collections::{HashMap, VecDeque};

/// A node of a hand-written tree: its kind, the text it spans (found after its previous
/// sibling, inside its parent) and its named children.
struct Spec {
    kind: &'static str,
    span: &'static str,
    children: Vec<Spec>,
}

fn n(kind: &'static str, span: &'static str, children: Vec<Spec>) -> Spec {
    Spec { kind, span, children }
}

fn point_at(content: &str, byte: usize) -> Point {
    let before = &content[..byte];
    let row = before.matches('\n').count();
    let column = match before.rfind('\n') {
        Some(i) => byte - i - 1,
        None => byte,
    };
    Point { row, column }
}

/// Lays the tree out breadth-first, as the library stores it.
fn build(content: &str, root: &Spec) -> SyntaxTree {
    let mut nodes: Vec<SyntaxNode> = Vec::new();
    let mut queue: VecDeque<(&Spec, Option<usize>, usize)> = VecDeque::new();
    let mut cursor: HashMap<usize, usize> = HashMap::new();
    queue.push_back((root, None, 0));
    let mut next = 1;
    while let Some((spec, parent, parent_start)) = queue.pop_front() {
        let from = match parent {
            Some(p) => *cursor.get(&p).unwrap_or(&parent_start),
            None => 0,
        };
        let start = from + content[from..].find(spec.span).expect("span not found");
        let end = start + spec.span.len();
        if let Some(p) = parent {
            cursor.insert(p, end);
        }
        let idx = nodes.len();
        for c in &spec.children {
            queue.push_back((c, Some(idx), start));
        }
        nodes.push(SyntaxNode {
            kind: spec.kind.to_string(),
            range: TextRange {
                start_byte: start,
                end_byte: end,
                start_point: point_at(content, start),
                end_point: point_at(content, end),
            },
            parent,
            first_child: next,
            child_count: spec.children.len(),
        });
        next += spec.children.len();
    }
    SyntaxTree { nodes, has_error: false }
}

fn find(tree: &SyntaxTree, kind: &str) -> usize {
    tree.nodes.iter().position(|x| x.kind == kind).expect("kind not found")
}

#[test]
fn method_calls_are_read_from_do_commands() {
    let content = "Method Run()\n{\n do ##class(Pkg.Util).Log(x, 2)\n do ..Helper(y)\n set z = 1\n}";
    let root = n("method_definition", content, vec![
        n("method_name", "Run", vec![]),
        n("core_method_body_content", "do ##class(Pkg.Util).Log(x, 2)\n do ..Helper(y)\n set z = 1", vec![
            n("statement", "do ##class(Pkg.Util).Log(x, 2)", vec![
                n("command_do", "do ##class(Pkg.Util).Log(x, 2)", vec![
                    n("keyword_do", "do", vec![]),
                    n("class_method_call", "##class(Pkg.Util).Log(x, 2)", vec![
                        n("class_ref", "##class(Pkg.Util)", vec![
                            n("keyword_pound_pound_class", "##class", vec![]),
                            n("class_name", "Pkg.Util", vec![]),
                        ]),
                        n("method_name", "Log", vec![]),
                        n("arguments", "(x, 2)", vec![n("lvn", "x", vec![]), n("numeric_literal", "2", vec![])]),
                    ]),
                ]),
            ]),
            n("statement", "do ..Helper(y)", vec![
                n("command_do", "do ..Helper(y)", vec![
                    n("keyword_do", "do", vec![]),
                    n("instance_method_call", "..Helper(y)", vec![
                        n("relative_dot_method", "..Helper(y)", vec![
                            n("oref_method", "Helper(y)", vec![
                                n("method_name", "Helper", vec![]),
                                n("arguments", "(y)", vec![n("lvn", "y", vec![])]),
                            ]),
                        ]),
                    ]),
                ]),
            ]),
            n("statement", "set z = 1", vec![n("command_set", "set z = 1", vec![])]),
        ]),
    ]);
    let tree = build(content, &root);
    let calls = build_method_calls("Pkg.Caller", &tree, 0, content);
    assert_eq!(calls.len(), 2);
    assert_eq!(calls[0].callee_class, "Pkg.Util");
    assert_eq!(calls[0].callee_method, "Log");
    assert_eq!(calls[0].call_range, tree.nodes[find(&tree, "class_method_call")].range);
    assert_eq!(calls[0].arg_ranges.len(), 2);
    assert_eq!(&content[calls[0].arg_ranges[1].start_byte..calls[0].arg_ranges[1].end_byte], "2");
    assert_eq!(calls[1].callee_class, "Pkg.Caller");
    assert_eq!(calls[1].callee_method, "Helper");
    assert_eq!(calls[1].call_range, tree.nodes[find(&tree, "relative_dot_method")].range);
    assert_eq!(calls[1].arg_ranges.len(), 1);
}

fn keyword_kinds() -> MethodKeywordKinds {
    MethodKeywordKinds {
        procedure_block: "kw_procedureblock".to_string(),
        private: "kw_private".to_string(),
        public_list: "kw_publiclist".to_string(),
        language: "kw_language".to_string(),
        codemode: "kw_codemode".to_string(),
    }
}

#[test]
fn method_keywords_first_value_wins_and_names_are_collected() {
    let content = "[ ProcedureBlock = 0, Language = tsql, Private, PublicList = (a, b), ProcedureBlock = 1, CodeMode = objectgenerator ]";
    let root = n("method_keywords", content, vec![
        n("method_keyword", "ProcedureBlock = 0", vec![
            n("kw_procedureblock", "ProcedureBlock = 0", vec![n("keyword", "ProcedureBlock", vec![]), n("value", "0", vec![])]),
        ]),
        n("method_keyword", "Language = tsql", vec![
            n("method_keyword_language", "Language = tsql", vec![n("keyword", "Language", vec![]), n("value", "tsql", vec![])]),
        ]),
        n("method_keyword", "Private", vec![n("kw_private", "Private", vec![])]),
        n("method_keyword", "PublicList = (a, b)", vec![
            n("kw_publiclist", "PublicList = (a, b)", vec![
                n("keyword", "PublicList", vec![]),
                n("name", "a", vec![]),
                n("name", "b", vec![]),
            ]),
        ]),
        n("method_keyword", "ProcedureBlock = 1", vec![
            n("kw_procedureblock", "ProcedureBlock = 1", vec![n("keyword", "ProcedureBlock", vec![]), n("value", "1", vec![])]),
        ]),
        n("method_keyword", "CodeMode = objectgenerator", vec![
            n("kw_codemode", "CodeMode = objectgenerator", vec![n("keyword", "CodeMode", vec![]), n("value", "objectgenerator", vec![])]),
        ]),
    ]);
    let tree = build(content, &root);
    let (pb, lang, codemode, public, vars) = method_keywords_with(&tree, 0, content, &keyword_kinds());
    assert_eq!(pb, Some(false));
    assert_eq!(lang, Some(Language::TSql));
    assert_eq!(codemode, Some(CodeMode::ObjectGenerator));
    assert!(!public);
    assert_eq!(vars, vec!["a".to_string(), "b".to_string()]);
}

#[test]
fn method_keywords_defaults() {
    let content = "[ ]";
    let tree = build(content, &n("method_keywords", content, vec![]));
    let (pb, lang, codemode, public, vars) = method_keywords_with(&tree, 0, content, &keyword_kinds());
    assert_eq!(pb, None);
    assert_eq!(lang, None);
    assert_eq!(codemode, Some(CodeMode::Code));
    assert!(public);
    assert!(vars.is_empty());
}

#[test]
fn initial_build_method_reads_name_and_return_type() {
    let content = "Method Area() As %integer\n{\n}";
    let root = n("method_definition", content, vec![
        n("method_name", "Area", vec![]),
        n("return_type", "As %integer", vec![n("keyword_as", "As", vec![]), n("typename", "%integer", vec![])]),
    ]);
    let tree = build(content, &root);
    let (m, range): (Method, TextRange) = initial_build_method(&tree, 0, MethodType::ClassMethod, content).unwrap();
    assert_eq!(m.name, "Area");
    assert_eq!(range, tree.nodes[0].range);
    assert_eq!(m.method_type, MethodType::ClassMethod);
    assert!(matches!(m.return_type, Some(ReturnType::Integer)));
    assert_eq!(m.is_procedure_block, None);
    assert!(m.is_public);
    assert_eq!(m.code_mode, CodeMode::Code);
    // a definition without a readable name gives no method
    let empty = build("Method", &n("method_definition", "Method", vec![]));
    assert!(initial_build_method(&empty, 0, MethodType::InstanceMethod, "Method").is_none());
}

#[test]
fn expression_types_follow_atoms_and_operators() {
    let content = "a + ..Prop + 1";
    let root = n("expression", content, vec![
        n("expr_atom", "a", vec![n("lvn", "a", vec![])]),
        n("binary_tail", "+ ..Prop", vec![
            n("binary_operator", "+", vec![]),
            n("expression", "..Prop", vec![n("expr_atom", "..Prop", vec![n("relative_dot_property", "..Prop", vec![])])]),
        ]),
        n("binary_tail", "+ 1", vec![
            n("binary_operator", "+", vec![]),
            n("expression", "1", vec![n("expr_atom", "1", vec![n("numeric_literal", "1", vec![])])]),
        ]),
    ]);
    let tree = build(content, &root);
    let types = find_var_type_from_expression(&tree, 0, content);
    assert_eq!(types.len(), 3);
    assert!(matches!(&types[0], VarType::Lvn(s) if s == "a"));
    assert!(matches!(types[1], VarType::RelativeDotProperty));
    assert!(matches!(types[2], VarType::Number));
}

#[test]
fn argument_default_must_agree_with_declared_type() {
    let content = "val As %integer = 5";
    let root = n("argument", content, vec![
        n("identifier", "val", vec![]),
        n("argument_type", "As %integer", vec![n("keyword_as", "As", vec![]), n("typename", "%integer", vec![])]),
        n("default_argument_value", "= 5", vec![n("numeric_literal", "5", vec![])]),
    ]);
    let tree = build(content, &root);
    let range = tree.nodes[1].range;
    let (v, r, vars, props) = build_variable_from_argument(&tree, 0, "val".to_string(), content, false, range);
    assert_eq!(v.name, "val");
    assert!(matches!(v.arg_type, Some(ReturnType::Integer)));
    assert_eq!(v.var_type.len(), 1);
    assert!(matches!(v.var_type[0], VarType::Number));
    assert_eq!(r, range);
    assert!(vars.is_empty() && props.is_empty());

    let content2 = "val As %string = 5";
    let root2 = n("argument", content2, vec![
        n("identifier", "val", vec![]),
        n("argument_type", "As %string", vec![n("keyword_as", "As", vec![]), n("typename", "%string", vec![])]),
        n("default_argument_value", "= 5", vec![n("numeric_literal", "5", vec![])]),
    ]);
    let tree2 = build(content2, &root2);
    let (v2, _, _, _) = build_variable_from_argument(&tree2, 0, "val".to_string(), content2, true, tree2.nodes[1].range);
    assert!(matches!(v2.arg_type, Some(ReturnType::String)));
    assert!(v2.var_type.is_empty());
    assert!(v2.is_public);
}

#[test]
fn method_variables_come_from_arguments_and_sets() {
    let content = "Method Run(p)\n{\n set q = p\n}";
    let root = n("method_definition", content, vec![
        n("method_name", "Run", vec![]),
        n("arguments", "(p)", vec![n("argument", "p", vec![n("identifier", "p", vec![])])]),
        n("core_method_body_content", "set q = p", vec![
            n("statement", "set q = p", vec![
                n("command_set", "set q = p", vec![
                    n("keyword_set", "set", vec![]),
                    n("set_argument", "q = p", vec![
                        n("lvn", "q", vec![]),
                        n("expression", "p", vec![n("expr_atom", "p", vec![n("lvn", "p", vec![])])]),
                    ]),
                ]),
            ]),
        ]),
    ]);
    let tree = build(content, &root);
    let mut method = Method::new(
        "Run".to_string(),
        Some(true),
        None,
        CodeMode::Code,
        true,
        None,
        vec!["q".to_string()],
        MethodType::InstanceMethod,
    );
    method.is_procedure_block = Some(true);
    let vars = method.build_method_variables_and_ref(&tree, 0, content);
    assert_eq!(vars.len(), 2);
    assert_eq!(vars[0].0.name, "p");
    assert!(!vars[0].0.is_public);
    assert_eq!(vars[1].0.name, "q");
    assert!(vars[1].0.is_public);
    assert_eq!(vars[1].2, vec!["p".to_string()]);
    assert_eq!(&content[vars[1].1.start_byte..vars[1].1.end_byte], "q");
}

#[test]
fn definition_and_implementation_requests_find_their_nodes() {
    let content = "Class Test.A\n{\nMethod Foo()\n{\n set x = 1\n}\n}";
    let root = n("source_file", content, vec![
        n("class_definition", content, vec![
            n("keyword_class", "Class", vec![]),
            n("class_name", "Test.A", vec![]),
            n("class_body", "Method Foo()\n{\n set x = 1\n}", vec![
                n("class_statement", "Method Foo()\n{\n set x = 1\n}", vec![
                    n("method", "Method Foo()\n{\n set x = 1\n}", vec![
                        n("keyword_method", "Method", vec![]),
                        n("method_definition", "Foo()\n{\n set x = 1\n}", vec![
                            n("identifier", "Foo", vec![n("identifier", "Foo", vec![])]),
                            n("objectscript_identifier", "x", vec![]),
                        ]),
                    ]),
                ]),
            ]),
        ]),
    ]);
    let tree = build(content, &root);
    // "x" is on line 4, column 5
    let (point, symbol, method) = definition_request(&tree, content, LspPosition { line: 4, character: 5 }).unwrap();
    assert_eq!(point, Point { row: 4, column: 5 });
    assert_eq!(symbol, "x");
    assert_eq!(method, "Foo");
    // "Foo" is on line 2, column 8
    assert_eq!(implementation_request(&tree, content, LspPosition { line: 2, character: 8 }), Some("Foo".to_string()));
    // the class name is not a method name
    assert_eq!(implementation_request(&tree, content, LspPosition { line: 0, character: 8 }), None);
    assert_eq!(definition_request(&tree, content, LspPosition { line: 0, character: 8 }), None);
}

#[test]
fn class_initial_build_reads_methods_of_the_body() {
    let content = "Class Test.A\n{\nMethod Foo()\n{\n}\nClassMethod Bar()\n{\n}\nProperty P;\n}";
    let root = n("class_definition", content, vec![
        n("keyword_class", "Class", vec![]),
        n("class_name", "Test.A", vec![]),
        n("class_body", "Method Foo()\n{\n}\nClassMethod Bar()\n{\n}\nProperty P;", vec![
            n("class_statement", "Method Foo()\n{\n}", vec![
                n("method", "Method Foo()\n{\n}", vec![
                    n("keyword_method", "Method", vec![]),
                    n("method_definition", "Foo()\n{\n}", vec![n("method_name", "Foo", vec![])]),
                ]),
            ]),
            n("class_statement", "ClassMethod Bar()\n{\n}", vec![
                n("classmethod", "ClassMethod Bar()\n{\n}", vec![
                    n("keyword_classmethod", "ClassMethod", vec![]),
                    n("method_definition", "Bar()\n{\n}", vec![n("method_name", "Bar", vec![])]),
                ]),
            ]),
            n("class_statement", "Property P;", vec![n("property", "Property P;", vec![])]),
        ]),
    ]);
    let tree = build(content, &root);
    let mut class = Class::new("Test.A".to_string());
    let methods = class.initial_build(&tree, 0, content);
    assert_eq!(methods.len(), 2);
    assert_eq!(methods[0].0.name, "Foo");
    assert_eq!(methods[0].0.method_type, MethodType::InstanceMethod);
    assert_eq!(methods[1].0.name, "Bar");
    assert_eq!(methods[1].0.method_type, MethodType::ClassMethod);
    assert_eq!(class.inheritance_direction, "left");
    assert_eq!(class.is_procedure_block, None);
}

#[test]
fn scope_skeleton_nests_method_scopes() {
    let content = "Class T\n{\nMethod A()\n{\n}\nClassMethod B()\n{\n}\n}";
    let root = n("source_file", content, vec![
        n("class_definition", content, vec![
            n("keyword_class", "Class", vec![]),
            n("class_name", "T", vec![]),
            n("class_body", "Method A()\n{\n}\nClassMethod B()\n{\n}", vec![
                n("class_statement", "Method A()\n{\n}", vec![n("method", "Method A()\n{\n}", vec![])]),
                n("class_statement", "ClassMethod B()\n{\n}", vec![n("classmethod", "ClassMethod B()\n{\n}", vec![])]),
            ]),
        ]),
    ]);
    let tree = build(content, &root);
    let mut st = initial_build_scope_tree(&tree, ClassGlobalSymbolId(3));
    assert_eq!(st.class_def(), ClassGlobalSymbolId(3));
    // the root scope holds what lies outside the methods
    assert_eq!(st.find_current_scope(Point { row: 0, column: 2 }), Some(ScopeId(0)));
    // method A spans rows 2..4, method B rows 5..7
    assert_eq!(st.find_current_scope(Point { row: 3, column: 0 }), Some(ScopeId(1)));
    assert_eq!(st.find_current_scope(Point { row: 6, column: 0 }), Some(ScopeId(2)));
    // a scope added under the root is found after the method scopes
    let extra = st.add_scope(Point { row: 9, column: 0 }, Point { row: 10, column: 0 }, ScopeId(0), true);
    assert_eq!(extra, ScopeId(3));
}
