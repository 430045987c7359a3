use objectscript_lsp::parse_structures::{ClassId, FileType, Language};
use objectscript_lsp::scope_structures::ClassGlobalSymbolId;
use objectscript_lsp::syntax::{find_class_definition, get_class_name_from_root, parse_source};
use objectscript_lsp::text::ContentChange;
use objectscript_lsp::workspace::{ChangeOutcome, ProjectData};

const SOURCE: &str = "Class Test.Shapes Extends %RegisteredObject\n{\n\nMethod Area() As %Integer\n{\n    quit 1\n}\n\nClassMethod Make() As Test.Shapes\n{\n    quit \"\"\n}\n\n}\n";

#[test]
fn parse_source_gives_class_definition_and_name() {
    let tree = parse_source(SOURCE).expect("the parser accepts the source");
    assert!(find_class_definition(&tree).is_some());
    assert_eq!(get_class_name_from_root(SOURCE, &tree), Some("Test.Shapes".to_string()));
    let root = tree.root();
    assert_eq!(root, 0);
    assert!(tree.named_child_count(root) > 0);
}

#[test]
fn parse_source_without_class_has_no_name() {
    let text = "ROUTINE Foo\n    quit\n";
    if let Some(tree) = parse_source(text) {
        assert_eq!(get_class_name_from_root(text, &tree), None);
    }
}

#[test]
fn add_document_registers_class_and_public_methods() {
    let tree = parse_source(SOURCE).unwrap();
    let mut project = ProjectData::new();
    let url = "file:///ws/Test/Shapes.cls".to_string();
    let present = project.add_document_if_absent(
        url.clone(),
        SOURCE.to_string(),
        tree,
        FileType::Cls,
        "Test.Shapes".to_string(),
        None,
    );
    assert!(!present);
    assert_eq!(project.classes.get(&"Test.Shapes".to_string()), Some(&ClassId(0)));
    let (file_type, text, version) = project.get_document_info(&url).unwrap();
    assert_eq!(file_type, FileType::Cls);
    assert_eq!(text, SOURCE);
    assert_eq!(version, 0);
    let class = &project.global_semantic_model.classes[0];
    assert_eq!(class.name, "Test.Shapes");
    assert!(class.public_methods.contains_key(&"Area".to_string()));
    assert!(class.public_methods.contains_key(&"Make".to_string()));
    assert_eq!(project.global_semantic_model.class_defs.len(), 1);
    assert_eq!(project.global_semantic_model.class_defs[0].url, url);

    // a second registration of the same url changes nothing
    let again = project.add_document_if_absent(
        url.clone(),
        String::new(),
        parse_source(SOURCE).unwrap(),
        FileType::Cls,
        "Other".to_string(),
        Some(3),
    );
    assert!(again);
    assert_eq!(project.global_semantic_model.classes.len(), 1);

    project.build_inheritance_and_variables(None, Vec::new());
    assert!(project.override_index.effective_public_methods.contains_key(&ClassId(0)));
    let table = project.override_index.effective_public_methods.get(&ClassId(0)).unwrap();
    assert!(table.contains_key(&"Area".to_string()));
}

#[test]
fn non_class_documents_are_not_registered() {
    let tree = parse_source(SOURCE).unwrap();
    let mut project = ProjectData::new();
    project.add_document("file:///ws/r.mac".to_string(), SOURCE.to_string(), tree, FileType::Mac, "X".to_string(), None);
    assert_eq!(project.documents.len(), 0);
    assert_eq!(project.global_semantic_model.classes.len(), 0);
}

#[test]
fn add_document_records_method_symbols_in_order() {
    let tree = parse_source(SOURCE).unwrap();
    let mut project = ProjectData::new();
    let url = "file:///ws/Test/Shapes.cls".to_string();
    project.add_document(url.clone(), SOURCE.to_string(), tree, FileType::Cls, "Test.Shapes".to_string(), None);
    let symbols = project.global_semantic_model.method_defs.get(&ClassGlobalSymbolId(0)).unwrap();
    let names: Vec<String> = symbols.iter().map(|s| s.name.clone()).collect();
    assert_eq!(names, vec!["Area".to_string(), "Make".to_string()]);
    assert!(symbols.iter().all(|s| s.url == url));
    let by_name = project.pub_method_defs.get(&"Test.Shapes".to_string()).unwrap();
    assert!(by_name.contains_key(&"Area".to_string()));
    assert!(by_name.contains_key(&"Make".to_string()));
    let doc = project.get_document(&url).unwrap();
    assert!(doc.scope_tree.get_private_method_symbol("Area").is_none());
}

#[test]
fn update_document_rebuilds_method_tables_from_new_text() {
    let tree = parse_source(SOURCE).unwrap();
    let mut project = ProjectData::new();
    let url = "file:///ws/Test/Shapes.cls".to_string();
    project.add_document(url.clone(), SOURCE.to_string(), tree, FileType::Cls, "Test.Shapes".to_string(), None);
    let changed = "Class Test.Shapes Extends %RegisteredObject\n{\n\nMethod Perimeter() As %Integer\n{\n    quit 4\n}\n\n}\n";
    let new_tree = parse_source(changed).unwrap();
    project.update_document(url.clone(), new_tree, FileType::Cls, 2, changed);
    let class = &project.global_semantic_model.classes[0];
    assert!(class.public_methods.contains_key(&"Perimeter".to_string()));
    assert!(!class.public_methods.contains_key(&"Area".to_string()));
    assert!(!class.public_methods.contains_key(&"Make".to_string()));
    let (_, text, version) = project.get_document_info(&url).unwrap();
    assert_eq!(text, changed);
    assert_eq!(version, 2);
}

#[test]
fn update_document_renames_the_class_entry_for_any_file_type() {
    let tree = parse_source(SOURCE).unwrap();
    let mut project = ProjectData::new();
    let url = "file:///ws/Test/Shapes.cls".to_string();
    project.add_document(url.clone(), SOURCE.to_string(), tree, FileType::Cls, "Test.Shapes".to_string(), None);
    let renamed = "Class Test.Figures Extends %RegisteredObject\n{\n\n}\n";
    let new_tree = parse_source(renamed).unwrap();
    project.update_document(url.clone(), new_tree, FileType::Mac, 3, renamed);
    assert_eq!(project.global_semantic_model.classes[0].name, "Test.Figures".to_string());
    assert_eq!(project.classes.get(&"Test.Figures".to_string()), Some(&ClassId(0)));
    assert_eq!(project.classes.get(&"Test.Shapes".to_string()), None);
    assert!(project.class_defs.get(&"Test.Shapes".to_string()).is_none());
}

#[test]
fn build_inheritance_links_parent_classes_by_name() {
    let child_src = "Class Test.Circle Extends Test.Shapes\n{\n\nMethod Area() As %Integer\n{\n    quit 3\n}\n\n}\n";
    let mut project = ProjectData::new();
    let shapes_url = "file:///ws/Test/Shapes.cls".to_string();
    let circle_url = "file:///ws/Test/Circle.cls".to_string();
    project.add_document(shapes_url, SOURCE.to_string(), parse_source(SOURCE).unwrap(), FileType::Cls, "Test.Shapes".to_string(), None);
    project.add_document(circle_url.clone(), child_src.to_string(), parse_source(child_src).unwrap(), FileType::Cls, "Test.Circle".to_string(), None);
    project.build_inheritance_and_variables(Some(circle_url), Vec::new());
    let circle = &project.global_semantic_model.classes[1];
    assert_eq!(circle.inherited_classes, vec![ClassId(0)]);
    assert!(circle.imports.is_empty());
}

#[test]
fn rebuilt_methods_take_class_keyword_defaults() {
    let mut project = ProjectData::new();
    let url = "file:///ws/Test/Shapes.cls".to_string();
    project.add_document(url.clone(), SOURCE.to_string(), parse_source(SOURCE).unwrap(), FileType::Cls, "Test.Shapes".to_string(), None);
    project.build_inheritance_and_variables(Some(url), Vec::new());
    let methods = project.global_semantic_model.methods.get(&ClassId(0)).unwrap();
    assert_eq!(methods.len(), 2);
    for m in methods.iter() {
        assert_eq!(m.is_procedure_block, Some(false));
        assert_eq!(m.language, Some(Language::Objectscript));
    }
}

#[test]
fn did_change_stores_the_reparsed_text_of_a_tracked_document() {
    let mut project = ProjectData::new();
    let url = "file:///ws/Test/Shapes.cls".to_string();
    project.add_document_if_absent(url.clone(), SOURCE.to_string(), parse_source(SOURCE).unwrap(), FileType::Cls, "Test.Shapes".to_string(), Some(1));
    let changed = SOURCE.replace("Area", "Size");
    let changes = vec![ContentChange { range: None, text: changed.clone() }];
    let outcome = project.apply_did_change(url.clone(), 2, &changes, String::new());
    assert_eq!(outcome, ChangeOutcome::Stored { regressed: false, full_replace: true, has_error: false });
    let (_, text, version) = project.get_document_info(&url).unwrap();
    assert_eq!(text, changed);
    assert_eq!(version, 2);
}

#[test]
fn did_change_registers_an_untracked_class_document() {
    let mut project = ProjectData::new();
    let url = "file:///ws/Test/Shapes.cls".to_string();
    let outcome = project.apply_did_change(url.clone(), 1, &Vec::new(), SOURCE.to_string());
    assert_eq!(outcome, ChangeOutcome::Registered);
    assert_eq!(project.classes.get(&"Test.Shapes".to_string()), Some(&ClassId(0)));
}

#[test]
fn did_change_without_a_class_name_fails_and_changes_nothing() {
    let mut project = ProjectData::new();
    let url = "file:///ws/Foo.cls".to_string();
    let outcome = project.apply_did_change(url.clone(), 1, &Vec::new(), "ROUTINE Foo\n    quit\n".to_string());
    assert_eq!(outcome, ChangeOutcome::ParseFailed);
    assert!(project.get_document_info(&url).is_none());
}

#[test]
fn opening_a_new_class_document_registers_and_rebuilds_it() {
    let mut project = ProjectData::new();
    let url = "file:///ws/Test/Shapes.cls".to_string();
    project.handle_document_opened(url.clone(), SOURCE.to_string(), parse_source(SOURCE).unwrap(), FileType::Cls, 4);
    assert_eq!(project.classes.get(&"Test.Shapes".to_string()), Some(&ClassId(0)));
    let (_, text, version) = project.get_document_info(&url).unwrap();
    assert_eq!(text, SOURCE);
    assert_eq!(version, 4);
    assert_eq!(project.override_index.effective_public_methods.len(), 1);
}

#[test]
fn indexing_files_registers_classes_and_reports_tracked_ones() {
    let mut project = ProjectData::new();
    let shapes = "file:///ws/Test/Shapes.cls".to_string();
    let routine = "file:///ws/Foo.mac".to_string();
    let files = vec![
        (shapes.clone(), SOURCE.to_string(), FileType::Cls),
        (routine.clone(), "ROUTINE Foo\n    quit\n".to_string(), FileType::Mac),
    ];
    let first = project.index_files(&files);
    assert!(first.is_empty());
    assert_eq!(project.classes.get(&"Test.Shapes".to_string()), Some(&ClassId(0)));
    assert!(project.get_document_info(&routine).is_none());
    let again = project.index_files(&files);
    assert_eq!(again, vec![shapes.clone()]);
    assert_eq!(project.global_semantic_model.classes.len(), 1);
}
