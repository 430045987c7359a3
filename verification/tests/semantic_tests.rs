use objectscript_lsp::global_semantic::GlobalSemanticModel;
use objectscript_lsp::maps::AssocMap;
use objectscript_lsp::method::MethodEdit;
use objectscript_lsp::override_index::OverrideIndex;
use objectscript_lsp::parse_structures::{
    Class, ClassId, CodeMode, Language, Method, MethodRef, MethodType, PrivateMethodId,
    PublicMethodId, PublicMethodRef, Variable, VarType,
};
use objectscript_lsp::local_semantic::LocalSemanticModel;

fn method(name: &str, public: bool) -> Method {
    Method::new(name.to_string(), None, None, CodeMode::Code, public, None, Vec::new(), MethodType::InstanceMethod)
}

fn class_with(name: &str, parents: Vec<usize>, publics: &[&str], privates: &[&str]) -> Class {
    let mut c = Class::new(name.to_string());
    c.inherited_classes = parents.into_iter().map(ClassId).collect();
    for (i, m) in publics.iter().enumerate() {
        c.public_methods.insert(m.to_string(), PublicMethodId(i));
    }
    for (i, m) in privates.iter().enumerate() {
        c.private_methods.insert(m.to_string(), PrivateMethodId(i));
    }
    c
}

#[test]
fn assoc_map_insert_get_remove() {
    let mut m: AssocMap<String, usize> = AssocMap::new();
    m.insert("a".to_string(), 1);
    m.insert("b".to_string(), 2);
    m.insert("a".to_string(), 3);
    assert_eq!(m.len(), 2);
    assert_eq!(m.get(&"a".to_string()), Some(&3));
    assert_eq!(m.keys(), vec!["a".to_string(), "b".to_string()]);
    assert_eq!(m.remove(&"a".to_string()), Some(3));
    assert_eq!(m.get(&"a".to_string()), None);
    assert!(m.contains_key(&"b".to_string()));
}

#[test]
fn override_index_new_is_empty() {
    let idx = OverrideIndex::new();
    assert_eq!(idx.effective_public_methods.len(), 0);
    assert_eq!(idx.overrides.len(), 0);
    assert_eq!(idx.overridden_by.len(), 0);
}

#[test]
fn override_index_resolves_inherited_and_overridden_methods() {
    let mut gsm = GlobalSemanticModel::new();
    // 0: Base with Foo, Bar; 1: Child extends Base, overrides Foo publicly and Bar privately
    gsm.new_class(class_with("Base", vec![], &["Foo", "Bar"], &[]));
    gsm.new_class(class_with("Child", vec![0], &["Foo"], &["Bar"]));
    let idx = gsm.build_override_index();
    let child = idx.effective_public_methods.get(&ClassId(1)).unwrap();
    assert_eq!(child.get(&"Foo".to_string()), Some(&PublicMethodRef { class: ClassId(1), id: PublicMethodId(0) }));
    // Bar is private in the child: it is no longer a public method the child sees
    assert_eq!(child.get(&"Bar".to_string()), None);
    let base = idx.effective_public_methods.get(&ClassId(0)).unwrap();
    assert_eq!(base.get(&"Bar".to_string()), Some(&PublicMethodRef { class: ClassId(0), id: PublicMethodId(1) }));
    let foo_base = PublicMethodRef { class: ClassId(0), id: PublicMethodId(0) };
    let bar_base = PublicMethodRef { class: ClassId(0), id: PublicMethodId(1) };
    let child_foo = MethodRef { class: ClassId(1), pub_id: Some(PublicMethodId(0)), priv_id: None };
    let child_bar = MethodRef { class: ClassId(1), pub_id: None, priv_id: Some(PrivateMethodId(0)) };
    assert_eq!(idx.overrides.get(&child_foo), Some(&foo_base));
    assert_eq!(idx.overrides.get(&child_bar), Some(&bar_base));
    assert_eq!(idx.overridden_by.get(&foo_base), Some(&vec![child_foo]));
    assert_eq!(idx.overridden_by.get(&bar_base), Some(&vec![child_bar]));
}

#[test]
fn override_index_parent_precedence_follows_direction() {
    let mut gsm = GlobalSemanticModel::new();
    gsm.new_class(class_with("Left", vec![], &["M"], &[]));
    gsm.new_class(class_with("Right", vec![], &["M"], &[]));
    gsm.new_class(class_with("LeftFirst", vec![0, 1], &[], &[]));
    let mut right_first = class_with("RightFirst", vec![0, 1], &[], &[]);
    right_first.inheritance_direction = "right".to_string();
    gsm.new_class(right_first);
    let idx = gsm.build_override_index();
    let m = "M".to_string();
    assert_eq!(
        idx.effective_public_methods.get(&ClassId(2)).unwrap().get(&m),
        Some(&PublicMethodRef { class: ClassId(0), id: PublicMethodId(0) })
    );
    assert_eq!(
        idx.effective_public_methods.get(&ClassId(3)).unwrap().get(&m),
        Some(&PublicMethodRef { class: ClassId(1), id: PublicMethodId(0) })
    );
}

#[test]
fn override_index_cycle_is_not_resolved() {
    let mut gsm = GlobalSemanticModel::new();
    gsm.new_class(class_with("A", vec![1], &["X"], &[]));
    gsm.new_class(class_with("B", vec![0], &["Y"], &[]));
    let idx = gsm.build_override_index();
    // the search stops where the cycle closes: B is finished inside A's search and does not see X
    let b = idx.effective_public_methods.get(&ClassId(1)).unwrap();
    assert_eq!(b.get(&"X".to_string()), None);
    let a = idx.effective_public_methods.get(&ClassId(0)).unwrap();
    assert_eq!(
        a.get(&"Y".to_string()),
        Some(&PublicMethodRef { class: ClassId(1), id: PublicMethodId(0) })
    );
}

#[test]
fn keyword_inheritance_fills_missing_values_from_leftmost_parent() {
    let mut gsm = GlobalSemanticModel::new();
    let mut base = class_with("Base", vec![], &[], &[]);
    base.is_procedure_block = Some(false);
    base.default_language = Some(Language::TSql);
    gsm.new_class(base);
    let mut mid = class_with("Mid", vec![0], &[], &[]);
    mid.default_language = Some(Language::Objectscript);
    gsm.new_class(mid);
    gsm.new_class(class_with("Leaf", vec![1], &[], &[]));
    gsm.new_class(class_with("Other", vec![], &[], &[]));
    gsm.class_keyword_inheritance();
    assert_eq!(gsm.classes[2].is_procedure_block, Some(false));
    assert_eq!(gsm.classes[2].default_language, Some(Language::Objectscript));
    assert_eq!(gsm.classes[1].is_procedure_block, Some(false));
    assert_eq!(gsm.classes[1].default_language, Some(Language::Objectscript));
    assert_eq!(gsm.classes[3].is_procedure_block, None);
    assert_eq!(gsm.classes[3].default_language, None);
}

#[test]
fn method_new_and_update_keywords() {
    let mut m = method("Foo", true);
    assert_eq!(m.name, "Foo");
    assert_eq!(m.private_variables.len(), 0);
    m.update_keywords(true, Language::TSql);
    // ProcedureBlock is only inherited when the class turns it off
    assert_eq!(m.is_procedure_block, None);
    assert_eq!(m.language, Some(Language::TSql));
    m.update_keywords(false, Language::Python);
    assert_eq!(m.is_procedure_block, Some(false));
    assert_eq!(m.language, Some(Language::TSql));
}

#[test]
fn variable_new_keeps_fields() {
    let v = Variable::new("x".to_string(), None, vec![VarType::Number], true);
    assert_eq!(v.name, "x");
    assert!(v.is_public);
    assert_eq!(v.var_type.len(), 1);
}

#[test]
fn global_model_tables() {
    let mut gsm = GlobalSemanticModel::new();
    let id = gsm.new_class(Class::new("A".to_string()));
    assert_eq!(id, ClassId(0));
    gsm.new_method(method("M", true), id);
    assert_eq!(gsm.get_method(id, "A", 0).map(|m| m.name.clone()), Some("M".to_string()));
    assert!(gsm.get_method(id, "A", 1).is_none());
    assert!(gsm.edit_method(id, 0, MethodEdit::Keywords(false, Language::Python)));
    assert_eq!(gsm.get_method(id, "A", 0).unwrap().is_procedure_block, Some(false));
    assert!(!gsm.edit_method(ClassId(4), 0, MethodEdit::Keywords(false, Language::Python)));
    let var_id = gsm.new_variable(Variable::new("v".to_string(), None, Vec::new(), true), &id);
    assert_eq!(var_id.0, 0);
    let lsm = gsm.new_local_semantic(LocalSemanticModel::new());
    assert_eq!(lsm.0, 0);
    assert!(gsm.get_local_semantic(lsm).unwrap().active);
    assert!(gsm.get_class(5).is_none());
}

#[test]
fn reset_doc_semantics_clears_class_and_tables() {
    let mut gsm = GlobalSemanticModel::new();
    let mut c = class_with("Old", vec![], &["M"], &[]);
    c.is_procedure_block = Some(true);
    let id = gsm.new_class(c);
    gsm.new_method(method("M", true), id);
    let lsm = gsm.new_local_semantic(LocalSemanticModel::new());
    gsm.reset_doc_semantics(id, "New".to_string(), lsm);
    assert_eq!(gsm.classes[0].name, "New");
    assert_eq!(gsm.classes[0].public_methods.len(), 0);
    assert_eq!(gsm.classes[0].is_procedure_block, None);
    assert_eq!(gsm.classes[0].inheritance_direction, "left");
    assert!(gsm.get_method(id, "New", 0).is_none());
    assert!(!gsm.private[0].active);
}

#[test]
fn override_index_records_nothing_without_replacements() {
    let mut gsm = GlobalSemanticModel::new();
    gsm.new_class(class_with("A", vec![], &["Foo"], &[]));
    gsm.new_class(class_with("B", vec![], &["Foo"], &[]));
    let mut c = class_with("C", vec![0, 1], &[], &[]);
    c.inheritance_direction = "right".to_string();
    gsm.new_class(c);
    let idx = gsm.build_override_index();
    assert_eq!(
        idx.effective_public_methods.get(&ClassId(2)).unwrap().get(&"Foo".to_string()),
        Some(&PublicMethodRef { class: ClassId(1), id: PublicMethodId(0) })
    );
    assert_eq!(idx.overrides.len(), 0);
    assert_eq!(idx.overridden_by.len(), 0);
}

#[test]
fn override_index_lists_a_public_override_once() {
    let mut gsm = GlobalSemanticModel::new();
    gsm.new_class(class_with("A", vec![], &["Foo"], &[]));
    gsm.new_class(class_with("B", vec![0], &["Foo"], &[]));
    let idx = gsm.build_override_index();
    let b = MethodRef { class: ClassId(1), pub_id: Some(PublicMethodId(0)), priv_id: None };
    let base = PublicMethodRef { class: ClassId(0), id: PublicMethodId(0) };
    assert_eq!(idx.overrides.len(), 1);
    assert_eq!(idx.overrides.get(&b), Some(&base));
    assert_eq!(idx.overridden_by.len(), 1);
    assert_eq!(idx.overridden_by.get(&base), Some(&vec![b]));
    assert_eq!(
        idx.effective_public_methods.get(&ClassId(1)).unwrap().get(&"Foo".to_string()),
        Some(&PublicMethodRef { class: ClassId(1), id: PublicMethodId(0) })
    );
}

#[test]
fn override_index_gives_a_table_to_a_private_redeclaring_an_inherited_private() {
    let mut gsm = GlobalSemanticModel::new();
    gsm.new_class(class_with("A", vec![], &[], &["Foo"]));
    gsm.new_class(class_with("B", vec![0], &[], &["Foo"]));
    let idx = gsm.build_override_index();
    // every class has a table; only public methods can be overridden
    assert!(idx.effective_public_methods.contains_key(&ClassId(0)));
    assert!(idx.effective_public_methods.contains_key(&ClassId(1)));
    assert_eq!(idx.effective_public_methods.get(&ClassId(1)).unwrap().len(), 0);
    assert_eq!(idx.overrides.len(), 0);
    assert_eq!(idx.overridden_by.len(), 0);
}

#[test]
fn override_index_gives_every_class_of_a_cycle_a_table() {
    let mut gsm = GlobalSemanticModel::new();
    gsm.new_class(class_with("A", vec![1], &[], &[]));
    gsm.new_class(class_with("B", vec![0], &[], &[]));
    gsm.new_class(class_with("C", vec![0], &["Z"], &[]));
    let idx = gsm.build_override_index();
    assert!(idx.effective_public_methods.contains_key(&ClassId(0)));
    assert!(idx.effective_public_methods.contains_key(&ClassId(1)));
    assert_eq!(
        idx.effective_public_methods.get(&ClassId(2)).unwrap().get(&"Z".to_string()),
        Some(&PublicMethodRef { class: ClassId(2), id: PublicMethodId(0) })
    );
    assert_eq!(idx.overrides.len(), 0);
}

#[test]
fn override_index_private_overriding_public_is_listed_once() {
    let mut gsm = GlobalSemanticModel::new();
    gsm.new_class(class_with("A", vec![], &["Foo"], &[]));
    gsm.new_class(class_with("B", vec![0], &[], &["Foo"]));
    gsm.new_class(class_with("C", vec![1], &["Foo"], &[]));
    let idx = gsm.build_override_index();
    let base = PublicMethodRef { class: ClassId(0), id: PublicMethodId(0) };
    let b = MethodRef { class: ClassId(1), pub_id: None, priv_id: Some(PrivateMethodId(0)) };
    assert_eq!(idx.overrides.get(&b), Some(&base));
    assert_eq!(idx.overridden_by.get(&base), Some(&vec![b]));
    // C inherits B's private Foo, which no public declaration can override
    let c = MethodRef { class: ClassId(2), pub_id: Some(PublicMethodId(0)), priv_id: None };
    assert_eq!(idx.overrides.get(&c), None);
    assert_eq!(idx.overrides.len(), 1);
}
