use crate::class::{
    class_keyword_values, class_keywords_fold, class_kinds_ok, class_methods, has_class_keywords, is_blank_class,
    methods_built, ClassKeywordKinds,
};
use crate::config::Config;
use crate::document::Document;
use crate::calls::{build_method_calls, build_method_calls_from_unresolved, method_calls, resolve_call, site_records};
use crate::global_semantic::{
    class_shapes, keyword_result_ok, keyword_snaps, listed, same_but_calls, GlobalSemanticModel, KeywordSnap,
};
use crate::method::{
    contains_name, keywords_after_update, method_edited, method_variable_sources, variable_from_source, MethodEdit, VariableSource,
};
use crate::override_index::{all_decl_ids_distinct, class_table, has_entry, overriders_recorded, records_single, overrides_listed, pairs_explained, public_part, resolvable};
use crate::parse_structures::{
    Language, MethodCallSite, MethodRef, Point, PrivateVarId, PublicMethodRef, PublicVarId, UnresolvedCallSite, Variable,
};
use crate::scope_structures::{MethodGlobalSymbol, MethodSymbol, VariableSymbolId};
use crate::variable::VariableDef;
use crate::text::{
    byte_range_ok, apply_content_changes, apply_content_changes_in_order, edits_in_order, last_full_change, ranged_edits,
    ContentChange,
};
use crate::syntax::parse_source;
use crate::local_semantic::LocalSemanticModel;
use crate::maps::{AssocMap, MapKey};
use crate::override_index::OverrideIndex;
use crate::parse_structures::{
    Class, ClassId, FileType, LocalSemanticModelId, Method, PrivateMethodId, PublicMethodId,
    TextRange,
};
use crate::scope_structures::{
    ClassGlobalSymbol, ClassGlobalSymbolId, MethodGlobalSymbolId, ScopeId, VariableGlobalSymbol, VariableGlobalSymbolId,
};
use crate::scope_tree::{add_entries, initial_build_scope_tree, law_new_variable_read_back, scope_descent, scope_is_empty, scope_shapes, subtree_scopes, variable_added};
use crate::syntax::{
    byte_descent, child_of, class_name_chars, find_class_definition, first_class_definition, get_class_name_from_root,
    has_class_name, lemma_class_name_chars, lemma_node_text_chars, node_chars, parsed_as, syntax_has_error, tree_follows_paths, tree_wf, SyntaxTree,
};
use crate::calls::{nth_child, readable};
use crate::scope_tree::ScopeTree;
use vstd::prelude::*;
use vstd::string::StringSliceAdditionalSpecFns;
use vstd::utf8::{decode_utf8, encode_utf8, encode_utf8_decode_utf8};

verus! {

/// The in-memory state of one workspace: its settings, documents, semantic models and the
/// symbol indexes used for lookups such as go-to-definition and override resolution.
#[derive(Debug)]
pub struct ProjectData {
    /// The user settings of this workspace.
    pub config: Config,
    /// URL -> document, for each `.cls`, `.mac` and `.inc` document of the workspace.
    pub documents: AssocMap<String, Document>,
    /// All semantic information of the workspace.
    pub global_semantic_model: GlobalSemanticModel,
    /// Class name -> index into the classes of the semantic model.
    pub classes: AssocMap<String, ClassId>,
    /// Class name -> index into the class symbols of the semantic model.
    pub class_defs: AssocMap<String, ClassGlobalSymbolId>,
    /// Class name -> (method name -> method symbol), for public methods.
    pub pub_method_defs: AssocMap<String, AssocMap<String, MethodGlobalSymbolId>>,
    /// Variable name -> (class name -> symbols), for public variables.
    pub pub_var_defs: AssocMap<String, AssocMap<String, Vec<VariableGlobalSymbolId>>>,
    /// The override index of the workspace.
    pub override_index: OverrideIndex,
}

/// The method tables that the methods `ms` make, in order: public and private names with
/// their ids (a later method of the same name wins), and the public and the private methods.
pub open spec fn declared_tables(ms: Seq<(Method, TextRange)>) -> (Map<Seq<char>, PublicMethodId>, Map<Seq<char>, PrivateMethodId>, Seq<Method>, Seq<Method>)
    decreases ms.len(),
{
    if ms.len() == 0 {
        (Map::empty(), Map::empty(), Seq::empty(), Seq::empty())
    } else {
        let (pm, vm, pubs, privs) = declared_tables(ms.drop_last());
        let m = ms.last().0;
        if m.is_public {
            (pm.insert(m.name@, PublicMethodId(pubs.len() as usize)), vm, pubs.push(m), privs)
        } else {
            (pm, vm.insert(m.name@, PrivateMethodId(privs.len() as usize)), pubs, privs.push(m))
        }
    }
}

/// `c` is the class named `name` that the class definition `node` of `t` declares before its
/// statements are read, `ms` being the methods (with the ranges of their definitions) that
/// its body declares: its public and private method tables are those that `ms` make, its
/// keywords are read from its class keywords, and it has no imports, parents, properties,
/// parameters or calls yet.
pub open spec fn class_from_definition(
    t: SyntaxTree,
    content: &str,
    node: int,
    name: Seq<char>,
    c: Class,
    ms: Seq<(Method, TextRange)>,
) -> bool {
    let count = t.nodes@[node].child_count as int;
    &&& methods_built(t, content, class_methods(t, content, node, count), ms)
    &&& c.public_methods@ == declared_tables(ms).0
    &&& c.private_methods@ == declared_tables(ms).1
    &&& !has_class_keywords(t, node, count) ==> class_keyword_values(c) == (None::<bool>, None::<Language>, "left"@)
    &&& has_class_keywords(t, node, count) ==> exists|kinds: ClassKeywordKinds|
        class_kinds_ok(kinds) && class_keyword_values(c) == #[trigger] class_keywords_fold(
            t,
            content,
            kinds,
            node,
            count,
            (None::<bool>, None::<Language>, "left"@),
        )
    &&& c.name@ == name
    &&& c.imports@.len() == 0
    &&& c.inherited_classes@.len() == 0
    &&& c.private_properties@.len() == 0
    &&& c.public_properties@.len() == 0
    &&& c.parameters@.len() == 0
    &&& c.method_calls@.len() == 0
    &&& c.active
}

/// The symbols that the public methods of `ms` get, in order: name, document and range.
pub open spec fn public_symbol_entries(ms: Seq<(Method, TextRange)>, url: Seq<char>) -> Seq<(Seq<char>, Seq<char>, TextRange)>
    decreases ms.len(),
{
    if ms.len() == 0 {
        Seq::empty()
    } else {
        let before = public_symbol_entries(ms.drop_last(), url);
        if ms.last().0.is_public {
            before.push((ms.last().0.name@, url, ms.last().1))
        } else {
            before
        }
    }
}

/// The method symbol table of class `name` in `defs`, empty when there is none.
pub open spec fn method_table(defs: AssocMap<String, AssocMap<String, MethodGlobalSymbolId>>, name: Seq<char>) -> Map<Seq<char>, MethodGlobalSymbolId> {
    if defs@.contains_key(name) {
        defs@[name]@
    } else {
        Map::empty()
    }
}

/// `base` with each public method of `ms` mapped to the id of its symbol, the symbols being
/// numbered in order from `offset`.
pub open spec fn public_symbol_index(
    base: Map<Seq<char>, MethodGlobalSymbolId>,
    offset: int,
    ms: Seq<(Method, TextRange)>,
    url: Seq<char>,
) -> Map<Seq<char>, MethodGlobalSymbolId>
    decreases ms.len(),
{
    if ms.len() == 0 {
        base
    } else {
        let before = public_symbol_index(base, offset, ms.drop_last(), url);
        if ms.last().0.is_public {
            before.insert(
                ms.last().0.name@,
                MethodGlobalSymbolId((offset + public_symbol_entries(ms.drop_last(), url).len()) as usize),
            )
        } else {
            before
        }
    }
}

/// Name, document and range of each method symbol of `syms`.
pub open spec fn symbol_entries(syms: Seq<MethodGlobalSymbol>) -> Seq<(Seq<char>, Seq<char>, TextRange)> {
    syms.map_values(|s: MethodGlobalSymbol| (s.name@, s.url@, s.location))
}

/// `base` with the range of each private method of `ms` recorded under its name, in order.
pub open spec fn private_method_ranges(base: Map<Seq<char>, TextRange>, ms: Seq<(Method, TextRange)>) -> Map<Seq<char>, TextRange>
    decreases ms.len(),
{
    if ms.len() == 0 {
        base
    } else {
        let before = private_method_ranges(base, ms.drop_last());
        if ms.last().0.is_public {
            before
        } else {
            before.insert(ms.last().0.name@, ms.last().1)
        }
    }
}

/// The range of each private method symbol of a scope tree, by name.
pub open spec fn symbol_ranges(defs: Map<Seq<char>, MethodSymbol>) -> Map<Seq<char>, TextRange> {
    defs.map_values(|s: MethodSymbol| s.location)
}

/// The class `class_id` of `after` was built from the class definition of the document at
/// `url`: it is the class that definition declares, its public methods were added to the
/// semantic model with their symbols under the class symbol `symbol_id` and in the method
/// symbol table of the class's name, and its private methods make the new local model and are
/// the method symbols of the document's scope tree.
pub open spec fn class_built(
    before: ProjectData,
    after: ProjectData,
    url: Seq<char>,
    class_id: ClassId,
    symbol_id: ClassGlobalSymbolId,
) -> bool {
    let d = after.documents@[url];
    let t = d.tree;
    let node = first_class_definition(t, 0)->0;
    let c = after.global_semantic_model.classes@[class_id.0 as int];
    &&& first_class_definition(t, 0) is Some
    &&& exists|code: &str, ms: Seq<(Method, TextRange)>| {
        &&& code@ == d.content@
        &&& #[trigger] class_from_definition(t, code, node, d.class_name@, c, ms)
        &&& listed(after.global_semantic_model.methods@, class_id)
            == listed(before.global_semantic_model.methods@, class_id) + declared_tables(ms).2
        &&& after.global_semantic_model.private@.last().methods@ == declared_tables(ms).3
        &&& symbol_entries(listed(after.global_semantic_model.method_defs@, symbol_id))
            == symbol_entries(listed(before.global_semantic_model.method_defs@, symbol_id)) + public_symbol_entries(ms, url)
        &&& symbol_ranges(d.scope_tree.method_defs()) == private_method_ranges(Map::empty(), ms)
        &&& method_table(after.pub_method_defs, d.class_name@) == public_symbol_index(
            method_table(before.pub_method_defs, d.class_name@),
            listed(before.global_semantic_model.method_defs@, symbol_id).len() as int,
            ms,
            url,
        )
    }
    &&& after.pub_method_defs@.remove(d.class_name@) == before.pub_method_defs@.remove(d.class_name@)
}

/// The scopes of `st` are those that the first build of a scope tree makes from `t`: one
/// scope for the whole document and one for each scoped construct, all empty.
pub open spec fn fresh_scopes(st: ScopeTree, t: SyntaxTree) -> bool {
    &&& scope_shapes(st.scope_seq()) == add_entries(
        seq![(Point { row: 0, column: 0 }, Point { row: usize::MAX, column: usize::MAX }, None, Seq::empty())],
        subtree_scopes(t, 0, 0, 1),
        t,
    )
    &&& forall|i: int| 0 <= i < st.scope_seq().len() ==> scope_is_empty(#[trigger] st.scope_seq()[i])
}

/// The document at `url` was registered as a class document: it holds `code` and points to
/// the class, class symbol and local model created for it.
pub open spec fn registered_document(
    before: ProjectData,
    after: ProjectData,
    url: Seq<char>,
    code: Seq<char>,
    class_name: Seq<char>,
    file_type: FileType,
    version: Option<i32>,
) -> bool {
    let class_id = ClassId(before.global_semantic_model.classes@.len() as usize);
    let symbol_id = ClassGlobalSymbolId(before.global_semantic_model.class_defs@.len() as usize);
    let lsm_id = LocalSemanticModelId(before.global_semantic_model.private@.len() as usize);
    &&& after.documents@.contains_key(url)
    &&& after.documents@[url].content@ == code
    &&& after.documents@[url].class_name@ == class_name
    &&& after.documents@[url].file_type == file_type
    &&& after.documents@[url].version == version
    &&& after.documents@[url].class_id == Some(class_id)
    &&& after.documents@[url].local_semantic_model_id == Some(lsm_id)
    &&& after.documents@[url].scope_tree.class_symbol() == symbol_id
    &&& fresh_scopes(after.documents@[url].scope_tree, after.documents@[url].tree)
    &&& after.documents@.remove(url) == before.documents@.remove(url)
    &&& after.classes@ == before.classes@.insert(class_name, class_id)
    &&& after.class_defs@ == before.class_defs@.insert(class_name, symbol_id)
    &&& after.global_semantic_model.classes@.len() == before.global_semantic_model.classes@.len() + 1
    &&& after.global_semantic_model.classes@.take(before.global_semantic_model.classes@.len() as int)
        == before.global_semantic_model.classes@
    &&& after.global_semantic_model.classes@.last().name@ == class_name
    &&& class_built(before, after, url, class_id, symbol_id)
    &&& after.global_semantic_model.class_defs@.len() == before.global_semantic_model.class_defs@.len() + 1
    &&& after.global_semantic_model.class_defs@.last().name@ == class_name
    &&& after.global_semantic_model.class_defs@.last().url@ == url
    &&& after.global_semantic_model.class_defs@.last().alive
    &&& after.global_semantic_model.private@.len() == before.global_semantic_model.private@.len() + 1
}

impl ProjectData {
    /// A workspace with default settings (every feature on) and nothing indexed.
    pub fn new() -> (r: Self)
        ensures
            r.config.enable_snippets && r.config.enable_formatting && r.config.enable_lint && r.config.enable_strict_mode,
            r.documents@ == Map::<Seq<char>, Document>::empty(),
            r.classes@ == Map::<Seq<char>, ClassId>::empty(),
            r.class_defs@ == Map::<Seq<char>, ClassGlobalSymbolId>::empty(),
            r.pub_method_defs@ == Map::<Seq<char>, AssocMap<String, MethodGlobalSymbolId>>::empty(),
            r.pub_var_defs@ == Map::<Seq<char>, AssocMap<String, Vec<VariableGlobalSymbolId>>>::empty(),
            r.documents@.len() == 0,
            r.classes@.len() == 0,
            r.class_defs@.len() == 0,
            r.global_semantic_model.classes@.len() == 0,
            r.global_semantic_model.methods@ == Map::<ClassId, Vec<Method>>::empty(),
            r.global_semantic_model.variables@ == Map::<ClassId, Vec<Variable>>::empty(),
            r.global_semantic_model.private@.len() == 0,
            r.global_semantic_model.class_defs@.len() == 0,
            r.global_semantic_model.method_defs@ == Map::<ClassGlobalSymbolId, Vec<MethodGlobalSymbol>>::empty(),
            r.global_semantic_model.variable_defs@.len() == 0,
            r.override_index.effective_public_methods@.len() == 0,
            r.override_index.overrides@.len() == 0,
            r.override_index.overridden_by@.len() == 0,
    {
        ProjectData {
            config: Config::default(),
            documents: AssocMap::new(),
            global_semantic_model: GlobalSemanticModel::new(),
            classes: AssocMap::new(),
            class_defs: AssocMap::new(),
            pub_method_defs: AssocMap::new(),
            pub_var_defs: AssocMap::new(),
            override_index: OverrideIndex::new(),
        }
    }

    /// The document at `url`, if tracked.
    pub fn get_document(&self, url: &String) -> (r: Option<&Document>)
        ensures
            match r {
                Some(d) => self.documents@.contains_key(url@) && *d == self.documents@[url@],
                None => !self.documents@.contains_key(url@),
            },
    {
        self.documents.get(url)
    }

    /// The file type, text and version (0 when not yet synchronized) of the document at `url`.
    pub fn get_document_info(&self, url: &String) -> (r: Option<(FileType, String, i32)>)
        ensures
            match r {
                Some((t, text, v)) => self.documents@.contains_key(url@) && {
                    let d = self.documents@[url@];
                    &&& t == d.file_type
                    &&& text@ == d.content@
                    &&& v == (match d.version {
                        Some(x) => x,
                        None => 0,
                    })
                },
                None => !self.documents@.contains_key(url@),
            },
    {
        let document = match self.get_document(url) {
            Some(d) => d,
            None => return None,
        };
        let version = match document.version {
            Some(v) => v,
            None => 0,
        };
        Some((document.file_type, document.content.clone(), version))
    }

    /// Records the public method symbol `method_symbol_id` of method `method_name` of class
    /// `class_name`.
    fn record_public_method_symbol(
        pub_method_defs: &mut AssocMap<String, AssocMap<String, MethodGlobalSymbolId>>,
        class_name: &String,
        method_name: String,
        method_symbol_id: MethodGlobalSymbolId,
    )
        ensures
            final(pub_method_defs)@.contains_key(class_name@),
            final(pub_method_defs)@[class_name@]@ == (if old(pub_method_defs)@.contains_key(class_name@) {
                old(pub_method_defs)@[class_name@]@
            } else {
                Map::empty()
            }).insert(method_name@, method_symbol_id),
            final(pub_method_defs)@.remove(class_name@) == old(pub_method_defs)@.remove(class_name@),
    {
        let mut inner = match pub_method_defs.remove(class_name) {
            Some(m) => m,
            None => AssocMap::new(),
        };
        inner.insert(method_name, method_symbol_id);
        pub_method_defs.insert(class_name.clone(), inner);
        assert(final(pub_method_defs)@.remove(class_name@) =~= old(pub_method_defs)@.remove(class_name@));
    }

    /// Registers a new document only when `url` is not tracked yet. Returns whether it was
    /// already tracked.
    pub fn add_document_if_absent(
        &mut self,
        url: String,
        code: String,
        tree: SyntaxTree,
        filetype: FileType,
        class_name: String,
        version: Option<i32>,
    ) -> (present: bool)
        requires
            tree_wf(tree),
        ensures
            documents_wf(old(self).documents@) ==> documents_wf(final(self).documents@),
            present == old(self).documents@.contains_key(url@),
            present ==> *final(self) == *old(self),
            !present && filetype == FileType::Cls && first_class_definition(tree, 0) is Some
                ==> registered_document(*old(self), *final(self), url@, code@, class_name@, filetype, version),
            !present && (filetype != FileType::Cls || first_class_definition(tree, 0) is None)
                ==> *final(self) == *old(self),
    {
        if self.documents.contains_key(&url) {
            return true;
        }
        self.add_document(url, code, tree, filetype, class_name, version);
        false
    }

    /// Parses and registers a new class document: builds its class and methods, its class
    /// symbol, scope tree and local semantic model, records public methods in the semantic
    /// model and the method symbol tables, private methods in the local model and the scope
    /// tree, and indexes the class by name.
    ///
    /// Other file types, and class files without a class definition, are ignored.
    pub fn add_document(
        &mut self,
        url: String,
        code: String,
        tree: SyntaxTree,
        filetype: FileType,
        class_name: String,
        version: Option<i32>,
    )
        requires
            tree_wf(tree),
        ensures
            documents_wf(old(self).documents@) ==> documents_wf(final(self).documents@),
            filetype == FileType::Cls && first_class_definition(tree, 0) is Some
                ==> registered_document(*old(self), *final(self), url@, code@, class_name@, filetype, version),
            filetype != FileType::Cls || first_class_definition(tree, 0) is None ==> *final(self) == *old(self),
    {
        if filetype != FileType::Cls {
            return;
        }
        let node = match find_class_definition(&tree) {
            Some(n) => n,
            None => return,
        };
        let ghost before = *self;
        let class_range = tree.range(node);
        let mut local_semantic_model = LocalSemanticModel::new();
        let mut gsm_methods: Vec<Method> = Vec::new();
        let mut class = Class::new(class_name.clone());
        let ghost blank = class;
        let code_str = code.as_str();
        let ghost code_ref = code_str;
        let mut methods = class.initial_build(&tree, node, code_str);
        let ghost built = methods@;
        let ghost keyed = class;
        assert(class.name@ == class_name@);
        proof {
            assert(declared_tables(built.take(0)) == declared_tables(Seq::<(Method, TextRange)>::empty())) by {
                assert(built.take(0) =~= Seq::<(Method, TextRange)>::empty());
            }
            assert(class.public_methods@ =~= Map::<Seq<char>, PublicMethodId>::empty());
            assert(class.private_methods@ =~= Map::<Seq<char>, PrivateMethodId>::empty());
            assert(gsm_methods@ =~= Seq::<Method>::empty());
            assert(local_semantic_model.methods@ =~= Seq::<Method>::empty());
            assert(methods@ =~= built.skip(0));
        }
        let class_symbol_id = self.global_semantic_model.new_class_symbol(
            class_name.clone(),
            class_range,
            url.clone(),
        );
        let mut scope_tree = initial_build_scope_tree(&tree, class_symbol_id);
        let ghost init_scopes = scope_tree.scope_seq();
        let ghost url_view = url@;
        proof {
            assert(public_symbol_index(
                method_table(before.pub_method_defs, class_name@),
                listed(before.global_semantic_model.method_defs@, class_symbol_id).len() as int,
                built.take(0),
                url_view,
            ) == method_table(before.pub_method_defs, class_name@));
            assert(public_symbol_entries(built.take(0), url_view) == Seq::<(Seq<char>, Seq<char>, TextRange)>::empty());
            assert(symbol_entries(listed(self.global_semantic_model.method_defs@, class_symbol_id)) + public_symbol_entries(built.take(0), url_view)
                =~= symbol_entries(listed(before.global_semantic_model.method_defs@, class_symbol_id)));
            assert(symbol_ranges(scope_tree.method_defs()) =~= private_method_ranges(Map::empty(), built.take(0)));
        }
        while methods.len() > 0
            invariant
                class.name@ == class_name@,
                url_view == url@,
                scope_tree.class_symbol() == class_symbol_id,
                scope_tree.scope_seq() == init_scopes,
                scope_tree.root_id() == ScopeId(0),
                symbol_entries(listed(self.global_semantic_model.method_defs@, class_symbol_id))
                    == symbol_entries(listed(before.global_semantic_model.method_defs@, class_symbol_id))
                    + public_symbol_entries(built.take(built.len() - methods@.len()), url_view),
                symbol_ranges(scope_tree.method_defs()) == private_method_ranges(Map::empty(), built.take(built.len() - methods@.len())),
                method_table(self.pub_method_defs, class_name@) == public_symbol_index(
                    method_table(before.pub_method_defs, class_name@),
                    listed(before.global_semantic_model.method_defs@, class_symbol_id).len() as int,
                    built.take(built.len() - methods@.len()),
                    url_view,
                ),
                self.pub_method_defs@.remove(class_name@) == before.pub_method_defs@.remove(class_name@),
                methods@.len() <= built.len(),
                methods@ == built.skip(built.len() - methods@.len()),
                class == (Class { public_methods: class.public_methods, private_methods: class.private_methods, ..keyed }),
                ({
                    let (pm, vm, pubs, privs) = declared_tables(built.take(built.len() - methods@.len()));
                    &&& class.public_methods@ == pm
                    &&& class.private_methods@ == vm
                    &&& gsm_methods@ == pubs
                    &&& local_semantic_model.methods@ == privs
                }),
                self.global_semantic_model.classes == before.global_semantic_model.classes,
                self.global_semantic_model.methods == before.global_semantic_model.methods,
                self.global_semantic_model.private == before.global_semantic_model.private,
                self.global_semantic_model.class_defs@ == before.global_semantic_model.class_defs@.push(
                    ClassGlobalSymbol { name: class_name, url, location: class_range, alive: true },
                ),
                self.documents == before.documents,
                self.classes == before.classes,
                self.class_defs == before.class_defs,
            decreases methods@.len(),
        {
            let ghost k = built.len() - methods@.len();
            proof {
                assert(built.take(k + 1).drop_last() =~= built.take(k));
                assert(built.take(k + 1).last() == built[k]);
                assert(methods@[0] == built[k]);
            }
            let (method, range) = methods.remove(0);
            proof {
                assert(methods@ =~= built.skip(k + 1));
            }
            let method_name = method.name.clone();
            let ghost prev = declared_tables(built.take(k));
            let ghost prev_syms = listed(self.global_semantic_model.method_defs@, class_symbol_id);
            let ghost prev_defs = scope_tree.method_defs();
            let ghost prev_pub = self.pub_method_defs@;
            proof {
                assert(method == built.take(k + 1).last().0);
                assert(range == built.take(k + 1).last().1);
            }
            if method.is_public {
                let method_id = PublicMethodId(gsm_methods.len());
                gsm_methods.push(method);
                class.public_methods.insert(method_name.clone(), method_id);
                assert(declared_tables(built.take(k + 1)) == (
                    prev.0.insert(method.name@, PublicMethodId(prev.2.len() as usize)),
                    prev.1,
                    prev.2.push(method),
                    prev.3,
                ));
                match self.global_semantic_model.new_method_symbol(
                    method_name.clone(),
                    range,
                    url.clone(),
                    class_symbol_id,
                ) {
                    Some(method_symbol_id) => {
                        Self::record_public_method_symbol(
                            &mut self.pub_method_defs,
                            &class_name,
                            method_name,
                            method_symbol_id,
                        );
                    },
                    None => {},
                }
                proof {
                    let syms = listed(self.global_semantic_model.method_defs@, class_symbol_id);
                    assert(syms.drop_last() == prev_syms);
                    assert(symbol_entries(syms) =~= symbol_entries(prev_syms).push((method.name@, url_view, range)));
                    assert(public_symbol_entries(built.take(k + 1), url_view)
                        == public_symbol_entries(built.take(k), url_view).push((method.name@, url_view, range)));
                    assert(symbol_entries(prev_syms).len() == prev_syms.len());
                    assert(symbol_entries(listed(before.global_semantic_model.method_defs@, class_symbol_id)).len()
                        == listed(before.global_semantic_model.method_defs@, class_symbol_id).len());
                    assert(self.pub_method_defs@.remove(class_name@) =~= before.pub_method_defs@.remove(class_name@));
                }
            } else {
                let method_id = local_semantic_model.new_method(method);
                class.private_methods.insert(method_name.clone(), method_id);
                scope_tree.new_method_symbol(method_name, range);
                proof {
                    assert(symbol_ranges(scope_tree.method_defs()) =~= symbol_ranges(prev_defs).insert(method.name@, range));
                }
                assert(declared_tables(built.take(k + 1)) == (
                    prev.0,
                    prev.1.insert(method.name@, PrivateMethodId(prev.3.len() as usize)),
                    prev.2,
                    prev.3.push(method),
                ));
            }
        }
        proof {
            assert(built.take(built.len() as int) =~= built);
        }
        let ghost final_class = class;
        let ghost pubs = gsm_methods@;
        let ghost symbols_after = self.global_semantic_model.method_defs;
        let ghost names_after = self.pub_method_defs;
        let class_id = self.global_semantic_model.new_class(class);
        proof {
            assert(pubs.take(0) =~= Seq::<Method>::empty());
            assert(listed(self.global_semantic_model.methods@, class_id) + pubs.take(0)
                =~= listed(self.global_semantic_model.methods@, class_id));
            assert(gsm_methods@ =~= pubs.skip(0));
        }
        while gsm_methods.len() > 0
            invariant
                class_id.0 == before.global_semantic_model.classes@.len(),
                gsm_methods@.len() <= pubs.len(),
                gsm_methods@ == pubs.skip(pubs.len() - gsm_methods@.len()),
                listed(self.global_semantic_model.methods@, class_id) == listed(
                    before.global_semantic_model.methods@,
                    class_id,
                ) + pubs.take(pubs.len() - gsm_methods@.len()),
                self.global_semantic_model.classes@ == before.global_semantic_model.classes@.push(final_class),
                self.global_semantic_model.private == before.global_semantic_model.private,
                self.global_semantic_model.method_defs == symbols_after,
                self.pub_method_defs == names_after,
                self.global_semantic_model.class_defs@ == before.global_semantic_model.class_defs@.push(
                    ClassGlobalSymbol { name: class_name, url, location: class_range, alive: true },
                ),
                self.documents == before.documents,
                self.classes == before.classes,
                self.class_defs == before.class_defs,
            decreases gsm_methods@.len(),
        {
            let ghost j = pubs.len() - gsm_methods@.len();
            proof {
                assert(gsm_methods@[0] == pubs[j]);
                assert(pubs.take(j + 1) =~= pubs.take(j).push(pubs[j]));
            }
            let method = gsm_methods.remove(0);
            self.global_semantic_model.new_method(method, class_id);
            proof {
                assert(gsm_methods@ =~= pubs.skip(j + 1));
            }
        }
        proof {
            assert(pubs.take(pubs.len() as int) =~= pubs);
        }
        self.classes.insert(class_name.clone(), class_id);
        let local_semantic_id = self.global_semantic_model.new_local_semantic(local_semantic_model);
        let mut document = Document::new(
            code,
            tree,
            filetype,
            class_name.clone(),
            scope_tree,
            version,
        );
        document.local_semantic_model_id = Some(local_semantic_id);
        document.class_id = Some(class_id);
        assert(tree_wf(document.tree));
        self.documents.insert(url, document);
        self.class_defs.insert(class_name, class_symbol_id);
        proof {
            if documents_wf(before.documents@) {
                assert forall|v: Seq<char>| #[trigger] self.documents@.contains_key(v) implies tree_wf(self.documents@[v].tree) by {
                    if v != url_view {
                        assert(self.documents@[v] == before.documents@[v]);
                    }
                }
            }
            assert(self.documents@.remove(url_view) =~= before.documents@.remove(url_view));
            assert(self.global_semantic_model.classes@.take(before.global_semantic_model.classes@.len() as int)
                =~= before.global_semantic_model.classes@);
            let t = self.documents@[url_view].tree;
            let count = t.nodes@[node as int].child_count as int;
            let (pm, vm, ps, privs) = declared_tables(built);
            assert(code_ref@ == self.documents@[url_view].content@);
            assert(methods_built(t, code_ref, class_methods(t, code_ref, node as int, count), built));
            assert(class_keyword_values(blank) == (None::<bool>, None::<Language>, "left"@));
            assert(class_keyword_values(final_class) == class_keyword_values(keyed));
            assert(self.global_semantic_model.private@.last() == local_semantic_model);
            assert(is_blank_class(blank, class_name@, true));
            assert(final_class.imports == blank.imports);
            assert(final_class.name@ == class_name@);
            assert(final_class.active);
            assert(declared_tables(built) == (final_class.public_methods@, final_class.private_methods@, pubs, privs));
            assert(class_from_definition(t, code_ref, node as int, class_name@, final_class, built));
            assert(self.documents@[url_view].class_name@ == class_name@);
            assert(first_class_definition(t, 0) == Some(node as int));
            assert(self.global_semantic_model.classes@[class_id.0 as int] == final_class);
            assert(class_from_definition(t, code_ref, node as int, self.documents@[url_view].class_name@,
                self.global_semantic_model.classes@[class_id.0 as int], built));
            assert(listed(self.global_semantic_model.methods@, class_id) == listed(before.global_semantic_model.methods@, class_id) + pubs);
            assert(self.global_semantic_model.private@.last().methods@ == privs);
            let d = self.documents@[url_view];
            assert(d.scope_tree == scope_tree);
            assert(code_ref@ == d.content@);
            assert(first_class_definition(d.tree, 0)->0 == node as int);
            assert(exists|code: &str, ms: Seq<(Method, TextRange)>| {
                &&& code@ == d.content@
                &&& #[trigger] class_from_definition(d.tree, code, node as int, d.class_name@, self.global_semantic_model.classes@[class_id.0 as int], ms)
                &&& listed(self.global_semantic_model.methods@, class_id)
                    == listed(before.global_semantic_model.methods@, class_id) + declared_tables(ms).2
                &&& self.global_semantic_model.private@.last().methods@ == declared_tables(ms).3
                &&& symbol_entries(listed(self.global_semantic_model.method_defs@, class_symbol_id))
                    == symbol_entries(listed(before.global_semantic_model.method_defs@, class_symbol_id)) + public_symbol_entries(ms, url_view)
                &&& symbol_ranges(d.scope_tree.method_defs()) == private_method_ranges(Map::empty(), ms)
                &&& method_table(self.pub_method_defs, d.class_name@) == public_symbol_index(
                    method_table(before.pub_method_defs, d.class_name@),
                    listed(before.global_semantic_model.method_defs@, class_symbol_id).len() as int,
                    ms,
                    url_view,
                )
            });
            assert(class_built(before, *self, url_view, class_id, class_symbol_id));
        }
    }
}


/// A public method name of the methods `ms` is indexed, at an id past `offset`, to the symbol
/// entry of that name and document.
proof fn lemma_public_symbol_index(
    base: Map<Seq<char>, MethodGlobalSymbolId>,
    offset: int,
    ms: Seq<(Method, TextRange)>,
    url: Seq<char>,
    n: Seq<char>,
)
    requires
        offset >= 0,
        declared_tables(ms).0.contains_key(n),
    ensures
        public_symbol_index(base, offset, ms, url).contains_key(n),
        ({
            let id = public_symbol_index(base, offset, ms, url)[n].0 as int;
            let entries = public_symbol_entries(ms, url);
            &&& offset + public_symbol_entries(ms, url).len() <= usize::MAX ==> {
                &&& offset <= id < offset + entries.len()
                &&& entries[id - offset].0 == n
                &&& entries[id - offset].1 == url
            }
        }),
    decreases ms.len(),
{
    let last = ms.last().0;
    let rest = ms.drop_last();
    if last.is_public && last.name@ == n {
    } else {
        if last.is_public {
            assert(declared_tables(rest).0.contains_key(n));
        } else {
            assert(declared_tables(rest).0 == declared_tables(ms).0);
        }
        lemma_public_symbol_index(base, offset, rest, url, n);
        let entries = public_symbol_entries(ms, url);
        let prev = public_symbol_entries(rest, url);
        if last.is_public {
            assert(entries == prev.push((last.name@, url, ms.last().1)));
        }
    }
}

/// Every public method of a class registered from a document has a method symbol of its name
/// in that document, which the method symbol table of the class's name leads to.
pub proof fn law_registered_public_methods_have_symbols(
    before: ProjectData,
    after: ProjectData,
    url: Seq<char>,
    code: Seq<char>,
    class_name: Seq<char>,
    file_type: FileType,
    version: Option<i32>,
    n: Seq<char>,
)
    requires
        registered_document(before, after, url, code, class_name, file_type, version),
        after.global_semantic_model.classes@.last().public_methods@.contains_key(n),
        before.global_semantic_model.classes@.len() < usize::MAX,
        before.global_semantic_model.class_defs@.len() < usize::MAX,
        listed(after.global_semantic_model.method_defs@, ClassGlobalSymbolId(before.global_semantic_model.class_defs@.len() as usize)).len() <= usize::MAX,
    ensures
        ({
            let symbol_id = ClassGlobalSymbolId(before.global_semantic_model.class_defs@.len() as usize);
            let table = method_table(after.pub_method_defs, class_name);
            let syms = listed(after.global_semantic_model.method_defs@, symbol_id);
            &&& table.contains_key(n)
            &&& 0 <= table[n].0 < syms.len()
            &&& syms[table[n].0 as int].name@ == n
            &&& syms[table[n].0 as int].url@ == url
        }),
{
    let class_id = ClassId(before.global_semantic_model.classes@.len() as usize);
    let symbol_id = ClassGlobalSymbolId(before.global_semantic_model.class_defs@.len() as usize);
    let d = after.documents@[url];
    let t = d.tree;
    let node = first_class_definition(t, 0)->0;
    let c = after.global_semantic_model.classes@[class_id.0 as int];
    assert(c == after.global_semantic_model.classes@.last());
    let (code_s, ms) = choose|code_s: &str, ms: Seq<(Method, TextRange)>| {
        &&& code_s@ == d.content@
        &&& #[trigger] class_from_definition(t, code_s, node, d.class_name@, c, ms)
        &&& listed(after.global_semantic_model.methods@, class_id)
            == listed(before.global_semantic_model.methods@, class_id) + declared_tables(ms).2
        &&& after.global_semantic_model.private@.last().methods@ == declared_tables(ms).3
        &&& symbol_entries(listed(after.global_semantic_model.method_defs@, symbol_id))
            == symbol_entries(listed(before.global_semantic_model.method_defs@, symbol_id)) + public_symbol_entries(ms, url)
        &&& symbol_ranges(d.scope_tree.method_defs()) == private_method_ranges(Map::empty(), ms)
        &&& method_table(after.pub_method_defs, d.class_name@) == public_symbol_index(
            method_table(before.pub_method_defs, d.class_name@),
            listed(before.global_semantic_model.method_defs@, symbol_id).len() as int,
            ms,
            url,
        )
    };
    let offset = listed(before.global_semantic_model.method_defs@, symbol_id).len() as int;
    let syms = listed(after.global_semantic_model.method_defs@, symbol_id);
    assert(symbol_entries(syms).len() == syms.len());
    assert(symbol_entries(listed(before.global_semantic_model.method_defs@, symbol_id)).len() == offset);
    lemma_public_symbol_index(method_table(before.pub_method_defs, class_name), offset, ms, url, n);
    let id = method_table(after.pub_method_defs, class_name)[n].0 as int;
    assert(symbol_entries(syms)[id] == public_symbol_entries(ms, url)[id - offset]);
}

/// `b` holds the same documents as `a`, with at most their scope trees changed.
pub open spec fn docs_same_but_scopes(a: Map<Seq<char>, Document>, b: Map<Seq<char>, Document>) -> bool {
    &&& a.dom() == b.dom()
    &&& forall|v: Seq<char>| #[trigger] a.contains_key(v) ==> b[v] == (Document { scope_tree: b[v].scope_tree, ..a[v] })
}

pub proof fn lemma_docs_same_but_scopes_trans(a: Map<Seq<char>, Document>, b: Map<Seq<char>, Document>, c: Map<Seq<char>, Document>)
    requires
        docs_same_but_scopes(a, b),
        docs_same_but_scopes(b, c),
    ensures
        docs_same_but_scopes(a, c),
{
    assert forall|v: Seq<char>| #[trigger] a.contains_key(v) implies c[v] == (Document { scope_tree: c[v].scope_tree, ..a[v] }) by {
        assert(b.contains_key(v));
        assert(b[v] == (Document { scope_tree: b[v].scope_tree, ..a[v] }));
        assert(c[v] == (Document { scope_tree: c[v].scope_tree, ..b[v] }));
    }
}

/// Every tracked document holds a well-formed syntax tree.
pub open spec fn documents_wf(docs: Map<Seq<char>, Document>) -> bool {
    forall|u: Seq<char>| #[trigger] docs.contains_key(u) ==> tree_wf(docs[u].tree)
}

/// `id` is the id of some class known by name.
pub open spec fn is_known_class(classes: Map<Seq<char>, ClassId>, id: ClassId) -> bool {
    exists|name: Seq<char>| #[trigger] classes.contains_key(name) && classes[name] == id
}

/// The ids of the known classes named by the named children `from .. k` of node `list`, in
/// order; names that cannot be read or are not known are skipped.
pub open spec fn resolved_names(t: SyntaxTree, content: Seq<u8>, classes: Map<Seq<char>, ClassId>, list: int, from: int, k: int) -> Seq<ClassId>
    decreases k - from,
{
    if k <= from {
        Seq::empty()
    } else {
        let before = resolved_names(t, content, classes, list, from, k - 1);
        let r = t.nodes@[child_of(t, list, k - 1)].range;
        let name = decode_utf8(content.subrange(r.start_byte as int, r.end_byte as int));
        if byte_range_ok(content, r.start_byte as int, r.end_byte as int) && classes.contains_key(name) {
            before.push(classes[name])
        } else {
            before
        }
    }
}

/// The class ids that the names of the named children of node `list` (from position `from`
/// on) resolve to through `classes`, in order; names that are not known are skipped.
fn resolve_named_children(
    tree: &SyntaxTree,
    list: usize,
    from: usize,
    content: &str,
    classes: &AssocMap<String, ClassId>,
    out: &mut Vec<ClassId>,
)
    requires
        tree_wf(*tree),
        list < tree.nodes@.len(),
    ensures
        final(out)@ == old(out)@ + resolved_names(*tree, content.spec_bytes(), classes@, list as int, from as int, tree.nodes@[list as int].child_count as int),
        forall|k: int| old(out)@.len() <= k < final(out)@.len() ==> is_known_class(classes@, #[trigger] final(out)@[k]),
{
    let ghost t = *tree;
    let names = tree.named_children(list);
    let mut k: usize = from;
    let ghost start = out@;
    if k >= names.len() {
        proof {
            assert(resolved_names(t, content.spec_bytes(), classes@, list as int, from as int, names@.len() as int) =~= Seq::empty());
            assert(out@ =~= start + Seq::<ClassId>::empty());
        }
        return;
    }
    proof {
        assert(out@ =~= start + resolved_names(t, content.spec_bytes(), classes@, list as int, from as int, from as int));
    }
    while k < names.len()
        invariant
            t == *tree,
            tree_wf(*tree),
            list < tree.nodes@.len(),
            names@.len() == tree.nodes@[list as int].child_count,
            forall|m: int| 0 <= m < names@.len() ==> #[trigger] names@[m] == child_of(t, list as int, m),
            forall|m: int| 0 <= m < names@.len() ==> #[trigger] names@[m] < tree.nodes@.len(),
            from <= k <= names@.len(),
            out@ == start + resolved_names(t, content.spec_bytes(), classes@, list as int, from as int, k as int),
            forall|j: int| start.len() <= j < out@.len() ==> is_known_class(classes@, #[trigger] out@[j]),
            start == old(out)@,
        decreases names@.len() - k,
    {
        let ghost before = out@;
        match tree.node_text(content, names[k]) {
            Some(name) => {
                proof {
                    lemma_node_text_chars(t, content, names@[k as int] as int, name);
                }
                match classes.get(&name) {
                    Some(id) => {
                        out.push(*id);
                        assert(classes@.contains_key(name@) && classes@[name@] == out@.last());
                        assert(out@ =~= start + resolved_names(t, content.spec_bytes(), classes@, list as int, from as int, k + 1));
                    },
                    None => {},
                }
            },
            None => {},
        }
        k = k + 1;
    }
}

/// The imports that the top-level nodes `0 .. i` of the tree of a document name: for each
/// `import_code` node with an include clause, the known classes it names.
pub open spec fn imports_named(t: SyntaxTree, content: Seq<u8>, classes: Map<Seq<char>, ClassId>, i: int) -> Seq<ClassId>
    decreases i,
{
    if i <= 0 {
        Seq::empty()
    } else {
        let before = imports_named(t, content, classes, i - 1);
        let node = child_of(t, 0, i - 1);
        if t.nodes@[node].kind@ == "import_code"@ {
            match nth_child(t, node, 1) {
                Some(clause) => before + resolved_names(t, content, classes, clause, 0, t.nodes@[clause].child_count as int),
                None => before,
            }
        } else {
            before
        }
    }
}

/// The parents that the named children `2 .. i` of class definition `def` name: for each
/// `class_extends` node with a child, the known classes its names (after the first child)
/// name.
pub open spec fn parents_named(t: SyntaxTree, content: Seq<u8>, classes: Map<Seq<char>, ClassId>, def: int, i: int) -> Seq<ClassId>
    decreases i,
{
    if i <= 2 {
        Seq::empty()
    } else {
        let before = parents_named(t, content, classes, def, i - 1);
        let node = child_of(t, def, i - 1);
        if t.nodes@[node].kind@ == "class_extends"@ && t.nodes@[node].child_count > 0 {
            before + resolved_names(t, content, classes, node, 1, t.nodes@[node].child_count as int)
        } else {
            before
        }
    }
}

/// The class that the tracked document at `url` defines, when its name is indexed.
pub open spec fn document_class(p: ProjectData, url: Seq<char>) -> Option<ClassId> {
    if p.documents@.contains_key(url) && p.classes@.contains_key(p.documents@[url].class_name@) {
        Some(p.classes@[p.documents@[url].class_name@])
    } else {
        None
    }
}

/// The class that the document at `url` of `p` defines has, in `cs`, the imports that its
/// `import_code` statements name and the parents that its class definition names, as known
/// classes of `p`.
pub open spec fn links_recomputed(p: ProjectData, cs: Seq<Class>, url: Seq<char>) -> bool {
    match document_class(p, url) {
        Some(cid) => {
            let d = p.documents@[url];
            let content = encode_utf8(d.content@);
            let count = d.tree.nodes@[0].child_count as int;
            let def = child_of(d.tree, 0, count - 1);
            count > 0 && cid.0 < cs.len() ==> {
                &&& cs[cid.0 as int].imports@ == imports_named(d.tree, content, p.classes@, count - 1)
                &&& cs[cid.0 as int].inherited_classes@ == if d.tree.nodes@[def].child_count > 3 {
                    parents_named(d.tree, content, p.classes@, def, d.tree.nodes@[def].child_count as int)
                } else {
                    Seq::empty()
                }
            }
        },
        None => true,
    }
}

impl ProjectData {
    /// Recomputes the imports of the class that the document at `url` defines: the known
    /// classes named by the `import_code` statements that come before the class definition.
    /// Nothing changes when the document or its class is unknown.
    pub fn recompute_imports_for_url(&mut self, url: &String)
        requires
            documents_wf(old(self).documents@),
        ensures
            final(self).documents == old(self).documents,
            final(self).classes == old(self).classes,
            final(self).global_semantic_model.classes@.len() == old(self).global_semantic_model.classes@.len(),
            forall|j: int| 0 <= j < old(self).global_semantic_model.classes@.len() ==> {
                let a = old(self).global_semantic_model.classes@[j];
                let b = #[trigger] final(self).global_semantic_model.classes@[j];
                b == (Class { imports: b.imports, ..a })
            },
            final(self).global_semantic_model.methods == old(self).global_semantic_model.methods,
            final(self).global_semantic_model.private == old(self).global_semantic_model.private,
            final(self).global_semantic_model.variables == old(self).global_semantic_model.variables,
            final(self).global_semantic_model.class_defs == old(self).global_semantic_model.class_defs,
            final(self).global_semantic_model.method_defs == old(self).global_semantic_model.method_defs,
            final(self).global_semantic_model.variable_defs == old(self).global_semantic_model.variable_defs,
            final(self).class_defs == old(self).class_defs,
            final(self).pub_method_defs == old(self).pub_method_defs,
            final(self).pub_var_defs == old(self).pub_var_defs,
            final(self).override_index == old(self).override_index,
            final(self).config == old(self).config,
            match document_class(*old(self), url@) {
                Some(cid) => {
                    let d = old(self).documents@[url@];
                    let count = d.tree.nodes@[0].child_count as int;
                    count > 0 && cid.0 < old(self).global_semantic_model.classes@.len() ==> final(self).global_semantic_model.classes@[cid.0 as int].imports@
                        == imports_named(d.tree, encode_utf8(d.content@), old(self).classes@, count - 1)
                },
                None => final(self).global_semantic_model == old(self).global_semantic_model,
            },
    {
        let doc = match self.documents.get(url) {
            Some(d) => d,
            None => return,
        };
        let class_id = match self.classes.get(&doc.class_name) {
            Some(id) => *id,
            None => return,
        };
        let tree = &doc.tree;
        let ghost t = *tree;
        let count = tree.named_child_count(0);
        if count == 0 {
            return;
        }
        let children = tree.named_children(0);
        let mut imports: Vec<ClassId> = Vec::new();
        let mut i: usize = 0;
        let last = count - 1;
        while i < last
            invariant
                t == *tree,
                tree_wf(*tree),
                last < count,
                count == children@.len(),
                count == tree.nodes@[0].child_count,
                forall|m: int| 0 <= m < children@.len() ==> #[trigger] children@[m] == child_of(t, 0, m),
                forall|m: int| 0 <= m < children@.len() ==> #[trigger] children@[m] < tree.nodes@.len(),
                i <= last,
                imports@ == imports_named(t, encode_utf8(doc.content@), self.classes@, i as int),
            decreases last - i,
        {
            let node = children[i];
            i = i + 1;
            if tree.is_kind(node, "import_code") {
                match tree.named_child(node, 1) {
                    Some(include_clause) => {
                        resolve_named_children(tree, include_clause, 0, doc.content.as_str(), &self.classes, &mut imports);
                    },
                    None => {},
                }
            }
        }
        self.global_semantic_model.set_imports(class_id, imports);
    }

    /// Recomputes the direct parents of the class that the document at `url` defines: the
    /// known classes named in the `class_extends` part of its class definition. Nothing changes
    /// when the document or its class is unknown.
    pub fn recompute_extends_for_url(&mut self, url: &String)
        requires
            documents_wf(old(self).documents@),
        ensures
            final(self).documents == old(self).documents,
            final(self).classes == old(self).classes,
            final(self).global_semantic_model.classes@.len() == old(self).global_semantic_model.classes@.len(),
            forall|j: int| 0 <= j < old(self).global_semantic_model.classes@.len() ==> {
                let a = old(self).global_semantic_model.classes@[j];
                let b = #[trigger] final(self).global_semantic_model.classes@[j];
                &&& b == (Class { inherited_classes: b.inherited_classes, ..a })
                &&& b.inherited_classes@ != a.inherited_classes@ ==> forall|k: int| 0 <= k < b.inherited_classes@.len()
                    ==> is_known_class(old(self).classes@, #[trigger] b.inherited_classes@[k])
            },
            final(self).global_semantic_model.methods == old(self).global_semantic_model.methods,
            final(self).global_semantic_model.private == old(self).global_semantic_model.private,
            final(self).global_semantic_model.variables == old(self).global_semantic_model.variables,
            final(self).global_semantic_model.class_defs == old(self).global_semantic_model.class_defs,
            final(self).global_semantic_model.method_defs == old(self).global_semantic_model.method_defs,
            final(self).global_semantic_model.variable_defs == old(self).global_semantic_model.variable_defs,
            final(self).class_defs == old(self).class_defs,
            final(self).pub_method_defs == old(self).pub_method_defs,
            final(self).pub_var_defs == old(self).pub_var_defs,
            final(self).override_index == old(self).override_index,
            final(self).config == old(self).config,
            match document_class(*old(self), url@) {
                Some(cid) => {
                    let d = old(self).documents@[url@];
                    let count = d.tree.nodes@[0].child_count as int;
                    let def = child_of(d.tree, 0, count - 1);
                    count > 0 && cid.0 < old(self).global_semantic_model.classes@.len() ==> final(self).global_semantic_model.classes@[cid.0 as int].inherited_classes@
                        == if d.tree.nodes@[def].child_count > 3 {
                            parents_named(d.tree, encode_utf8(d.content@), old(self).classes@, def, d.tree.nodes@[def].child_count as int)
                        } else {
                            Seq::empty()
                        }
                },
                None => final(self).global_semantic_model == old(self).global_semantic_model,
            },
    {
        let doc = match self.documents.get(url) {
            Some(d) => d,
            None => return,
        };
        let class_id = match self.classes.get(&doc.class_name) {
            Some(id) => *id,
            None => return,
        };
        let tree = &doc.tree;
        let ghost t = *tree;
        let count = tree.named_child_count(0);
        if count == 0 {
            return;
        }
        let class_def_node = match tree.named_child(0, count - 1) {
            Some(n) => n,
            None => return,
        };
        let children = tree.named_children(class_def_node);
        let mut inherited: Vec<ClassId> = Vec::new();
        if children.len() > 3 {
            let mut i: usize = 2;
            while i < children.len()
                invariant
                    t == *tree,
                    tree_wf(*tree),
                    class_def_node < tree.nodes@.len(),
                    children@.len() == tree.nodes@[class_def_node as int].child_count,
                    children@.len() > 3,
                    forall|m: int| 0 <= m < children@.len() ==> #[trigger] children@[m] == child_of(t, class_def_node as int, m),
                    forall|m: int| 0 <= m < children@.len() ==> #[trigger] children@[m] < tree.nodes@.len(),
                    forall|k: int| 0 <= k < inherited@.len() ==> is_known_class(self.classes@, #[trigger] inherited@[k]),
                    2 <= i <= children@.len(),
                    inherited@ == parents_named(t, encode_utf8(doc.content@), self.classes@, class_def_node as int, i as int),
                decreases children@.len() - i,
            {
                let node = children[i];
                i = i + 1;
                if tree.is_kind(node, "class_extends") {
                    if tree.named_child_count(node) > 0 {
                        resolve_named_children(tree, node, 1, doc.content.as_str(), &self.classes, &mut inherited);
                    }
                }
            }
        }
        self.global_semantic_model.set_inherited_classes(class_id, inherited);
    }
}


/// The ProcedureBlock and Language settings of a method.
pub open spec fn method_keywords(m: Method) -> (Option<bool>, Option<Language>) {
    (m.is_procedure_block, m.language)
}

/// `b` lists, class by class, as many methods as `a`, with the same keyword settings.
pub open spec fn keywords_kept(a: Map<ClassId, Vec<Method>>, b: Map<ClassId, Vec<Method>>) -> bool {
    forall|k: ClassId| {
        &&& #[trigger] listed(b, k).len() == listed(a, k).len()
        &&& forall|x: int| 0 <= x < listed(a, k).len() ==> method_keywords(#[trigger] listed(b, k)[x]) == method_keywords(listed(a, k)[x])
    }
}

/// `b` lists, class by class, as many public methods as `a`, under the same names.
pub open spec fn names_kept(a: Map<ClassId, Vec<Method>>, b: Map<ClassId, Vec<Method>>) -> bool {
    &&& forall|k: ClassId| #[trigger] listed(b, k).len() == listed(a, k).len()
    &&& forall|k: ClassId, x: int| 0 <= x < listed(a, k).len() ==> (#[trigger] listed(b, k)[x]).name == listed(a, k)[x].name
}

proof fn lemma_names_kept_refl(a: Map<ClassId, Vec<Method>>)
    ensures
        names_kept(a, a),
{
}

proof fn lemma_names_kept_trans(a: Map<ClassId, Vec<Method>>, b: Map<ClassId, Vec<Method>>, c: Map<ClassId, Vec<Method>>)
    requires
        names_kept(a, b),
        names_kept(b, c),
    ensures
        names_kept(a, c),
{
    assert forall|k: ClassId| #[trigger] listed(c, k).len() == listed(a, k).len() by {
        assert(listed(b, k).len() == listed(a, k).len());
    }
    assert forall|k: ClassId, x: int| 0 <= x < listed(a, k).len() implies (#[trigger] listed(c, k)[x]).name == listed(a, k)[x].name by {
        assert(listed(b, k).len() == listed(a, k).len());
        assert(listed(b, k)[x].name == listed(a, k)[x].name);
        assert(listed(c, k)[x].name == listed(b, k)[x].name);
    }
}

proof fn lemma_slot_edited_names(a: Map<ClassId, Vec<Method>>, b: Map<ClassId, Vec<Method>>, slot: MethodSlot, e: MethodEdit, done: bool)
    requires
        slot_edited(a, b, slot, e, done),
    ensures
        names_kept(a, b),
{
    match slot {
        MethodSlot::Public(cid, id) => {
            if done {
                assert forall|k: ClassId| #[trigger] listed(b, k).len() == listed(a, k).len() by {}
                assert forall|k: ClassId, x: int| 0 <= x < listed(a, k).len() implies (#[trigger] listed(b, k)[x]).name == listed(a, k)[x].name by {
                    if k == cid && x == id.0 {
                        assert(method_edited(listed(a, cid)[x], listed(b, cid)[x], e));
                    }
                }
            }
        },
        MethodSlot::Private(..) => {},
    }
}

/// `b` holds as many local models as `a`, each listing as many methods under the same names.
pub open spec fn private_names_kept(a: Seq<LocalSemanticModel>, b: Seq<LocalSemanticModel>) -> bool {
    &&& b.len() == a.len()
    &&& forall|l: int| 0 <= l < a.len() ==> (#[trigger] b[l]).methods@.len() == a[l].methods@.len()
    &&& forall|l: int, x: int| 0 <= l < a.len() && 0 <= x < a[l].methods@.len() ==> (#[trigger] b[l].methods@[x]).name == a[l].methods@[x].name
}

proof fn lemma_private_names_kept_refl(a: Seq<LocalSemanticModel>)
    ensures
        private_names_kept(a, a),
{
}

proof fn lemma_private_names_kept_trans(a: Seq<LocalSemanticModel>, b: Seq<LocalSemanticModel>, c: Seq<LocalSemanticModel>)
    requires
        private_names_kept(a, b),
        private_names_kept(b, c),
    ensures
        private_names_kept(a, c),
{
    assert forall|l: int| 0 <= l < a.len() implies (#[trigger] c[l]).methods@.len() == a[l].methods@.len() by {
        assert(b[l].methods@.len() == a[l].methods@.len());
    }
    assert forall|l: int, x: int| 0 <= l < a.len() && 0 <= x < a[l].methods@.len() implies (#[trigger] c[l].methods@[x]).name == a[l].methods@[x].name by {
        assert(b[l].methods@.len() == a[l].methods@.len());
        assert(b[l].methods@[x].name == a[l].methods@[x].name);
        assert(c[l].methods@[x].name == b[l].methods@[x].name);
    }
}

proof fn lemma_slot_edited_private_names(a: Seq<LocalSemanticModel>, b: Seq<LocalSemanticModel>, slot: MethodSlot, e: MethodEdit, done: bool)
    requires
        slot_edited_private(a, b, slot, e, done),
    ensures
        private_names_kept(a, b),
{
    match slot {
        MethodSlot::Private(l, id) => {
            if done {
                assert forall|j: int| 0 <= j < a.len() implies (#[trigger] b[j]).methods@.len() == a[j].methods@.len() by {}
                assert forall|j: int, x: int| 0 <= j < a.len() && 0 <= x < a[j].methods@.len() implies (#[trigger] b[j].methods@[x]).name == a[j].methods@[x].name by {
                    if j == l.0 && x == id.0 {
                        assert(method_edited(a[j].methods@[x], b[j].methods@[x], e));
                    }
                }
            }
        },
        MethodSlot::Public(..) => {},
    }
}

/// `b` is `a` after `e` was applied to the method in `slot` (`done` when it exists); methods
/// in local models are not in `a`.
pub open spec fn slot_edited(a: Map<ClassId, Vec<Method>>, b: Map<ClassId, Vec<Method>>, slot: MethodSlot, e: MethodEdit, done: bool) -> bool {
    match slot {
        MethodSlot::Public(cid, id) => {
            let before = listed(a, cid);
            let after = listed(b, cid);
            &&& done == (id.0 < before.len())
            &&& !done ==> b == a
            &&& done ==> {
                &&& after.len() == before.len()
                &&& method_edited(before[id.0 as int], after[id.0 as int], e)
                &&& forall|j: int| 0 <= j < before.len() && j != id.0 ==> #[trigger] after[j] == before[j]
                &&& forall|k: ClassId| k != cid ==> #[trigger] listed(b, k) == listed(a, k)
            }
        },
        MethodSlot::Private(..) => b == a,
    }
}

/// `b` is the local models `a` after `e` was applied to the method in `slot` (`done` when it
/// exists); public methods are not in `a`.
pub open spec fn slot_edited_private(
    a: Seq<LocalSemanticModel>,
    b: Seq<LocalSemanticModel>,
    slot: MethodSlot,
    e: MethodEdit,
    done: bool,
) -> bool {
    match slot {
        MethodSlot::Public(..) => b == a,
        MethodSlot::Private(l, id) => {
            &&& done == ((l.0 as int) < a.len() && (id.0 as int) < a[l.0 as int].methods@.len())
            &&& !done ==> b == a
            &&& done ==> {
                let before = a[l.0 as int].methods@;
                let after = b[l.0 as int].methods@;
                &&& b.len() == a.len()
                &&& forall|j: int| 0 <= j < a.len() && j != l.0 ==> #[trigger] b[j] == a[j]
                &&& after.len() == before.len()
                &&& method_edited(before[id.0 as int], after[id.0 as int], e)
                &&& forall|x: int| 0 <= x < before.len() && x != id.0 ==> #[trigger] after[x] == before[x]
                &&& b[l.0 as int].variables == a[l.0 as int].variables
            }
        },
    }
}

/// `b` holds as many local models as `a`, each listing as many methods with the same keyword
/// settings.
pub open spec fn private_keywords_kept(a: Seq<LocalSemanticModel>, b: Seq<LocalSemanticModel>) -> bool {
    &&& b.len() == a.len()
    &&& forall|l: int| 0 <= l < a.len() ==> {
        &&& (#[trigger] b[l]).methods@.len() == a[l].methods@.len()
        &&& forall|x: int| 0 <= x < a[l].methods@.len() ==> method_keywords(#[trigger] b[l].methods@[x])
            == method_keywords(a[l].methods@[x])
    }
}

/// Recording a variable in a private method keeps the keyword settings of the local models.
proof fn lemma_variable_edit_keeps_private_keywords(
    a: Seq<LocalSemanticModel>,
    b: Seq<LocalSemanticModel>,
    slot: MethodSlot,
    e: MethodEdit,
    done: bool,
)
    requires
        slot_edited_private(a, b, slot, e, done),
        !(e is Keywords),
    ensures
        private_keywords_kept(a, b),
{
    match slot {
        MethodSlot::Public(..) => {},
        MethodSlot::Private(l, id) => {
            if done {
                assert forall|j: int| 0 <= j < a.len() implies {
                    &&& (#[trigger] b[j]).methods@.len() == a[j].methods@.len()
                    &&& forall|x: int| 0 <= x < a[j].methods@.len() ==> method_keywords(#[trigger] b[j].methods@[x])
                        == method_keywords(a[j].methods@[x])
                } by {
                    if j == l.0 {
                        assert forall|x: int| 0 <= x < a[j].methods@.len() implies method_keywords(#[trigger] b[j].methods@[x])
                            == method_keywords(a[j].methods@[x]) by {
                            if x != id.0 {
                                assert(b[j].methods@[x] == a[j].methods@[x]);
                            }
                        }
                    }
                }
            }
        },
    }
}

/// Keeping the keyword settings of local models composes.
proof fn lemma_private_keywords_kept_trans(a: Seq<LocalSemanticModel>, b: Seq<LocalSemanticModel>, c: Seq<LocalSemanticModel>)
    requires
        private_keywords_kept(a, b),
        private_keywords_kept(b, c),
    ensures
        private_keywords_kept(a, c),
{
    assert forall|l: int| 0 <= l < a.len() implies {
        &&& (#[trigger] c[l]).methods@.len() == a[l].methods@.len()
        &&& forall|x: int| 0 <= x < a[l].methods@.len() ==> method_keywords(#[trigger] c[l].methods@[x])
            == method_keywords(a[l].methods@[x])
    } by {
        assert(b[l].methods@.len() == a[l].methods@.len());
        assert(c[l].methods@.len() == b[l].methods@.len());
        assert forall|x: int| 0 <= x < a[l].methods@.len() implies method_keywords(#[trigger] c[l].methods@[x])
            == method_keywords(a[l].methods@[x]) by {
            assert(method_keywords(b[l].methods@[x]) == method_keywords(a[l].methods@[x]));
            assert(method_keywords(c[l].methods@[x]) == method_keywords(b[l].methods@[x]));
        }
    }
}

/// `def` is what the `j`-th variable source of the method definition `node` of `t` (read
/// from `code`) defines, for method `m`.
pub open spec fn defines_variable(t: SyntaxTree, code: &str, node: int, m: Method, j: int, def: VariableDef) -> bool {
    let srcs = method_variable_sources(t, code, node, t.nodes@[node].child_count as int);
    &&& 0 <= node < t.nodes@.len()
    &&& 0 <= j < srcs.len()
    &&& variable_from_source(t, code, m, srcs[j], def)
}

/// `v` is a variable that an argument or a `set` command of a method body of document `d`
/// defines.
pub open spec fn variable_from(d: Document, v: Variable) -> bool {
    exists|code: &str, node: int, m: Method, j: int, def: VariableDef|
        code@ == d.content@ && #[trigger] defines_variable(d.tree, code, node, m, j, def) && def.0 == v
}

/// Every list of `b` is the one of `a`, or that list with `v` appended.
pub open spec fn vars_grown_by(a: Map<ClassId, Vec<Variable>>, b: Map<ClassId, Vec<Variable>>, v: Variable) -> bool {
    forall|k: ClassId| #[trigger] listed(b, k) == listed(a, k) || listed(b, k) == listed(a, k).push(v)
}

/// The local models `b` are `a`, with `v` appended to the variables of at most some of them.
pub open spec fn private_vars_grown_by(a: Seq<LocalSemanticModel>, b: Seq<LocalSemanticModel>, v: Variable) -> bool {
    &&& b.len() == a.len()
    &&& forall|l: int| 0 <= l < a.len() ==> (#[trigger] b[l]).variables@ == a[l].variables@ || b[l].variables@
        == a[l].variables@.push(v)
}

/// Every list of `b` extends the one of `a` with variables that method bodies of `d` define.
pub open spec fn vars_extended_from(a: Map<ClassId, Vec<Variable>>, b: Map<ClassId, Vec<Variable>>, d: Document) -> bool {
    forall|k: ClassId| {
        &&& listed(a, k).len() <= (#[trigger] listed(b, k)).len()
        &&& listed(b, k).subrange(0, listed(a, k).len() as int) == listed(a, k)
        &&& forall|x: int| listed(a, k).len() <= x < listed(b, k).len() ==> variable_from(d, #[trigger] listed(b, k)[x])
    }
}

/// The variables of each local model of `b` extend those of `a` with variables that method
/// bodies of `d` define.
pub open spec fn private_vars_extended_from(a: Seq<LocalSemanticModel>, b: Seq<LocalSemanticModel>, d: Document) -> bool {
    &&& b.len() == a.len()
    &&& forall|l: int| 0 <= l < a.len() ==> {
        &&& a[l].variables@.len() <= (#[trigger] b[l]).variables@.len()
        &&& b[l].variables@.subrange(0, a[l].variables@.len() as int) == a[l].variables@
        &&& forall|x: int| a[l].variables@.len() <= x < b[l].variables@.len() ==> variable_from(d, #[trigger] b[l].variables@[x])
    }
}

/// Nothing added is a trivial extension.
proof fn lemma_vars_extended_refl(a: Map<ClassId, Vec<Variable>>, p: Seq<LocalSemanticModel>, d: Document)
    ensures
        vars_extended_from(a, a, d),
        private_vars_extended_from(p, p, d),
{
    assert forall|k: ClassId| #[trigger] listed(a, k).subrange(0, listed(a, k).len() as int) == listed(a, k) by {
        assert(listed(a, k).subrange(0, listed(a, k).len() as int) =~= listed(a, k));
    }
    assert forall|l: int| 0 <= l < p.len() implies (#[trigger] p[l]).variables@.subrange(0, p[l].variables@.len() as int)
        == p[l].variables@ by {
        assert(p[l].variables@.subrange(0, p[l].variables@.len() as int) =~= p[l].variables@);
    }
}

/// Appending a variable that a method body of `d` defines keeps an extension by `d`.
proof fn lemma_vars_extended_step(
    a: Map<ClassId, Vec<Variable>>,
    b: Map<ClassId, Vec<Variable>>,
    c: Map<ClassId, Vec<Variable>>,
    pa: Seq<LocalSemanticModel>,
    pb: Seq<LocalSemanticModel>,
    pc: Seq<LocalSemanticModel>,
    d: Document,
    v: Variable,
)
    requires
        vars_extended_from(a, b, d),
        private_vars_extended_from(pa, pb, d),
        vars_grown_by(b, c, v),
        private_vars_grown_by(pb, pc, v),
        variable_from(d, v),
    ensures
        vars_extended_from(a, c, d),
        private_vars_extended_from(pa, pc, d),
{
    assert forall|k: ClassId| {
        &&& listed(a, k).len() <= (#[trigger] listed(c, k)).len()
        &&& listed(c, k).subrange(0, listed(a, k).len() as int) == listed(a, k)
        &&& forall|x: int| listed(a, k).len() <= x < listed(c, k).len() ==> variable_from(d, #[trigger] listed(c, k)[x])
    } by {
        let la = listed(a, k);
        let lb = listed(b, k);
        let lc = listed(c, k);
        assert(lb.subrange(0, la.len() as int) == la);
        if lc != lb {
            assert(lc == lb.push(v));
            assert(lc.subrange(0, la.len() as int) =~= lb.subrange(0, la.len() as int));
            assert forall|x: int| la.len() <= x < lc.len() implies variable_from(d, #[trigger] lc[x]) by {
                if x < lb.len() {
                    assert(lc[x] == lb[x]);
                }
            }
        }
    }
    assert forall|l: int| 0 <= l < pa.len() implies {
        &&& pa[l].variables@.len() <= (#[trigger] pc[l]).variables@.len()
        &&& pc[l].variables@.subrange(0, pa[l].variables@.len() as int) == pa[l].variables@
        &&& forall|x: int| pa[l].variables@.len() <= x < pc[l].variables@.len() ==> variable_from(d, #[trigger] pc[l].variables@[x])
    } by {
        let la = pa[l].variables@;
        let lb = pb[l].variables@;
        let lc = pc[l].variables@;
        assert(lb.subrange(0, la.len() as int) == la);
        if lc != lb {
            assert(lc == lb.push(v));
            assert(lc.subrange(0, la.len() as int) =~= lb.subrange(0, la.len() as int));
            assert forall|x: int| la.len() <= x < lc.len() implies variable_from(d, #[trigger] lc[x]) by {
                if x < lb.len() {
                    assert(lc[x] == lb[x]);
                }
            }
        }
    }
}

/// `v` is defined by a method body of one of the documents `docs`.
pub open spec fn variable_sourced(docs: Map<Seq<char>, Document>, v: Variable) -> bool {
    exists|url: Seq<char>| docs.contains_key(url) && #[trigger] variable_from(docs[url], v)
}

/// Every variable recorded for a class or in a local model is defined by a method body of one
/// of the documents `docs`.
pub open spec fn variables_sourced(vars: Map<ClassId, Vec<Variable>>, private: Seq<LocalSemanticModel>, docs: Map<Seq<char>, Document>) -> bool {
    &&& forall|k: ClassId, x: int| #![trigger listed(vars, k)[x]]
        0 <= x < listed(vars, k).len() ==> variable_sourced(docs, listed(vars, k)[x])
    &&& forall|l: int, x: int| #![trigger private[l].variables@[x]]
        0 <= l < private.len() && 0 <= x < private[l].variables@.len() ==> variable_sourced(docs, private[l].variables@[x])
}

/// The method in `slot` (a public one in `ma`/`mb`, a private one in `pa`/`pb`) has, once it
/// exists, `name` entered in its table of public (`is_public`) or private variables with id `id`.
pub open spec fn slot_variable_entered(
    ma: Map<ClassId, Vec<Method>>,
    mb: Map<ClassId, Vec<Method>>,
    pa: Seq<LocalSemanticModel>,
    pb: Seq<LocalSemanticModel>,
    slot: MethodSlot,
    is_public: bool,
    name: Seq<char>,
    id: usize,
) -> bool {
    match slot {
        MethodSlot::Public(cid, mid) => (mid.0 as int) < listed(ma, cid).len() ==> {
            let a = listed(ma, cid)[mid.0 as int];
            let b = listed(mb, cid)[mid.0 as int];
            if is_public {
                b.public_variables@ == a.public_variables@.insert(name, PublicVarId(id))
            } else {
                b.private_variables@ == a.private_variables@.insert(name, PrivateVarId(id))
            }
        },
        MethodSlot::Private(l, mid) => (l.0 as int) < pa.len() && (mid.0 as int) < pa[l.0 as int].methods@.len() ==> {
            let a = pa[l.0 as int].methods@[mid.0 as int];
            let b = pb[l.0 as int].methods@[mid.0 as int];
            if is_public {
                b.public_variables@ == a.public_variables@.insert(name, PublicVarId(id))
            } else {
                b.private_variables@ == a.private_variables@.insert(name, PrivateVarId(id))
            }
        },
    }
}

/// Whether the method in `slot` exists among the public methods `ms` or the local models `ps`.
pub open spec fn slot_exists(ms: Map<ClassId, Vec<Method>>, ps: Seq<LocalSemanticModel>, slot: MethodSlot) -> bool {
    match slot {
        MethodSlot::Public(cid, mid) => (mid.0 as int) < listed(ms, cid).len(),
        MethodSlot::Private(l, mid) => (l.0 as int) < ps.len() && (mid.0 as int) < ps[l.0 as int].methods@.len(),
    }
}

/// Outside the class and local model that `slot` and `lsm` name, the method lists of `b` are
/// those of `a`.
pub open spec fn methods_framed(
    ma: Map<ClassId, Vec<Method>>,
    mb: Map<ClassId, Vec<Method>>,
    pa: Seq<LocalSemanticModel>,
    pb: Seq<LocalSemanticModel>,
    slot: MethodSlot,
    lsm: LocalSemanticModelId,
) -> bool {
    &&& forall|k: ClassId| !(slot matches MethodSlot::Public(cid, _) && cid == k)
        ==> #[trigger] listed(mb, k) == listed(ma, k)
    &&& pb.len() == pa.len()
    &&& forall|l: int| 0 <= l < pa.len() && l != lsm.0 && !(slot matches MethodSlot::Private(pl, _) && pl.0 == l)
        ==> (#[trigger] pb[l]).methods == pa[l].methods
}

/// Recording a variable in a method keeps the keyword settings of all methods.
proof fn lemma_variable_edit_keeps_keywords(
    a: Map<ClassId, Vec<Method>>,
    b: Map<ClassId, Vec<Method>>,
    slot: MethodSlot,
    e: MethodEdit,
    done: bool,
)
    requires
        slot_edited(a, b, slot, e, done),
        !(e is Keywords),
    ensures
        keywords_kept(a, b),
{
    match slot {
        MethodSlot::Public(cid, id) => {
            if done {
                assert forall|k: ClassId| #[trigger] listed(b, k).len() == listed(a, k).len() && forall|x: int|
                    0 <= x < listed(a, k).len() ==> method_keywords(#[trigger] listed(b, k)[x]) == method_keywords(listed(a, k)[x]) by {
                    if k == cid {
                        assert forall|x: int| 0 <= x < listed(a, k).len() implies method_keywords(#[trigger] listed(b, k)[x])
                            == method_keywords(listed(a, k)[x]) by {
                            if x != id.0 {
                                assert(listed(b, k)[x] == listed(a, k)[x]);
                            }
                        }
                    } else {
                        assert(listed(b, k) == listed(a, k));
                    }
                }
            }
        },
        MethodSlot::Private(..) => {},
    }
}

/// Keeping keyword settings composes.
proof fn lemma_keywords_kept_trans(a: Map<ClassId, Vec<Method>>, b: Map<ClassId, Vec<Method>>, c: Map<ClassId, Vec<Method>>)
    requires
        keywords_kept(a, b),
        keywords_kept(b, c),
    ensures
        keywords_kept(a, c),
{
    assert forall|k: ClassId| #[trigger] listed(c, k).len() == listed(a, k).len() && forall|x: int|
        0 <= x < listed(a, k).len() ==> method_keywords(#[trigger] listed(c, k)[x]) == method_keywords(listed(a, k)[x]) by {
        assert(listed(b, k).len() == listed(a, k).len());
        assert(listed(c, k).len() == listed(b, k).len());
        assert forall|x: int| 0 <= x < listed(a, k).len() implies method_keywords(#[trigger] listed(c, k)[x])
            == method_keywords(listed(a, k)[x]) by {
            assert(method_keywords(listed(b, k)[x]) == method_keywords(listed(a, k)[x]));
            assert(method_keywords(listed(c, k)[x]) == method_keywords(listed(b, k)[x]));
        }
    }
}

/// The ProcedureBlock default that class `c` hands to its methods (off when unset).
pub open spec fn class_pb(c: Class) -> bool {
    match c.is_procedure_block {
        Some(b) => b,
        None => false,
    }
}

/// The Language default that class `c` hands to its methods (ObjectScript when unset).
pub open spec fn class_lang(c: Class) -> Language {
    match c.default_language {
        Some(l) => l,
        None => Language::Objectscript,
    }
}

/// Class `i` of `p` is indexed: its name leads back to it, to its class symbol, and through
/// that symbol to a tracked document with a local model.
pub open spec fn class_indexed(p: ProjectData, i: int) -> bool {
    let name = p.global_semantic_model.classes@[i].name@;
    &&& 0 <= i < p.global_semantic_model.classes@.len()
    &&& p.classes@.contains_key(name)
    &&& p.classes@[name] == ClassId(i as usize)
    &&& p.class_defs@.contains_key(name)
    &&& (p.class_defs@[name].0 as int) < p.global_semantic_model.class_defs@.len()
    &&& {
        let url = p.global_semantic_model.class_defs@[p.class_defs@[name].0 as int].url@;
        &&& p.documents@.contains_key(url)
        &&& p.documents@[url].local_semantic_model_id is Some
    }
}

/// The lookups that rebuilding class `i` of `p` makes succeed: its name is a known class with
/// a class symbol, whose document is tracked with a local model.
pub open spec fn class_lookups_ok(p: ProjectData, i: int) -> bool {
    let name = p.global_semantic_model.classes@[i].name@;
    &&& 0 <= i < p.global_semantic_model.classes@.len()
    &&& p.classes@.contains_key(name)
    &&& p.class_defs@.contains_key(name)
    &&& (p.class_defs@[name].0 as int) < p.global_semantic_model.class_defs@.len()
    &&& {
        let url = p.global_semantic_model.class_defs@[p.class_defs@[name].0 as int].url@;
        &&& p.documents@.contains_key(url)
        &&& p.documents@[url].local_semantic_model_id is Some
    }
}

/// Rebuilding any other class of `p` than class `t` edits neither the methods nor the local
/// model of `t`: no other class's name is indexed to `t`, nor leads to `t`'s local model.
pub open spec fn class_apart(p: ProjectData, t: int) -> bool {
    forall|j: int| 0 <= j < p.global_semantic_model.classes@.len() && j != t && #[trigger] class_lookups_ok(p, j) ==> {
        &&& rebuilt_class(p, j) != ClassId(t as usize)
        &&& class_local_model(p, j) != class_local_model(p, t)
    }
}

/// The class whose methods rebuilding class `i` of `p` edits: the one its name is indexed to.
pub open spec fn rebuilt_class(p: ProjectData, i: int) -> ClassId {
    p.classes@[p.global_semantic_model.classes@[i].name@]
}

/// The local model of the document that holds the class symbol of class `i` of `p`.
pub open spec fn class_local_model(p: ProjectData, i: int) -> int {
    let name = p.global_semantic_model.classes@[i].name@;
    let url = p.global_semantic_model.class_defs@[p.class_defs@[name].0 as int].url@;
    (p.documents@[url].local_semantic_model_id->0).0 as int
}

/// `after` lists the methods `before` of a local model, each private method of class `c`
/// having taken the class's ProcedureBlock and Language defaults where it sets none.
pub open spec fn private_methods_keyworded(c: Class, before: Seq<Method>, after: Seq<Method>) -> bool {
    &&& after.len() == before.len()
    &&& forall|n: Seq<char>| #[trigger] c.private_methods@.contains_key(n) && (c.private_methods@[n].0 as int) < before.len()
        ==> method_keywords(after[c.private_methods@[n].0 as int])
            == keywords_after_update(before[c.private_methods@[n].0 as int], class_pb(c), class_lang(c))
}

/// `after` lists the methods `before` of class `c`, each public method of `c` having taken the
/// class's ProcedureBlock and Language defaults where it sets none.
pub open spec fn public_methods_keyworded(c: Class, before: Seq<Method>, after: Seq<Method>) -> bool {
    &&& after.len() == before.len()
    &&& forall|n: Seq<char>| #[trigger] c.public_methods@.contains_key(n) && (c.public_methods@[n].0 as int) < before.len()
        ==> method_keywords(after[c.public_methods@[n].0 as int])
            == keywords_after_update(before[c.public_methods@[n].0 as int], class_pb(c), class_lang(c))
}

/// Where a method is recorded: among the public methods of a class, or in a local model.
#[derive(Clone, Copy)]
pub enum MethodSlot {
    Public(ClassId, PublicMethodId),
    Private(LocalSemanticModelId, PrivateMethodId),
}

pub proof fn lemma_same_but_calls_trans(a: Seq<Class>, b: Seq<Class>, c: Seq<Class>)
    requires
        same_but_calls(a, b),
        same_but_calls(b, c),
    ensures
        same_but_calls(a, c),
{
    assert forall|j: int| 0 <= j < a.len() implies #[trigger] c[j] == (Class { method_calls: c[j].method_calls, ..a[j] }) by {
        assert(b[j] == (Class { method_calls: b[j].method_calls, ..a[j] }));
        assert(c[j] == (Class { method_calls: c[j].method_calls, ..b[j] }));
    }
}

/// The symbols that the index `m` lists for variable `v` in class `cn`.
pub open spec fn var_ids(m: Map<Seq<char>, AssocMap<String, Vec<VariableGlobalSymbolId>>>, v: Seq<char>, cn: Seq<char>) -> Seq<VariableGlobalSymbolId> {
    if m.contains_key(v) && m[v]@.contains_key(cn) {
        m[v]@[cn]@
    } else {
        Seq::empty()
    }
}

/// Every symbol that the public variable index of `p` lists for a variable in a class is a
/// variable symbol of that class with that variable's name.
pub open spec fn var_index_consistent(p: ProjectData) -> bool {
    forall|v: Seq<char>, cn: Seq<char>, k: int|
        0 <= k < var_ids(p.pub_var_defs@, v, cn).len() ==> var_entry_ok(p, v, cn, #[trigger] var_ids(p.pub_var_defs@, v, cn)[k])
}

/// `id` is a variable symbol of class `cn` in `p`, of the variable `v`.
pub open spec fn var_entry_ok(p: ProjectData, v: Seq<char>, cn: Seq<char>, id: VariableGlobalSymbolId) -> bool {
    &&& p.class_defs@.contains_key(cn)
    &&& (id.0 as int) < listed(p.global_semantic_model.variable_defs@, p.class_defs@[cn]).len()
    &&& listed(p.global_semantic_model.variable_defs@, p.class_defs@[cn])[id.0 as int].name@ == v
}

/// Appends `symbol_id` to the symbols of variable `var_name` in class `class_name`.
fn record_public_variable_symbol(
    pub_var_defs: &mut AssocMap<String, AssocMap<String, Vec<VariableGlobalSymbolId>>>,
    var_name: String,
    class_name: &String,
    symbol_id: VariableGlobalSymbolId,
)
    ensures
        final(pub_var_defs)@.contains_key(var_name@),
        final(pub_var_defs)@.remove(var_name@) == old(pub_var_defs)@.remove(var_name@),
        final(pub_var_defs)@[var_name@]@.contains_key(class_name@),
        forall|v: Seq<char>, cn: Seq<char>| #[trigger] var_ids(final(pub_var_defs)@, v, cn) == if v == var_name@ && cn == class_name@ {
            var_ids(old(pub_var_defs)@, v, cn).push(symbol_id)
        } else {
            var_ids(old(pub_var_defs)@, v, cn)
        },
{
    let mut by_class = match pub_var_defs.remove(&var_name) {
        Some(m) => m,
        None => AssocMap::new(),
    };
    let mut list = match by_class.remove(class_name) {
        Some(l) => l,
        None => Vec::new(),
    };
    list.push(symbol_id);
    by_class.insert(class_name.clone(), list);
    let ghost key = var_name@;
    pub_var_defs.insert(var_name, by_class);
    assert(final(pub_var_defs)@.remove(key) =~= old(pub_var_defs)@.remove(key));
    assert forall|v: Seq<char>, cn: Seq<char>| #[trigger] var_ids(final(pub_var_defs)@, v, cn) == if v == key && cn == class_name@ {
        var_ids(old(pub_var_defs)@, v, cn).push(symbol_id)
    } else {
        var_ids(old(pub_var_defs)@, v, cn)
    } by {
        if v != key {
            assert(final(pub_var_defs)@.remove(key).contains_key(v) == old(pub_var_defs)@.remove(key).contains_key(v));
            if old(pub_var_defs)@.contains_key(v) {
                assert(final(pub_var_defs)@[v] == final(pub_var_defs)@.remove(key)[v]);
                assert(old(pub_var_defs)@[v] == old(pub_var_defs)@.remove(key)[v]);
            }
        } else if cn != class_name@ {
            assert(by_class@.contains_key(cn) == (old(pub_var_defs)@.contains_key(v) && old(pub_var_defs)@[v]@.contains_key(cn)));
        }
    }
}

/// The public variable index stays consistent while variable symbols are only appended.
proof fn lemma_var_index_grown(a: ProjectData, b: ProjectData)
    requires
        var_index_consistent(a),
        b.class_defs == a.class_defs,
        b.pub_var_defs == a.pub_var_defs,
        var_symbols_grown(a.global_semantic_model.variable_defs@, b.global_semantic_model.variable_defs@),
    ensures
        var_index_consistent(b),
{
    let da = a.global_semantic_model.variable_defs@;
    let db = b.global_semantic_model.variable_defs@;
    assert forall|v: Seq<char>, cn: Seq<char>, k: int|
        0 <= k < var_ids(b.pub_var_defs@, v, cn).len() implies var_entry_ok(b, v, cn, #[trigger] var_ids(b.pub_var_defs@, v, cn)[k]) by {
        assert(var_ids(b.pub_var_defs@, v, cn) == var_ids(a.pub_var_defs@, v, cn));
        let id = var_ids(a.pub_var_defs@, v, cn)[k];
        assert(var_entry_ok(a, v, cn, id));
        assert(a.class_defs@.contains_key(cn));
        let cs = a.class_defs@[cn];
        assert((id.0 as int) < listed(da, cs).len());
        assert(listed(da, cs).len() <= listed(db, cs).len());
        assert(listed(db, cs).subrange(0, listed(da, cs).len() as int)[id.0 as int] == listed(db, cs)[id.0 as int]);
    }
}

/// Where the public variable index and the class symbols are left alone and variable symbols
/// are only appended, the index stays consistent.
proof fn lemma_var_index_kept(a: ProjectData, b: ProjectData)
    requires
        b.class_defs == a.class_defs,
        b.pub_var_defs == a.pub_var_defs,
        var_symbols_grown(a.global_semantic_model.variable_defs@, b.global_semantic_model.variable_defs@),
    ensures
        var_index_consistent(a) ==> var_index_consistent(b),
{
    if var_index_consistent(a) {
        lemma_var_index_grown(a, b);
    }
}

/// Adding to the public variable index a symbol of that variable in that class keeps it
/// consistent.
proof fn lemma_var_index_add(a: ProjectData, b: ProjectData, v: Seq<char>, cn: Seq<char>, id: VariableGlobalSymbolId)
    requires
        var_index_consistent(a),
        b.class_defs == a.class_defs,
        a.class_defs@.contains_key(cn),
        var_symbols_grown(a.global_semantic_model.variable_defs@, b.global_semantic_model.variable_defs@),
        forall|v2: Seq<char>, cn2: Seq<char>| #[trigger] var_ids(b.pub_var_defs@, v2, cn2) == if v2 == v && cn2 == cn {
            var_ids(a.pub_var_defs@, v2, cn2).push(id)
        } else {
            var_ids(a.pub_var_defs@, v2, cn2)
        },
        (id.0 as int) < listed(b.global_semantic_model.variable_defs@, a.class_defs@[cn]).len(),
        listed(b.global_semantic_model.variable_defs@, a.class_defs@[cn])[id.0 as int].name@ == v,
    ensures
        var_index_consistent(b),
{
    let da = a.global_semantic_model.variable_defs@;
    let db = b.global_semantic_model.variable_defs@;
    assert forall|v2: Seq<char>, cn2: Seq<char>, k: int|
        0 <= k < var_ids(b.pub_var_defs@, v2, cn2).len() implies var_entry_ok(b, v2, cn2, #[trigger] var_ids(b.pub_var_defs@, v2, cn2)[k]) by {
        let old_ids = var_ids(a.pub_var_defs@, v2, cn2);
        if !(v2 == v && cn2 == cn && k == old_ids.len()) {
            assert(k < old_ids.len());
            let x = old_ids[k];
            assert(var_ids(b.pub_var_defs@, v2, cn2)[k] == x);
            assert(var_entry_ok(a, v2, cn2, x));
            assert(a.class_defs@.contains_key(cn2));
            let cs = a.class_defs@[cn2];
            assert((x.0 as int) < listed(da, cs).len());
            assert(listed(da, cs).len() <= listed(db, cs).len());
            assert(listed(db, cs).subrange(0, listed(da, cs).len() as int)[x.0 as int] == listed(db, cs)[x.0 as int]);
        } else {
            assert(var_ids(b.pub_var_defs@, v2, cn2)[k] == id);
        }
    }
}

/// The definition that `s` records does not refer to its own variable.
pub open spec fn not_self_referencing(s: VariableGlobalSymbol) -> bool {
    !s.var_dependencies@.map_values(|d: String| d@).contains(s.name@)
}

/// `b` holds the variable symbols of `a`, each class's list possibly extended by symbols whose
/// definitions do not refer to their own variable.
pub open spec fn var_symbols_grown(
    a: Map<ClassGlobalSymbolId, Vec<VariableGlobalSymbol>>,
    b: Map<ClassGlobalSymbolId, Vec<VariableGlobalSymbol>>,
) -> bool {
    forall|k: ClassGlobalSymbolId| #![trigger listed(b, k)] {
        &&& listed(a, k).len() <= listed(b, k).len()
        &&& listed(b, k).subrange(0, listed(a, k).len() as int) == listed(a, k)
        &&& forall|x: int| listed(a, k).len() <= x < listed(b, k).len() ==> not_self_referencing(#[trigger] listed(b, k)[x])
    }
}

proof fn lemma_var_symbols_grown_refl(a: Map<ClassGlobalSymbolId, Vec<VariableGlobalSymbol>>)
    ensures
        var_symbols_grown(a, a),
{
    assert forall|k: ClassGlobalSymbolId| #![trigger listed(a, k)] listed(a, k).subrange(0, listed(a, k).len() as int) == listed(a, k) by {
        assert(listed(a, k).subrange(0, listed(a, k).len() as int) =~= listed(a, k));
    }
}

proof fn lemma_var_symbols_grown_trans(
    a: Map<ClassGlobalSymbolId, Vec<VariableGlobalSymbol>>,
    b: Map<ClassGlobalSymbolId, Vec<VariableGlobalSymbol>>,
    c: Map<ClassGlobalSymbolId, Vec<VariableGlobalSymbol>>,
)
    requires
        var_symbols_grown(a, b),
        var_symbols_grown(b, c),
    ensures
        var_symbols_grown(a, c),
{
    assert forall|k: ClassGlobalSymbolId| #![trigger listed(c, k)] {
        &&& listed(a, k).len() <= listed(c, k).len()
        &&& listed(c, k).subrange(0, listed(a, k).len() as int) == listed(a, k)
        &&& forall|x: int| listed(a, k).len() <= x < listed(c, k).len() ==> not_self_referencing(#[trigger] listed(c, k)[x])
    } by {
        let la = listed(a, k);
        let lb = listed(b, k);
        let lc = listed(c, k);
        assert(lb.len() <= lc.len());
        assert(lc.subrange(0, la.len() as int) =~= lb.subrange(0, la.len() as int)) by {
            assert forall|x: int| 0 <= x < la.len() implies lc.subrange(0, la.len() as int)[x] == lb.subrange(0, la.len() as int)[x] by {
                assert(lc.subrange(0, lb.len() as int)[x] == lb[x]);
            }
        }
        assert forall|x: int| la.len() <= x < lc.len() implies not_self_referencing(#[trigger] lc[x]) by {
            if x < lb.len() {
                assert(lc.subrange(0, lb.len() as int)[x] == lb[x]);
                assert(not_self_referencing(lb[x]));
            }
        }
    }
}

impl ProjectData {
    /// The global symbol of public method `method_name` of class `class_name`, looked up by
    /// name in the method symbol table of the class and then in the semantic model.
    pub fn get_public_method_symbol(&self, class_name: &String, method_name: &String, class_symbol_id: ClassGlobalSymbolId) -> (r: Option<&MethodGlobalSymbol>)
        ensures
            match r {
                Some(sym) => self.pub_method_defs@.contains_key(class_name@)
                    && self.pub_method_defs@[class_name@]@.contains_key(method_name@)
                    && {
                        let id = self.pub_method_defs@[class_name@]@[method_name@];
                        id.0 < listed(self.global_semantic_model.method_defs@, class_symbol_id).len()
                            && *sym == listed(self.global_semantic_model.method_defs@, class_symbol_id)[id.0 as int]
                    },
                None => !(self.pub_method_defs@.contains_key(class_name@)
                    && self.pub_method_defs@[class_name@]@.contains_key(method_name@)
                    && self.pub_method_defs@[class_name@]@[method_name@].0 < listed(
                    self.global_semantic_model.method_defs@,
                    class_symbol_id,
                ).len()),
            },
    {
        let sym_id = match self.pub_method_defs.get(class_name) {
            Some(m) => match m.get(method_name) {
                Some(id) => *id,
                None => return None,
            },
            None => return None,
        };
        self.global_semantic_model.get_method_symbol(class_symbol_id, class_name.as_str(), sym_id.0)
    }

    /// Applies `e` to the method in `slot`; whether it exists.
    fn edit_slot(&mut self, slot: MethodSlot, e: MethodEdit) -> (done: bool)
        ensures
            slot_edited(old(self).global_semantic_model.methods@, final(self).global_semantic_model.methods@, slot, e, done),
            slot_edited_private(old(self).global_semantic_model.private@, final(self).global_semantic_model.private@, slot, e, done),
            final(self).global_semantic_model.classes == old(self).global_semantic_model.classes,
            final(self).global_semantic_model.class_defs == old(self).global_semantic_model.class_defs,
            final(self).global_semantic_model.variables == old(self).global_semantic_model.variables,
            final(self).global_semantic_model.variable_defs == old(self).global_semantic_model.variable_defs,
            final(self).global_semantic_model.method_defs == old(self).global_semantic_model.method_defs,
            final(self).documents == old(self).documents,
            final(self).classes == old(self).classes,
            final(self).class_defs == old(self).class_defs,
            final(self).pub_method_defs == old(self).pub_method_defs,
            final(self).pub_var_defs == old(self).pub_var_defs,
            final(self).override_index == old(self).override_index,
    {
        match slot {
            MethodSlot::Public(class_id, id) => {
                let done = self.global_semantic_model.edit_method(class_id, id.0, e);
                proof {
                    assert forall|k: ClassId| k != class_id implies #[trigger] listed(self.global_semantic_model.methods@, k)
                        == listed(old(self).global_semantic_model.methods@, k) by {
                        if done {
                            assert(self.global_semantic_model.methods@.remove(class_id).contains_key(k)
                                == old(self).global_semantic_model.methods@.remove(class_id).contains_key(k));
                            if old(self).global_semantic_model.methods@.contains_key(k) {
                                assert(self.global_semantic_model.methods@[k] == self.global_semantic_model.methods@.remove(class_id)[k]);
                                assert(old(self).global_semantic_model.methods@[k] == old(self).global_semantic_model.methods@.remove(class_id)[k]);
                            }
                        }
                    }
                }
                done
            },
            MethodSlot::Private(lsm_id, id) => self.global_semantic_model.edit_local_method(lsm_id, id.0, e),
        }
    }

    /// The method in `slot`, when it exists.
    fn slot_method(&self, slot: MethodSlot, class_name: &String) -> (r: Option<&Method>)
        ensures
            r is Some <==> slot_exists(self.global_semantic_model.methods@, self.global_semantic_model.private@, slot),
            r is Some ==> *r->0 == match slot {
                MethodSlot::Public(cid, mid) => listed(self.global_semantic_model.methods@, cid)[mid.0 as int],
                MethodSlot::Private(l, mid) => self.global_semantic_model.private@[l.0 as int].methods@[mid.0 as int],
            },
    {
        match slot {
            MethodSlot::Public(class_id, id) => self.global_semantic_model.get_method(class_id, class_name.as_str(), id.0),
            MethodSlot::Private(lsm_id, id) => match self.global_semantic_model.get_local_semantic(lsm_id) {
                Some(lsm) => lsm.get_method(id.0),
                None => None,
            },
        }
    }

    /// Records one variable discovered in the method in `slot` of the document `doc` (at
    /// `url`): a public variable goes to the semantic model, the method, the variable symbol
    /// table and the scope tree; a private one to the local model, the method and the scope
    /// tree. A variable whose definition refers to itself is skipped.
    fn record_variable(
        &mut self,
        class_name: &String,
        class_id: ClassId,
        class_symbol_id: ClassGlobalSymbolId,
        lsm_id: LocalSemanticModelId,
        slot: MethodSlot,
        url: &String,
        doc: &mut Document,
        def: VariableDef,
    )
        ensures
            final(self).global_semantic_model.classes == old(self).global_semantic_model.classes,
            keywords_kept(old(self).global_semantic_model.methods@, final(self).global_semantic_model.methods@),
            private_keywords_kept(old(self).global_semantic_model.private@, final(self).global_semantic_model.private@),
            vars_grown_by(old(self).global_semantic_model.variables@, final(self).global_semantic_model.variables@, def.0),
            private_vars_grown_by(old(self).global_semantic_model.private@, final(self).global_semantic_model.private@, def.0),
            methods_framed(
                old(self).global_semantic_model.methods@,
                final(self).global_semantic_model.methods@,
                old(self).global_semantic_model.private@,
                final(self).global_semantic_model.private@,
                slot,
                lsm_id,
            ),
            final(self).global_semantic_model.class_defs == old(self).global_semantic_model.class_defs,
            final(self).documents == old(self).documents,
            final(self).classes == old(self).classes,
            final(self).class_defs == old(self).class_defs,
            final(self).pub_method_defs == old(self).pub_method_defs,
            final(self).override_index == old(self).override_index,
            *final(doc) == (Document { scope_tree: final(doc).scope_tree, ..*old(doc) }),
            names_kept(old(self).global_semantic_model.methods@, final(self).global_semantic_model.methods@),
            final(self).global_semantic_model.method_defs == old(self).global_semantic_model.method_defs,
            private_names_kept(old(self).global_semantic_model.private@, final(self).global_semantic_model.private@),
            final(doc).scope_tree.method_defs() == old(doc).scope_tree.method_defs(),
            var_symbols_grown(old(self).global_semantic_model.variable_defs@, final(self).global_semantic_model.variable_defs@),
            var_index_consistent(*old(self)) && old(self).class_defs@.contains_key(class_name@)
                && old(self).class_defs@[class_name@] == class_symbol_id ==> var_index_consistent(*final(self)),
            ({
                let v = def.0;
                let skip = def.2@.map_values(|s: String| s@).contains(v.name@);
                let gsm0 = old(self).global_semantic_model;
                let gsm1 = final(self).global_semantic_model;
                &&& skip ==> *final(self) == *old(self) && *final(doc) == *old(doc)
                &&& !skip && v.is_public ==> {
                    let id = listed(gsm0.variables@, class_id).len() as usize;
                    let syms = listed(gsm1.variable_defs@, class_symbol_id);
                    &&& listed(gsm1.variables@, class_id) == listed(gsm0.variables@, class_id).push(v)
                    &&& gsm1.variables@.remove(class_id) == gsm0.variables@.remove(class_id)
                    &&& slot_variable_entered(gsm0.methods@, gsm1.methods@, gsm0.private@, gsm1.private@, slot, true, v.name@, id)
                    &&& slot_exists(gsm0.methods@, gsm0.private@, slot) ==> {
                        &&& syms == listed(gsm0.variable_defs@, class_symbol_id).push(syms.last())
                        &&& syms.last().name@ == v.name@
                        &&& syms.last().url@ == url@
                        &&& syms.last().location == def.1
                        &&& final(self).pub_var_defs@.contains_key(v.name@)
                        &&& final(self).pub_var_defs@[v.name@]@.contains_key(class_name@)
                    }
                    &&& !slot_exists(gsm0.methods@, gsm0.private@, slot) ==> gsm1.variable_defs == gsm0.variable_defs
                }
                &&& !skip && !v.is_public ==> {
                    let l = lsm_id.0 as int;
                    &&& gsm1.variables == gsm0.variables
                    &&& l >= gsm0.private@.len() ==> *final(self) == *old(self) && *final(doc) == *old(doc)
                    &&& l < gsm0.private@.len() ==> {
                        let id = gsm0.private@[l].variables@.len() as usize;
                        &&& gsm1.private@[l].variables@ == gsm0.private@[l].variables@.push(v)
                        &&& slot_variable_entered(gsm0.methods@, gsm1.methods@, gsm0.private@, gsm1.private@, slot, false, v.name@, id)
                    }
                    &&& l < gsm0.private@.len() && slot_exists(gsm0.methods@, gsm0.private@, slot)
                        && old(doc).scope_tree.root_id().0 < old(doc).scope_tree.scope_seq().len() ==> {
                        &&& private_variable_added(*old(doc), *final(doc), v.name@, def.1)
                        &&& final(doc).scope_tree_definition(def.1.start_point, v.name@) == Some(def.1)
                    }
                }
            }),
    {
        proof {
            lemma_var_symbols_grown_refl(old(self).global_semantic_model.variable_defs@);
            lemma_names_kept_refl(old(self).global_semantic_model.methods@);
            lemma_private_names_kept_refl(old(self).global_semantic_model.private@);
        }
        let (variable, variable_range, refs_to_other_vars, refs_to_properties) = def;
        let var_name = variable.name.clone();
        if contains_name(&refs_to_other_vars, &var_name) {
            proof { lemma_var_index_kept(*old(self), *self); } return;
        }
        if variable.is_public {
            let ghost vars_before = self.global_semantic_model.variables@;
            let ghost v = variable;
            let var_id = self.global_semantic_model.new_variable(variable, &class_id);
            proof {
                assert forall|k: ClassId| #[trigger] listed(self.global_semantic_model.variables@, k) == listed(vars_before, k)
                    || listed(self.global_semantic_model.variables@, k) == listed(vars_before, k).push(v) by {
                    if k != class_id {
                        assert(self.global_semantic_model.variables@.remove(class_id).contains_key(k)
                            == vars_before.remove(class_id).contains_key(k));
                        if vars_before.contains_key(k) {
                            assert(self.global_semantic_model.variables@[k] == self.global_semantic_model.variables@.remove(class_id)[k]);
                            assert(vars_before[k] == vars_before.remove(class_id)[k]);
                        }
                    }
                }
            }
            let ghost before_edit = self.global_semantic_model.methods@;
            let ghost before_private = self.global_semantic_model.private@;
            let edit = MethodEdit::PublicVariable(var_name.clone(), var_id);
            let ghost edit_g = edit;
            let done = self.edit_slot(slot, edit);
            proof {
                lemma_slot_edited_names(before_edit, self.global_semantic_model.methods@, slot, edit_g, done);
                lemma_slot_edited_private_names(before_private, self.global_semantic_model.private@, slot, edit_g, done);
                lemma_variable_edit_keeps_keywords(before_edit, self.global_semantic_model.methods@, slot, edit_g, done);
                lemma_variable_edit_keeps_private_keywords(before_private, self.global_semantic_model.private@, slot, edit_g, done);
                assert(var_name@ == v.name@);
                assert(before_edit == old(self).global_semantic_model.methods@);
                assert(before_private == old(self).global_semantic_model.private@);
                assert(done == slot_exists(before_edit, before_private, slot));
                assert(slot_variable_entered(before_edit, self.global_semantic_model.methods@, before_private,
                    self.global_semantic_model.private@, slot, true, v.name@, var_id.0));
                assert(listed(self.global_semantic_model.variables@, class_id) == listed(vars_before, class_id).push(v));
            }
            if !done {
                proof { lemma_var_index_kept(*old(self), *self); } return;
            }
            let ghost defs_before = self.global_semantic_model.variable_defs@;
            let ghost refs_g = refs_to_other_vars@;
            let name_arg = var_name.clone();
            let symbol_id = match self.global_semantic_model.new_variable_symbol(
                name_arg,
                variable_range,
                url.clone(),
                refs_to_other_vars,
                refs_to_properties,
                class_symbol_id,
            ) {
                Some(id) => id,
                None => {
                    proof { lemma_var_index_kept(*old(self), *self); } return;
                },
            };
            proof {
                let defs_after = self.global_semantic_model.variable_defs@;
                assert forall|k: ClassGlobalSymbolId| #![trigger listed(defs_after, k)] {
                    &&& listed(defs_before, k).len() <= listed(defs_after, k).len()
                    &&& listed(defs_after, k).subrange(0, listed(defs_before, k).len() as int) == listed(defs_before, k)
                    &&& forall|x: int| listed(defs_before, k).len() <= x < listed(defs_after, k).len() ==> not_self_referencing(#[trigger] listed(defs_after, k)[x])
                } by {
                    if k == class_symbol_id {
                        assert(listed(defs_after, k).subrange(0, listed(defs_before, k).len() as int) =~= listed(defs_before, k));
                    } else {
                        assert(defs_after.remove(class_symbol_id).contains_key(k) == defs_before.remove(class_symbol_id).contains_key(k));
                        if defs_before.contains_key(k) {
                            assert(defs_after[k] == defs_after.remove(class_symbol_id)[k]);
                            assert(defs_before[k] == defs_before.remove(class_symbol_id)[k]);
                        }
                        assert(listed(defs_after, k) == listed(defs_before, k));
                        assert(listed(defs_after, k).subrange(0, listed(defs_before, k).len() as int) =~= listed(defs_before, k));
                    }
                }
                assert(symbol_id.0 as int == listed(defs_before, class_symbol_id).len());
                assert(listed(defs_after, class_symbol_id) == listed(defs_before, class_symbol_id).push(listed(defs_after, class_symbol_id).last()));
                assert(listed(defs_after, class_symbol_id).last().name == name_arg);
                assert(listed(defs_after, class_symbol_id)[symbol_id.0 as int] == listed(defs_after, class_symbol_id).last());
                assert(listed(defs_after, class_symbol_id)[symbol_id.0 as int].name@ == var_name@);
            }
            doc.scope_tree.new_public_var_symbol(var_name.clone(), variable_range, symbol_id);
            let ghost var_key = var_name@;
            record_public_variable_symbol(&mut self.pub_var_defs, var_name, class_name, symbol_id);
            proof {
                if var_index_consistent(*old(self)) && old(self).class_defs@.contains_key(class_name@)
                    && old(self).class_defs@[class_name@] == class_symbol_id {
                    lemma_var_index_add(*old(self), *self, var_key, class_name@, symbol_id);
                }
            }
        } else {
            let ghost private_start = self.global_semantic_model.private@;
            let ghost v = variable;
            let var_id = match self.global_semantic_model.new_local_variable(lsm_id, variable) {
                Some(id) => id,
                None => {
                    proof { lemma_var_index_kept(*old(self), *self); } return;
                },
            };
            let ghost before_edit = self.global_semantic_model.methods@;
            let ghost before_private = self.global_semantic_model.private@;
            let edit = MethodEdit::PrivateVariable(var_name.clone(), var_id);
            let ghost edit_g = edit;
            let done = self.edit_slot(slot, edit);
            proof {
                lemma_slot_edited_names(before_edit, self.global_semantic_model.methods@, slot, edit_g, done);
                lemma_slot_edited_private_names(before_private, self.global_semantic_model.private@, slot, edit_g, done);
                lemma_variable_edit_keeps_keywords(before_edit, self.global_semantic_model.methods@, slot, edit_g, done);
                lemma_variable_edit_keeps_private_keywords(before_private, self.global_semantic_model.private@, slot, edit_g, done);
                assert(private_keywords_kept(old(self).global_semantic_model.private@, before_private));
                lemma_private_keywords_kept_trans(old(self).global_semantic_model.private@, before_private, self.global_semantic_model.private@);
                assert forall|l: int| 0 <= l < private_start.len() implies (#[trigger] self.global_semantic_model.private@[l]).variables@
                    == private_start[l].variables@ || self.global_semantic_model.private@[l].variables@ == private_start[l].variables@.push(v) by {
                    if l != lsm_id.0 {
                        assert(before_private[l] == private_start[l]);
                    }
                }
            }
            if !done {
                proof { lemma_var_index_kept(*old(self), *self); } return;
            }
            let ghost doc_before = *doc;
            let _ = doc.scope_tree.new_variable_symbol(
                var_name,
                variable_range,
                refs_to_other_vars,
                refs_to_properties,
            );
            proof {
                lemma_var_index_kept(*old(self), *self);
                if doc_before.scope_tree.root_id().0 < doc_before.scope_tree.scope_seq().len() {
                    assert(private_variable_added(doc_before, *doc, v.name@, variable_range));
                    law_private_variable_found_at_its_definition(doc_before, *doc, v.name@, variable_range, variable_range.start_point);
                }
            }
        }
    }

    /// Rebuilds the calls and variables of the method in `slot` of class `i`, after applying
    /// the class's keyword defaults to it; `loc` is where its definition lies in `doc`.
    fn rebuild_method(
        &mut self,
        i: usize,
        class_name: &String,
        class_id: ClassId,
        class_symbol_id: ClassGlobalSymbolId,
        lsm_id: LocalSemanticModelId,
        slot: MethodSlot,
        loc: TextRange,
        url: &String,
        doc: &mut Document,
        idx: &OverrideIndex,
        classes_map: &AssocMap<String, ClassId>,
    )
        requires
            tree_wf(old(doc).tree),
            calls_resolve(old(self).global_semantic_model.classes@, classes_map@, *idx),
        ensures
            calls_resolve(final(self).global_semantic_model.classes@, classes_map@, *idx),
            same_but_calls(old(self).global_semantic_model.classes@, final(self).global_semantic_model.classes@),
            forall|j: int| 0 <= j < old(self).global_semantic_model.classes@.len() && j != i
                ==> #[trigger] final(self).global_semantic_model.classes@[j] == old(self).global_semantic_model.classes@[j],
            keywords_kept(old(self).global_semantic_model.methods@, final(self).global_semantic_model.methods@),
            private_keywords_kept(old(self).global_semantic_model.private@, final(self).global_semantic_model.private@),
            vars_extended_from(old(self).global_semantic_model.variables@, final(self).global_semantic_model.variables@, *old(doc)),
            private_vars_extended_from(old(self).global_semantic_model.private@, final(self).global_semantic_model.private@, *old(doc)),
            methods_framed(
                old(self).global_semantic_model.methods@,
                final(self).global_semantic_model.methods@,
                old(self).global_semantic_model.private@,
                final(self).global_semantic_model.private@,
                slot,
                lsm_id,
            ),
            final(self).global_semantic_model.class_defs == old(self).global_semantic_model.class_defs,
            var_symbols_grown(old(self).global_semantic_model.variable_defs@, final(self).global_semantic_model.variable_defs@),
            var_index_consistent(*old(self)) && old(self).class_defs@.contains_key(class_name@)
                && old(self).class_defs@[class_name@] == class_symbol_id ==> var_index_consistent(*final(self)),
            names_kept(old(self).global_semantic_model.methods@, final(self).global_semantic_model.methods@),
            final(self).global_semantic_model.method_defs == old(self).global_semantic_model.method_defs,
            private_names_kept(old(self).global_semantic_model.private@, final(self).global_semantic_model.private@),
            final(doc).scope_tree.method_defs() == old(doc).scope_tree.method_defs(),
            vars_kept(old(self).global_semantic_model.variables@, final(self).global_semantic_model.variables@),
            private_vars_kept(old(self).global_semantic_model.private@, final(self).global_semantic_model.private@),
            slot_exists(old(self).global_semantic_model.methods@, old(self).global_semantic_model.private@, slot) && loc.start_byte <= loc.end_byte
                ==> exists|code: &str| code@ == old(doc).content@ && #[trigger] vars_recorded(
                    final(self).global_semantic_model.variables@,
                    final(self).global_semantic_model.private@,
                    class_id,
                    lsm_id.0 as int,
                    old(doc).tree,
                    code,
                    byte_descent(old(doc).tree, 0, loc.start_byte, loc.end_byte),
                    slot_method_of(old(self).global_semantic_model.methods@, old(self).global_semantic_model.private@, slot),
                ),
            i < old(self).global_semantic_model.classes@.len() && slot_exists(old(self).global_semantic_model.methods@, old(self).global_semantic_model.private@, slot)
                ==> calls_cover(final(self).global_semantic_model.classes@[i as int].method_calls@, old(doc).tree, old(doc).content@, class_name@, loc),
            i < old(self).global_semantic_model.classes@.len() ==> {
                let before = old(self).global_semantic_model.classes@[i as int].method_calls@;
                let after = final(self).global_semantic_model.classes@[i as int].method_calls@;
                &&& before.len() <= after.len()
                &&& after.subrange(0, before.len() as int) == before
                &&& forall|b: int| before.len() <= b < after.len() ==> #[trigger] site_from(*old(doc), class_name@, after[b])
            },
            final(self).documents == old(self).documents,
            final(self).classes == old(self).classes,
            final(self).class_defs == old(self).class_defs,
            final(self).pub_method_defs == old(self).pub_method_defs,
            final(self).override_index == old(self).override_index,
            *final(doc) == (Document { scope_tree: final(doc).scope_tree, ..*old(doc) }),
    {
        proof {
            lemma_vars_extended_refl(old(self).global_semantic_model.variables@, old(self).global_semantic_model.private@, *old(doc));
            lemma_var_symbols_grown_refl(old(self).global_semantic_model.variable_defs@);
            lemma_names_kept_refl(old(self).global_semantic_model.methods@);
            lemma_private_names_kept_refl(old(self).global_semantic_model.private@);
        }
        let method_name = match self.slot_method(slot, class_name) {
            Some(m) => m.name.clone(),
            None => return,
        };
        let node = match doc.tree.named_descendant_for_byte_range(loc.start_byte, loc.end_byte) {
            Some(n) => n,
            None => return,
        };
        let n_nodes = doc.tree.nodes.len();
        proof {
            crate::syntax::lemma_byte_descent_in_bounds(doc.tree, 0, loc.start_byte, loc.end_byte);
            assert(byte_descent(doc.tree, 0, loc.start_byte, loc.end_byte) < n_nodes);
        }
        let code_str = doc.content.as_str();
        let ghost code_g = code_str;
        let calls = build_method_calls(class_name.as_str(), &doc.tree, node, code_str);
        let ghost unresolved = calls@;
        let sites = build_method_calls_from_unresolved(classes_map, idx, calls, method_name);
        let ghost before_calls = self.global_semantic_model.classes@;
        let ghost new_sites = sites@;
        self.global_semantic_model.extend_method_calls(i, sites);
        let ghost classes_after_calls = self.global_semantic_model.classes@;
        let ghost cond = var_index_consistent(*old(self)) && old(self).class_defs@.contains_key(class_name@)
            && old(self).class_defs@[class_name@] == class_symbol_id;
        proof {
            lemma_var_index_kept(*old(self), *self);
        }
        proof {
            if i < before_calls.len() {
                let before = before_calls[i as int].method_calls@;
                let after = classes_after_calls[i as int].method_calls@;
                assert(after.subrange(0, before.len() as int) =~= before);
                assert forall|b: int| before.len() <= b < after.len() implies #[trigger] site_from(*old(doc), class_name@, after[b]) by {
                    let j = b - before.len();
                    assert(after[b] == new_sites[j]);
                    let u = unresolved[j];
                    assert((UnresolvedCallSite {
                        callee_class: new_sites[j].callee_class,
                        callee_method: new_sites[j].callee_method,
                        call_range: new_sites[j].call_range,
                        arg_ranges: new_sites[j].arg_ranges,
                    }) == u);
                    assert(records_call(old(doc).tree, code_g, class_name@, node as int, j, after[b]));
                }
                let mc = method_calls(old(doc).tree, code_g, node as int, old(doc).tree.nodes@[node as int].child_count as int);
                assert(new_sites.len() == mc.len());
                assert forall|j: int| 0 <= j < mc.len() implies records_call(old(doc).tree, code_g, class_name@, node as int, j,
                    #[trigger] after.subrange(before.len() as int, (before.len() + mc.len()) as int)[j]) by {
                    assert(after.subrange(before.len() as int, (before.len() + mc.len()) as int)[j] == after[before.len() + j]);
                    assert(site_from(*old(doc), class_name@, after[before.len() + j]));
                    assert(after[before.len() + j] == new_sites[j]);
                    let u = unresolved[j];
                    assert((UnresolvedCallSite {
                        callee_class: new_sites[j].callee_class,
                        callee_method: new_sites[j].callee_method,
                        call_range: new_sites[j].call_range,
                        arg_ranges: new_sites[j].arg_ranges,
                    }) == u);
                }
                assert(block_at(after, old(doc).tree, code_g, class_name@, node as int, before.len() as int));
                assert(code_g@ == old(doc).content@);
                assert(loc.start_byte <= loc.end_byte);
                assert(node as int == byte_descent(old(doc).tree, 0, loc.start_byte, loc.end_byte));
                assert(calls_cover(after, old(doc).tree, old(doc).content@, class_name@, loc));
            }
        }
        proof {
            assert forall|a: int, b: int|
                0 <= a < classes_after_calls.len() && 0 <= b < classes_after_calls[a].method_calls@.len() implies {
                    let site = #[trigger] classes_after_calls[a].method_calls@[b];
                    site.callee_symbol == resolve_call(classes_map@, *idx, site.callee_class@, site.callee_method@)
                } by {
                if a == i {
                    let old_calls = before_calls[a].method_calls@;
                    if b < old_calls.len() {
                        assert(classes_after_calls[a].method_calls@[b] == old_calls[b]);
                    } else {
                        assert(classes_after_calls[a].method_calls@[b] == new_sites[b - old_calls.len()]);
                    }
                } else {
                    assert(classes_after_calls[a] == before_calls[a]);
                }
            }
        }
        let the_method = match self.slot_method(slot, class_name) {
            Some(m) => m,
            None => return,
        };
        let ghost mg = *the_method;
        assert(mg == slot_method_of(old(self).global_semantic_model.methods@, old(self).global_semantic_model.private@, slot));
        let mut var_results = the_method.build_method_variables_and_ref(&doc.tree, node, code_str);
        let ghost all = var_results@;
        proof {
            assert(var_results@ =~= all.skip(0));
        }
        while var_results.len() > 0
            invariant
                var_results@.len() <= all.len(),
                var_results@ == all.skip(all.len() - var_results@.len()),
                forall|j2: int| 0 <= j2 < all.len() - var_results@.len() ==> def_recorded(
                    self.global_semantic_model.variables@,
                    self.global_semantic_model.private@,
                    class_id,
                    lsm_id.0 as int,
                    #[trigger] all[j2],
                ),
                node < old(doc).tree.nodes@.len(),
                code_g@ == old(doc).content@,
                crate::method::variables_from_sources(
                    old(doc).tree,
                    code_g,
                    mg,
                    method_variable_sources(old(doc).tree, code_g, node as int, old(doc).tree.nodes@[node as int].child_count as int),
                    all,
                ),
                vars_extended_from(old(self).global_semantic_model.variables@, self.global_semantic_model.variables@, *old(doc)),
                private_vars_extended_from(old(self).global_semantic_model.private@, self.global_semantic_model.private@, *old(doc)),
                names_kept(old(self).global_semantic_model.methods@, self.global_semantic_model.methods@),
                self.global_semantic_model.method_defs == old(self).global_semantic_model.method_defs,
                private_names_kept(old(self).global_semantic_model.private@, self.global_semantic_model.private@),
                doc.scope_tree.method_defs() == old(doc).scope_tree.method_defs(),
                var_symbols_grown(old(self).global_semantic_model.variable_defs@, self.global_semantic_model.variable_defs@),
                cond == (var_index_consistent(*old(self)) && old(self).class_defs@.contains_key(class_name@)
                    && old(self).class_defs@[class_name@] == class_symbol_id),
                cond ==> var_index_consistent(*self),
                methods_framed(
                    old(self).global_semantic_model.methods@,
                    self.global_semantic_model.methods@,
                    old(self).global_semantic_model.private@,
                    self.global_semantic_model.private@,
                    slot,
                    lsm_id,
                ),
                self.global_semantic_model.classes@ == classes_after_calls,
                keywords_kept(old(self).global_semantic_model.methods@, self.global_semantic_model.methods@),
                private_keywords_kept(old(self).global_semantic_model.private@, self.global_semantic_model.private@),
                self.global_semantic_model.class_defs == old(self).global_semantic_model.class_defs,
                calls_resolve(classes_after_calls, classes_map@, *idx),
                same_but_calls(old(self).global_semantic_model.classes@, classes_after_calls),
                self.documents == old(self).documents,
                self.classes == old(self).classes,
                self.class_defs == old(self).class_defs,
                self.pub_method_defs == old(self).pub_method_defs,
                self.override_index == old(self).override_index,
                *doc == (Document { scope_tree: doc.scope_tree, ..*old(doc) }),
                tree_wf(doc.tree),
            decreases var_results@.len(),
        {
            let ghost j = all.len() - var_results@.len();
            proof {
                assert(var_results@[0] == all[j]);
            }
            let def = var_results.remove(0);
            proof {
                assert(var_results@ =~= all.skip(j + 1));
                assert(defines_variable(old(doc).tree, code_g, node as int, mg, j, def));
                assert(variable_from(*old(doc), def.0));
            }
            let ghost methods_before = self.global_semantic_model.methods@;
            let ghost private_before = self.global_semantic_model.private@;
            let ghost vars_before = self.global_semantic_model.variables@;
            let ghost v = def.0;
            let ghost defs_before = self.global_semantic_model.variable_defs@;
            let ghost names_before = self.global_semantic_model.methods@;
            let ghost pnames_before = self.global_semantic_model.private@;
            self.record_variable(class_name, class_id, class_symbol_id, lsm_id, slot, url, doc, def);
            proof {
                lemma_private_names_kept_trans(old(self).global_semantic_model.private@, pnames_before, self.global_semantic_model.private@);
                lemma_names_kept_trans(old(self).global_semantic_model.methods@, names_before, self.global_semantic_model.methods@);
                lemma_var_symbols_grown_trans(old(self).global_semantic_model.variable_defs@, defs_before, self.global_semantic_model.variable_defs@);
                lemma_keywords_kept_trans(old(self).global_semantic_model.methods@, methods_before, self.global_semantic_model.methods@);
                lemma_private_keywords_kept_trans(old(self).global_semantic_model.private@, private_before, self.global_semantic_model.private@);
                lemma_vars_extended_step(
                    old(self).global_semantic_model.variables@,
                    vars_before,
                    self.global_semantic_model.variables@,
                    old(self).global_semantic_model.private@,
                    private_before,
                    self.global_semantic_model.private@,
                    *old(doc),
                    v,
                );
                lemma_grown_by_kept(vars_before, self.global_semantic_model.variables@, private_before, self.global_semantic_model.private@, v, v);
                assert forall|j2: int| 0 <= j2 < j + 1 implies def_recorded(
                    self.global_semantic_model.variables@,
                    self.global_semantic_model.private@,
                    class_id,
                    lsm_id.0 as int,
                    #[trigger] all[j2],
                ) by {
                    if j2 < j {
                        lemma_def_recorded_kept(vars_before, self.global_semantic_model.variables@, private_before,
                            self.global_semantic_model.private@, class_id, lsm_id.0 as int, all[j2]);
                    } else {
                        let d = all[j];
                        assert(d.0 == v);
                        if !d.2@.map_values(|s: String| s@).contains(d.0.name@) {
                            if d.0.is_public {
                                assert(listed(self.global_semantic_model.variables@, class_id) == listed(vars_before, class_id).push(v));
                                assert(listed(self.global_semantic_model.variables@, class_id)[listed(vars_before, class_id).len() as int] == v);
                            } else if 0 <= lsm_id.0 < private_before.len() {
                                assert(self.global_semantic_model.private@[lsm_id.0 as int].variables@ == private_before[lsm_id.0 as int].variables@.push(v));
                                assert(self.global_semantic_model.private@[lsm_id.0 as int].variables@[private_before[lsm_id.0 as int].variables@.len() as int] == v);
                            }
                        }
                    }
                }
            }
        }
        proof {
            lemma_vars_extended_kept(old(self).global_semantic_model.variables@, self.global_semantic_model.variables@,
                old(self).global_semantic_model.private@, self.global_semantic_model.private@, *old(doc));
            assert(code_g@ == old(doc).content@);
            assert(node as int == byte_descent(old(doc).tree, 0, loc.start_byte, loc.end_byte));
            assert forall|j: int| 0 <= j < body_var_sources(old(doc).tree, code_g, node as int).len() implies source_recorded(
                self.global_semantic_model.variables@, self.global_semantic_model.private@, class_id, lsm_id.0 as int,
                old(doc).tree, code_g, mg, #[trigger] body_var_sources(old(doc).tree, code_g, node as int)[j]) by {
                assert(variable_from_source(old(doc).tree, code_g, mg, body_var_sources(old(doc).tree, code_g, node as int)[j], all[j]));
                assert(def_recorded(self.global_semantic_model.variables@, self.global_semantic_model.private@, class_id, lsm_id.0 as int, all[j]));
            }
            assert(vars_recorded(self.global_semantic_model.variables@, self.global_semantic_model.private@, class_id, lsm_id.0 as int,
                old(doc).tree, code_g, node as int, mg));
        }
    }
}


/// Every document of `a` keeps in `b` the private method symbols of its scope tree.
pub open spec fn scope_methods_kept(a: Map<Seq<char>, Document>, b: Map<Seq<char>, Document>) -> bool {
    forall|u: Seq<char>| #[trigger] a.contains_key(u) ==> b.contains_key(u) && b[u].scope_tree.method_defs() == a[u].scope_tree.method_defs()
}

proof fn lemma_scope_methods_kept_refl(a: Map<Seq<char>, Document>)
    ensures
        scope_methods_kept(a, a),
{
}

proof fn lemma_scope_methods_kept_trans(a: Map<Seq<char>, Document>, b: Map<Seq<char>, Document>, c: Map<Seq<char>, Document>)
    requires
        scope_methods_kept(a, b),
        scope_methods_kept(b, c),
    ensures
        scope_methods_kept(a, c),
{
    assert forall|u: Seq<char>| #[trigger] a.contains_key(u) implies c.contains_key(u) && c[u].scope_tree.method_defs() == a[u].scope_tree.method_defs() by {
        assert(b.contains_key(u));
    }
}

/// The private method with id `id` of class `i` of `p`, where its local model lists it and its
/// document's scope tree places its definition, has every call of its body in `calls`, as one
/// run.
pub open spec fn private_slot_covered(p: ProjectData, i: int, id: PrivateMethodId, calls: Seq<MethodCallSite>) -> bool {
    let cn = p.global_semantic_model.classes@[i].name@;
    let cs = p.class_defs@[cn];
    let d = p.documents@[p.global_semantic_model.class_defs@[cs.0 as int].url@];
    let l = (d.local_semantic_model_id->0).0 as int;
    (l < p.global_semantic_model.private@.len() && (id.0 as int) < p.global_semantic_model.private@[l].methods@.len()) ==> {
        let name = p.global_semantic_model.private@[l].methods@[id.0 as int].name@;
        d.scope_tree.method_defs().contains_key(name) ==> calls_cover(
            calls,
            d.tree,
            d.content@,
            cn,
            d.scope_tree.method_defs()[name].location,
        )
    }
}

/// Every private method of class `i` of `p` that its local model lists and whose definition
/// its document places has every call of its body in `calls`, as one run.
pub open spec fn private_calls_covered(p: ProjectData, i: int, calls: Seq<MethodCallSite>) -> bool {
    let c = p.global_semantic_model.classes@[i];
    forall|n: Seq<char>| #[trigger] c.private_methods@.contains_key(n) ==> private_slot_covered(p, i, c.private_methods@[n], calls)
}

/// `b` is `a` after indexing the file at `url` with text `code` and type `filetype`, with
/// outcome `r`: a class file whose class name cannot be read from the parse of its text is left
/// out (`None`); otherwise `r` tells whether the document was tracked already, and a class file
/// that was not is registered under that name.
pub open spec fn file_indexed(a: ProjectData, b: ProjectData, url: Seq<char>, code: Seq<char>, filetype: FileType, r: Option<bool>) -> bool {
    exists|t: SyntaxTree| #[trigger] parsed_as(t, code) && {
        let content = encode_utf8(code);
        let named = filetype != FileType::Cls || has_class_name(t, content);
        &&& !named ==> r is None && b == a
        &&& named ==> r == Some(a.documents@.contains_key(url))
        &&& named && (a.documents@.contains_key(url) || filetype != FileType::Cls) ==> b == a
        &&& named && !a.documents@.contains_key(url) && filetype == FileType::Cls ==> registered_document(
            a,
            b,
            url,
            code,
            class_name_chars(t, content),
            FileType::Cls,
            None,
        )
    }
}

/// `b` is `a` after indexing `files` in order, each as `file_indexed` says; `present` lists, in
/// order, the URLs of the files that were tracked already when their turn came.
pub open spec fn files_indexed(a: ProjectData, b: ProjectData, files: Seq<(String, String, FileType)>, present: Seq<Seq<char>>) -> bool
    decreases files.len(),
{
    if files.len() == 0 {
        b == a && present.len() == 0
    } else {
        exists|mid: ProjectData, r: Option<bool>|
            #[trigger] file_indexed(mid, b, files.last().0@, files.last().1@, files.last().2, r) && if r == Some(true) {
                present.len() > 0 && present.last() == files.last().0@ && files_indexed(a, mid, files.drop_last(), present.drop_last())
            } else {
                files_indexed(a, mid, files.drop_last(), present)
            }
    }
}

/// The views of the URLs `v`.
pub open spec fn url_views(v: Seq<String>) -> Seq<Seq<char>> {
    v.map_values(|s: String| s@)
}

/// Class `c` of `p` is the class of one of the documents `ex`.
pub open spec fn class_excluded(p: ProjectData, ex: Seq<Seq<char>>, c: int) -> bool {
    exists|u: Seq<char>| #[trigger] ex.contains(u) && p.documents@.contains_key(u) && p.documents@[u].class_id == Some(ClassId(c as usize))
}

/// Where the method symbol tables of `p` place the definition of public method `name` of
/// class `cn`, whose class symbol is `cs`.
pub open spec fn public_method_loc(p: ProjectData, cn: Seq<char>, cs: ClassGlobalSymbolId, name: Seq<char>) -> Option<TextRange> {
    if p.pub_method_defs@.contains_key(cn) && p.pub_method_defs@[cn]@.contains_key(name)
        && (p.pub_method_defs@[cn]@[name].0 as int) < listed(p.global_semantic_model.method_defs@, cs).len() {
        Some(listed(p.global_semantic_model.method_defs@, cs)[p.pub_method_defs@[cn]@[name].0 as int].location)
    } else {
        None
    }
}

/// The public method with id `id` of class `i` of `p`, where it is listed and its definition
/// is placed, has every call of its body in `calls`, as one run.
pub open spec fn public_slot_covered(p: ProjectData, i: int, id: PublicMethodId, calls: Seq<MethodCallSite>) -> bool {
    let cn = p.global_semantic_model.classes@[i].name@;
    let cs = p.class_defs@[cn];
    let cid = p.classes@[cn];
    let d = p.documents@[p.global_semantic_model.class_defs@[cs.0 as int].url@];
    (id.0 as int) < listed(p.global_semantic_model.methods@, cid).len() ==> match public_method_loc(
        p,
        cn,
        cs,
        listed(p.global_semantic_model.methods@, cid)[id.0 as int].name@,
    ) {
        Some(loc) => calls_cover(calls, d.tree, d.content@, cn, loc),
        None => true,
    }
}

/// Every public method of class `i` of `p` that is listed and whose definition is placed has
/// every call of its body in `calls`, as one run.
pub open spec fn public_calls_covered(p: ProjectData, i: int, calls: Seq<MethodCallSite>) -> bool {
    let c = p.global_semantic_model.classes@[i];
    forall|n: Seq<char>| #[trigger] c.public_methods@.contains_key(n) ==> public_slot_covered(p, i, c.public_methods@[n], calls)
}

/// What the call coverage of a class says of one project it says of another that agrees with
/// it on the class, the symbol tables, the method names and the documents' texts and trees.
proof fn lemma_public_calls_covered_transfer(a: ProjectData, s: ProjectData, c: int, calls: Seq<MethodCallSite>)
    requires
        public_calls_covered(s, c, calls),
        class_lookups_ok(a, c),
        s.global_semantic_model.classes@.len() == a.global_semantic_model.classes@.len(),
        s.global_semantic_model.classes@[c].name == a.global_semantic_model.classes@[c].name,
        s.global_semantic_model.classes@[c].public_methods == a.global_semantic_model.classes@[c].public_methods,
        s.class_defs == a.class_defs,
        s.classes == a.classes,
        s.global_semantic_model.class_defs == a.global_semantic_model.class_defs,
        docs_same_but_scopes(a.documents@, s.documents@),
        names_kept(a.global_semantic_model.methods@, s.global_semantic_model.methods@),
        s.pub_method_defs == a.pub_method_defs,
        s.global_semantic_model.method_defs == a.global_semantic_model.method_defs,
    ensures
        public_calls_covered(a, c, calls),
{
    let cl = a.global_semantic_model.classes@[c];
    let cn = cl.name@;
    let cs = a.class_defs@[cn];
    let cid = a.classes@[cn];
    let url = a.global_semantic_model.class_defs@[cs.0 as int].url@;
    assert(s.documents@[url] == (Document { scope_tree: s.documents@[url].scope_tree, ..a.documents@[url] }));
    assert forall|n: Seq<char>| #[trigger] cl.public_methods@.contains_key(n) implies public_slot_covered(a, c, cl.public_methods@[n], calls) by {
        let id = cl.public_methods@[n];
        assert(s.global_semantic_model.classes@[c].public_methods@.contains_key(n));
        assert(public_slot_covered(s, c, id, calls));
        assert(listed(s.global_semantic_model.methods@, cid).len() == listed(a.global_semantic_model.methods@, cid).len());
        if (id.0 as int) < listed(a.global_semantic_model.methods@, cid).len() {
            assert(listed(s.global_semantic_model.methods@, cid)[id.0 as int].name == listed(a.global_semantic_model.methods@, cid)[id.0 as int].name);
        }
    }
}

/// What the private call coverage of a class says of one project it says of another that
/// agrees with it on the class, the symbol tables, the local models' method names and the
/// documents' texts, trees and private method symbols.
proof fn lemma_private_calls_covered_transfer(a: ProjectData, s: ProjectData, c: int, calls: Seq<MethodCallSite>)
    requires
        private_calls_covered(s, c, calls),
        class_lookups_ok(a, c),
        s.global_semantic_model.classes@.len() == a.global_semantic_model.classes@.len(),
        s.global_semantic_model.classes@[c].name == a.global_semantic_model.classes@[c].name,
        s.global_semantic_model.classes@[c].private_methods == a.global_semantic_model.classes@[c].private_methods,
        s.class_defs == a.class_defs,
        s.global_semantic_model.class_defs == a.global_semantic_model.class_defs,
        docs_same_but_scopes(a.documents@, s.documents@),
        scope_methods_kept(a.documents@, s.documents@),
        private_names_kept(a.global_semantic_model.private@, s.global_semantic_model.private@),
    ensures
        private_calls_covered(a, c, calls),
{
    let cl = a.global_semantic_model.classes@[c];
    let cn = cl.name@;
    let cs = a.class_defs@[cn];
    let url = a.global_semantic_model.class_defs@[cs.0 as int].url@;
    assert(s.documents@[url] == (Document { scope_tree: s.documents@[url].scope_tree, ..a.documents@[url] }));
    assert(s.documents@[url].scope_tree.method_defs() == a.documents@[url].scope_tree.method_defs());
    let l = (a.documents@[url].local_semantic_model_id->0).0 as int;
    assert forall|n: Seq<char>| #[trigger] cl.private_methods@.contains_key(n) implies private_slot_covered(a, c, cl.private_methods@[n], calls) by {
        let id = cl.private_methods@[n];
        assert(s.global_semantic_model.classes@[c].private_methods@.contains_key(n));
        assert(private_slot_covered(s, c, id, calls));
        if l < a.global_semantic_model.private@.len() {
            assert(s.global_semantic_model.private@[l].methods@.len() == a.global_semantic_model.private@[l].methods@.len());
            if (id.0 as int) < a.global_semantic_model.private@[l].methods@.len() {
                assert(s.global_semantic_model.private@[l].methods@[id.0 as int].name == a.global_semantic_model.private@[l].methods@[id.0 as int].name);
            }
        }
    }
}

/// The method in `slot`.
pub open spec fn slot_method_of(ms: Map<ClassId, Vec<Method>>, ps: Seq<LocalSemanticModel>, slot: MethodSlot) -> Method {
    match slot {
        MethodSlot::Public(cid, mid) => listed(ms, cid)[mid.0 as int],
        MethodSlot::Private(l, mid) => ps[l.0 as int].methods@[mid.0 as int],
    }
}

proof fn lemma_grown_by_kept(
    a: Map<ClassId, Vec<Variable>>,
    b: Map<ClassId, Vec<Variable>>,
    pa: Seq<LocalSemanticModel>,
    pb: Seq<LocalSemanticModel>,
    v: Variable,
    w: Variable,
)
    requires
        vars_grown_by(a, b, v),
        private_vars_grown_by(pa, pb, w),
    ensures
        vars_kept(a, b),
        private_vars_kept(pa, pb),
{
    assert forall|k: ClassId, x: Variable| #[trigger] listed(a, k).contains(x) implies listed(b, k).contains(x) by {
        let i = choose|i: int| 0 <= i < listed(a, k).len() && listed(a, k)[i] == x;
        if listed(b, k) != listed(a, k) {
            assert(listed(b, k)[i] == x);
        }
    }
    assert forall|l: int, x: Variable| 0 <= l < pa.len() && #[trigger] pa[l].variables@.contains(x) implies pb[l].variables@.contains(x) by {
        let i = choose|i: int| 0 <= i < pa[l].variables@.len() && pa[l].variables@[i] == x;
        if pb[l].variables@ != pa[l].variables@ {
            assert(pb[l].variables@[i] == x);
        }
    }
}

/// Every variable that a list of `a` holds, the same list of `b` holds.
pub open spec fn vars_kept(a: Map<ClassId, Vec<Variable>>, b: Map<ClassId, Vec<Variable>>) -> bool {
    forall|k: ClassId, v: Variable| #[trigger] listed(a, k).contains(v) ==> listed(b, k).contains(v)
}

/// `b` holds as many local models as `a`, each with every variable that `a`'s holds.
pub open spec fn private_vars_kept(a: Seq<LocalSemanticModel>, b: Seq<LocalSemanticModel>) -> bool {
    &&& b.len() == a.len()
    &&& forall|l: int, v: Variable| 0 <= l < a.len() && #[trigger] a[l].variables@.contains(v) ==> b[l].variables@.contains(v)
}

proof fn lemma_vars_kept_trans(
    a: Map<ClassId, Vec<Variable>>,
    b: Map<ClassId, Vec<Variable>>,
    c: Map<ClassId, Vec<Variable>>,
    pa: Seq<LocalSemanticModel>,
    pb: Seq<LocalSemanticModel>,
    pc: Seq<LocalSemanticModel>,
)
    requires
        vars_kept(a, b),
        vars_kept(b, c),
        private_vars_kept(pa, pb),
        private_vars_kept(pb, pc),
    ensures
        vars_kept(a, c),
        private_vars_kept(pa, pc),
{
    assert forall|k: ClassId, v: Variable| #[trigger] listed(a, k).contains(v) implies listed(c, k).contains(v) by {
        assert(listed(b, k).contains(v));
    }
    assert forall|l: int, v: Variable| 0 <= l < pa.len() && #[trigger] pa[l].variables@.contains(v) implies pc[l].variables@.contains(v) by {
        assert(pb[l].variables@.contains(v));
    }
}

proof fn lemma_vars_extended_kept(
    a: Map<ClassId, Vec<Variable>>,
    b: Map<ClassId, Vec<Variable>>,
    pa: Seq<LocalSemanticModel>,
    pb: Seq<LocalSemanticModel>,
    d: Document,
)
    requires
        vars_extended_from(a, b, d),
        private_vars_extended_from(pa, pb, d),
    ensures
        vars_kept(a, b),
        private_vars_kept(pa, pb),
{
    assert forall|k: ClassId, v: Variable| #[trigger] listed(a, k).contains(v) implies listed(b, k).contains(v) by {
        let x = choose|x: int| 0 <= x < listed(a, k).len() && listed(a, k)[x] == v;
        assert(listed(b, k).len() >= listed(a, k).len());
        assert(listed(b, k).subrange(0, listed(a, k).len() as int)[x] == listed(b, k)[x]);
    }
    assert forall|l: int, v: Variable| 0 <= l < pa.len() && #[trigger] pa[l].variables@.contains(v) implies pb[l].variables@.contains(v) by {
        let x = choose|x: int| 0 <= x < pa[l].variables@.len() && pa[l].variables@[x] == v;
        assert(pb[l].variables@.subrange(0, pa[l].variables@.len() as int)[x] == pb[l].variables@[x]);
    }
}

/// The variable that `def` defines is recorded: in the public variables of class `cid` when
/// public, in the variables of local model `l` (where there is one) when private; unless the
/// definition refers to its own variable.
pub open spec fn def_recorded(
    vars: Map<ClassId, Vec<Variable>>,
    pvars: Seq<LocalSemanticModel>,
    cid: ClassId,
    l: int,
    def: VariableDef,
) -> bool {
    !def.2@.map_values(|s: String| s@).contains(def.0.name@) ==> if def.0.is_public {
        listed(vars, cid).contains(def.0)
    } else {
        0 <= l < pvars.len() ==> pvars[l].variables@.contains(def.0)
    }
}

proof fn lemma_def_recorded_kept(
    a: Map<ClassId, Vec<Variable>>,
    b: Map<ClassId, Vec<Variable>>,
    pa: Seq<LocalSemanticModel>,
    pb: Seq<LocalSemanticModel>,
    cid: ClassId,
    l: int,
    def: VariableDef,
)
    requires
        def_recorded(a, pa, cid, l, def),
        vars_kept(a, b),
        private_vars_kept(pa, pb),
    ensures
        def_recorded(b, pb, cid, l, def),
{
    if !def.2@.map_values(|s: String| s@).contains(def.0.name@) {
        if def.0.is_public {
            assert(listed(a, cid).contains(def.0));
        } else if 0 <= l < pa.len() {
            assert(pa[l].variables@.contains(def.0));
        }
    }
}

/// Every variable that an argument or a `set` command of the method definition `node` of `t`
/// (read from `code`) defines, as method `m` sees it, is recorded.
pub open spec fn vars_recorded(
    vars: Map<ClassId, Vec<Variable>>,
    pvars: Seq<LocalSemanticModel>,
    cid: ClassId,
    l: int,
    t: SyntaxTree,
    code: &str,
    node: int,
    m: Method,
) -> bool {
    forall|j: int| 0 <= j < body_var_sources(t, code, node).len() ==> source_recorded(vars, pvars, cid, l, t, code, m,
        #[trigger] body_var_sources(t, code, node)[j])
}

/// The variable that `src` defines, as method `m` sees it, is recorded.
pub open spec fn source_recorded(
    vars: Map<ClassId, Vec<Variable>>,
    pvars: Seq<LocalSemanticModel>,
    cid: ClassId,
    l: int,
    t: SyntaxTree,
    code: &str,
    m: Method,
    src: VariableSource,
) -> bool {
    exists|def: VariableDef| #[trigger] variable_from_source(t, code, m, src, def) && def_recorded(vars, pvars, cid, l, def)
}

/// The variable sources of the method definition `node` of `t`, read from `code`.
pub open spec fn body_var_sources(t: SyntaxTree, code: &str, node: int) -> Seq<VariableSource> {
    method_variable_sources(t, code, node, t.nodes@[node].child_count as int)
}

proof fn lemma_vars_recorded_kept(
    a: Map<ClassId, Vec<Variable>>,
    b: Map<ClassId, Vec<Variable>>,
    pa: Seq<LocalSemanticModel>,
    pb: Seq<LocalSemanticModel>,
    cid: ClassId,
    l: int,
    t: SyntaxTree,
    code: &str,
    node: int,
    m: Method,
)
    requires
        vars_recorded(a, pa, cid, l, t, code, node, m),
        vars_kept(a, b),
        private_vars_kept(pa, pb),
    ensures
        vars_recorded(b, pb, cid, l, t, code, node, m),
{
    assert forall|j: int| 0 <= j < body_var_sources(t, code, node).len() implies source_recorded(b, pb, cid, l, t, code, m,
        #[trigger] body_var_sources(t, code, node)[j]) by {
        let src = body_var_sources(t, code, node)[j];
        assert(source_recorded(a, pa, cid, l, t, code, m, src));
        let def = choose|def: VariableDef| #[trigger] variable_from_source(t, code, m, src, def) && def_recorded(a, pa, cid, l, def);
        lemma_def_recorded_kept(a, b, pa, pb, cid, l, def);
    }
}

/// The public method with id `id` of class `i` of `p`, where it is listed and its definition
/// is placed, has every variable its body defines recorded in `vars` and `pvars`.
pub open spec fn public_slot_vars_covered(
    p: ProjectData,
    i: int,
    id: PublicMethodId,
    vars: Map<ClassId, Vec<Variable>>,
    pvars: Seq<LocalSemanticModel>,
) -> bool {
    let cn = p.global_semantic_model.classes@[i].name@;
    let cs = p.class_defs@[cn];
    let cid = p.classes@[cn];
    let d = p.documents@[p.global_semantic_model.class_defs@[cs.0 as int].url@];
    let l = (d.local_semantic_model_id->0).0 as int;
    (id.0 as int) < listed(p.global_semantic_model.methods@, cid).len() ==> {
        let name = listed(p.global_semantic_model.methods@, cid)[id.0 as int].name;
        match public_method_loc(p, cn, cs, name@) {
            Some(loc) => loc.start_byte <= loc.end_byte ==> exists|code: &str, m: Method|
                code@ == d.content@ && m.name == name && #[trigger] vars_recorded(
                    vars,
                    pvars,
                    cid,
                    l,
                    d.tree,
                    code,
                    byte_descent(d.tree, 0, loc.start_byte, loc.end_byte),
                    m,
                ),
            None => true,
        }
    }
}

/// The private method with id `id` of class `i` of `p`, where its local model lists it and its
/// document places its definition, has every variable its body defines recorded in `vars` and
/// `pvars`.
pub open spec fn private_slot_vars_covered(
    p: ProjectData,
    i: int,
    id: PrivateMethodId,
    vars: Map<ClassId, Vec<Variable>>,
    pvars: Seq<LocalSemanticModel>,
) -> bool {
    let cn = p.global_semantic_model.classes@[i].name@;
    let cs = p.class_defs@[cn];
    let cid = p.classes@[cn];
    let d = p.documents@[p.global_semantic_model.class_defs@[cs.0 as int].url@];
    let l = (d.local_semantic_model_id->0).0 as int;
    (l < p.global_semantic_model.private@.len() && (id.0 as int) < p.global_semantic_model.private@[l].methods@.len()) ==> {
        let name = p.global_semantic_model.private@[l].methods@[id.0 as int].name;
        d.scope_tree.method_defs().contains_key(name@) ==> {
            let loc = d.scope_tree.method_defs()[name@].location;
            loc.start_byte <= loc.end_byte ==> exists|code: &str, m: Method|
                code@ == d.content@ && m.name == name && #[trigger] vars_recorded(
                    vars,
                    pvars,
                    cid,
                    l,
                    d.tree,
                    code,
                    byte_descent(d.tree, 0, loc.start_byte, loc.end_byte),
                    m,
                )
        }
    }
}

/// Every method of class `i` of `p` that is listed and whose definition is placed has every
/// variable its body defines recorded in `vars` and `pvars`.
pub open spec fn class_vars_covered(
    p: ProjectData,
    i: int,
    vars: Map<ClassId, Vec<Variable>>,
    pvars: Seq<LocalSemanticModel>,
) -> bool {
    let c = p.global_semantic_model.classes@[i];
    &&& forall|n: Seq<char>| #[trigger] c.public_methods@.contains_key(n) ==> public_slot_vars_covered(p, i, c.public_methods@[n], vars, pvars)
    &&& forall|n: Seq<char>| #[trigger] c.private_methods@.contains_key(n) ==> private_slot_vars_covered(p, i, c.private_methods@[n], vars, pvars)
}

proof fn lemma_edit_private_vars_kept(a: Seq<LocalSemanticModel>, b: Seq<LocalSemanticModel>, slot: MethodSlot, e: MethodEdit, done: bool)
    requires
        slot_edited_private(a, b, slot, e, done),
    ensures
        private_vars_kept(a, b),
{
    match slot {
        MethodSlot::Private(l, id) => {
            if done {
                assert forall|j: int, v: Variable| 0 <= j < a.len() && #[trigger] a[j].variables@.contains(v) implies b[j].variables@.contains(v) by {
                    if j != l.0 {
                        assert(b[j] == a[j]);
                    }
                }
            }
        },
        MethodSlot::Public(..) => {},
    }
}

proof fn lemma_slot_vars_kept(
    p: ProjectData,
    i: int,
    pid: PublicMethodId,
    qid: PrivateMethodId,
    va: Map<ClassId, Vec<Variable>>,
    vb: Map<ClassId, Vec<Variable>>,
    pa: Seq<LocalSemanticModel>,
    pb: Seq<LocalSemanticModel>,
)
    requires
        vars_kept(va, vb),
        private_vars_kept(pa, pb),
    ensures
        public_slot_vars_covered(p, i, pid, va, pa) ==> public_slot_vars_covered(p, i, pid, vb, pb),
        private_slot_vars_covered(p, i, qid, va, pa) ==> private_slot_vars_covered(p, i, qid, vb, pb),
{
    let cn = p.global_semantic_model.classes@[i].name@;
    let cs = p.class_defs@[cn];
    let cid = p.classes@[cn];
    let d = p.documents@[p.global_semantic_model.class_defs@[cs.0 as int].url@];
    let l = (d.local_semantic_model_id->0).0 as int;
    if public_slot_vars_covered(p, i, pid, va, pa) && (pid.0 as int) < listed(p.global_semantic_model.methods@, cid).len() {
        let name = listed(p.global_semantic_model.methods@, cid)[pid.0 as int].name;
        match public_method_loc(p, cn, cs, name@) {
            Some(loc) => {
                if loc.start_byte <= loc.end_byte {
                    let node = byte_descent(d.tree, 0, loc.start_byte, loc.end_byte);
                    let (code, m) = choose|code: &str, m: Method| code@ == d.content@ && m.name == name && #[trigger] vars_recorded(va, pa, cid, l, d.tree, code, node, m);
                    lemma_vars_recorded_kept(va, vb, pa, pb, cid, l, d.tree, code, node, m);
                }
            },
            None => {},
        }
    }
    if private_slot_vars_covered(p, i, qid, va, pa) && l < p.global_semantic_model.private@.len() && (qid.0 as int) < p.global_semantic_model.private@[l].methods@.len() {
        let name = p.global_semantic_model.private@[l].methods@[qid.0 as int].name;
        if d.scope_tree.method_defs().contains_key(name@) {
            let loc = d.scope_tree.method_defs()[name@].location;
            if loc.start_byte <= loc.end_byte {
                let node = byte_descent(d.tree, 0, loc.start_byte, loc.end_byte);
                let (code, m) = choose|code: &str, m: Method| code@ == d.content@ && m.name == name && #[trigger] vars_recorded(va, pa, cid, l, d.tree, code, node, m);
                lemma_vars_recorded_kept(va, vb, pa, pb, cid, l, d.tree, code, node, m);
            }
        }
    }
}

proof fn lemma_class_vars_kept(
    p: ProjectData,
    c: int,
    va: Map<ClassId, Vec<Variable>>,
    vb: Map<ClassId, Vec<Variable>>,
    pa: Seq<LocalSemanticModel>,
    pb: Seq<LocalSemanticModel>,
)
    requires
        class_vars_covered(p, c, va, pa),
        vars_kept(va, vb),
        private_vars_kept(pa, pb),
    ensures
        class_vars_covered(p, c, vb, pb),
{
    let cl = p.global_semantic_model.classes@[c];
    assert forall|n: Seq<char>| #[trigger] cl.public_methods@.contains_key(n) implies public_slot_vars_covered(p, c, cl.public_methods@[n], vb, pb) by {
        lemma_slot_vars_kept(p, c, cl.public_methods@[n], PrivateMethodId(0), va, vb, pa, pb);
    }
    assert forall|n: Seq<char>| #[trigger] cl.private_methods@.contains_key(n) implies private_slot_vars_covered(p, c, cl.private_methods@[n], vb, pb) by {
        lemma_slot_vars_kept(p, c, PublicMethodId(0), cl.private_methods@[n], va, vb, pa, pb);
    }
}

/// What the variable coverage of a class says of one project it says of another that agrees
/// with it on the class, the symbol tables, the method names and the documents' texts, trees
/// and private method symbols.
proof fn lemma_class_vars_covered_transfer(
    a: ProjectData,
    s: ProjectData,
    c: int,
    vars: Map<ClassId, Vec<Variable>>,
    pvars: Seq<LocalSemanticModel>,
)
    requires
        class_vars_covered(s, c, vars, pvars),
        class_lookups_ok(a, c),
        s.global_semantic_model.classes@.len() == a.global_semantic_model.classes@.len(),
        s.global_semantic_model.classes@[c].name == a.global_semantic_model.classes@[c].name,
        s.global_semantic_model.classes@[c].public_methods == a.global_semantic_model.classes@[c].public_methods,
        s.global_semantic_model.classes@[c].private_methods == a.global_semantic_model.classes@[c].private_methods,
        s.class_defs == a.class_defs,
        s.classes == a.classes,
        s.global_semantic_model.class_defs == a.global_semantic_model.class_defs,
        docs_same_but_scopes(a.documents@, s.documents@),
        scope_methods_kept(a.documents@, s.documents@),
        names_kept(a.global_semantic_model.methods@, s.global_semantic_model.methods@),
        private_names_kept(a.global_semantic_model.private@, s.global_semantic_model.private@),
        s.pub_method_defs == a.pub_method_defs,
        s.global_semantic_model.method_defs == a.global_semantic_model.method_defs,
    ensures
        class_vars_covered(a, c, vars, pvars),
{
    let cl = a.global_semantic_model.classes@[c];
    let cn = cl.name@;
    let cs = a.class_defs@[cn];
    let cid = a.classes@[cn];
    let url = a.global_semantic_model.class_defs@[cs.0 as int].url@;
    assert(s.documents@[url] == (Document { scope_tree: s.documents@[url].scope_tree, ..a.documents@[url] }));
    assert(s.documents@[url].scope_tree.method_defs() == a.documents@[url].scope_tree.method_defs());
    let l = (a.documents@[url].local_semantic_model_id->0).0 as int;
    assert forall|n: Seq<char>| #[trigger] cl.public_methods@.contains_key(n) implies public_slot_vars_covered(a, c, cl.public_methods@[n], vars, pvars) by {
        let id = cl.public_methods@[n];
        assert(s.global_semantic_model.classes@[c].public_methods@.contains_key(n));
        assert(public_slot_vars_covered(s, c, id, vars, pvars));
        assert(listed(s.global_semantic_model.methods@, cid).len() == listed(a.global_semantic_model.methods@, cid).len());
        if (id.0 as int) < listed(a.global_semantic_model.methods@, cid).len() {
            assert(listed(s.global_semantic_model.methods@, cid)[id.0 as int].name == listed(a.global_semantic_model.methods@, cid)[id.0 as int].name);
        }
    }
    assert forall|n: Seq<char>| #[trigger] cl.private_methods@.contains_key(n) implies private_slot_vars_covered(a, c, cl.private_methods@[n], vars, pvars) by {
        let id = cl.private_methods@[n];
        assert(s.global_semantic_model.classes@[c].private_methods@.contains_key(n));
        assert(private_slot_vars_covered(s, c, id, vars, pvars));
        if l < a.global_semantic_model.private@.len() {
            assert(s.global_semantic_model.private@[l].methods@.len() == a.global_semantic_model.private@[l].methods@.len());
            if (id.0 as int) < a.global_semantic_model.private@[l].methods@.len() {
                assert(s.global_semantic_model.private@[l].methods@[id.0 as int].name == a.global_semantic_model.private@[l].methods@[id.0 as int].name);
            }
        }
    }
}

/// `calls`, from position `a` on, record in order every call written in the body of the method
/// definition `node` of `t` (read from `code`), in class `class_name`.
pub open spec fn block_at(calls: Seq<MethodCallSite>, t: SyntaxTree, code: &str, class_name: Seq<char>, node: int, a: int) -> bool {
    let mc = method_calls(t, code, node, t.nodes@[node].child_count as int);
    let block = calls.subrange(a, a + mc.len());
    &&& 0 <= node < t.nodes@.len()
    &&& 0 <= a && a + mc.len() <= calls.len()
    &&& forall|j: int| 0 <= j < mc.len() ==> records_call(t, code, class_name, node, j, #[trigger] block[j])
}

/// `calls` hold, as one run, the sites of every call written in the body of the method whose
/// definition lies at `loc` in the text `content` parsed as `t`, in class `class_name`.
pub open spec fn calls_cover(calls: Seq<MethodCallSite>, t: SyntaxTree, content: Seq<char>, class_name: Seq<char>, loc: TextRange) -> bool {
    loc.start_byte <= loc.end_byte ==> exists|code: &str, a: int|
        code@ == content && #[trigger] block_at(calls, t, code, class_name, byte_descent(t, 0, loc.start_byte, loc.end_byte), a)
}

/// Sites appended after `c1` leave its runs in place.
proof fn lemma_calls_cover_prefix(c1: Seq<MethodCallSite>, c2: Seq<MethodCallSite>, t: SyntaxTree, content: Seq<char>, class_name: Seq<char>, loc: TextRange)
    requires
        calls_cover(c1, t, content, class_name, loc),
        c1.len() <= c2.len(),
        c2.subrange(0, c1.len() as int) == c1,
    ensures
        calls_cover(c2, t, content, class_name, loc),
{
    if loc.start_byte <= loc.end_byte {
        let node = byte_descent(t, 0, loc.start_byte, loc.end_byte);
        let (code, a) = choose|code: &str, a: int| code@ == content && #[trigger] block_at(c1, t, code, class_name, node, a);
        let mc = method_calls(t, code, node, t.nodes@[node].child_count as int);
        assert(c2.subrange(a, a + mc.len()) =~= c1.subrange(a, a + mc.len())) by {
            assert forall|j: int| 0 <= j < mc.len() implies #[trigger] c2.subrange(a, a + mc.len())[j] == c1.subrange(a, a + mc.len())[j] by {
                assert(c2.subrange(0, c1.len() as int)[a + j] == c2[a + j]);
            }
        }
        assert(block_at(c2, t, code, class_name, node, a));
    }
}

/// `site` records the `j`-th call in the body of the method definition `node` of `t`, read
/// from `code` in class `class_name`.
pub open spec fn records_call(t: SyntaxTree, code: &str, class_name: Seq<char>, node: int, j: int, site: MethodCallSite) -> bool {
    let calls = method_calls(t, code, node, t.nodes@[node].child_count as int);
    &&& 0 <= node < t.nodes@.len()
    &&& 0 <= j < calls.len()
    &&& site_records(
        t,
        code,
        class_name,
        calls[j],
        UnresolvedCallSite {
            callee_class: site.callee_class,
            callee_method: site.callee_method,
            call_range: site.call_range,
            arg_ranges: site.arg_ranges,
        },
    )
}

/// `site` records a call written in the method bodies of document `d`, of class `class_name`.
pub open spec fn site_from(d: Document, class_name: Seq<char>, site: MethodCallSite) -> bool {
    exists|code: &str, node: int, j: int| code@ == d.content@ && #[trigger] records_call(d.tree, code, class_name, node, j, site)
}

/// `site` records a call written in the method bodies of one of the documents `docs`, of
/// class `class_name`.
pub open spec fn site_sourced(docs: Map<Seq<char>, Document>, class_name: Seq<char>, site: MethodCallSite) -> bool {
    exists|url: Seq<char>| docs.contains_key(url) && #[trigger] site_from(docs[url], class_name, site)
}

/// Every call site recorded for a class records a call written in the method bodies of one of
/// the documents `docs`.
pub open spec fn calls_sourced(cs: Seq<Class>, docs: Map<Seq<char>, Document>) -> bool {
    forall|i: int, k: int| #![trigger cs[i].method_calls@[k]]
        0 <= i < cs.len() && 0 <= k < cs[i].method_calls@.len() ==> site_sourced(docs, cs[i].name@, cs[i].method_calls@[k])
}

/// Recorded call sites keep their origin when only the scope trees of documents change.
pub proof fn lemma_calls_sourced_scopes(cs: Seq<Class>, a: Map<Seq<char>, Document>, b: Map<Seq<char>, Document>)
    requires
        calls_sourced(cs, a),
        docs_same_but_scopes(a, b),
    ensures
        calls_sourced(cs, b),
{
    assert forall|i: int, k: int| #![trigger cs[i].method_calls@[k]]
        0 <= i < cs.len() && 0 <= k < cs[i].method_calls@.len() implies site_sourced(b, cs[i].name@, cs[i].method_calls@[k]) by {
        let site = cs[i].method_calls@[k];
        assert(site_sourced(a, cs[i].name@, site));
        let url = choose|url: Seq<char>| a.contains_key(url) && #[trigger] site_from(a[url], cs[i].name@, site);
        assert(b[url] == (Document { scope_tree: b[url].scope_tree, ..a[url] }));
        let (code, node, j) = choose|code: &str, node: int, j: int|
            code@ == a[url].content@ && #[trigger] records_call(a[url].tree, code, cs[i].name@, node, j, site);
        assert(records_call(b[url].tree, code, cs[i].name@, node, j, site));
        assert(site_from(b[url], cs[i].name@, site));
    }
}

/// Appending to the calls of class `i` sites that record calls of a document of `docs` keeps
/// every recorded call site sourced.
proof fn lemma_calls_sourced_extend(
    before: Seq<Class>,
    after: Seq<Class>,
    i: int,
    docs: Map<Seq<char>, Document>,
    url: Seq<char>,
    d: Document,
)
    requires
        calls_sourced(before, docs),
        docs.contains_key(url),
        docs[url].tree == d.tree,
        docs[url].content == d.content,
        0 <= i < before.len(),
        after.len() == before.len(),
        forall|j: int| 0 <= j < before.len() && j != i ==> #[trigger] after[j] == before[j],
        after[i].name == before[i].name,
        before[i].method_calls@.len() <= after[i].method_calls@.len(),
        after[i].method_calls@.subrange(0, before[i].method_calls@.len() as int) == before[i].method_calls@,
        forall|b: int| before[i].method_calls@.len() <= b < after[i].method_calls@.len()
            ==> #[trigger] site_from(d, before[i].name@, after[i].method_calls@[b]),
    ensures
        calls_sourced(after, docs),
{
    assert forall|j: int, k: int| #![trigger after[j].method_calls@[k]]
        0 <= j < after.len() && 0 <= k < after[j].method_calls@.len() implies site_sourced(docs, after[j].name@, after[j].method_calls@[k]) by {
        if j != i {
            assert(before[j].method_calls@[k] == after[j].method_calls@[k]);
        } else if k < before[i].method_calls@.len() {
            assert(after[i].method_calls@[k] == after[i].method_calls@.subrange(0, before[i].method_calls@.len() as int)[k]);
            assert(before[i].method_calls@[k] == after[i].method_calls@[k]);
        } else {
            let site = after[i].method_calls@[k];
            assert(site_from(d, before[i].name@, site));
            let (code, node, jj) = choose|code: &str, node: int, jj: int|
                code@ == d.content@ && #[trigger] records_call(d.tree, code, before[i].name@, node, jj, site);
            assert(records_call(docs[url].tree, code, before[i].name@, node, jj, site));
            assert(site_from(docs[url], after[i].name@, site));
        }
    }
}

/// Variables appended from a tracked document keep every recorded variable sourced.
proof fn lemma_variables_sourced_extend(
    a: Map<ClassId, Vec<Variable>>,
    b: Map<ClassId, Vec<Variable>>,
    pa: Seq<LocalSemanticModel>,
    pb: Seq<LocalSemanticModel>,
    docs: Map<Seq<char>, Document>,
    url: Seq<char>,
    d: Document,
)
    requires
        variables_sourced(a, pa, docs),
        vars_extended_from(a, b, d),
        private_vars_extended_from(pa, pb, d),
        docs.contains_key(url),
        docs[url].tree == d.tree,
        docs[url].content == d.content,
    ensures
        variables_sourced(b, pb, docs),
{
    assert forall|k: ClassId, x: int| #![trigger listed(b, k)[x]] 0 <= x < listed(b, k).len() implies variable_sourced(docs, listed(b, k)[x]) by {
        let v = listed(b, k)[x];
        if x < listed(a, k).len() {
            assert(listed(b, k).subrange(0, listed(a, k).len() as int)[x] == v);
            assert(listed(a, k)[x] == v);
            assert(variable_sourced(docs, listed(a, k)[x]));
        } else {
            assert(variable_from(d, v));
            let (code, node, m, j, def) = choose|code: &str, node: int, m: Method, j: int, def: VariableDef|
                code@ == d.content@ && #[trigger] defines_variable(d.tree, code, node, m, j, def) && def.0 == v;
            assert(defines_variable(docs[url].tree, code, node, m, j, def));
            assert(variable_from(docs[url], v));
        }
    }
    assert forall|l: int, x: int| #![trigger pb[l].variables@[x]] 0 <= l < pb.len() && 0 <= x < pb[l].variables@.len() implies variable_sourced(docs, pb[l].variables@[x]) by {
        let v = pb[l].variables@[x];
        if x < pa[l].variables@.len() {
            assert(pb[l].variables@.subrange(0, pa[l].variables@.len() as int)[x] == v);
            assert(pa[l].variables@[x] == v);
            assert(variable_sourced(docs, pa[l].variables@[x]));
        } else {
            assert(variable_from(d, v));
            let (code, node, m, j, def) = choose|code: &str, node: int, m: Method, j: int, def: VariableDef|
                code@ == d.content@ && #[trigger] defines_variable(d.tree, code, node, m, j, def) && def.0 == v;
            assert(defines_variable(docs[url].tree, code, node, m, j, def));
            assert(variable_from(docs[url], v));
        }
    }
}

/// Recorded variables keep their origin when the local models change in their methods only.
proof fn lemma_variables_sourced_same_vars(
    vars: Map<ClassId, Vec<Variable>>,
    pa: Seq<LocalSemanticModel>,
    pb: Seq<LocalSemanticModel>,
    docs: Map<Seq<char>, Document>,
)
    requires
        variables_sourced(vars, pa, docs),
        pb.len() == pa.len(),
        forall|l: int| 0 <= l < pa.len() ==> (#[trigger] pb[l]).variables == pa[l].variables,
    ensures
        variables_sourced(vars, pb, docs),
{
    assert forall|l: int, x: int| #![trigger pb[l].variables@[x]] 0 <= l < pb.len() && 0 <= x < pb[l].variables@.len() implies variable_sourced(docs, pb[l].variables@[x]) by {
        assert(pb[l].variables == pa[l].variables);
        assert(pa[l].variables@[x] == pb[l].variables@[x]);
        assert(variable_sourced(docs, pa[l].variables@[x]));
    }
}

/// Recorded variables keep their origin when only the scope trees of documents change.
proof fn lemma_variables_sourced_scopes(
    vars: Map<ClassId, Vec<Variable>>,
    p: Seq<LocalSemanticModel>,
    a: Map<Seq<char>, Document>,
    b: Map<Seq<char>, Document>,
)
    requires
        variables_sourced(vars, p, a),
        docs_same_but_scopes(a, b),
    ensures
        variables_sourced(vars, p, b),
{
    assert forall|k: ClassId, x: int| #![trigger listed(vars, k)[x]] 0 <= x < listed(vars, k).len() implies variable_sourced(b, listed(vars, k)[x]) by {
        let v = listed(vars, k)[x];
        assert(variable_sourced(a, v));
        let u = choose|u: Seq<char>| a.contains_key(u) && #[trigger] variable_from(a[u], v);
        assert(b[u] == (Document { scope_tree: b[u].scope_tree, ..a[u] }));
        let (code, node, m, j, def) = choose|code: &str, node: int, m: Method, j: int, def: VariableDef|
            code@ == a[u].content@ && #[trigger] defines_variable(a[u].tree, code, node, m, j, def) && def.0 == v;
        assert(defines_variable(b[u].tree, code, node, m, j, def));
        assert(variable_from(b[u], v));
    }
    assert forall|l: int, x: int| #![trigger p[l].variables@[x]] 0 <= l < p.len() && 0 <= x < p[l].variables@.len() implies variable_sourced(b, p[l].variables@[x]) by {
        let v = p[l].variables@[x];
        assert(variable_sourced(a, v));
        let u = choose|u: Seq<char>| a.contains_key(u) && #[trigger] variable_from(a[u], v);
        assert(b[u] == (Document { scope_tree: b[u].scope_tree, ..a[u] }));
        let (code, node, m, j, def) = choose|code: &str, node: int, m: Method, j: int, def: VariableDef|
            code@ == a[u].content@ && #[trigger] defines_variable(a[u].tree, code, node, m, j, def) && def.0 == v;
        assert(defines_variable(b[u].tree, code, node, m, j, def));
        assert(variable_from(b[u], v));
    }
}

/// Whether `v` holds `x`.
fn contains_index(v: &Vec<usize>, x: usize) -> (r: bool)
    ensures
        r == v@.contains(x),
{
    let mut i: usize = 0;
    while i < v.len()
        invariant
            i <= v@.len(),
            forall|j: int| 0 <= j < i ==> v@[j] != x,
        decreases v@.len() - i,
    {
        if v[i] == x {
            return true;
        }
        i = i + 1;
    }
    false
}

/// Whether `v` holds the URL `x`.
fn contains_url(v: &Vec<String>, x: &String) -> (r: bool)
    ensures
        r == v@.map_values(|s: String| s@).contains(x@),
{
    contains_name(v, x)
}

/// Every recorded call site of the classes `cs` is resolved as the class index `classes_map`
/// and the override index `idx` say: to the public method that the named class sees under
/// the called name, if any.
pub open spec fn calls_resolve(cs: Seq<Class>, classes_map: Map<Seq<char>, ClassId>, idx: OverrideIndex) -> bool {
    forall|i: int, j: int|
        0 <= i < cs.len() && 0 <= j < cs[i].method_calls@.len() ==> {
            let site = #[trigger] cs[i].method_calls@[j];
            site.callee_symbol == resolve_call(classes_map, idx, site.callee_class@, site.callee_method@)
        }
}

/// The override index `idx` resolves the methods of the classes `cs`: every class has an entry
/// in which its own declarations lie over what it inherits; each resolvable class sees exactly
/// the public part of its method table, each of its declarations that replaces a public method
/// is recorded as replacing that method and listed under it, every recorded override is listed
/// under the method it replaces, and nothing else is recorded or listed for a resolvable
/// class; where declaration ids are distinct, each method replaces at most one method and is
/// listed once.
pub open spec fn index_resolves(idx: OverrideIndex, cs: Seq<Class>) -> bool {
    &&& forall|i: int|
        #![trigger idx.effective_public_methods@.dom().contains(ClassId(i as usize))]
        #![trigger idx.effective_public_methods@[ClassId(i as usize)]]
        0 <= i < cs.len() && resolvable(class_shapes(cs), i, cs.len() as nat)
            ==> idx.effective_public_methods@.contains_key(ClassId(i as usize))
            && idx.effective_public_methods@[ClassId(i as usize)]@ == public_part(
            class_table(class_shapes(cs), i, cs.len() as nat),
        )
    &&& forall|i: int|
        0 <= i < cs.len() && #[trigger] resolvable(class_shapes(cs), i, cs.len() as nat)
            ==> overriders_recorded(class_shapes(cs), idx, i, cs.len() as nat)
    &&& forall|i: int| 0 <= i < cs.len() ==> #[trigger] has_entry(class_shapes(cs), idx, i)
    &&& all_decl_ids_distinct(class_shapes(cs)) ==> records_single(idx)
    &&& overrides_listed(idx)
    &&& pairs_explained(class_shapes(cs), idx, cs.len() as nat)
}

pub proof fn lemma_index_resolves_same_but_calls(idx: OverrideIndex, a: Seq<Class>, b: Seq<Class>)
    requires
        index_resolves(idx, a),
        same_but_calls(a, b),
    ensures
        index_resolves(idx, b),
{
    assert(class_shapes(a) =~= class_shapes(b)) by {
        assert forall|j: int| 0 <= j < a.len() implies #[trigger] class_shapes(a)[j] == class_shapes(b)[j] by {
            assert(b[j] == (Class { method_calls: b[j].method_calls, ..a[j] }));
        }
    }
}

/// `b` holds the classes of `a` with at most their imports, parents, keyword defaults and
/// call sites changed.
pub open spec fn members_kept(a: Seq<Class>, b: Seq<Class>) -> bool {
    &&& a.len() == b.len()
    &&& forall|j: int| 0 <= j < a.len() ==> #[trigger] b[j] == (Class {
        imports: b[j].imports,
        inherited_classes: b[j].inherited_classes,
        is_procedure_block: b[j].is_procedure_block,
        default_language: b[j].default_language,
        method_calls: b[j].method_calls,
        ..a[j]
    })
}

/// What rebuilding imports, parents, keyword defaults, the override index, and the calls and
/// variables of methods does to the project `a`, giving `b`: `only` is the document whose
/// imports and parents alone are recomputed (all documents but those of `ex` otherwise).
/// Among other things: variable symbols are only appended, never for a definition that refers
/// to its own variable, and the public variable index stays consistent with them; every call
/// site recorded comes from a method body of a tracked document, and, for each rebuilt class,
/// every call and every variable that the bodies of its placed methods define is recorded.
pub open spec fn inheritance_built(a: ProjectData, b: ProjectData, only: Option<Seq<char>>, ex: Seq<Seq<char>>) -> bool {
    &&& documents_wf(b.documents@)
    &&& docs_same_but_scopes(a.documents@, b.documents@)
    &&& b.classes == a.classes
    &&& b.class_defs == a.class_defs
    &&& b.global_semantic_model.classes@.len() == a.global_semantic_model.classes@.len()
    &&& members_kept(a.global_semantic_model.classes@, b.global_semantic_model.classes@)
    &&& b.pub_method_defs == a.pub_method_defs
    &&& var_symbols_grown(a.global_semantic_model.variable_defs@, b.global_semantic_model.variable_defs@)
    &&& var_index_consistent(a) ==> var_index_consistent(b)
    &&& parents_valid_after(b) && (only is None || ({
        let u = only->0;
        &&& !ex.contains(u)
        &&& a.documents@.contains_key(u)
        &&& a.documents@[u].class_id is Some
    })) ==> forall|c: int|
        0 <= c < a.global_semantic_model.classes@.len() && #[trigger] class_lookups_ok(a, c) && (only is Some || !class_excluded(a, ex, c))
            ==> public_calls_covered(a, c, b.global_semantic_model.classes@[c].method_calls@)
            && private_calls_covered(a, c, b.global_semantic_model.classes@[c].method_calls@)
            && class_vars_covered(a, c, b.global_semantic_model.variables@, b.global_semantic_model.private@)
    &&& only is Some ==> links_recomputed(a, b.global_semantic_model.classes@, only->0)
    &&& only is Some && ex.contains(only->0) ==> {
        &&& b.override_index == a.override_index
        &&& b.documents == a.documents
        &&& b.pub_var_defs == a.pub_var_defs
        &&& b.global_semantic_model.methods == a.global_semantic_model.methods
        &&& b.global_semantic_model.variables == a.global_semantic_model.variables
        &&& b.global_semantic_model.private == a.global_semantic_model.private
        &&& b.global_semantic_model.variable_defs == a.global_semantic_model.variable_defs
        &&& forall|j: int| 0 <= j < a.global_semantic_model.classes@.len() ==> {
            let ca = a.global_semantic_model.classes@[j];
            let cb = #[trigger] b.global_semantic_model.classes@[j];
            cb == (Class { imports: cb.imports, inherited_classes: cb.inherited_classes, ..ca })
        }
    }
    &&& variables_sourced(
        a.global_semantic_model.variables@,
        a.global_semantic_model.private@,
        a.documents@,
    ) ==> variables_sourced(
        b.global_semantic_model.variables@,
        b.global_semantic_model.private@,
        b.documents@,
    )
    &&& parents_valid_after(b) && (only is None || ({
        let u = only->0;
        &&& !ex.contains(u)
        &&& a.documents@.contains_key(u)
        &&& a.documents@[u].class_id is Some
    })) ==> index_resolves(b.override_index, b.global_semantic_model.classes@)
        && calls_resolve(b.global_semantic_model.classes@, b.classes@, b.override_index)
        && calls_sourced(b.global_semantic_model.classes@, b.documents@)
    &&& only is None || ({
        let u = only->0;
        &&& !ex.contains(u)
        &&& a.documents@.contains_key(u)
        &&& a.documents@[u].class_id is Some
    }) ==> forall|i: int| 0 <= i < a.global_semantic_model.classes@.len() ==> {
        let d = #[trigger] b.global_semantic_model.classes@[i];
        keyword_result_ok(
            keyword_snaps_between(a.global_semantic_model.classes@, b.global_semantic_model.classes@),
            i,
            (d.is_procedure_block, d.default_language),
        )
    }
    &&& only is Some && parents_valid_after(b) && ({
        let u = only->0;
        &&& !ex.contains(u)
        &&& a.documents@.contains_key(u)
        &&& a.documents@[u].class_id is Some
        &&& class_indexed(a, (a.documents@[u].class_id->0).0 as int)
        &&& class_apart(a, (a.documents@[u].class_id->0).0 as int)
    }) ==> {
        let cid = a.documents@[only->0].class_id->0;
        let l = class_local_model(a, cid.0 as int);
        &&& public_methods_keyworded(
            b.global_semantic_model.classes@[cid.0 as int],
            listed(a.global_semantic_model.methods@, cid),
            listed(b.global_semantic_model.methods@, cid),
        )
        &&& l < a.global_semantic_model.private@.len() ==> private_methods_keyworded(
            b.global_semantic_model.classes@[cid.0 as int],
            a.global_semantic_model.private@[l].methods@,
            b.global_semantic_model.private@[l].methods@,
        )
    }
}

impl ProjectData {
    /// Rebuilds the calls and variables of every method of class `i`, with the class's
    /// ProcedureBlock (off when unset) and Language (ObjectScript when unset) applied to
    /// methods that do not set their own.
    fn rebuild_class_members(&mut self, i: usize, idx: &OverrideIndex, classes_map: &AssocMap<String, ClassId>)
        requires
            documents_wf(old(self).documents@),
            calls_resolve(old(self).global_semantic_model.classes@, classes_map@, *idx),
            calls_sourced(old(self).global_semantic_model.classes@, old(self).documents@),
        ensures
            calls_resolve(final(self).global_semantic_model.classes@, classes_map@, *idx),
            calls_sourced(final(self).global_semantic_model.classes@, final(self).documents@),
            variables_sourced(
                old(self).global_semantic_model.variables@,
                old(self).global_semantic_model.private@,
                old(self).documents@,
            ) ==> variables_sourced(
                final(self).global_semantic_model.variables@,
                final(self).global_semantic_model.private@,
                final(self).documents@,
            ),
            class_indexed(*old(self), i as int) ==> public_methods_keyworded(
                old(self).global_semantic_model.classes@[i as int],
                listed(old(self).global_semantic_model.methods@, ClassId(i)),
                listed(final(self).global_semantic_model.methods@, ClassId(i)),
            ),
            class_indexed(*old(self), i as int) && class_local_model(*old(self), i as int) < old(self).global_semantic_model.private@.len()
                ==> private_methods_keyworded(
                old(self).global_semantic_model.classes@[i as int],
                old(self).global_semantic_model.private@[class_local_model(*old(self), i as int)].methods@,
                final(self).global_semantic_model.private@[class_local_model(*old(self), i as int)].methods@,
            ),
            final(self).global_semantic_model.private@.len() == old(self).global_semantic_model.private@.len(),
            forall|k: ClassId| !(class_lookups_ok(*old(self), i as int) && k == rebuilt_class(*old(self), i as int))
                ==> #[trigger] listed(final(self).global_semantic_model.methods@, k) == listed(old(self).global_semantic_model.methods@, k),
            forall|l: int| 0 <= l < old(self).global_semantic_model.private@.len()
                && !(class_lookups_ok(*old(self), i as int) && l == class_local_model(*old(self), i as int))
                ==> (#[trigger] final(self).global_semantic_model.private@[l]).methods == old(self).global_semantic_model.private@[l].methods,
            final(self).global_semantic_model.class_defs == old(self).global_semantic_model.class_defs,
            var_symbols_grown(old(self).global_semantic_model.variable_defs@, final(self).global_semantic_model.variable_defs@),
            var_index_consistent(*old(self)) ==> var_index_consistent(*final(self)),
            names_kept(old(self).global_semantic_model.methods@, final(self).global_semantic_model.methods@),
            final(self).global_semantic_model.method_defs == old(self).global_semantic_model.method_defs,
            forall|j: int| 0 <= j < old(self).global_semantic_model.classes@.len() && j != i
                ==> #[trigger] final(self).global_semantic_model.classes@[j] == old(self).global_semantic_model.classes@[j],
            class_lookups_ok(*old(self), i as int) ==> public_calls_covered(
                *old(self),
                i as int,
                final(self).global_semantic_model.classes@[i as int].method_calls@,
            ),
            class_lookups_ok(*old(self), i as int) ==> private_calls_covered(
                *old(self),
                i as int,
                final(self).global_semantic_model.classes@[i as int].method_calls@,
            ),
            private_names_kept(old(self).global_semantic_model.private@, final(self).global_semantic_model.private@),
            scope_methods_kept(old(self).documents@, final(self).documents@),
            vars_kept(old(self).global_semantic_model.variables@, final(self).global_semantic_model.variables@),
            private_vars_kept(old(self).global_semantic_model.private@, final(self).global_semantic_model.private@),
            class_lookups_ok(*old(self), i as int) ==> class_vars_covered(
                *old(self),
                i as int,
                final(self).global_semantic_model.variables@,
                final(self).global_semantic_model.private@,
            ),
            documents_wf(final(self).documents@),
            same_but_calls(old(self).global_semantic_model.classes@, final(self).global_semantic_model.classes@),
            docs_same_but_scopes(old(self).documents@, final(self).documents@),
            final(self).classes == old(self).classes,
            final(self).class_defs == old(self).class_defs,
            final(self).pub_method_defs == old(self).pub_method_defs,
            final(self).override_index == old(self).override_index,
    {
        proof {
            lemma_var_symbols_grown_refl(old(self).global_semantic_model.variable_defs@);
            lemma_names_kept_refl(old(self).global_semantic_model.methods@);
            lemma_private_names_kept_refl(old(self).global_semantic_model.private@);
        }
        let class = match self.global_semantic_model.get_class(i) {
            Some(c) => c,
            None => return,
        };
        let class_name = class.name.clone();
        let public_ids = class.public_methods.values();
        let private_ids = class.private_methods.values();
        let is_procedure_block = match class.is_procedure_block {
            Some(b) => b,
            None => false,
        };
        let default_language = match class.default_language {
            Some(l) => l,
            None => Language::Objectscript,
        };
        let class_symbol_id = match self.class_defs.get(&class_name) {
            Some(id) => *id,
            None => return,
        };
        assert(old(self).class_defs@.contains_key(class_name@) && old(self).class_defs@[class_name@] == class_symbol_id);
        let class_id = match self.classes.get(&class_name) {
            Some(id) => *id,
            None => return,
        };
        let url = match self.global_semantic_model.get_class_symbol(class_symbol_id.0, class_name.as_str()) {
            Some(sym) => sym.url.clone(),
            None => return,
        };
        let lsm_id = match self.documents.get(&url) {
            Some(d) => match d.local_semantic_model_id {
                Some(id) => id,
                None => return,
            },
            None => return,
        };
        let ghost docs0 = self.documents@;
        let mut doc = match self.documents.remove(&url) {
            Some(d) => d,
            None => return,
        };
        assert(tree_wf(doc.tree));
        let ghost doc0 = doc;
        let ghost classes0 = self.global_semantic_model.classes@;
        let ghost sourced = variables_sourced(
            old(self).global_semantic_model.variables@,
            old(self).global_semantic_model.private@,
            old(self).documents@,
        );
        let ghost indexed = class_indexed(*old(self), i as int);
        let ghost orig = listed(old(self).global_semantic_model.methods@, ClassId(i));
        let ghost the_class = old(self).global_semantic_model.classes@[i as int];
        let ghost lsm = lsm_id.0 as int;
        let ghost indexed_p = indexed && lsm < old(self).global_semantic_model.private@.len();
        let ghost orig_p = if indexed_p { old(self).global_semantic_model.private@[lsm].methods@ } else { Seq::empty() };
        proof {
            if indexed {
                assert(class_id == ClassId(i));
                assert(lsm == class_local_model(*old(self), i as int));
            }
        }
        let ghost cn = class_name@;
        assert(cn == old(self).global_semantic_model.classes@[i as int].name@);
        assert(old(self).classes@.contains_key(cn) && old(self).classes@[cn] == class_id);
        assert(url@ == old(self).global_semantic_model.class_defs@[class_symbol_id.0 as int].url@);
        assert(docs0 == old(self).documents@);
        assert(classes0 == old(self).global_semantic_model.classes@);
        assert(old(self).documents@[url@].local_semantic_model_id == Some(lsm_id));
        assert(doc0 == old(self).documents@[url@]);
        let mut k: usize = 0;
        while k < public_ids.len()
            invariant
                indexed ==> class_id == ClassId(i),
                indexed == class_indexed(*old(self), i as int),
                orig == listed(old(self).global_semantic_model.methods@, ClassId(i)),
                public_ids@.len() == the_class.public_methods.pairs().len(),
                forall|m: int| 0 <= m < public_ids@.len() ==> #[trigger] public_ids@[m] == the_class.public_methods.pairs()[m].1,
                is_procedure_block == class_pb(the_class),
                default_language == class_lang(the_class),
                self.global_semantic_model.class_defs == old(self).global_semantic_model.class_defs,
                var_symbols_grown(old(self).global_semantic_model.variable_defs@, self.global_semantic_model.variable_defs@),
                var_index_consistent(*old(self)) ==> var_index_consistent(*self),
                old(self).class_defs@.contains_key(class_name@) && old(self).class_defs@[class_name@] == class_symbol_id,
                names_kept(old(self).global_semantic_model.methods@, self.global_semantic_model.methods@),
                self.global_semantic_model.method_defs == old(self).global_semantic_model.method_defs,
                forall|j: int| 0 <= j < classes0.len() && j != i ==> #[trigger] self.global_semantic_model.classes@[j] == classes0[j],
                cn == class_name@,
                cn == old(self).global_semantic_model.classes@[i as int].name@,
                old(self).classes@.contains_key(cn) && old(self).classes@[cn] == class_id,
                url@ == old(self).global_semantic_model.class_defs@[class_symbol_id.0 as int].url@,
                classes0 == old(self).global_semantic_model.classes@,
                private_names_kept(old(self).global_semantic_model.private@, self.global_semantic_model.private@),
                vars_kept(old(self).global_semantic_model.variables@, self.global_semantic_model.variables@),
                private_vars_kept(old(self).global_semantic_model.private@, self.global_semantic_model.private@),
                doc.scope_tree.method_defs() == doc0.scope_tree.method_defs(),
                doc0 == old(self).documents@[url@],
                old(self).documents@[url@].local_semantic_model_id == Some(lsm_id),
                forall|m: int| 0 <= m < k ==> #[trigger] public_slot_covered(*old(self), i as int, public_ids@[m],
                    self.global_semantic_model.classes@[i as int].method_calls@),
                forall|m: int| 0 <= m < k ==> #[trigger] public_slot_vars_covered(*old(self), i as int, public_ids@[m],
                    self.global_semantic_model.variables@, self.global_semantic_model.private@),
                private_keywords_kept(old(self).global_semantic_model.private@, self.global_semantic_model.private@),
                sourced == variables_sourced(
                    old(self).global_semantic_model.variables@,
                    old(self).global_semantic_model.private@,
                    old(self).documents@,
                ),
                old(self).documents@ == docs0,
                sourced ==> variables_sourced(self.global_semantic_model.variables@, self.global_semantic_model.private@, docs0),
                k <= public_ids@.len(),
                indexed ==> {
                    let cur = listed(self.global_semantic_model.methods@, ClassId(i));
                    &&& cur.len() == orig.len()
                    &&& forall|x: int| 0 <= x < orig.len() ==> {
                        ||| method_keywords(#[trigger] cur[x]) == method_keywords(orig[x])
                        ||| method_keywords(cur[x]) == keywords_after_update(orig[x], is_procedure_block, default_language)
                    }
                    &&& forall|m: int| 0 <= m < k && (public_ids@[m].0 as int) < orig.len() ==> method_keywords(
                        #[trigger] cur[public_ids@[m].0 as int],
                    ) == keywords_after_update(orig[public_ids@[m].0 as int], is_procedure_block, default_language)
                },
                tree_wf(doc.tree),
                doc == (Document { scope_tree: doc.scope_tree, ..doc0 }),
                docs0.contains_key(url@) && docs0[url@] == doc0,
                same_but_calls(classes0, self.global_semantic_model.classes@),
                calls_resolve(self.global_semantic_model.classes@, classes_map@, *idx),
                calls_sourced(self.global_semantic_model.classes@, docs0),
                i < classes0.len(),
                classes0[i as int].name@ == class_name@,
                self.documents@ == docs0.remove(url@),
                self.classes == old(self).classes,
                self.class_defs == old(self).class_defs,
                self.override_index == old(self).override_index,
                self.pub_method_defs == old(self).pub_method_defs,
                forall|k: ClassId| k != class_id ==> #[trigger] listed(self.global_semantic_model.methods@, k)
                    == listed(old(self).global_semantic_model.methods@, k),
                forall|l: int| 0 <= l < old(self).global_semantic_model.private@.len() && l != lsm_id.0
                    ==> (#[trigger] self.global_semantic_model.private@[l]).methods == old(self).global_semantic_model.private@[l].methods,
            decreases public_ids@.len() - k,
        {
            let id = public_ids[k];
            let ghost kk = k as int;
            k = k + 1;
            let slot = MethodSlot::Public(class_id, id);
            let ghost methods_before = self.global_semantic_model.methods@;
            let edit = MethodEdit::Keywords(is_procedure_block, default_language);
            let ghost edit_g = edit;
            let ghost private_before_all = self.global_semantic_model.private@;
            let done = self.edit_slot(slot, edit);
            let ghost calls_now = self.global_semantic_model.classes@[i as int].method_calls@;
            proof {
                lemma_slot_edited_names(methods_before, self.global_semantic_model.methods@, slot, edit_g, done);
                lemma_names_kept_trans(old(self).global_semantic_model.methods@, methods_before, self.global_semantic_model.methods@);
                lemma_slot_edited_private_names(private_before_all, self.global_semantic_model.private@, slot, edit_g, done);
                lemma_private_names_kept_trans(old(self).global_semantic_model.private@, private_before_all, self.global_semantic_model.private@);
                lemma_edit_private_vars_kept(private_before_all, self.global_semantic_model.private@, slot, edit_g, done);
                lemma_vars_kept_trans(old(self).global_semantic_model.variables@, self.global_semantic_model.variables@, self.global_semantic_model.variables@,
                    old(self).global_semantic_model.private@, private_before_all, self.global_semantic_model.private@);
                assert forall|m: int| 0 <= m < kk implies #[trigger] public_slot_vars_covered(*old(self), i as int, public_ids@[m],
                    self.global_semantic_model.variables@, self.global_semantic_model.private@) by {
                    lemma_slot_vars_kept(*old(self), i as int, public_ids@[m], PrivateMethodId(0), self.global_semantic_model.variables@,
                        self.global_semantic_model.variables@, private_before_all, self.global_semantic_model.private@);
                }
                if !done {
                    assert(public_slot_vars_covered(*old(self), i as int, public_ids@[kk], self.global_semantic_model.variables@, self.global_semantic_model.private@));
                }
                assert(listed(methods_before, class_id).len() == listed(old(self).global_semantic_model.methods@, class_id).len());
                if !done {
                    assert(public_slot_covered(*old(self), i as int, public_ids@[kk], calls_now));
                }
            }
            proof {
                if indexed {
                    let before = listed(methods_before, ClassId(i));
                    let cur = listed(self.global_semantic_model.methods@, ClassId(i));
                    assert forall|x: int| 0 <= x < orig.len() implies {
                        ||| method_keywords(#[trigger] cur[x]) == method_keywords(orig[x])
                        ||| method_keywords(cur[x]) == keywords_after_update(orig[x], is_procedure_block, default_language)
                    } by {
                        if done && x == id.0 {
                            assert(method_keywords(before[x]) == method_keywords(orig[x])
                                || method_keywords(before[x]) == keywords_after_update(orig[x], is_procedure_block, default_language));
                        } else if done {
                            assert(cur[x] == before[x]);
                        }
                    }
                    assert forall|m: int| 0 <= m < k && (public_ids@[m].0 as int) < orig.len() implies method_keywords(
                        #[trigger] cur[public_ids@[m].0 as int],
                    ) == keywords_after_update(orig[public_ids@[m].0 as int], is_procedure_block, default_language) by {
                        let x = public_ids@[m].0 as int;
                        if m == kk {
                            assert(done);
                            assert(method_keywords(before[x]) == method_keywords(orig[x])
                                || method_keywords(before[x]) == keywords_after_update(orig[x], is_procedure_block, default_language));
                        } else if x != id.0 {
                            if done {
                                assert(cur[x] == before[x]);
                            }
                        } else {
                            assert(method_keywords(before[x]) == keywords_after_update(orig[x], is_procedure_block, default_language));
                        }
                    }
                }
            }
            if !done {
                continue;
            }
            let method_name = match self.slot_method(slot, &class_name) {
                Some(m) => m.name.clone(),
                None => continue,
            };
            let ghost old_name = listed(old(self).global_semantic_model.methods@, class_id)[id.0 as int].name@;
            proof {
                assert(listed(self.global_semantic_model.methods@, class_id)[id.0 as int].name == listed(old(self).global_semantic_model.methods@, class_id)[id.0 as int].name);
                assert(method_name@ == old_name);
            }
            let loc = match self.get_public_method_symbol(&class_name, &method_name, class_symbol_id) {
                Some(sym) => sym.location,
                None => {
                    proof {
                        assert(public_method_loc(*old(self), cn, class_symbol_id, old_name) is None);
                        assert(public_slot_covered(*old(self), i as int, public_ids@[kk], calls_now));
                        assert(public_slot_vars_covered(*old(self), i as int, public_ids@[kk], self.global_semantic_model.variables@, self.global_semantic_model.private@));
                    }
                    continue;
                },
            };
            proof {
                assert(public_method_loc(*old(self), cn, class_symbol_id, old_name) == Some(loc));
            }
            let ghost before = self.global_semantic_model.classes@;
            let ghost doc_before = doc;
            let ghost methods_mid = self.global_semantic_model.methods@;
            let ghost private_mid = self.global_semantic_model.private@;
            let ghost vars_mid = self.global_semantic_model.variables@;
            let ghost defs_before = self.global_semantic_model.variable_defs@;
            self.rebuild_method(i, &class_name, class_id, class_symbol_id, lsm_id, slot, loc, &url, &mut doc, idx, classes_map);
            proof {
                lemma_var_symbols_grown_trans(old(self).global_semantic_model.variable_defs@, defs_before, self.global_semantic_model.variable_defs@);
                lemma_names_kept_trans(old(self).global_semantic_model.methods@, methods_mid, self.global_semantic_model.methods@);
                lemma_private_names_kept_trans(old(self).global_semantic_model.private@, private_mid, self.global_semantic_model.private@);
                let calls_after = self.global_semantic_model.classes@[i as int].method_calls@;
                let dd = old(self).documents@[url@];
                assert(doc_before.tree == dd.tree && doc_before.content == dd.content);
                assert(calls_cover(calls_after, dd.tree, dd.content@, cn, loc));
                lemma_vars_kept_trans(old(self).global_semantic_model.variables@, vars_mid, self.global_semantic_model.variables@,
                    old(self).global_semantic_model.private@, private_mid, self.global_semantic_model.private@);
                assert forall|m: int| 0 <= m < kk implies #[trigger] public_slot_vars_covered(*old(self), i as int, public_ids@[m],
                    self.global_semantic_model.variables@, self.global_semantic_model.private@) by {
                    lemma_slot_vars_kept(*old(self), i as int, public_ids@[m], PrivateMethodId(0), vars_mid,
                        self.global_semantic_model.variables@, private_mid, self.global_semantic_model.private@);
                }
                if loc.start_byte <= loc.end_byte {
                    let sm = slot_method_of(methods_mid, private_mid, slot);
                    let node = byte_descent(dd.tree, 0, loc.start_byte, loc.end_byte);
                    let code = choose|code: &str| code@ == doc_before.content@ && #[trigger] vars_recorded(
                        self.global_semantic_model.variables@, self.global_semantic_model.private@, class_id, lsm_id.0 as int,
                        doc_before.tree, code, node, sm);
                    assert(sm.name == listed(old(self).global_semantic_model.methods@, class_id)[id.0 as int].name);
                    assert(vars_recorded(self.global_semantic_model.variables@, self.global_semantic_model.private@, old(self).classes@[cn],
                        (old(self).documents@[url@].local_semantic_model_id->0).0 as int, dd.tree, code, node, sm));
                }
                assert(public_slot_vars_covered(*old(self), i as int, public_ids@[kk], self.global_semantic_model.variables@, self.global_semantic_model.private@));
                assert forall|m: int| 0 <= m < k implies #[trigger] public_slot_covered(*old(self), i as int, public_ids@[m], calls_after) by {
                    if m < kk {
                        assert(public_slot_covered(*old(self), i as int, public_ids@[m], calls_now));
                        let idm = public_ids@[m];
                        let cid = old(self).classes@[cn];
                        if (idm.0 as int) < listed(old(self).global_semantic_model.methods@, cid).len() {
                            match public_method_loc(*old(self), cn, class_symbol_id, listed(old(self).global_semantic_model.methods@, cid)[idm.0 as int].name@) {
                                Some(l2) => {
                                    lemma_calls_cover_prefix(calls_now, calls_after, dd.tree, dd.content@, cn, l2);
                                },
                                None => {},
                            }
                        }
                    }
                }
                lemma_same_but_calls_trans(classes0, before, self.global_semantic_model.classes@);
                lemma_calls_sourced_extend(before, self.global_semantic_model.classes@, i as int, docs0, url@, doc_before);
                lemma_private_keywords_kept_trans(old(self).global_semantic_model.private@, private_mid, self.global_semantic_model.private@);
                if sourced {
                    lemma_variables_sourced_extend(vars_mid, self.global_semantic_model.variables@, private_mid,
                        self.global_semantic_model.private@, docs0, url@, doc_before);
                }
                if indexed {
                    let mid = listed(methods_mid, ClassId(i));
                    let cur = listed(self.global_semantic_model.methods@, ClassId(i));
                    assert(cur.len() == mid.len());
                    assert forall|x: int| 0 <= x < orig.len() implies method_keywords(#[trigger] cur[x]) == method_keywords(mid[x]) by {
                        assert(method_keywords(listed(self.global_semantic_model.methods@, ClassId(i))[x])
                            == method_keywords(listed(methods_mid, ClassId(i))[x]));
                    }
                }
            }
        }
        let ghost after_public = self.global_semantic_model.methods@;
        let mut k: usize = 0;
        while k < private_ids.len()
            invariant
                keywords_kept(after_public, self.global_semantic_model.methods@),
                self.global_semantic_model.class_defs == old(self).global_semantic_model.class_defs,
                var_symbols_grown(old(self).global_semantic_model.variable_defs@, self.global_semantic_model.variable_defs@),
                var_index_consistent(*old(self)) ==> var_index_consistent(*self),
                old(self).class_defs@.contains_key(class_name@) && old(self).class_defs@[class_name@] == class_symbol_id,
                names_kept(old(self).global_semantic_model.methods@, self.global_semantic_model.methods@),
                self.global_semantic_model.method_defs == old(self).global_semantic_model.method_defs,
                forall|j: int| 0 <= j < classes0.len() && j != i ==> #[trigger] self.global_semantic_model.classes@[j] == classes0[j],
                cn == class_name@,
                cn == old(self).global_semantic_model.classes@[i as int].name@,
                old(self).classes@.contains_key(cn) && old(self).classes@[cn] == class_id,
                url@ == old(self).global_semantic_model.class_defs@[class_symbol_id.0 as int].url@,
                classes0 == old(self).global_semantic_model.classes@,
                private_names_kept(old(self).global_semantic_model.private@, self.global_semantic_model.private@),
                vars_kept(old(self).global_semantic_model.variables@, self.global_semantic_model.variables@),
                private_vars_kept(old(self).global_semantic_model.private@, self.global_semantic_model.private@),
                doc.scope_tree.method_defs() == doc0.scope_tree.method_defs(),
                doc0 == old(self).documents@[url@],
                old(self).documents@[url@].local_semantic_model_id == Some(lsm_id),
                forall|m: int| 0 <= m < public_ids@.len() ==> #[trigger] public_slot_covered(*old(self), i as int, public_ids@[m],
                    self.global_semantic_model.classes@[i as int].method_calls@),
                forall|m: int| 0 <= m < k ==> #[trigger] private_slot_covered(*old(self), i as int, private_ids@[m],
                    self.global_semantic_model.classes@[i as int].method_calls@),
                forall|m: int| 0 <= m < public_ids@.len() ==> #[trigger] public_slot_vars_covered(*old(self), i as int, public_ids@[m],
                    self.global_semantic_model.variables@, self.global_semantic_model.private@),
                forall|m: int| 0 <= m < k ==> #[trigger] private_slot_vars_covered(*old(self), i as int, private_ids@[m],
                    self.global_semantic_model.variables@, self.global_semantic_model.private@),
                sourced == variables_sourced(
                    old(self).global_semantic_model.variables@,
                    old(self).global_semantic_model.private@,
                    old(self).documents@,
                ),
                old(self).documents@ == docs0,
                sourced ==> variables_sourced(self.global_semantic_model.variables@, self.global_semantic_model.private@, docs0),
                self.global_semantic_model.private@.len() == old(self).global_semantic_model.private@.len(),
                lsm == lsm_id.0,
                indexed_p == (indexed && lsm < old(self).global_semantic_model.private@.len()),
                indexed_p ==> orig_p == old(self).global_semantic_model.private@[lsm].methods@,
                private_ids@.len() == the_class.private_methods.pairs().len(),
                forall|m: int| 0 <= m < private_ids@.len() ==> #[trigger] private_ids@[m] == the_class.private_methods.pairs()[m].1,
                is_procedure_block == class_pb(the_class),
                default_language == class_lang(the_class),
                k <= private_ids@.len(),
                indexed_p ==> {
                    let cur = self.global_semantic_model.private@[lsm].methods@;
                    &&& cur.len() == orig_p.len()
                    &&& forall|x: int| 0 <= x < orig_p.len() ==> {
                        ||| method_keywords(#[trigger] cur[x]) == method_keywords(orig_p[x])
                        ||| method_keywords(cur[x]) == keywords_after_update(orig_p[x], is_procedure_block, default_language)
                    }
                    &&& forall|m: int| 0 <= m < k && (private_ids@[m].0 as int) < orig_p.len() ==> method_keywords(
                        #[trigger] cur[private_ids@[m].0 as int],
                    ) == keywords_after_update(orig_p[private_ids@[m].0 as int], is_procedure_block, default_language)
                },
                tree_wf(doc.tree),
                doc == (Document { scope_tree: doc.scope_tree, ..doc0 }),
                docs0.contains_key(url@) && docs0[url@] == doc0,
                same_but_calls(classes0, self.global_semantic_model.classes@),
                calls_resolve(self.global_semantic_model.classes@, classes_map@, *idx),
                calls_sourced(self.global_semantic_model.classes@, docs0),
                i < classes0.len(),
                classes0[i as int].name@ == class_name@,
                self.documents@ == docs0.remove(url@),
                self.classes == old(self).classes,
                self.class_defs == old(self).class_defs,
                self.override_index == old(self).override_index,
                self.pub_method_defs == old(self).pub_method_defs,
                forall|k: ClassId| k != class_id ==> #[trigger] listed(self.global_semantic_model.methods@, k)
                    == listed(old(self).global_semantic_model.methods@, k),
                forall|l: int| 0 <= l < old(self).global_semantic_model.private@.len() && l != lsm_id.0
                    ==> (#[trigger] self.global_semantic_model.private@[l]).methods == old(self).global_semantic_model.private@[l].methods,
            decreases private_ids@.len() - k,
        {
            let id = private_ids[k];
            let ghost kk = k as int;
            k = k + 1;
            let slot = MethodSlot::Private(lsm_id, id);
            let ghost methods_before = self.global_semantic_model.methods@;
            let ghost private_before = self.global_semantic_model.private@;
            let edit = MethodEdit::Keywords(is_procedure_block, default_language);
            let ghost edit_g = edit;
            let ghost private_before_all = self.global_semantic_model.private@;
            let done = self.edit_slot(slot, edit);
            let ghost calls_now = self.global_semantic_model.classes@[i as int].method_calls@;
            proof {
                lemma_slot_edited_names(methods_before, self.global_semantic_model.methods@, slot, edit_g, done);
                lemma_names_kept_trans(old(self).global_semantic_model.methods@, methods_before, self.global_semantic_model.methods@);
                lemma_slot_edited_private_names(private_before_all, self.global_semantic_model.private@, slot, edit_g, done);
                lemma_private_names_kept_trans(old(self).global_semantic_model.private@, private_before_all, self.global_semantic_model.private@);
                lemma_edit_private_vars_kept(private_before_all, self.global_semantic_model.private@, slot, edit_g, done);
                lemma_vars_kept_trans(old(self).global_semantic_model.variables@, self.global_semantic_model.variables@, self.global_semantic_model.variables@,
                    old(self).global_semantic_model.private@, private_before_all, self.global_semantic_model.private@);
                assert forall|m: int| 0 <= m < public_ids@.len() implies #[trigger] public_slot_vars_covered(*old(self), i as int, public_ids@[m],
                    self.global_semantic_model.variables@, self.global_semantic_model.private@) by {
                    lemma_slot_vars_kept(*old(self), i as int, public_ids@[m], PrivateMethodId(0), self.global_semantic_model.variables@,
                        self.global_semantic_model.variables@, private_before_all, self.global_semantic_model.private@);
                }
                assert forall|m: int| 0 <= m < kk implies #[trigger] private_slot_vars_covered(*old(self), i as int, private_ids@[m],
                    self.global_semantic_model.variables@, self.global_semantic_model.private@) by {
                    lemma_slot_vars_kept(*old(self), i as int, PublicMethodId(0), private_ids@[m], self.global_semantic_model.variables@,
                        self.global_semantic_model.variables@, private_before_all, self.global_semantic_model.private@);
                }
            }
            proof {
                assert(self.global_semantic_model.methods@ == methods_before);
                if sourced {
                    assert forall|l: int| 0 <= l < private_before.len() implies (#[trigger] self.global_semantic_model.private@[l]).variables
                        == private_before[l].variables by {
                        if done && l != lsm {
                            assert(self.global_semantic_model.private@[l] == private_before[l]);
                        }
                    }
                    lemma_variables_sourced_same_vars(self.global_semantic_model.variables@, private_before,
                        self.global_semantic_model.private@, docs0);
                }
                if indexed_p {
                    let before = private_before[lsm].methods@;
                    let cur = self.global_semantic_model.private@[lsm].methods@;
                    assert forall|x: int| 0 <= x < orig_p.len() implies {
                        ||| method_keywords(#[trigger] cur[x]) == method_keywords(orig_p[x])
                        ||| method_keywords(cur[x]) == keywords_after_update(orig_p[x], is_procedure_block, default_language)
                    } by {
                        if done && x == id.0 {
                            assert(method_keywords(before[x]) == method_keywords(orig_p[x])
                                || method_keywords(before[x]) == keywords_after_update(orig_p[x], is_procedure_block, default_language));
                        } else if done {
                            assert(cur[x] == before[x]);
                        }
                    }
                    assert forall|m: int| 0 <= m < k && (private_ids@[m].0 as int) < orig_p.len() implies method_keywords(
                        #[trigger] cur[private_ids@[m].0 as int],
                    ) == keywords_after_update(orig_p[private_ids@[m].0 as int], is_procedure_block, default_language) by {
                        let x = private_ids@[m].0 as int;
                        if m == kk {
                            assert(done);
                            assert(method_keywords(before[x]) == method_keywords(orig_p[x])
                                || method_keywords(before[x]) == keywords_after_update(orig_p[x], is_procedure_block, default_language));
                        } else if x != id.0 {
                            if done {
                                assert(cur[x] == before[x]);
                            }
                        } else {
                            assert(method_keywords(before[x]) == keywords_after_update(orig_p[x], is_procedure_block, default_language));
                        }
                    }
                }
            }
            let ghost l = lsm_id.0 as int;
            proof {
                if !done {
                    assert(private_slot_covered(*old(self), i as int, private_ids@[kk], calls_now));
                    assert(private_slot_vars_covered(*old(self), i as int, private_ids@[kk], self.global_semantic_model.variables@, self.global_semantic_model.private@));
                }
            }
            if !done {
                continue;
            }
            let method_name = match self.slot_method(slot, &class_name) {
                Some(m) => m.name.clone(),
                None => continue,
            };
            let ghost old_name = old(self).global_semantic_model.private@[l].methods@[id.0 as int].name@;
            proof {
                assert(self.global_semantic_model.private@[l].methods@[id.0 as int].name == old(self).global_semantic_model.private@[l].methods@[id.0 as int].name);
                assert(method_name@ == old_name);
            }
            let loc = match doc.scope_tree.get_private_method_symbol(method_name.as_str()) {
                Some(sym) => sym.location,
                None => {
                    proof {
                        assert(!doc0.scope_tree.method_defs().contains_key(old_name));
                        assert(private_slot_covered(*old(self), i as int, private_ids@[kk], calls_now));
                        assert(private_slot_vars_covered(*old(self), i as int, private_ids@[kk], self.global_semantic_model.variables@, self.global_semantic_model.private@));
                    }
                    continue;
                },
            };
            proof {
                assert(doc0.scope_tree.method_defs().contains_key(old_name));
                assert(doc0.scope_tree.method_defs()[old_name].location == loc);
            }
            let ghost before = self.global_semantic_model.classes@;
            let ghost doc_before = doc;
            let ghost methods_mid = self.global_semantic_model.methods@;
            let ghost private_mid = self.global_semantic_model.private@;
            let ghost vars_mid = self.global_semantic_model.variables@;
            let ghost defs_before = self.global_semantic_model.variable_defs@;
            self.rebuild_method(i, &class_name, class_id, class_symbol_id, lsm_id, slot, loc, &url, &mut doc, idx, classes_map);
            proof {
                lemma_var_symbols_grown_trans(old(self).global_semantic_model.variable_defs@, defs_before, self.global_semantic_model.variable_defs@);
                lemma_names_kept_trans(old(self).global_semantic_model.methods@, methods_mid, self.global_semantic_model.methods@);
                lemma_private_names_kept_trans(old(self).global_semantic_model.private@, private_mid, self.global_semantic_model.private@);
                let calls_after = self.global_semantic_model.classes@[i as int].method_calls@;
                let dd = old(self).documents@[url@];
                lemma_vars_kept_trans(old(self).global_semantic_model.variables@, vars_mid, self.global_semantic_model.variables@,
                    old(self).global_semantic_model.private@, private_mid, self.global_semantic_model.private@);
                assert forall|m: int| 0 <= m < public_ids@.len() implies #[trigger] public_slot_vars_covered(*old(self), i as int, public_ids@[m],
                    self.global_semantic_model.variables@, self.global_semantic_model.private@) by {
                    lemma_slot_vars_kept(*old(self), i as int, public_ids@[m], PrivateMethodId(0), vars_mid,
                        self.global_semantic_model.variables@, private_mid, self.global_semantic_model.private@);
                }
                assert forall|m: int| 0 <= m < kk implies #[trigger] private_slot_vars_covered(*old(self), i as int, private_ids@[m],
                    self.global_semantic_model.variables@, self.global_semantic_model.private@) by {
                    lemma_slot_vars_kept(*old(self), i as int, PublicMethodId(0), private_ids@[m], vars_mid,
                        self.global_semantic_model.variables@, private_mid, self.global_semantic_model.private@);
                }
                if loc.start_byte <= loc.end_byte {
                    let sm = slot_method_of(methods_mid, private_mid, slot);
                    let node = byte_descent(dd.tree, 0, loc.start_byte, loc.end_byte);
                    let code = choose|code: &str| code@ == doc_before.content@ && #[trigger] vars_recorded(
                        self.global_semantic_model.variables@, self.global_semantic_model.private@, class_id, lsm_id.0 as int,
                        doc_before.tree, code, node, sm);
                    assert(sm.name == old(self).global_semantic_model.private@[l].methods@[id.0 as int].name);
                }
                assert(private_slot_vars_covered(*old(self), i as int, private_ids@[kk], self.global_semantic_model.variables@, self.global_semantic_model.private@));
                assert(doc_before.tree == dd.tree && doc_before.content == dd.content);
                assert(calls_cover(calls_after, dd.tree, dd.content@, cn, loc));
                assert forall|m: int| 0 <= m < k implies #[trigger] private_slot_covered(*old(self), i as int, private_ids@[m], calls_after) by {
                    if m < kk {
                        assert(private_slot_covered(*old(self), i as int, private_ids@[m], calls_now));
                        let idm = private_ids@[m];
                        if l < old(self).global_semantic_model.private@.len() && (idm.0 as int) < old(self).global_semantic_model.private@[l].methods@.len() {
                            let nm = old(self).global_semantic_model.private@[l].methods@[idm.0 as int].name@;
                            if dd.scope_tree.method_defs().contains_key(nm) {
                                lemma_calls_cover_prefix(calls_now, calls_after, dd.tree, dd.content@, cn, dd.scope_tree.method_defs()[nm].location);
                            }
                        }
                    }
                }
                assert forall|m: int| 0 <= m < public_ids@.len() implies #[trigger] public_slot_covered(*old(self), i as int, public_ids@[m], calls_after) by {
                    assert(public_slot_covered(*old(self), i as int, public_ids@[m], calls_now));
                    let idm = public_ids@[m];
                    let cid = old(self).classes@[cn];
                    if (idm.0 as int) < listed(old(self).global_semantic_model.methods@, cid).len() {
                        match public_method_loc(*old(self), cn, class_symbol_id, listed(old(self).global_semantic_model.methods@, cid)[idm.0 as int].name@) {
                            Some(l2) => {
                                lemma_calls_cover_prefix(calls_now, calls_after, dd.tree, dd.content@, cn, l2);
                            },
                            None => {},
                        }
                    }
                }
                lemma_same_but_calls_trans(classes0, before, self.global_semantic_model.classes@);
                lemma_calls_sourced_extend(before, self.global_semantic_model.classes@, i as int, docs0, url@, doc_before);
                lemma_keywords_kept_trans(after_public, methods_mid, self.global_semantic_model.methods@);
                if sourced {
                    lemma_variables_sourced_extend(vars_mid, self.global_semantic_model.variables@, private_mid,
                        self.global_semantic_model.private@, docs0, url@, doc_before);
                }
                if indexed_p {
                    let mid = private_mid[lsm].methods@;
                    let cur = self.global_semantic_model.private@[lsm].methods@;
                    assert(cur.len() == mid.len());
                    assert forall|x: int| 0 <= x < orig_p.len() implies method_keywords(#[trigger] cur[x]) == method_keywords(mid[x]) by {
                        assert(method_keywords(self.global_semantic_model.private@[lsm].methods@[x])
                            == method_keywords(private_mid[lsm].methods@[x]));
                    }
                }
            }
        }
        let ghost u = url@;
        let ghost before_insert = *self;
        self.documents.insert(url, doc);
        proof {
            lemma_var_symbols_grown_refl(self.global_semantic_model.variable_defs@);
            lemma_var_index_kept(before_insert, *self);
            assert(self.documents@.dom() =~= docs0.dom());
            assert forall|v: Seq<char>| #[trigger] self.documents@.contains_key(v) implies tree_wf(self.documents@[v].tree) by {
                if v != u {
                    assert(self.documents@[v] == docs0[v]);
                }
            }
            assert forall|v: Seq<char>| #[trigger] docs0.contains_key(v) implies self.documents@[v] == (Document { scope_tree: self.documents@[v].scope_tree, ..docs0[v] }) by {
                if v != u {
                    assert(self.documents@[v] == docs0[v]);
                }
            }
            lemma_calls_sourced_scopes(self.global_semantic_model.classes@, docs0, self.documents@);
            if sourced {
                lemma_variables_sourced_scopes(self.global_semantic_model.variables@, self.global_semantic_model.private@, docs0,
                    self.documents@);
            }
            if indexed {
                let c = the_class;
                let mid = listed(after_public, ClassId(i));
                let fin = listed(self.global_semantic_model.methods@, ClassId(i));
                assert(fin.len() == mid.len());
                assert forall|n: Seq<char>| #[trigger] c.public_methods@.contains_key(n) && (c.public_methods@[n].0 as int) < orig.len()
                    implies method_keywords(fin[c.public_methods@[n].0 as int])
                        == keywords_after_update(orig[c.public_methods@[n].0 as int], class_pb(c), class_lang(c)) by {
                    c.public_methods.lemma_view_pairs();
                    let j = choose|i: int| 0 <= i < c.public_methods.pairs().len() && c.public_methods.pairs()[i].0.key_view() == n;
                    assert(c.public_methods@[n] == c.public_methods.pairs()[j].1);
                    assert(public_ids@[j] == c.public_methods@[n]);
                    let x = c.public_methods@[n].0 as int;
                    assert(method_keywords(mid[x]) == keywords_after_update(orig[x], is_procedure_block, default_language));
                    assert(method_keywords(fin[x]) == method_keywords(mid[x]));
                }
            }
            {
                let c = the_class;
                let calls_fin = self.global_semantic_model.classes@[i as int].method_calls@;
                assert forall|n: Seq<char>| #[trigger] c.public_methods@.contains_key(n) implies public_slot_covered(
                    *old(self),
                    i as int,
                    c.public_methods@[n],
                    calls_fin,
                ) by {
                    c.public_methods.lemma_view_pairs();
                    let j = choose|j: int| 0 <= j < c.public_methods.pairs().len() && c.public_methods.pairs()[j].0.key_view() == n;
                    assert(c.public_methods@[n] == c.public_methods.pairs()[j].1);
                    assert(public_ids@[j] == c.public_methods@[n]);
                }
                assert(public_calls_covered(*old(self), i as int, calls_fin));
                assert forall|n: Seq<char>| #[trigger] c.private_methods@.contains_key(n) implies private_slot_covered(
                    *old(self),
                    i as int,
                    c.private_methods@[n],
                    calls_fin,
                ) by {
                    c.private_methods.lemma_view_pairs();
                    let j = choose|j: int| 0 <= j < c.private_methods.pairs().len() && c.private_methods.pairs()[j].0.key_view() == n;
                    assert(c.private_methods@[n] == c.private_methods.pairs()[j].1);
                    assert(private_ids@[j] == c.private_methods@[n]);
                }
                assert(private_calls_covered(*old(self), i as int, calls_fin));
                let vfin = self.global_semantic_model.variables@;
                let pfin = self.global_semantic_model.private@;
                assert forall|n: Seq<char>| #[trigger] c.public_methods@.contains_key(n) implies public_slot_vars_covered(
                    *old(self), i as int, c.public_methods@[n], vfin, pfin) by {
                    c.public_methods.lemma_view_pairs();
                    let j = choose|j: int| 0 <= j < c.public_methods.pairs().len() && c.public_methods.pairs()[j].0.key_view() == n;
                    assert(c.public_methods@[n] == c.public_methods.pairs()[j].1);
                    assert(public_ids@[j] == c.public_methods@[n]);
                }
                assert forall|n: Seq<char>| #[trigger] c.private_methods@.contains_key(n) implies private_slot_vars_covered(
                    *old(self), i as int, c.private_methods@[n], vfin, pfin) by {
                    c.private_methods.lemma_view_pairs();
                    let j = choose|j: int| 0 <= j < c.private_methods.pairs().len() && c.private_methods.pairs()[j].0.key_view() == n;
                    assert(c.private_methods@[n] == c.private_methods.pairs()[j].1);
                    assert(private_ids@[j] == c.private_methods@[n]);
                }
                assert(class_vars_covered(*old(self), i as int, vfin, pfin));
            }
            if indexed_p {
                let c = the_class;
                let fin = self.global_semantic_model.private@[lsm].methods@;
                assert forall|n: Seq<char>| #[trigger] c.private_methods@.contains_key(n) && (c.private_methods@[n].0 as int) < orig_p.len()
                    implies method_keywords(fin[c.private_methods@[n].0 as int])
                        == keywords_after_update(orig_p[c.private_methods@[n].0 as int], class_pb(c), class_lang(c)) by {
                    c.private_methods.lemma_view_pairs();
                    let j = choose|i: int| 0 <= i < c.private_methods.pairs().len() && c.private_methods.pairs()[i].0.key_view() == n;
                    assert(c.private_methods@[n] == c.private_methods.pairs()[j].1);
                    assert(private_ids@[j] == c.private_methods@[n]);
                }
            }
        }
    }

    /// The indices of the classes whose members are not to be rebuilt, or `None` when nothing
    /// is to be rebuilt. With `only`, imports and parents are recomputed for that document and
    /// no class is skipped; otherwise they are recomputed for every document not in `exclude`,
    /// and the classes of the documents in `exclude` are skipped.
    fn classes_to_skip(&mut self, only: &Option<String>, exclude: &Vec<String>) -> (r: Option<Vec<usize>>)
        requires
            documents_wf(old(self).documents@),
        ensures
            documents_wf(final(self).documents@),
            final(self).documents == old(self).documents,
            final(self).classes == old(self).classes,
            final(self).class_defs == old(self).class_defs,
            final(self).override_index == old(self).override_index,
            final(self).global_semantic_model.classes@.len() == old(self).global_semantic_model.classes@.len(),
            forall|j: int| 0 <= j < old(self).global_semantic_model.classes@.len() ==> {
                let a = old(self).global_semantic_model.classes@[j];
                let b = #[trigger] final(self).global_semantic_model.classes@[j];
                b == (Class { imports: b.imports, inherited_classes: b.inherited_classes, ..a })
            },
            only is Some ==> links_recomputed(*old(self), final(self).global_semantic_model.classes@, only->0@),
            final(self).global_semantic_model.methods == old(self).global_semantic_model.methods,
            final(self).global_semantic_model.private == old(self).global_semantic_model.private,
            final(self).global_semantic_model.variables == old(self).global_semantic_model.variables,
            final(self).global_semantic_model.class_defs == old(self).global_semantic_model.class_defs,
            final(self).global_semantic_model.variable_defs == old(self).global_semantic_model.variable_defs,
            final(self).global_semantic_model.method_defs == old(self).global_semantic_model.method_defs,
            final(self).pub_var_defs == old(self).pub_var_defs,
            final(self).pub_method_defs == old(self).pub_method_defs,
            only is Some && r is Some ==> r->0@.len() == 0,
            only is None ==> forall|x: usize| #[trigger] r->0@.contains(x) ==> class_excluded(*old(self), exclude@.map_values(|s: String| s@), x as int),
            only is None ==> r is Some,
            only is Some ==> (r is Some <==> {
                let u = only->0@;
                &&& !exclude@.map_values(|s: String| s@).contains(u)
                &&& old(self).documents@.contains_key(u)
                &&& old(self).documents@[u].class_id is Some
            }),
    {
        match only {
            Some(url) => {
                self.recompute_imports_for_url(url);
                self.recompute_extends_for_url(url);
                if contains_url(exclude, url) {
                    return None;
                }
                let index = match self.documents.get(url) {
                    Some(d) => match d.class_id {
                        Some(id) => id,
                        None => return None,
                    },
                    None => return None,
                };
                let _ = index;
                Some(Vec::new())
            },
            None => {
                let urls = self.documents.keys();
                let mut k: usize = 0;
                while k < urls.len()
                    invariant
                        documents_wf(self.documents@),
                        self.global_semantic_model.classes@.len() == old(self).global_semantic_model.classes@.len(),
                        forall|j: int| 0 <= j < old(self).global_semantic_model.classes@.len() ==> {
                            let a = old(self).global_semantic_model.classes@[j];
                            let b = #[trigger] self.global_semantic_model.classes@[j];
                            b == (Class { imports: b.imports, inherited_classes: b.inherited_classes, ..a })
                        },
                        self.documents == old(self).documents,
                        self.classes == old(self).classes,
                        self.class_defs == old(self).class_defs,
                        self.override_index == old(self).override_index,
                        self.global_semantic_model.methods == old(self).global_semantic_model.methods,
                        self.global_semantic_model.private == old(self).global_semantic_model.private,
                        self.global_semantic_model.variables == old(self).global_semantic_model.variables,
                        self.global_semantic_model.class_defs == old(self).global_semantic_model.class_defs,
                        self.global_semantic_model.method_defs == old(self).global_semantic_model.method_defs,
                        self.global_semantic_model.variable_defs == old(self).global_semantic_model.variable_defs,
                        self.pub_var_defs == old(self).pub_var_defs,
                        self.pub_method_defs == old(self).pub_method_defs,
                    decreases urls@.len() - k,
                {
                    let url = &urls[k];
                    k = k + 1;
                    if !contains_url(exclude, url) {
                        self.recompute_imports_for_url(url);
                        self.recompute_extends_for_url(url);
                    }
                }
                let mut skip: Vec<usize> = Vec::new();
                let mut k: usize = 0;
                while k < exclude.len()
                    invariant
                        k <= exclude@.len(),
                        self.documents == old(self).documents,
                        forall|x: usize| #[trigger] skip@.contains(x) ==> class_excluded(*old(self), exclude@.map_values(|s: String| s@), x as int),
                    decreases exclude@.len() - k,
                {
                    let url = &exclude[k];
                    let ghost kk = k as int;
                    k = k + 1;
                    match self.documents.get(url) {
                        Some(d) => match d.class_id {
                            Some(id) => {
                                let ghost prev = skip@;
                                skip.push(id.0);
                                proof {
                                    assert(exclude@.map_values(|s: String| s@)[kk] == url@);
                                    assert(exclude@.map_values(|s: String| s@).contains(url@));
                                    assert(old(self).documents@.contains_key(url@) && old(self).documents@[url@].class_id == Some(id));
                                    assert forall|x: usize| #[trigger] skip@.contains(x) implies class_excluded(*old(self), exclude@.map_values(|s: String| s@), x as int) by {
                                        if x != id.0 {
                                            let w = choose|w: int| 0 <= w < skip@.len() && skip@[w] == x;
                                            assert(prev[w] == x);
                                            assert(prev.contains(x));
                                        } else {
                                            assert(ClassId(x as int as usize) == id);
                                            assert(class_excluded(*old(self), exclude@.map_values(|s: String| s@), x as int));
                                        }
                                    }
                                }
                            },
                            None => {},
                        },
                        None => {},
                    }
                }
                Some(skip)
            },
        }
    }

    /// Recomputes imports, parents, class keyword defaults, the override index, and the calls
    /// and variables of the methods of the classes to rebuild.
    ///
    /// With `only`, imports and parents are recomputed for that document only; otherwise for
    /// every document not in `exclude`. The override index is rebuilt for all classes, provided
    /// every parent names a known class, and the calls and variables of every class are
    /// recomputed, except, without `only`, those of the classes of `exclude`.
    pub fn build_inheritance_and_variables(&mut self, only: Option<String>, exclude: Vec<String>)
        requires
            documents_wf(old(self).documents@),
        ensures
            inheritance_built(
                *old(self),
                *final(self),
                match only {
                    Some(u) => Some(u@),
                    None => None,
                },
                exclude@.map_values(|s: String| s@),
            ),
    {
        let ghost law_applies = only is Some && ({
            let u = only->0@;
            &&& !exclude@.map_values(|s: String| s@).contains(u)
            &&& old(self).documents@.contains_key(u)
            &&& old(self).documents@[u].class_id is Some
            &&& class_indexed(*old(self), (old(self).documents@[u].class_id->0).0 as int)
            &&& class_apart(*old(self), (old(self).documents@[u].class_id->0).0 as int)
        });
        let ghost target: int = if law_applies { (old(self).documents@[only->0@].class_id->0).0 as int } else { 0 };
        proof {
            lemma_var_symbols_grown_refl(old(self).global_semantic_model.variable_defs@);
        }
        let skip = match self.classes_to_skip(&only, &exclude) {
            Some(s) => s,
            None => {
                proof {
                    lemma_var_index_kept(*old(self), *self);
                }
                return;
            },
        };
        let ghost mid = self.global_semantic_model.classes@;
        self.global_semantic_model.class_keyword_inheritance();
        let ghost keyed = self.global_semantic_model.classes@;
        proof {
            assert(keyword_snaps(mid) =~= keyword_snaps_between(old(self).global_semantic_model.classes@, keyed)) by {
                assert forall|j: int| 0 <= j < mid.len() implies #[trigger] keyword_snaps(mid)[j] == keyword_snaps_between(
                    old(self).global_semantic_model.classes@,
                    keyed,
                )[j] by {
                    assert(keyed[j].inherited_classes == mid[j].inherited_classes);
                }
            }
        }
        if !self.global_semantic_model.parents_valid() {
            proof {
                lemma_var_index_kept(*old(self), *self);
            }
            return;
        }
        let idx = self.global_semantic_model.build_override_index();
        let ghost resolved = self.global_semantic_model.classes@;
        self.global_semantic_model.clear_method_calls();
        proof {
            assert forall|j: int, k: int| #![trigger self.global_semantic_model.classes@[j].method_calls@[k]]
                0 <= j < self.global_semantic_model.classes@.len() && 0 <= k < self.global_semantic_model.classes@[j].method_calls@.len()
                implies site_sourced(
                    self.documents@,
                    self.global_semantic_model.classes@[j].name@,
                    self.global_semantic_model.classes@[j].method_calls@[k],
                ) by {
                assert(self.global_semantic_model.classes@[j].method_calls@.len() == 0);
            }
        }
        let classes_map = self.classes.duplicate();
        let class_len = self.global_semantic_model.classes.len();
        let ghost ex_g = exclude@.map_values(|s: String| s@);
        proof {
            lemma_names_kept_refl(old(self).global_semantic_model.methods@);
            lemma_private_names_kept_refl(old(self).global_semantic_model.private@);
            lemma_scope_methods_kept_refl(old(self).documents@);
        }
        let mut i: usize = 0;
        while i < class_len
            invariant
                documents_wf(self.documents@),
                docs_same_but_scopes(old(self).documents@, self.documents@),
                self.classes == old(self).classes,
                self.class_defs == old(self).class_defs,
                same_but_calls(resolved, self.global_semantic_model.classes@),
                resolved == keyed,
                class_len == resolved.len(),
                classes_map@ == self.classes@,
                calls_resolve(self.global_semantic_model.classes@, classes_map@, idx),
                calls_sourced(self.global_semantic_model.classes@, self.documents@),
                resolved.len() == old(self).global_semantic_model.classes@.len(),
                index_resolves(idx, resolved),
                members_kept(old(self).global_semantic_model.classes@, resolved),
                self.global_semantic_model.class_defs == old(self).global_semantic_model.class_defs,
                var_symbols_grown(old(self).global_semantic_model.variable_defs@, self.global_semantic_model.variable_defs@),
                var_index_consistent(*old(self)) ==> var_index_consistent(*self),
                self.pub_method_defs == old(self).pub_method_defs,
                names_kept(old(self).global_semantic_model.methods@, self.global_semantic_model.methods@),
                self.global_semantic_model.method_defs == old(self).global_semantic_model.method_defs,
                ex_g == exclude@.map_values(|s: String| s@),
                only is Some ==> skip@.len() == 0,
                only is None ==> forall|x: usize| #[trigger] skip@.contains(x) ==> class_excluded(*old(self), ex_g, x as int),
                private_names_kept(old(self).global_semantic_model.private@, self.global_semantic_model.private@),
                scope_methods_kept(old(self).documents@, self.documents@),
                forall|c: int| 0 <= c < i && #[trigger] class_lookups_ok(*old(self), c) && !skip@.contains(c as usize)
                    ==> public_calls_covered(*old(self), c, self.global_semantic_model.classes@[c].method_calls@)
                    && private_calls_covered(*old(self), c, self.global_semantic_model.classes@[c].method_calls@)
                    && class_vars_covered(*old(self), c, self.global_semantic_model.variables@, self.global_semantic_model.private@),
                variables_sourced(
                    old(self).global_semantic_model.variables@,
                    old(self).global_semantic_model.private@,
                    old(self).documents@,
                ) ==> variables_sourced(self.global_semantic_model.variables@, self.global_semantic_model.private@, self.documents@),
                law_applies ==> {
                    &&& 0 <= target < class_len
                    &&& class_indexed(*old(self), target)
                    &&& class_apart(*old(self), target)
                    &&& skip@.len() == 0
                    &&& i <= target ==> listed(self.global_semantic_model.methods@, ClassId(target as usize))
                        == listed(old(self).global_semantic_model.methods@, ClassId(target as usize))
                    &&& i <= target && class_local_model(*old(self), target) < old(self).global_semantic_model.private@.len()
                        ==> self.global_semantic_model.private@[class_local_model(*old(self), target)].methods
                        == old(self).global_semantic_model.private@[class_local_model(*old(self), target)].methods
                    &&& i > target ==> public_methods_keyworded(
                        resolved[target],
                        listed(old(self).global_semantic_model.methods@, ClassId(target as usize)),
                        listed(self.global_semantic_model.methods@, ClassId(target as usize)),
                    )
                    &&& i > target && class_local_model(*old(self), target) < old(self).global_semantic_model.private@.len()
                        ==> private_methods_keyworded(
                        resolved[target],
                        old(self).global_semantic_model.private@[class_local_model(*old(self), target)].methods@,
                        self.global_semantic_model.private@[class_local_model(*old(self), target)].methods@,
                    )
                },
                self.global_semantic_model.private@.len() == old(self).global_semantic_model.private@.len(),
            decreases class_len - i,
        {
            if !contains_index(&skip, i) {
                let ghost before = self.global_semantic_model.classes@;
                let ghost docs_before = self.documents@;
                let ghost state_before = *self;
                proof {
                    if law_applies && i as int == target {
                        let name = old(self).global_semantic_model.classes@[target].name@;
                        assert(before[target] == (Class { method_calls: before[target].method_calls, ..resolved[target] }));
                        assert(resolved[target].name == old(self).global_semantic_model.classes@[target].name);
                        let url = old(self).global_semantic_model.class_defs@[old(self).class_defs@[name].0 as int].url@;
                        assert(docs_before.contains_key(url));
                        assert(docs_before[url] == (Document { scope_tree: docs_before[url].scope_tree, ..old(self).documents@[url] }));
                        assert(class_indexed(state_before, target));
                        assert(class_local_model(state_before, target) == class_local_model(*old(self), target));
                    }
                }
                let ghost defs_before = self.global_semantic_model.variable_defs@;
                let ghost methods_before = self.global_semantic_model.methods@;
                let ghost private_before = self.global_semantic_model.private@;
                let ghost vars_before_g = self.global_semantic_model.variables@;
                proof {
                    if class_lookups_ok(*old(self), i as int) {
                        let j = i as int;
                        let name = old(self).global_semantic_model.classes@[j].name@;
                        assert(before[j] == (Class { method_calls: before[j].method_calls, ..resolved[j] }));
                        assert(resolved[j].name == old(self).global_semantic_model.classes@[j].name);
                        let url = old(self).global_semantic_model.class_defs@[old(self).class_defs@[name].0 as int].url@;
                        assert(docs_before[url] == (Document { scope_tree: docs_before[url].scope_tree, ..old(self).documents@[url] }));
                        assert(class_lookups_ok(state_before, j));
                    }
                }
                self.rebuild_class_members(i, &idx, &classes_map);
                proof {
                    lemma_names_kept_trans(old(self).global_semantic_model.methods@, methods_before, self.global_semantic_model.methods@);
                    lemma_private_names_kept_trans(old(self).global_semantic_model.private@, private_before, self.global_semantic_model.private@);
                    lemma_scope_methods_kept_trans(old(self).documents@, docs_before, self.documents@);
                    if class_lookups_ok(*old(self), i as int) {
                        let j = i as int;
                        assert(before[j] == (Class { method_calls: before[j].method_calls, ..resolved[j] }));
                        assert(resolved[j].public_methods == old(self).global_semantic_model.classes@[j].public_methods);
                        assert(resolved[j].private_methods == old(self).global_semantic_model.classes@[j].private_methods);
                        lemma_public_calls_covered_transfer(*old(self), state_before, j, self.global_semantic_model.classes@[j].method_calls@);
                        lemma_private_calls_covered_transfer(*old(self), state_before, j, self.global_semantic_model.classes@[j].method_calls@);
                        lemma_class_vars_covered_transfer(*old(self), state_before, j, self.global_semantic_model.variables@, self.global_semantic_model.private@);
                    }
                    assert forall|c: int| 0 <= c < i + 1 && #[trigger] class_lookups_ok(*old(self), c) && !skip@.contains(c as usize)
                        implies public_calls_covered(*old(self), c, self.global_semantic_model.classes@[c].method_calls@)
                        && private_calls_covered(*old(self), c, self.global_semantic_model.classes@[c].method_calls@)
                        && class_vars_covered(*old(self), c, self.global_semantic_model.variables@, self.global_semantic_model.private@) by {
                        if c < i {
                            assert(self.global_semantic_model.classes@[c] == before[c]);
                            lemma_class_vars_kept(*old(self), c, vars_before_g, self.global_semantic_model.variables@, private_before,
                                self.global_semantic_model.private@);
                        }
                    }
                    lemma_var_symbols_grown_trans(old(self).global_semantic_model.variable_defs@, defs_before, self.global_semantic_model.variable_defs@);
                    lemma_same_but_calls_trans(resolved, before, self.global_semantic_model.classes@);
                    lemma_docs_same_but_scopes_trans(old(self).documents@, docs_before, self.documents@);
                    if law_applies && i as int == target {
                        assert(before[target] == (Class { method_calls: before[target].method_calls, ..resolved[target] }));
                        assert(state_before.global_semantic_model.classes@[target] == before[target]);
                        assert(before[target].public_methods == resolved[target].public_methods);
                        assert(class_pb(before[target]) == class_pb(resolved[target]));
                        assert(class_lang(before[target]) == class_lang(resolved[target]));
                        assert(public_methods_keyworded(
                            before[target],
                            listed(old(self).global_semantic_model.methods@, ClassId(target as usize)),
                            listed(self.global_semantic_model.methods@, ClassId(target as usize)),
                        ));
                        assert(before[target].private_methods == resolved[target].private_methods);
                    } else if law_applies {
                        let j = i as int;
                        let name = old(self).global_semantic_model.classes@[j].name@;
                        assert(before[j] == (Class { method_calls: before[j].method_calls, ..resolved[j] }));
                        assert(resolved[j].name == old(self).global_semantic_model.classes@[j].name);
                        if class_lookups_ok(state_before, j) {
                            let url = old(self).global_semantic_model.class_defs@[old(self).class_defs@[name].0 as int].url@;
                            assert(docs_before[url] == (Document { scope_tree: docs_before[url].scope_tree, ..old(self).documents@[url] }));
                            assert(class_lookups_ok(*old(self), j));
                            assert(rebuilt_class(state_before, j) == rebuilt_class(*old(self), j));
                            assert(class_local_model(state_before, j) == class_local_model(*old(self), j));
                        }
                        let t = target;
                        let tname = old(self).global_semantic_model.classes@[t].name@;
                        let turl = old(self).global_semantic_model.class_defs@[old(self).class_defs@[tname].0 as int].url@;
                        assert(docs_before[turl] == (Document { scope_tree: docs_before[turl].scope_tree, ..old(self).documents@[turl] }));
                        assert(listed(self.global_semantic_model.methods@, ClassId(target as usize))
                            == listed(state_before.global_semantic_model.methods@, ClassId(target as usize)));
                        if class_local_model(*old(self), target) < old(self).global_semantic_model.private@.len() {
                            assert(self.global_semantic_model.private@[class_local_model(*old(self), target)].methods
                                == state_before.global_semantic_model.private@[class_local_model(*old(self), target)].methods);
                        }
                    }
                }
            }
            i = i + 1;
        }
        self.override_index = idx;
        proof {
            if law_applies {
                let t = target;
                assert(self.global_semantic_model.classes@[t] == (Class {
                    method_calls: self.global_semantic_model.classes@[t].method_calls,
                    ..resolved[t]
                }));
            }
            lemma_index_resolves_same_but_calls(self.override_index, resolved, self.global_semantic_model.classes@);
            assert(keyword_snaps_between(old(self).global_semantic_model.classes@, keyed) =~= keyword_snaps_between(
                old(self).global_semantic_model.classes@,
                self.global_semantic_model.classes@,
            )) by {
                assert forall|j: int| 0 <= j < keyed.len() implies #[trigger] self.global_semantic_model.classes@[j].inherited_classes
                    == keyed[j].inherited_classes by {
                    assert(self.global_semantic_model.classes@[j] == (Class {
                        method_calls: self.global_semantic_model.classes@[j].method_calls,
                        ..keyed[j]
                    }));
                }
            }
        }
    }
}

/// What keyword inheritance reads of the classes `b` when their own keywords are those of
/// `a`: the ProcedureBlock and Language keywords of `a` and the leftmost parents of `b`.
pub open spec fn keyword_snaps_between(a: Seq<Class>, b: Seq<Class>) -> Seq<KeywordSnap> {
    Seq::new(a.len(), |i: int| KeywordSnap {
        declared_pb: a[i].is_procedure_block,
        declared_lang: a[i].default_language,
        primary_parent: if b[i].inherited_classes@.len() > 0 {
            Some(b[i].inherited_classes@[0].0)
        } else {
            None
        },
    })
}

/// Every parent of every class of the workspace names a class of the workspace.
pub open spec fn parents_valid_after(p: ProjectData) -> bool {
    crate::global_semantic::parents_in_range(p.global_semantic_model.classes@)
}


impl ProjectData {
    /// Applies `f`-style edits to the document at `url`: sets its scope tree.
    fn set_document_scope_tree(&mut self, url: &String, scope_tree: ScopeTree) -> (done: bool)
        requires
            documents_wf(old(self).documents@),
        ensures
            documents_wf(final(self).documents@),
            done == old(self).documents@.contains_key(url@),
            final(self).documents@.dom() == old(self).documents@.dom(),
            done ==> final(self).documents@[url@] == (Document { scope_tree, ..old(self).documents@[url@] }),
            forall|v: Seq<char>| v != url@ && #[trigger] old(self).documents@.contains_key(v) ==> final(self).documents@[v] == old(self).documents@[v],
            final(self).global_semantic_model == old(self).global_semantic_model,
            final(self).classes == old(self).classes,
            final(self).class_defs == old(self).class_defs,
            final(self).pub_method_defs == old(self).pub_method_defs,
            final(self).pub_var_defs == old(self).pub_var_defs,
            final(self).override_index == old(self).override_index,
    {
        let mut doc = match self.documents.remove(url) {
            Some(d) => d,
            None => return false,
        };
        doc.scope_tree = scope_tree;
        assert(tree_wf(doc.tree));
        self.documents.insert(url.clone(), doc);
        proof {
            assert(self.documents@.dom() =~= old(self).documents@.dom());
        }
        true
    }

    /// Rebuilds the class and method headers of the document at `url` from its class
    /// definition `node` after a re-parse: the class symbol is updated, public methods are
    /// registered again in the semantic model and the method symbol tables, private methods in
    /// the local model and the scope tree, and the class at `class_id` is replaced. Statements
    /// are rebuilt later (see `build_inheritance_and_variables`). Only class files are handled.
    pub fn rebuild_semantics(
        &mut self,
        url: String,
        tree: &SyntaxTree,
        node: usize,
        content: &str,
        class_id: ClassId,
        class_symbol_id: ClassGlobalSymbolId,
        local_semantic_model_id: LocalSemanticModelId,
        class_name: String,
        file_type: FileType,
    )
        requires
            tree_wf(*tree),
            node < tree.nodes@.len(),
            documents_wf(old(self).documents@),
        ensures
            file_type != FileType::Cls ==> *final(self) == *old(self),
            documents_wf(final(self).documents@),
            final(self).documents@.dom() == old(self).documents@.dom(),
            forall|j: int|
                0 <= j < old(self).global_semantic_model.classes@.len() ==> #[trigger] final(self).global_semantic_model.classes@[j].name
                    == old(self).global_semantic_model.classes@[j].name || (j == class_id.0
                    && final(self).global_semantic_model.classes@[j].name@ == class_name@),
            final(self).classes == old(self).classes,
            final(self).pub_method_defs@.remove(class_name@) == old(self).pub_method_defs@.remove(class_name@),
            old(self).documents@.contains_key(url@) ==> final(self).documents@[url@].class_id == old(self).documents@[url@].class_id
                || final(self).documents@[url@].class_id == Some(class_id),
            final(self).class_defs == old(self).class_defs,
            final(self).global_semantic_model.classes@.len() == old(self).global_semantic_model.classes@.len(),
            file_type == FileType::Cls && old(self).documents@.contains_key(url@)
                && class_id.0 < old(self).global_semantic_model.classes@.len()
                && local_semantic_model_id.0 < old(self).global_semantic_model.private@.len()
                ==> class_rebuilt(
                    *old(self),
                    *final(self),
                    url@,
                    *tree,
                    content,
                    node as int,
                    class_id,
                    class_symbol_id,
                    local_semantic_model_id,
                    class_name@,
                ),
            file_type == FileType::Cls && class_symbol_id.0 < old(self).global_semantic_model.class_defs@.len() ==> {
                let sym = final(self).global_semantic_model.class_defs@[class_symbol_id.0 as int];
                &&& sym.name@ == class_name@
                &&& sym.url@ == url@
                &&& sym.location == tree.nodes@[node as int].range
                &&& sym.alive
            },
    {
        if file_type != FileType::Cls {
            return;
        }
        let ghost before = *self;
        let mut gsm_methods: Vec<Method> = Vec::new();
        let mut lsm_methods: Vec<Method> = Vec::new();
        let mut class = Class::new(class_name.clone());
        let ghost blank = class;
        let mut methods = class.initial_build(tree, node, content);
        let ghost built = methods@;
        let ghost keyed = class;
        let range = tree.range(node);
        self.global_semantic_model.update_class_symbol(class_name.clone(), range, url.clone(), class_symbol_id);
        let ghost symbols = self.global_semantic_model.class_defs;
        let ghost url_view = url@;
        proof {
            assert(public_symbol_entries(built.take(0), url_view) == Seq::<(Seq<char>, Seq<char>, TextRange)>::empty());
            assert(symbol_entries(listed(self.global_semantic_model.method_defs@, class_symbol_id)) + public_symbol_entries(built.take(0), url_view)
                =~= symbol_entries(listed(old(self).global_semantic_model.method_defs@, class_symbol_id)));
            assert(built.take(0) =~= Seq::<(Method, TextRange)>::empty());
            assert(built.take(0) =~= Seq::<(Method, TextRange)>::empty());
            assert(class.public_methods@ =~= Map::<Seq<char>, PublicMethodId>::empty());
            assert(class.private_methods@ =~= Map::<Seq<char>, PrivateMethodId>::empty());
            assert(gsm_methods@ =~= Seq::<Method>::empty());
            assert(lsm_methods@ =~= Seq::<Method>::empty());
            assert(methods@ =~= built.skip(0));
        }
        while methods.len() > 0
            invariant
                file_type == FileType::Cls,
                documents_wf(self.documents@),
                self.documents@.dom() == old(self).documents@.dom(),
                self.documents@.contains_key(url@) ==> self.documents@[url@].class_id == old(self).documents@[url@].class_id,
                self.classes == old(self).classes,
                self.class_defs == old(self).class_defs,
                self.global_semantic_model.classes == old(self).global_semantic_model.classes,
                self.global_semantic_model.methods == old(self).global_semantic_model.methods,
                self.global_semantic_model.private == old(self).global_semantic_model.private,
                self.global_semantic_model.class_defs == symbols,
                class_symbol_id.0 < old(self).global_semantic_model.class_defs@.len() ==> {
                    let sym = symbols@[class_symbol_id.0 as int];
                    &&& sym.name@ == class_name@
                    &&& sym.url@ == url@
                    &&& sym.location == tree.nodes@[node as int].range
                    &&& sym.alive
                },
                self.pub_method_defs@.remove(class_name@) == old(self).pub_method_defs@.remove(class_name@),
                url_view == url@,
                symbol_entries(listed(self.global_semantic_model.method_defs@, class_symbol_id))
                    == symbol_entries(listed(old(self).global_semantic_model.method_defs@, class_symbol_id))
                    + public_symbol_entries(built.take(built.len() - methods@.len()), url_view),
                self.documents@.contains_key(url_view) ==> symbol_ranges(self.documents@[url_view].scope_tree.method_defs())
                    == private_method_ranges(
                        symbol_ranges(old(self).documents@[url_view].scope_tree.method_defs()),
                        built.take(built.len() - methods@.len()),
                    ),
                methods@.len() <= built.len(),
                methods@ == built.skip(built.len() - methods@.len()),
                class == (Class { public_methods: class.public_methods, private_methods: class.private_methods, ..keyed }),
                ({
                    let (pm, vm, pubs, privs) = declared_tables(built.take(built.len() - methods@.len()));
                    &&& class.public_methods@ == pm
                    &&& class.private_methods@ == vm
                    &&& gsm_methods@ == pubs
                    &&& lsm_methods@ == privs
                }),
            decreases methods@.len(),
        {
            let ghost k = built.len() - methods@.len();
            proof {
                assert(built.take(k + 1).drop_last() =~= built.take(k));
                assert(methods@[0] == built[k]);
            }
            let (method, method_range) = methods.remove(0);
            proof {
                assert(methods@ =~= built.skip(k + 1));
                assert(method == built.take(k + 1).last().0);
                assert(method_range == built.take(k + 1).last().1);
            }
            let ghost prev = declared_tables(built.take(k));
            let ghost prev_syms = listed(self.global_semantic_model.method_defs@, class_symbol_id);
            let ghost prev_docs = self.documents@;
            let method_name = method.name.clone();
            if method.is_public {
                let method_id = PublicMethodId(gsm_methods.len());
                gsm_methods.push(method);
                match self.global_semantic_model.new_method_symbol(method_name.clone(), method_range, url.clone(), class_symbol_id) {
                    Some(method_symbol_id) => {
                        Self::record_public_method_symbol(&mut self.pub_method_defs, &class_name, method_name.clone(), method_symbol_id);
                    },
                    None => continue,
                }
                proof {
                    let syms = listed(self.global_semantic_model.method_defs@, class_symbol_id);
                    assert(syms.drop_last() == prev_syms);
                    assert(symbol_entries(syms) =~= symbol_entries(prev_syms).push((method.name@, url_view, method_range)));
                    assert(public_symbol_entries(built.take(k + 1), url_view)
                        == public_symbol_entries(built.take(k), url_view).push((method.name@, url_view, method_range)));
                    assert(private_method_ranges(symbol_ranges(old(self).documents@[url_view].scope_tree.method_defs()), built.take(k + 1))
                        == private_method_ranges(symbol_ranges(old(self).documents@[url_view].scope_tree.method_defs()), built.take(k)));
                }
                class.public_methods.insert(method_name, method_id);
                assert(declared_tables(built.take(k + 1)) == (
                    prev.0.insert(method.name@, PublicMethodId(prev.2.len() as usize)),
                    prev.1,
                    prev.2.push(method),
                    prev.3,
                ));
            } else {
                let method_id = PrivateMethodId(lsm_methods.len());
                lsm_methods.push(method);
                class.private_methods.insert(method_name.clone(), method_id);
                assert(declared_tables(built.take(k + 1)) == (
                    prev.0,
                    prev.1.insert(method.name@, PrivateMethodId(prev.3.len() as usize)),
                    prev.2,
                    prev.3.push(method),
                ));
                let mut doc = match self.documents.remove(&url) {
                    Some(d) => d,
                    None => return,
                };
                let ghost prev_defs = doc.scope_tree.method_defs();
                doc.scope_tree.new_method_symbol(method_name, method_range);
                proof {
                    assert(symbol_ranges(doc.scope_tree.method_defs()) =~= symbol_ranges(prev_defs).insert(method.name@, method_range));
                    assert(public_symbol_entries(built.take(k + 1), url_view) == public_symbol_entries(built.take(k), url_view));
                }
                assert(tree_wf(doc.tree));
                self.documents.insert(url.clone(), doc);
                proof {
                    assert(self.documents@.dom() =~= old(self).documents@.dom());
                }
            }
        }
        proof {
            assert(built.take(built.len() as int) =~= built);
        }
        let ghost final_class = class;
        let ghost pubs = gsm_methods@;
        let ghost privs = lsm_methods@;
        let ghost docs_mid = self.documents;
        let ghost md_mid = self.global_semantic_model.method_defs;
        let ghost pmd_mid = self.pub_method_defs;
        if !self.global_semantic_model.replace_class(class_id, class) {
            return;
        }
        proof {
            assert(pubs.take(0) =~= Seq::<Method>::empty());
            assert(listed(self.global_semantic_model.methods@, class_id) + pubs.take(0)
                =~= listed(self.global_semantic_model.methods@, class_id));
            assert(gsm_methods@ =~= pubs.skip(0));
        }
        while gsm_methods.len() > 0
            invariant
                documents_wf(self.documents@),
                self.documents@.dom() == old(self).documents@.dom(),
                self.documents@.contains_key(url@) ==> self.documents@[url@].class_id == old(self).documents@[url@].class_id,
                self.classes == old(self).classes,
                self.class_defs == old(self).class_defs,
                self.global_semantic_model.classes@ == before.global_semantic_model.classes@.update(class_id.0 as int, final_class),
                self.global_semantic_model.private == before.global_semantic_model.private,
                self.global_semantic_model.class_defs == symbols,
                self.documents == docs_mid,
                self.global_semantic_model.method_defs == md_mid,
                self.pub_method_defs == pmd_mid,
                gsm_methods@.len() <= pubs.len(),
                gsm_methods@ == pubs.skip(pubs.len() - gsm_methods@.len()),
                listed(self.global_semantic_model.methods@, class_id) == listed(
                    before.global_semantic_model.methods@,
                    class_id,
                ) + pubs.take(pubs.len() - gsm_methods@.len()),
            decreases gsm_methods@.len(),
        {
            let ghost j = pubs.len() - gsm_methods@.len();
            proof {
                assert(gsm_methods@[0] == pubs[j]);
                assert(pubs.take(j + 1) =~= pubs.take(j).push(pubs[j]));
            }
            let method = gsm_methods.remove(0);
            self.global_semantic_model.new_method(method, class_id);
            proof {
                assert(gsm_methods@ =~= pubs.skip(j + 1));
            }
        }
        proof {
            assert(pubs.take(pubs.len() as int) =~= pubs);
        }
        if local_semantic_model_id.0 >= self.global_semantic_model.private.len() {
            return;
        }
        let ghost lsm = local_semantic_model_id.0 as int;
        proof {
            assert(privs.take(0) =~= Seq::<Method>::empty());
            assert(before.global_semantic_model.private@[lsm].methods@ + privs.take(0)
                =~= before.global_semantic_model.private@[lsm].methods@);
            assert(lsm_methods@ =~= privs.skip(0));
        }
        while lsm_methods.len() > 0
            invariant
                documents_wf(self.documents@),
                self.documents@.dom() == old(self).documents@.dom(),
                self.documents@.contains_key(url@) ==> self.documents@[url@].class_id == old(self).documents@[url@].class_id,
                self.classes == old(self).classes,
                self.class_defs == old(self).class_defs,
                self.global_semantic_model.classes@ == before.global_semantic_model.classes@.update(class_id.0 as int, final_class),
                self.global_semantic_model.class_defs == symbols,
                self.documents == docs_mid,
                self.global_semantic_model.method_defs == md_mid,
                self.pub_method_defs == pmd_mid,
                listed(self.global_semantic_model.methods@, class_id) == listed(before.global_semantic_model.methods@, class_id) + pubs,
                0 <= lsm < self.global_semantic_model.private@.len(),
                self.global_semantic_model.private@.len() == before.global_semantic_model.private@.len(),
                lsm == local_semantic_model_id.0,
                lsm_methods@.len() <= privs.len(),
                lsm_methods@ == privs.skip(privs.len() - lsm_methods@.len()),
                self.global_semantic_model.private@[lsm].methods@
                    == before.global_semantic_model.private@[lsm].methods@ + privs.take(privs.len() - lsm_methods@.len()),
            decreases lsm_methods@.len(),
        {
            let ghost j = privs.len() - lsm_methods@.len();
            proof {
                assert(lsm_methods@[0] == privs[j]);
                assert(privs.take(j + 1) =~= privs.take(j).push(privs[j]));
            }
            let method = lsm_methods.remove(0);
            let _ = self.global_semantic_model.new_local_method(local_semantic_model_id, method);
            proof {
                assert(lsm_methods@ =~= privs.skip(j + 1));
            }
        }
        proof {
            assert(privs.take(privs.len() as int) =~= privs);
        }
        self.global_semantic_model.activate_local_semantic(local_semantic_model_id);
        let mut doc = match self.documents.remove(&url) {
            Some(d) => d,
            None => return,
        };
        doc.local_semantic_model_id = Some(local_semantic_model_id);
        doc.class_id = Some(class_id);
        assert(tree_wf(doc.tree));
        self.documents.insert(url, doc);
        proof {
            assert(self.documents@.dom() =~= old(self).documents@.dom());
            assert(is_blank_class(blank, class_name@, true));
            assert(class_keyword_values(final_class) == class_keyword_values(keyed));
            assert(declared_tables(built) == (final_class.public_methods@, final_class.private_methods@, pubs, privs));
            assert(methods_built(*tree, content, class_methods(*tree, content, node as int, tree.nodes@[node as int].child_count as int), built));
            assert(class_from_definition(*tree, content, node as int, class_name@, final_class, built));
            assert(self.global_semantic_model.classes@[class_id.0 as int] == final_class);
        }
    }
}

/// The class `class_id` of `after` was rebuilt from the class definition `node` of `t`, and
/// the document at `url` points to it and to the local model `lsm_id`: the class is the one
/// that definition declares, its public methods were added to those the semantic model lists
/// for it and their symbols to those of the class symbol `symbol_id`, its private methods to
/// those of the local model, which is active, and to the method symbols of the document's
/// scope tree.
pub open spec fn class_rebuilt(
    before: ProjectData,
    after: ProjectData,
    url: Seq<char>,
    t: SyntaxTree,
    content: &str,
    node: int,
    class_id: ClassId,
    symbol_id: ClassGlobalSymbolId,
    lsm_id: LocalSemanticModelId,
    class_name: Seq<char>,
) -> bool {
    let c = after.global_semantic_model.classes@[class_id.0 as int];
    let lsm = lsm_id.0 as int;
    &&& after.global_semantic_model.classes@ == before.global_semantic_model.classes@.update(class_id.0 as int, c)
    &&& exists|ms: Seq<(Method, TextRange)>| {
        &&& #[trigger] class_from_definition(t, content, node, class_name, c, ms)
        &&& listed(after.global_semantic_model.methods@, class_id)
            == listed(before.global_semantic_model.methods@, class_id) + declared_tables(ms).2
        &&& after.global_semantic_model.private@[lsm].methods@
            == before.global_semantic_model.private@[lsm].methods@ + declared_tables(ms).3
        &&& symbol_entries(listed(after.global_semantic_model.method_defs@, symbol_id))
            == symbol_entries(listed(before.global_semantic_model.method_defs@, symbol_id)) + public_symbol_entries(ms, url)
        &&& symbol_ranges(after.documents@[url].scope_tree.method_defs())
            == private_method_ranges(symbol_ranges(before.documents@[url].scope_tree.method_defs()), ms)
    }
    &&& after.global_semantic_model.private@.len() == before.global_semantic_model.private@.len()
    &&& after.global_semantic_model.private@[lsm].active
    &&& after.documents@[url].class_id == Some(class_id)
    &&& after.documents@[url].local_semantic_model_id == Some(lsm_id)
}

/// An update of the document at `url` to `tree` and `content` goes ahead: the new text names
/// a class, and the document is tracked with a class and a local semantic model.
pub open spec fn update_applies(p: ProjectData, url: Seq<char>, tree: SyntaxTree, content: Seq<char>) -> bool {
    &&& has_class_name(tree, encode_utf8(content))
    &&& p.documents@.contains_key(url)
    &&& p.documents@[url].class_id is Some
    &&& p.documents@[url].local_semantic_model_id is Some
}

/// `c` is named `name` and its public and private method tables are those that the methods
/// declared by the class definition `node` of `t` make, `t` being parsed from `content`.
pub open spec fn class_declares(t: SyntaxTree, content: Seq<char>, node: int, name: Seq<char>, c: Class) -> bool {
    let count = t.nodes@[node].child_count as int;
    &&& c.name@ == name
    &&& exists|code: &str, ms: Seq<(Method, TextRange)>| {
        &&& code@ == content
        &&& #[trigger] methods_built(t, code, class_methods(t, code, node, count), ms)
        &&& c.public_methods@ == declared_tables(ms).0
        &&& c.private_methods@ == declared_tables(ms).1
    }
}

/// `after` is `before` with the document at `url` updated to `tree` and `content`: when the
/// update goes ahead, the class is indexed under its new name, and (when the tree has a
/// top-level node) the document holds the new text, tree, version, type and class name;
/// otherwise nothing changed.
pub open spec fn document_updated(
    before: ProjectData,
    after: ProjectData,
    url: Seq<char>,
    tree: SyntaxTree,
    file_type: FileType,
    version: i32,
    content: Seq<char>,
) -> bool {
    &&& after.documents@.dom() == before.documents@.dom()
    &&& !update_applies(before, url, tree, content) ==> after == before
    &&& update_applies(before, url, tree, content) ==> {
        let d0 = before.documents@[url];
        let name = class_name_chars(tree, encode_utf8(content));
        &&& after.classes@ == before.classes@.remove(d0.class_name@).insert(name, d0.class_id->0)
        &&& after.class_defs@ == before.class_defs@.remove(d0.class_name@).insert(name, d0.scope_tree.class_symbol())
        &&& after.documents@[url].class_id == d0.class_id
        &&& after.global_semantic_model.classes@.len() == before.global_semantic_model.classes@.len()
        &&& (d0.class_id->0).0 < before.global_semantic_model.classes@.len()
            ==> after.global_semantic_model.classes@[(d0.class_id->0).0 as int].name@ == name
        &&& d0.class_name@ != name ==> !after.pub_method_defs@.contains_key(d0.class_name@)
        &&& tree.nodes@[0].child_count > 0 ==> {
            let d = after.documents@[url];
            &&& d.content@ == content
            &&& d.version == Some(version)
            &&& d.file_type == file_type
            &&& d.tree == tree
            &&& d.class_name@ == name
        }
        &&& tree.nodes@[0].child_count > 0 ==> exists|mid: ProjectData| #[trigger] inheritance_built(
            mid,
            after,
            Some(url),
            Seq::<Seq<char>>::empty(),
        ) && {
            let d = mid.documents@[url];
            &&& documents_wf(mid.documents@)
            &&& mid.documents@.dom() == before.documents@.dom()
            &&& d.content@ == content
            &&& d.version == Some(version)
            &&& d.file_type == file_type
            &&& d.tree == tree
            &&& d.class_name@ == name
            &&& d.class_id == d0.class_id
            &&& mid.classes@ == after.classes@
            &&& mid.class_defs@ == after.class_defs@
        }
        &&& tree.nodes@[0].child_count == 0 ==> after.documents@[url] == (Document {
            scope_tree: after.documents@[url].scope_tree,
            ..d0
        })
        &&& tree.nodes@[0].child_count > 0 && file_type == FileType::Cls
            && (d0.class_id->0).0 < before.global_semantic_model.classes@.len()
            && (d0.local_semantic_model_id->0).0 < before.global_semantic_model.private@.len()
            ==> class_declares(
                tree,
                content,
                child_of(tree, 0, tree.nodes@[0].child_count - 1),
                name,
                after.global_semantic_model.classes@[(d0.class_id->0).0 as int],
            )
    }
}

impl ProjectData {
    /// Forgets the class `old_class_name` in the public variable index.
    fn forget_class_variables(&mut self, old_class_name: &String)
        ensures
            final(self).pub_var_defs@.dom() == old(self).pub_var_defs@.dom(),
            forall|v: Seq<char>| #[trigger] final(self).pub_var_defs@.contains_key(v)
                ==> !final(self).pub_var_defs@[v]@.contains_key(old_class_name@),
            final(self).documents == old(self).documents,
            final(self).global_semantic_model == old(self).global_semantic_model,
            final(self).classes == old(self).classes,
            final(self).class_defs == old(self).class_defs,
            final(self).pub_method_defs == old(self).pub_method_defs,
            final(self).override_index == old(self).override_index,
    {
        let names = self.pub_var_defs.keys();
        proof {
            assert forall|i: int| 0 <= i < names@.len() implies old(self).pub_var_defs@.contains_key(#[trigger] names@[i]@) by {
                assert(old(self).pub_var_defs@.contains_key(names@[i].key_view()));
            }
        }
        let mut k: usize = 0;
        while k < names.len()
            invariant
                names@.len() == old(self).pub_var_defs.pairs().len(),
                forall|i: int| 0 <= i < names@.len() ==> old(self).pub_var_defs@.contains_key(#[trigger] names@[i]@),
                forall|i: int| 0 <= i < names@.len() ==> #[trigger] names@[i] == old(self).pub_var_defs.pairs()[i].0,
                self.pub_var_defs@.dom() == old(self).pub_var_defs@.dom(),
                forall|i: int| 0 <= i < k ==> !self.pub_var_defs@[#[trigger] names@[i]@]@.contains_key(old_class_name@),
                self.documents == old(self).documents,
                self.global_semantic_model == old(self).global_semantic_model,
                self.classes == old(self).classes,
                self.class_defs == old(self).class_defs,
                self.pub_method_defs == old(self).pub_method_defs,
                self.override_index == old(self).override_index,
                k <= names@.len(),
            decreases names@.len() - k,
        {
            let name = &names[k];
            let ghost before = self.pub_var_defs@;
            match self.pub_var_defs.remove(name) {
                Some(mut by_class) => {
                    let _ = by_class.remove(old_class_name);
                    self.pub_var_defs.insert(name.clone(), by_class);
                },
                None => {},
            }
            proof {
                assert(self.pub_var_defs@.dom() =~= before.dom());
            }
            k = k + 1;
        }
        proof {
            assert forall|v: Seq<char>| #[trigger] self.pub_var_defs@.contains_key(v)
                implies !self.pub_var_defs@[v]@.contains_key(old_class_name@) by {
                old(self).pub_var_defs.lemma_view_pairs();
                let i = choose|i: int| 0 <= i < old(self).pub_var_defs.pairs().len() && old(self).pub_var_defs.pairs()[i].0@ == v;
                assert(names@[i]@ == v);
            }
        }
    }

    /// Updates a tracked document after a re-parse: derives the class name from the new tree,
    /// rebuilds the scope tree, clears the document's symbols and semantic entries, re-indexes
    /// the class under its (possibly new) name, rebuilds its class and method headers, stores
    /// the new text, tree, version and type, and recomputes imports, inheritance, overrides,
    /// calls and variables for the document.
    ///
    /// Nothing changes when the class name cannot be read from the tree, or the document is
    /// not tracked or has no class or local model.
    pub fn update_document(&mut self, url: String, tree: SyntaxTree, file_type: FileType, version: i32, content: &str)
        requires
            tree_wf(tree),
            documents_wf(old(self).documents@),
        ensures
            documents_wf(final(self).documents@),
            final(self).documents@.dom() == old(self).documents@.dom(),
            document_updated(*old(self), *final(self), url@, tree, file_type, version, content@),
    {
        let class_name = match get_class_name_from_root(content, &tree) {
            Some(n) => n,
            None => return,
        };
        proof {
            lemma_class_name_chars(tree, content, class_name);
        }
        let (class_symbol_id, class_id, local_semantic_id, old_class_name) = match self.documents.get(&url) {
            Some(doc) => match (doc.class_id, doc.local_semantic_model_id) {
                (Some(c), Some(l)) => (doc.scope_tree.class_def(), c, l, doc.class_name.clone()),
                _ => return,
            },
            None => return,
        };
        let scope_tree = initial_build_scope_tree(&tree, class_symbol_id);
        let _ = self.set_document_scope_tree(&url, scope_tree);
        self.global_semantic_model.remove_document_symbols(class_symbol_id);
        self.global_semantic_model.reset_doc_semantics(class_id, class_name.clone(), local_semantic_id);
        let _ = self.class_defs.remove(&old_class_name);
        let _ = self.pub_method_defs.remove(&old_class_name);
        let _ = self.classes.remove(&old_class_name);
        self.classes.insert(class_name.clone(), class_id);
        self.class_defs.insert(class_name.clone(), class_symbol_id);
        self.forget_class_variables(&old_class_name);
        let count = tree.named_child_count(0);
        if count == 0 {
            return;
        }
        let node = match tree.named_child(0, count - 1) {
            Some(n) => n,
            None => return,
        };
        let ghost pre_rebuild = *self;
        proof {
            assert(!self.pub_method_defs@.contains_key(old_class_name@) || old_class_name@ == class_name@);
        }
        let ghost named = self.global_semantic_model.classes@;
        self.rebuild_semantics(url.clone(), &tree, node, content, class_id, class_symbol_id, local_semantic_id, class_name.clone(), file_type);
        let ghost rebuilt = self.global_semantic_model.classes@;
        proof {
            if class_id.0 < named.len() {
                assert(named[class_id.0 as int].name@ == class_name@);
                assert(rebuilt[class_id.0 as int].name@ == class_name@);
            }
            if old_class_name@ != class_name@ {
                assert(!pre_rebuild.pub_method_defs@.remove(class_name@).contains_key(old_class_name@));
                assert(!self.pub_method_defs@.remove(class_name@).contains_key(old_class_name@));
            }
            if file_type == FileType::Cls && class_id.0 < old(self).global_semantic_model.classes@.len()
                && local_semantic_id.0 < old(self).global_semantic_model.private@.len() {
                assert(class_rebuilt(pre_rebuild, *self, url@, tree, content, node as int, class_id, class_symbol_id, local_semantic_id, class_name@));
                let c = rebuilt[class_id.0 as int];
                let ms = choose|ms: Seq<(Method, TextRange)>| #[trigger] class_from_definition(tree, content, node as int, class_name@, c, ms)
                    && listed(self.global_semantic_model.methods@, class_id)
                        == listed(pre_rebuild.global_semantic_model.methods@, class_id) + declared_tables(ms).2
                    && self.global_semantic_model.private@[local_semantic_id.0 as int].methods@
                        == pre_rebuild.global_semantic_model.private@[local_semantic_id.0 as int].methods@ + declared_tables(ms).3
                    && symbol_entries(listed(self.global_semantic_model.method_defs@, class_symbol_id))
                        == symbol_entries(listed(pre_rebuild.global_semantic_model.method_defs@, class_symbol_id)) + public_symbol_entries(ms, url@)
                    && symbol_ranges(self.documents@[url@].scope_tree.method_defs())
                        == private_method_ranges(symbol_ranges(pre_rebuild.documents@[url@].scope_tree.method_defs()), ms);
                assert(class_from_definition(tree, content, node as int, class_name@, c, ms));
                assert(class_declares(tree, content@, node as int, class_name@, c));
            }
        }
        let mut doc = match self.documents.remove(&url) {
            Some(d) => d,
            None => return,
        };
        let ghost u = url@;
        let ghost docs0 = self.documents@;
        doc.version = Some(version);
        doc.file_type = file_type;
        doc.tree = tree;
        doc.content = content.to_owned();
        doc.class_name = class_name;
        self.documents.insert(url.clone(), doc);
        proof {
            assert(self.documents@.dom() =~= old(self).documents@.dom());
            assert forall|v: Seq<char>| #[trigger] self.documents@.contains_key(v) implies tree_wf(self.documents@[v].tree) by {
                if v != u {
                    assert(self.documents@[v] == docs0[v]);
                }
            }
        }
        let ghost after_store = self.documents@;
        let ghost stored = self.global_semantic_model.classes@;
        let ghost mid = *self;
        let ghost ug = url@;
        let none: Vec<String> = Vec::new();
        assert(none@.map_values(|s: String| s@) =~= Seq::<Seq<char>>::empty());
        self.build_inheritance_and_variables(Some(url), none);
        proof {
            assert(inheritance_built(mid, *self, Some(ug), Seq::<Seq<char>>::empty()));
            assert(after_store.contains_key(u));
            assert(stored == rebuilt);
            if class_id.0 < rebuilt.len() {
                assert(members_kept(stored, self.global_semantic_model.classes@));
                assert(self.global_semantic_model.classes@[class_id.0 as int].name == stored[class_id.0 as int].name);
            }
            if file_type == FileType::Cls && class_id.0 < old(self).global_semantic_model.classes@.len()
                && local_semantic_id.0 < old(self).global_semantic_model.private@.len() {
                let c = rebuilt[class_id.0 as int];
                let d = self.global_semantic_model.classes@[class_id.0 as int];
                assert(d.public_methods == c.public_methods && d.private_methods == c.private_methods && d.name == c.name);
                assert(class_declares(tree, content@, node as int, class_name@, c));
                let (code, ms) = choose|code: &str, ms: Seq<(Method, TextRange)>| {
                    &&& code@ == content@
                    &&& #[trigger] methods_built(tree, code, class_methods(tree, code, node as int, tree.nodes@[node as int].child_count as int), ms)
                    &&& c.public_methods@ == declared_tables(ms).0
                    &&& c.private_methods@ == declared_tables(ms).1
                };
                assert(class_declares(tree, content@, node as int, class_name@, d));
            }
        }
    }
}


/// The ProcedureBlock value that method `m` of class `c` uses: its own, else its class's,
/// else on.
pub open spec fn effective_procedure_block(m: Method, c: Class) -> bool {
    match m.is_procedure_block {
        Some(b) => b,
        None => match c.is_procedure_block {
            Some(b) => b,
            None => true,
        },
    }
}

/// A variable `name` of method `m` of class `c` is private: the method is a procedure block
/// and does not list the name as public.
pub open spec fn private_in(m: Method, c: Class, name: Seq<char>) -> bool {
    effective_procedure_block(m, c) && !m.public_variables_declared@.map_values(|s: String| s@).contains(name)
}

/// The method named `method_name` of the class that the document at `url` defines, looked up
/// among its public methods, then its private ones.
pub open spec fn located_method(p: ProjectData, url: Seq<char>, method_name: Seq<char>) -> Option<(Class, Method)> {
    if !p.documents@.contains_key(url) {
        None
    } else {
        let d = p.documents@[url];
        match d.class_id {
            None => None,
            Some(cid) => if cid.0 >= p.global_semantic_model.classes@.len() {
                None
            } else {
                let c = p.global_semantic_model.classes@[cid.0 as int];
                if c.public_methods@.contains_key(method_name) {
                    let ms = listed(p.global_semantic_model.methods@, cid);
                    let i = c.public_methods@[method_name].0;
                    if i < ms.len() {
                        Some((c, ms[i as int]))
                    } else {
                        None
                    }
                } else if c.private_methods@.contains_key(method_name) {
                    match d.local_semantic_model_id {
                        None => None,
                        Some(l) => if l.0 >= p.global_semantic_model.private@.len() {
                            None
                        } else {
                            let ms = p.global_semantic_model.private@[l.0 as int].methods@;
                            let i = c.private_methods@[method_name].0;
                            if i < ms.len() {
                                Some((c, ms[i as int]))
                            } else {
                                None
                            }
                        },
                    }
                } else {
                    None
                }
            },
        }
    }
}

/// `loc` is the location of a recorded public variable symbol.
pub open spec fn is_variable_symbol_location(p: ProjectData, loc: (String, TextRange)) -> bool {
    exists|c: ClassGlobalSymbolId, j: int|
        0 <= j < listed(p.global_semantic_model.variable_defs@, c).len() && {
            let sym = #[trigger] listed(p.global_semantic_model.variable_defs@, c)[j];
            sym.url == loc.0 && sym.location == loc.1
        }
}

/// The location of the public variable symbol `vid` of class symbol `c`, if recorded.
pub open spec fn variable_symbol_location(p: ProjectData, c: ClassGlobalSymbolId, vid: VariableGlobalSymbolId) -> Option<(Seq<char>, TextRange)> {
    let syms = listed(p.global_semantic_model.variable_defs@, c);
    if vid.0 < syms.len() {
        Some((syms[vid.0 as int].url@, syms[vid.0 as int].location))
    } else {
        None
    }
}

/// The definition of the public variable `name` recorded in the scope of the document at
/// `url` that holds `point`, when its symbol belongs to that document.
pub open spec fn scope_public_variable(p: ProjectData, name: Seq<char>, url: Seq<char>, point: Point) -> Option<(Seq<char>, TextRange)> {
    if !p.documents@.contains_key(url) {
        None
    } else {
        let t = p.documents@[url].scope_tree;
        if t.root_id().0 >= t.scope_seq().len() {
            None
        } else {
            let sc = t.scope_seq()[crate::scope_tree::scope_descent(t.scope_seq(), t.root_id().0 as int, point)];
            if !sc.public_var_defs@.contains_key(name) {
                None
            } else {
                match variable_symbol_location(p, t.class_symbol(), sc.public_var_defs@[name]) {
                    Some(loc) => if loc.0 == url {
                        Some(loc)
                    } else {
                        None
                    },
                    None => None,
                }
            }
        }
    }
}

/// The recorded locations of the symbols `defs` of class symbol `c`, in order.
pub open spec fn symbols_locations(p: ProjectData, c: ClassGlobalSymbolId, defs: Seq<VariableGlobalSymbolId>) -> Seq<(Seq<char>, TextRange)>
    decreases defs.len(),
{
    if defs.len() == 0 {
        Seq::empty()
    } else {
        let before = symbols_locations(p, c, defs.drop_last());
        match variable_symbol_location(p, c, defs.last()) {
            Some(l) => before.push(l),
            None => before,
        }
    }
}

/// The recorded locations of the public definitions listed in `by_class` for the first `k`
/// classes of `classes` (class names, with the tables of their symbols), class by class.
pub open spec fn classes_variable_locations(
    p: ProjectData,
    by_class: Map<Seq<char>, Vec<VariableGlobalSymbolId>>,
    classes: Seq<String>,
    k: int,
) -> Seq<(Seq<char>, TextRange)>
    decreases k,
{
    if k <= 0 {
        Seq::empty()
    } else {
        let before = classes_variable_locations(p, by_class, classes, k - 1);
        let name = classes[k - 1]@;
        if p.class_defs@.contains_key(name) && by_class.contains_key(name) {
            before + symbols_locations(p, p.class_defs@[name], by_class[name]@)
        } else {
            before
        }
    }
}

/// The definitions of the public variable `name` as seen from `point` in the document at
/// `url`: the one in the current scope when there is one, otherwise every recorded public
/// definition of that name, class by class.
pub open spec fn public_variable_locations(p: ProjectData, name: Seq<char>, url: Seq<char>, point: Point) -> Seq<(Seq<char>, TextRange)> {
    match scope_public_variable(p, name, url, point) {
        Some(loc) => seq![loc],
        None => if p.pub_var_defs@.contains_key(name) {
            let by_class = p.pub_var_defs@[name];
            let classes = by_class.pairs().map_values(|e: (String, Vec<VariableGlobalSymbolId>)| e.0);
            classes_variable_locations(p, by_class@, classes, classes.len() as int)
        } else {
            Seq::empty()
        },
    }
}

impl ProjectData {
    /// The definition of the public variable `symbol_name` in the scope of the document at
    /// `url` that holds `point`, when that scope records it and its symbol belongs to the
    /// same document.
    fn get_pub_var_symbol_from_current_scope(&self, symbol_name: &String, url: &String, point: Point) -> (r: Option<(String, TextRange)>)
        ensures
            match r {
                Some(loc) => is_variable_symbol_location(*self, loc) && scope_public_variable(*self, symbol_name@, url@, point) == Some((loc.0@, loc.1)),
                None => scope_public_variable(*self, symbol_name@, url@, point) is None,
            },
    {
        let document = match self.get_document(url) {
            Some(d) => d,
            None => return None,
        };
        let (class_symbol_id, var_symbol_id) = match document.scope_tree.pub_variable_in_scope(point, symbol_name.as_str()) {
            Some(p) => p,
            None => return None,
        };
        let var_symbol = match self.global_semantic_model.get_variable_symbol(&class_symbol_id, var_symbol_id.0, document.class_name.as_str()) {
            Some(v) => v,
            None => return None,
        };
        if !crate::keywords::str_eq(url.as_str(), var_symbol.url.as_str()) {
            return None;
        }
        let r = (var_symbol.url.clone(), var_symbol.location);
        proof {
            assert(listed(self.global_semantic_model.variable_defs@, class_symbol_id)[var_symbol_id.0 as int] == *var_symbol);
        }
        Some(r)
    }

    /// The definitions of the public variable `symbol_name`: the one in the current scope of
    /// the document at `url` when there is one, otherwise every recorded public definition of
    /// that name, class by class.
    pub fn get_pub_variable_symbol(&self, symbol_name: &String, url: &String, point: Point) -> (r: Vec<(String, TextRange)>)
        ensures
            r@.map_values(|l: (String, TextRange)| (l.0@, l.1)) == public_variable_locations(*self, symbol_name@, url@, point),
            forall|k: int| 0 <= k < r@.len() ==> is_variable_symbol_location(*self, #[trigger] r@[k]),
    {
        let mut locations: Vec<(String, TextRange)> = Vec::new();
        match self.get_pub_var_symbol_from_current_scope(symbol_name, url, point) {
            Some(loc) => {
                locations.push(loc);
                proof {
                    assert(locations@.map_values(|l: (String, TextRange)| (l.0@, l.1)) =~= seq![(loc.0@, loc.1)]);
                }
                return locations;
            },
            None => {},
        }
        proof {
            assert(locations@.map_values(|l: (String, TextRange)| (l.0@, l.1)) =~= Seq::<(Seq<char>, TextRange)>::empty());
        }
        let by_class = match self.pub_var_defs.get(symbol_name) {
            Some(m) => m,
            None => return locations,
        };
        let class_names = by_class.keys();
        let ghost classes = by_class.pairs().map_values(|e: (String, Vec<VariableGlobalSymbolId>)| e.0);
        assert(class_names@ =~= classes);
        let mut k: usize = 0;
        while k < class_names.len()
            invariant
                class_names@ == classes,
                k <= class_names@.len(),
                forall|j: int| 0 <= j < locations@.len() ==> is_variable_symbol_location(*self, #[trigger] locations@[j]),
                locations@.map_values(|l: (String, TextRange)| (l.0@, l.1)) == classes_variable_locations(*self, by_class@, classes, k as int),
            decreases class_names@.len() - k,
        {
            let class_name = &class_names[k];
            k = k + 1;
            let class_symbol_id = match self.class_defs.get(class_name) {
                Some(id) => *id,
                None => continue,
            };
            let defs = match by_class.get(class_name) {
                Some(d) => d,
                None => continue,
            };
            let ghost base = locations@.map_values(|l: (String, TextRange)| (l.0@, l.1));
            let mut j: usize = 0;
            while j < defs.len()
                invariant
                    j <= defs@.len(),
                    forall|m: int| 0 <= m < locations@.len() ==> is_variable_symbol_location(*self, #[trigger] locations@[m]),
                    locations@.map_values(|l: (String, TextRange)| (l.0@, l.1)) == base + symbols_locations(*self, class_symbol_id, defs@.take(j as int)),
                decreases defs@.len() - j,
            {
                let def = defs[j];
                let ghost before = locations@;
                proof {
                    assert(defs@.take(j + 1).drop_last() =~= defs@.take(j as int));
                    assert(defs@.take(j + 1).last() == def);
                }
                j = j + 1;
                match self.global_semantic_model.get_variable_symbol(&class_symbol_id, def.0, class_name.as_str()) {
                    Some(symbol) => {
                        let loc = (symbol.url.clone(), symbol.location);
                        proof {
                            assert(listed(self.global_semantic_model.variable_defs@, class_symbol_id)[def.0 as int] == *symbol);
                        }
                        locations.push(loc);
                        proof {
                            assert(locations@.map_values(|l: (String, TextRange)| (l.0@, l.1)) =~= before.map_values(
                                |l: (String, TextRange)| (l.0@, l.1),
                            ).push((symbol.url@, symbol.location)));
                        }
                    },
                    None => {},
                }
            }
            proof {
                assert(defs@.take(defs@.len() as int) =~= defs@);
            }
        }
        locations
    }

    /// The definition locations of the variable `symbol_name` used at `point` in method
    /// `method_name` of the document at `url`.
    ///
    /// A variable is private when the method is a procedure block (its own keyword, else its
    /// class's, else on) and does not list it in `PublicList`; a private variable is looked up
    /// in the document's scopes, a public one among the public definitions of the workspace.
    pub fn get_variable_symbol_location(&self, url: String, point: Point, symbol_name: String, method_name: String) -> (r: Vec<(String, TextRange)>)
        ensures
            match located_method(*self, url@, method_name@) {
                None => r@.len() == 0,
                Some((c, m)) => if private_in(m, c, symbol_name@) {
                    r@.map_values(|l: (String, TextRange)| (l.0@, l.1)) == match self.documents@[url@].scope_tree_definition(point, symbol_name@) {
                        Some(range) => seq![(url@, range)],
                        None => Seq::empty(),
                    }
                } else {
                    r@.map_values(|l: (String, TextRange)| (l.0@, l.1)) == public_variable_locations(*self, symbol_name@, url@, point)
                },
            },
            r@.map_values(|l: (String, TextRange)| (l.0@, l.1)) == variable_definitions(*self, url@, point, symbol_name@, method_name@),
            match located_method(*self, url@, method_name@) {
                Some((c, m)) => m.public_variables_declared@.map_values(|s: String| s@).contains(symbol_name@)
                    ==> r@.map_values(|l: (String, TextRange)| (l.0@, l.1)) == public_variable_locations(*self, symbol_name@, url@, point),
                None => true,
            },
    {
        let mut locations: Vec<(String, TextRange)> = Vec::new();
        let document = match self.get_document(&url) {
            Some(d) => d,
            None => return locations,
        };
        let class_id = match document.class_id {
            Some(id) => id,
            None => return locations,
        };
        let class = match self.global_semantic_model.get_class(class_id.0) {
            Some(c) => c,
            None => return locations,
        };
        let class_pb = match class.is_procedure_block {
            Some(b) => b,
            None => true,
        };
        let (is_procedure_block, symbol_is_public) = match class.get_public_method_id(method_name.as_str()) {
            Some(public_method_id) => {
                let method = match self.global_semantic_model.get_method(class_id, class.name.as_str(), public_method_id.0) {
                    Some(m) => m,
                    None => return locations,
                };
                let pb = match method.is_procedure_block {
                    Some(b) => b,
                    None => class_pb,
                };
                (pb, contains_name(&method.public_variables_declared, &symbol_name))
            },
            None => match class.get_private_method_id(method_name.as_str()) {
                Some(private_method_id) => {
                    let lsm_id = match document.local_semantic_model_id {
                        Some(id) => id,
                        None => return locations,
                    };
                    let lsm = match self.global_semantic_model.get_local_semantic(lsm_id) {
                        Some(l) => l,
                        None => return locations,
                    };
                    let method = match lsm.get_method(private_method_id.0) {
                        Some(m) => m,
                        None => return locations,
                    };
                    let pb = match method.is_procedure_block {
                        Some(b) => b,
                        None => class_pb,
                    };
                    (pb, contains_name(&method.public_variables_declared, &symbol_name))
                },
                None => return locations,
            },
        };
        if is_procedure_block && !symbol_is_public {
            match document.scope_tree.get_variable_definition(point, symbol_name.as_str()) {
                Some(range) => {
                    locations.push((url.clone(), range));
                    proof {
                        assert(locations@.map_values(|l: (String, TextRange)| (l.0@, l.1)) =~= seq![(url@, range)]);
                    }
                },
                None => {
                    proof {
                        assert(locations@.map_values(|l: (String, TextRange)| (l.0@, l.1)) =~= Seq::<(Seq<char>, TextRange)>::empty());
                    }
                },
            }
            locations
        } else {
            self.get_pub_variable_symbol(&symbol_name, &url, point)
        }
    }
}

/// The definition locations that go-to-definition gives for the variable `name` used at
/// `point` in method `method_name` of the document at `url`: none when the method cannot be
/// found; for a private variable, its definition in the document's scopes; otherwise the
/// public definitions of the workspace.
pub open spec fn variable_definitions(
    p: ProjectData,
    url: Seq<char>,
    point: Point,
    name: Seq<char>,
    method_name: Seq<char>,
) -> Seq<(Seq<char>, TextRange)> {
    match located_method(p, url, method_name) {
        None => Seq::empty(),
        Some((c, m)) => if private_in(m, c, name) {
            match p.documents@[url].scope_tree_definition(point, name) {
                Some(range) => seq![(url, range)],
                None => Seq::empty(),
            }
        } else {
            public_variable_locations(p, name, url, point)
        },
    }
}

/// A variable that the method lists in its `PublicList` is public: go-to-definition looks it
/// up among the public definitions of the workspace, never among the document's private
/// variables.
pub proof fn law_public_list_variables_are_public(p: ProjectData, url: Seq<char>, point: Point, name: Seq<char>, method_name: Seq<char>)
    requires
        match located_method(p, url, method_name) {
            Some((c, m)) => m.public_variables_declared@.map_values(|s: String| s@).contains(name),
            None => false,
        },
    ensures
        variable_definitions(p, url, point, name, method_name) == public_variable_locations(p, name, url, point),
{
}

/// In a method that is a procedure block (by its own keyword, else its class's, else by
/// default) a variable it does not list in its `PublicList` is private: go-to-definition gives
/// its definition in the document's scopes, or nothing.
pub proof fn law_unlisted_variables_of_procedure_blocks_are_private(p: ProjectData, url: Seq<char>, point: Point, name: Seq<char>, method_name: Seq<char>)
    requires
        match located_method(p, url, method_name) {
            Some((c, m)) => {
                &&& m.is_procedure_block == Some(true) || (m.is_procedure_block is None && c.is_procedure_block != Some(false))
                &&& !m.public_variables_declared@.map_values(|s: String| s@).contains(name)
            },
            None => false,
        },
    ensures
        variable_definitions(p, url, point, name, method_name) == match p.documents@[url].scope_tree_definition(point, name) {
            Some(range) => seq![(url, range)],
            None => Seq::<(Seq<char>, TextRange)>::empty(),
        },
{
}

/// In a method that is not a procedure block (by its own keyword, else its class's) every
/// variable is public: go-to-definition looks it up among the public definitions of the
/// workspace.
pub proof fn law_non_procedure_block_variables_are_public(p: ProjectData, url: Seq<char>, point: Point, name: Seq<char>, method_name: Seq<char>)
    requires
        match located_method(p, url, method_name) {
            Some((c, m)) => m.is_procedure_block == Some(false) || (m.is_procedure_block is None && c.is_procedure_block == Some(false)),
            None => false,
        },
    ensures
        variable_definitions(p, url, point, name, method_name) == public_variable_locations(p, name, url, point),
{
}

/// `after` is `before` with the private variable `name`, defined at `range`, added to the
/// scope that holds the start of `range`; the rest of the document is unchanged.
pub open spec fn private_variable_added(before: Document, after: Document, name: Seq<char>, range: TextRange) -> bool {
    &&& after == (Document { scope_tree: after.scope_tree, ..before })
    &&& after.scope_tree.root_id() == before.scope_tree.root_id()
    &&& exists|r: Option<VariableSymbolId>| #[trigger] variable_added(
        before.scope_tree.scope_seq(),
        after.scope_tree.scope_seq(),
        before.scope_tree.root_id().0 as int,
        name,
        range,
        r,
    )
}

/// A private variable recorded in a document is found again by its name, at its definition
/// range, from every point that falls in the scope holding its definition, the start of the
/// definition among them.
pub proof fn law_private_variable_found_at_its_definition(
    before: Document,
    after: Document,
    name: Seq<char>,
    range: TextRange,
    p: Point,
)
    requires
        before.scope_tree.root_id().0 < before.scope_tree.scope_seq().len(),
        private_variable_added(before, after, name, range),
        scope_descent(after.scope_tree.scope_seq(), after.scope_tree.root_id().0 as int, p)
            == scope_descent(after.scope_tree.scope_seq(), after.scope_tree.root_id().0 as int, range.start_point),
    ensures
        after.scope_tree_definition(p, name) == Some(range),
{
    let r = choose|r: Option<VariableSymbolId>| #[trigger] variable_added(
        before.scope_tree.scope_seq(),
        after.scope_tree.scope_seq(),
        before.scope_tree.root_id().0 as int,
        name,
        range,
        r,
    );
    law_new_variable_read_back(
        before.scope_tree.scope_seq(),
        after.scope_tree.scope_seq(),
        before.scope_tree.root_id().0 as int,
        name,
        range,
        r,
        p,
    );
}

impl Document {
    /// The range of the private variable `name` defined in the scope of this document that
    /// holds `point`.
    pub open spec fn scope_tree_definition(self, point: Point, name: Seq<char>) -> Option<TextRange> {
        let t = self.scope_tree;
        if t.root_id().0 >= t.scope_seq().len() {
            None
        } else {
            let s = t.scope_seq()[crate::scope_tree::scope_descent(t.scope_seq(), t.root_id().0 as int, point)];
            if s.private_variable_defs@.contains_key(name) && s.private_variable_defs@[name].0 < s.variable_symbols@.len() {
                Some(s.variable_symbols@[s.private_variable_defs@[name].0 as int].location)
            } else {
                None
            }
        }
    }
}

/// The methods recorded as replacing public method `method_name` of the class that the
/// document at `url` defines.
pub open spec fn overriders(p: ProjectData, url: Seq<char>, method_name: Seq<char>) -> Seq<MethodRef> {
    if !p.documents@.contains_key(url) {
        Seq::empty()
    } else {
        match p.documents@[url].class_id {
            None => Seq::empty(),
            Some(cid) => if cid.0 >= p.global_semantic_model.classes@.len() {
                Seq::empty()
            } else {
                let c = p.global_semantic_model.classes@[cid.0 as int];
                if !c.public_methods@.contains_key(method_name) {
                    Seq::empty()
                } else {
                    let r = PublicMethodRef { class: cid, id: c.public_methods@[method_name] };
                    if p.override_index.overridden_by@.contains_key(r) {
                        p.override_index.overridden_by@[r]@
                    } else {
                        Seq::empty()
                    }
                }
            },
        }
    }
}

/// The public method symbol of method `method_name` of class `class_name`, looked up as
/// `get_public_method_symbol` does.
pub open spec fn public_method_symbol(p: ProjectData, class_name: Seq<char>, method_name: Seq<char>, sid: ClassGlobalSymbolId) -> Option<MethodGlobalSymbol> {
    if p.pub_method_defs@.contains_key(class_name) && p.pub_method_defs@[class_name]@.contains_key(method_name) {
        let id = p.pub_method_defs@[class_name]@[method_name];
        if id.0 < listed(p.global_semantic_model.method_defs@, sid).len() {
            Some(listed(p.global_semantic_model.method_defs@, sid)[id.0 as int])
        } else {
            None
        }
    } else {
        None
    }
}

/// Where the overriding method `m` of method `method_name` is defined: for a public one, its
/// public method symbol; for a private one, the private method symbol in the scope tree of
/// the document of its class symbol. `None` when a lookup on the way fails.
pub open spec fn override_location(p: ProjectData, method_name: Seq<char>, m: MethodRef) -> Option<(Seq<char>, TextRange)> {
    if m.class.0 >= p.global_semantic_model.classes@.len() {
        None
    } else {
        let cls_name = p.global_semantic_model.classes@[m.class.0 as int].name@;
        if !p.class_defs@.contains_key(cls_name) {
            None
        } else {
            let sid = p.class_defs@[cls_name];
            if m.pub_id is Some {
                match public_method_symbol(p, cls_name, method_name, sid) {
                    Some(sym) => Some((sym.url@, sym.location)),
                    None => None,
                }
            } else if sid.0 >= p.global_semantic_model.class_defs@.len() {
                None
            } else {
                let url = p.global_semantic_model.class_defs@[sid.0 as int].url@;
                if !p.documents@.contains_key(url) {
                    None
                } else {
                    let defs = p.documents@[url].scope_tree.method_defs();
                    if defs.contains_key(method_name) {
                        Some((url, defs[method_name].location))
                    } else {
                        None
                    }
                }
            }
        }
    }
}

/// The locations of the first `k` overriders in `ms` that can be found, in order.
pub open spec fn override_locations(p: ProjectData, method_name: Seq<char>, ms: Seq<MethodRef>, k: int) -> Seq<(Seq<char>, TextRange)>
    decreases k,
{
    if k <= 0 {
        Seq::empty()
    } else {
        let before = override_locations(p, method_name, ms, k - 1);
        match override_location(p, method_name, ms[k - 1]) {
            Some(l) => before.push(l),
            None => before,
        }
    }
}

proof fn lemma_override_locations_contains(p: ProjectData, method_name: Seq<char>, ms: Seq<MethodRef>, j: int, k: int)
    requires
        0 <= j < k <= ms.len(),
        override_location(p, method_name, ms[j]) is Some,
    ensures
        override_locations(p, method_name, ms, k).contains(override_location(p, method_name, ms[j])->0),
    decreases k,
{
    let before = override_locations(p, method_name, ms, k - 1);
    if j == k - 1 {
        let l = override_location(p, method_name, ms[j])->0;
        assert(before.push(l)[before.len() as int] == l);
    } else {
        lemma_override_locations_contains(p, method_name, ms, j, k - 1);
        let l = override_location(p, method_name, ms[j])->0;
        let i = choose|i: int| 0 <= i < before.len() && before[i] == l;
        match override_location(p, method_name, ms[k - 1]) {
            Some(x) => {
                assert(before.push(x)[i] == l);
            },
            None => {},
        }
    }
}

/// Go-to-implementation finds every public overrider: for each method that the override
/// index lists as replacing the public method, when it is a public method of a class whose
/// public method symbol of that name is recorded, the locations hold that symbol's URL and
/// definition range.
pub proof fn law_public_overriders_are_found(p: ProjectData, url: Seq<char>, method_name: Seq<char>, k: int)
    requires
        0 <= k < overriders(p, url, method_name).len(),
        overriders(p, url, method_name)[k].pub_id is Some,
        overriders(p, url, method_name)[k].class.0 < p.global_semantic_model.classes@.len(),
        p.class_defs@.contains_key(p.global_semantic_model.classes@[overriders(p, url, method_name)[k].class.0 as int].name@),
        ({
            let cn = p.global_semantic_model.classes@[overriders(p, url, method_name)[k].class.0 as int].name@;
            let sid = p.class_defs@[cn];
            &&& p.pub_method_defs@.contains_key(cn)
            &&& p.pub_method_defs@[cn]@.contains_key(method_name)
            &&& p.pub_method_defs@[cn]@[method_name].0 < listed(p.global_semantic_model.method_defs@, sid).len()
        }),
    ensures
        ({
            let ms = overriders(p, url, method_name);
            let cn = p.global_semantic_model.classes@[ms[k].class.0 as int].name@;
            let sid = p.class_defs@[cn];
            let sym = listed(p.global_semantic_model.method_defs@, sid)[p.pub_method_defs@[cn]@[method_name].0 as int];
            override_locations(p, method_name, ms, ms.len() as int).contains((sym.url@, sym.location))
        }),
{
    let ms = overriders(p, url, method_name);
    lemma_override_locations_contains(p, method_name, ms, k, ms.len() as int);
}

/// Go-to-implementation finds every private overrider: for each method that the override
/// index lists as replacing the public method, when it is a private method of a class whose
/// document records a private method symbol of that name, the locations hold that
/// document's URL and the symbol's definition range.
pub proof fn law_private_overriders_are_found(p: ProjectData, url: Seq<char>, method_name: Seq<char>, k: int)
    requires
        0 <= k < overriders(p, url, method_name).len(),
        overriders(p, url, method_name)[k].pub_id is None,
        overriders(p, url, method_name)[k].class.0 < p.global_semantic_model.classes@.len(),
        p.class_defs@.contains_key(p.global_semantic_model.classes@[overriders(p, url, method_name)[k].class.0 as int].name@),
        ({
            let cn = p.global_semantic_model.classes@[overriders(p, url, method_name)[k].class.0 as int].name@;
            let sid = p.class_defs@[cn];
            &&& sid.0 < p.global_semantic_model.class_defs@.len()
            &&& p.documents@.contains_key(p.global_semantic_model.class_defs@[sid.0 as int].url@)
            &&& p.documents@[p.global_semantic_model.class_defs@[sid.0 as int].url@].scope_tree.method_defs().contains_key(method_name)
        }),
    ensures
        ({
            let ms = overriders(p, url, method_name);
            let cn = p.global_semantic_model.classes@[ms[k].class.0 as int].name@;
            let u = p.global_semantic_model.class_defs@[p.class_defs@[cn].0 as int].url@;
            override_locations(p, method_name, ms, ms.len() as int).contains(
                (u, p.documents@[u].scope_tree.method_defs()[method_name].location),
            )
        }),
{
    let ms = overriders(p, url, method_name);
    lemma_override_locations_contains(p, method_name, ms, k, ms.len() as int);
}

impl ProjectData {
    /// The definition locations of the methods that replace public method `method_name` of
    /// the class of the document at `url`, as the override index lists them: public
    /// overriders by their method symbols, private ones by the private method symbols of their
    /// documents. Overriders whose symbol cannot be found are skipped.
    pub fn get_method_overrides(&self, url: String, method_name: String) -> (r: Vec<(String, TextRange)>)
        ensures
            r@.map_values(|l: (String, TextRange)| (l.0@, l.1)) == override_locations(
                *self,
                method_name@,
                overriders(*self, url@, method_name@),
                overriders(*self, url@, method_name@).len() as int,
            ),
    {
        let mut locations: Vec<(String, TextRange)> = Vec::new();
        proof {
            assert(locations@.map_values(|l: (String, TextRange)| (l.0@, l.1)) =~= Seq::<(Seq<char>, TextRange)>::empty());
        }
        let document = match self.get_document(&url) {
            Some(d) => d,
            None => return locations,
        };
        let class_id = match document.class_id {
            Some(id) => id,
            None => return locations,
        };
        let class = match self.global_semantic_model.get_class(class_id.0) {
            Some(c) => c,
            None => return locations,
        };
        let public_method_id = match class.get_public_method_id(method_name.as_str()) {
            Some(id) => *id,
            None => return locations,
        };
        let method_ref = PublicMethodRef { class: class_id, id: public_method_id };
        let overrides = match self.override_index.overridden_by.get(&method_ref) {
            Some(v) => v,
            None => return locations,
        };
        let ghost ms = overrides@;
        assert(ms == overriders(*self, url@, method_name@));
        let mut k: usize = 0;
        while k < overrides.len()
            invariant
                ms == overrides@,
                k <= overrides@.len(),
                locations@.map_values(|l: (String, TextRange)| (l.0@, l.1)) == override_locations(*self, method_name@, ms, k as int),
            decreases overrides@.len() - k,
        {
            let override_ref = overrides[k];
            let ghost before = locations@;
            k = k + 1;
            let overriding_class = match self.global_semantic_model.get_class(override_ref.class.0) {
                Some(c) => c,
                None => continue,
            };
            let cls_name = &overriding_class.name;
            let symbol_id = match self.class_defs.get(cls_name) {
                Some(id) => *id,
                None => continue,
            };
            if override_ref.pub_id.is_some() {
                match self.get_public_method_symbol(cls_name, &method_name, symbol_id) {
                    Some(sym) => {
                        locations.push((sym.url.clone(), sym.location));
                        proof {
                            assert(locations@.map_values(|l: (String, TextRange)| (l.0@, l.1)) =~= before.map_values(
                                |l: (String, TextRange)| (l.0@, l.1),
                            ).push((sym.url@, sym.location)));
                        }
                    },
                    None => continue,
                }
            } else {
                let cls_symbol = match self.global_semantic_model.get_class_symbol(symbol_id.0, cls_name.as_str()) {
                    Some(s) => s,
                    None => continue,
                };
                let doc = match self.get_document(&cls_symbol.url) {
                    Some(d) => d,
                    None => continue,
                };
                match doc.scope_tree.get_private_method_symbol(method_name.as_str()) {
                    Some(sym) => {
                        locations.push((cls_symbol.url.clone(), sym.location));
                        proof {
                            assert(locations@.map_values(|l: (String, TextRange)| (l.0@, l.1)) =~= before.map_values(
                                |l: (String, TextRange)| (l.0@, l.1),
                            ).push((cls_symbol.url@, sym.location)));
                        }
                    },
                    None => continue,
                }
            }
        }
        locations
    }
}


/// `b` is `a` after the tracked document at `url` took the new text `text`, with `version` and
/// `file_type`, and was then updated in the semantic model from the tree `t` of that text, as
/// `update_document` does.
pub open spec fn change_stored_and_updated(
    a: ProjectData,
    b: ProjectData,
    url: Seq<char>,
    t: SyntaxTree,
    file_type: FileType,
    version: i32,
    text: Seq<char>,
) -> bool {
    exists|mid: ProjectData| #[trigger] document_updated(mid, b, url, t, file_type, version, text) && {
        &&& mid.documents@.dom() == a.documents@.dom()
        &&& mid.documents@[url].content@ == text
        &&& mid.documents@[url].version == Some(version)
        &&& mid.documents@[url].file_type == file_type
        &&& mid.documents@[url].class_id == a.documents@[url].class_id
        &&& mid.documents@[url].class_name == a.documents@[url].class_name
        &&& mid.documents@[url].local_semantic_model_id == a.documents@[url].local_semantic_model_id
        &&& forall|v: Seq<char>| v != url && #[trigger] a.documents@.contains_key(v) ==> mid.documents@[v] == a.documents@[v]
        &&& mid.global_semantic_model == a.global_semantic_model
        &&& mid.classes == a.classes
        &&& mid.class_defs == a.class_defs
        &&& mid.override_index == a.override_index
    }
}

/// What handling a change notification did, for the caller to report.
#[derive(Debug, Clone, Copy, PartialEq, Eq, Structural)]
pub enum ChangeOutcome {
    /// The document was not tracked; it was registered from `base_text` with the changes
    /// applied (or was found registered meanwhile).
    Registered,
    /// A change did not map to a valid range of the text.
    InvalidEdit,
    /// There was no tree of the new text, or the new text of an untracked document names no
    /// class.
    ParseFailed,
    /// The new text was stored; `has_error` tells whether its tree has syntax errors, in which
    /// case the semantic model was left as it was. `regressed` tells whether the new version is
    /// older than the stored one.
    Stored { regressed: bool, full_replace: bool, has_error: bool },
}

/// The bytes of a document's text `old` after the editor's changes: the last whole-text
/// replacement when there is one, otherwise every ranged change in order.
pub open spec fn changed_text(old: Seq<u8>, changes: Seq<ContentChange>) -> Option<Seq<u8>> {
    match last_full_change(changes) {
        Some(i) => Some(encode_utf8(changes[i].text@)),
        None => ranged_edits(old, changes),
    }
}

impl ProjectData {
    /// Stores new text, tree, version and type for the tracked document at `url`; whether it is
    /// tracked.
    pub fn set_document_text(&mut self, url: &String, content: String, tree: SyntaxTree, version: i32, file_type: FileType) -> (done: bool)
        requires
            tree_wf(tree),
            documents_wf(old(self).documents@),
        ensures
            documents_wf(final(self).documents@),
            done == old(self).documents@.contains_key(url@),
            final(self).documents@.dom() == old(self).documents@.dom(),
            done ==> final(self).documents@[url@] == (Document {
                content: final(self).documents@[url@].content,
                tree,
                version: Some(version),
                file_type,
                ..old(self).documents@[url@]
            }) && final(self).documents@[url@].content@ == content@,
            forall|v: Seq<char>| v != url@ && #[trigger] old(self).documents@.contains_key(v) ==> final(self).documents@[v] == old(self).documents@[v],
            final(self).global_semantic_model == old(self).global_semantic_model,
            final(self).classes == old(self).classes,
            final(self).class_defs == old(self).class_defs,
            final(self).override_index == old(self).override_index,
    {
        let mut doc = match self.documents.remove(url) {
            Some(d) => d,
            None => return false,
        };
        doc.content = content;
        doc.tree = tree;
        doc.version = Some(version);
        doc.file_type = file_type;
        self.documents.insert(url.clone(), doc);
        proof {
            assert(self.documents@.dom() =~= old(self).documents@.dom());
        }
        true
    }

    /// Indexes one file met while walking the workspace: its text is parsed and, for a class
    /// file, its class name read; a class file whose class name cannot be read is left out
    /// (`None`). Otherwise the document is registered unless it is tracked already, and the
    /// result tells whether it was.
    pub fn index_file(&mut self, url: String, code: String, filetype: FileType) -> (r: Option<bool>)
        requires
            documents_wf(old(self).documents@),
        ensures
            documents_wf(final(self).documents@),
            file_indexed(*old(self), *final(self), url@, code@, filetype, r),
    {
        let tree = match parse_source(code.as_str()) {
            Some(t) => t,
            None => return None,
        };
        let ghost tree_g = tree;
        let ghost code_g = code@;
        proof {
            assert(parsed_as(tree_g, code_g));
        }
        let class_name = if filetype == FileType::Cls {
            let code_str = code.as_str();
            match get_class_name_from_root(code_str, &tree) {
                Some(n) => {
                    proof {
                        lemma_class_name_chars(tree, code_str, n);
                    }
                    n
                },
                None => return None,
            }
        } else {
            String::new()
        };
        let present = self.add_document_if_absent(url, code, tree, filetype, class_name, None);
        Some(present)
    }

    /// Indexes the files met while walking a workspace (URL, text and file type of each), in
    /// order, each as `index_file` does, and then builds imports, parents, the override index,
    /// calls and variables once, leaving out the members of the classes of the documents that
    /// were tracked already. Returns the URLs of those documents.
    pub fn index_files(&mut self, files: &Vec<(String, String, FileType)>) -> (present: Vec<String>)
        requires
            documents_wf(old(self).documents@),
        ensures
            documents_wf(final(self).documents@),
            exists|mid: ProjectData| #[trigger] inheritance_built(mid, *final(self), None, url_views(present@)) && {
                &&& files_indexed(*old(self), mid, files@, url_views(present@))
                &&& documents_wf(mid.documents@)
                &&& forall|u: Seq<char>| #[trigger] old(self).documents@.contains_key(u) ==> mid.documents@.contains_key(u)
                &&& forall|k: int| 0 <= k < present@.len() ==> mid.documents@.contains_key(#[trigger] present@[k]@)
                    && exists|j: int| 0 <= j < files@.len() && #[trigger] files@[j].0@ == present@[k]@
            },
    {
        let mut present: Vec<String> = Vec::new();
        let mut excluded: Vec<String> = Vec::new();
        let mut k: usize = 0;
        while k < files.len()
            invariant
                k <= files@.len(),
                documents_wf(self.documents@),
                excluded@.len() == present@.len(),
                forall|m: int| 0 <= m < present@.len() ==> (#[trigger] excluded@[m])@ == present@[m]@,
                files_indexed(*old(self), *self, files@.take(k as int), url_views(present@)),
                forall|u: Seq<char>| #[trigger] old(self).documents@.contains_key(u) ==> self.documents@.contains_key(u),
                forall|m: int| 0 <= m < present@.len() ==> self.documents@.contains_key(#[trigger] present@[m]@)
                    && exists|j: int| 0 <= j < k && #[trigger] files@[j].0@ == present@[m]@,
            decreases files@.len() - k,
        {
            let url = files[k].0.clone();
            let code = files[k].1.clone();
            let filetype = files[k].2;
            let kept = url.clone();
            let kept2 = url.clone();
            let ghost before = *self;
            let ghost uk = url@;
            let ghost pv0 = url_views(present@);
            let ghost kk = k as int;
            let r = self.index_file(url, code, filetype);
            proof {
                assert(files@[k as int].0@ == uk);
                let t = choose|t: SyntaxTree| #[trigger] parsed_as(t, files@[k as int].1@) && {
                    let content = encode_utf8(files@[k as int].1@);
                    let named = filetype != FileType::Cls || has_class_name(t, content);
                    &&& !named ==> r is None && *self == before
                    &&& named ==> r == Some(before.documents@.contains_key(uk))
                    &&& named && (before.documents@.contains_key(uk) || filetype != FileType::Cls) ==> *self == before
                    &&& named && !before.documents@.contains_key(uk) && filetype == FileType::Cls
                        ==> registered_document(before, *self, uk, files@[k as int].1@, class_name_chars(t, content), FileType::Cls, None)
                };
                assert forall|u: Seq<char>| #[trigger] before.documents@.contains_key(u) implies self.documents@.contains_key(u) by {
                    if u != uk && *self != before {
                        assert(before.documents@.remove(uk).contains_key(u));
                        assert(self.documents@.remove(uk).contains_key(u));
                    }
                }
            }
            match r {
                Some(true) => {
                    let ghost p0 = present@;
                    let ghost e0 = excluded@;
                    present.push(kept);
                    excluded.push(kept2);
                    proof {
                        assert forall|m: int| 0 <= m < present@.len() implies (#[trigger] excluded@[m])@ == present@[m]@ by {
                            if m < p0.len() {
                                assert(excluded@[m] == e0[m]);
                                assert(present@[m] == p0[m]);
                            }
                        }
                    }
                },
                _ => {},
            }
            proof {
                let fk = files@.take(kk + 1);
                assert(fk.drop_last() =~= files@.take(kk));
                assert(fk.last() == files@[kk]);
                assert(file_indexed(before, *self, fk.last().0@, fk.last().1@, fk.last().2, r));
                if r == Some(true) {
                    assert(url_views(present@).drop_last() =~= pv0);
                    assert(url_views(present@).last() == uk);
                } else {
                    assert(url_views(present@) == pv0);
                }
                assert(files_indexed(*old(self), *self, fk, url_views(present@)));
            }
            k = k + 1;
        }
        proof {
            assert(files@.take(files@.len() as int) =~= files@);
        }
        let ghost mid = *self;
        assert(excluded@.map_values(|s: String| s@) =~= url_views(present@));
        self.build_inheritance_and_variables(None, excluded);
        proof {
            assert(inheritance_built(mid, *self, None, url_views(present@)));
        }
        present
    }

    /// Commits an opened document: a class file whose class name can be read is registered
    /// (and its imports, inheritance, overrides, calls and variables built) when new, updated
    /// when its text or type changed, and otherwise only gets the new version. Other file
    /// types are ignored.
    pub fn handle_document_opened(&mut self, url: String, text: String, tree: SyntaxTree, file_type: FileType, version: i32)
        requires
            tree_wf(tree),
            documents_wf(old(self).documents@),
        ensures
            documents_wf(final(self).documents@),
            file_type != FileType::Cls || !has_class_name(tree, encode_utf8(text@)) ==> *final(self) == *old(self),
            file_type == FileType::Cls && has_class_name(tree, encode_utf8(text@)) ==> {
                let name = class_name_chars(tree, encode_utf8(text@));
                if !old(self).documents@.contains_key(url@) {
                    let id = ClassId(old(self).global_semantic_model.classes@.len() as usize);
                    let sid = ClassGlobalSymbolId(old(self).global_semantic_model.class_defs@.len() as usize);
                    let d = final(self).documents@[url@];
                    &&& final(self).documents@.dom() == old(self).documents@.dom().insert(url@)
                    &&& d.content@ == text@
                    &&& d.version == Some(version)
                    &&& d.file_type == file_type
                    &&& d.class_name@ == name
                    &&& d.class_id == Some(id)
                    &&& final(self).classes@ == old(self).classes@.insert(name, id)
                    &&& final(self).class_defs@ == old(self).class_defs@.insert(name, sid)
                    &&& exists|mid: ProjectData| #[trigger] registered_document(*old(self), mid, url@, text@, name, FileType::Cls, Some(version))
                        && inheritance_built(mid, *final(self), Some(url@), Seq::<Seq<char>>::empty())
                } else if old(self).documents@[url@].content@ == text@ && old(self).documents@[url@].file_type == file_type {
                    &&& final(self).documents@ == old(self).documents@.insert(url@, Document {
                        version: Some(version),
                        ..old(self).documents@[url@]
                    })
                    &&& final(self).global_semantic_model == old(self).global_semantic_model
                    &&& final(self).classes == old(self).classes
                    &&& final(self).class_defs == old(self).class_defs
                    &&& final(self).pub_method_defs == old(self).pub_method_defs
                    &&& final(self).pub_var_defs == old(self).pub_var_defs
                    &&& final(self).override_index == old(self).override_index
                } else {
                    document_updated(*old(self), *final(self), url@, tree, file_type, version, text@)
                }
            },
    {
        if file_type != FileType::Cls {
            return;
        }
        let ghost text_g = text@;
        let ghost tree_g = tree;
        let text_str = text.as_str();
        let class_name = match get_class_name_from_root(text_str, &tree) {
            Some(n) => n,
            None => return,
        };
        proof {
            lemma_class_name_chars(tree, text_str, class_name);
        }
        let existing = match self.documents.get(&url) {
            Some(d) => Some((crate::keywords::str_eq(d.content.as_str(), text.as_str()), d.file_type == file_type)),
            None => None,
        };
        match existing {
            None => {
                self.add_document(url.clone(), text, tree, file_type, class_name, Some(version));
                proof {
                    let a = self.documents@;
                    let b = old(self).documents@;
                    assert forall|v: Seq<char>| #[trigger] a.contains_key(v) == b.dom().insert(url@).contains(v) by {
                        if v != url@ {
                            assert(a.remove(url@).contains_key(v) == a.contains_key(v));
                            assert(b.remove(url@).contains_key(v) == b.contains_key(v));
                        }
                    }
                    assert(a.dom() =~= b.dom().insert(url@));
                }
                let ghost mid = *self;
                let ghost url_g = url@;
                let none: Vec<String> = Vec::new();
                assert(none@.map_values(|s: String| s@) =~= Seq::<Seq<char>>::empty());
                self.build_inheritance_and_variables(Some(url), none);
                assert(registered_document(*old(self), mid, url_g, text_g, class_name_chars(tree_g, encode_utf8(text_g)), FileType::Cls, Some(version)));
            },
            Some((same_text, same_type)) => {
                if !same_text || !same_type {
                    self.update_document(url, tree, file_type, version, text.as_str());
                } else {
                    let mut doc = match self.documents.remove(&url) {
                        Some(d) => d,
                        None => return,
                    };
                    doc.version = Some(version);
                    assert(tree_wf(doc.tree));
                    self.documents.insert(url, doc);
                    proof {
                        assert(self.documents@.dom() =~= old(self).documents@.dom());
                    }
                }
            },
        }
    }

    /// Stores `text`, the new text of the document at `url` after an editor change, with
    /// `parsed`, what the parser made of it (`None` when it could not parse it). `changes` are
    /// the editor's changes, read for whether one replaced the whole text.
    ///
    /// A tracked document gets the text, version and tree; unless the tree has syntax errors,
    /// the document is then updated in the semantic model. An untracked one is registered as a
    /// class document under the class name read from the tree. The outcome is `ParseFailed`
    /// exactly when there is no tree, or, for an untracked document, when the tree names no
    /// class.
    pub fn store_parsed_change(
        &mut self,
        url: String,
        version: i32,
        changes: &Vec<ContentChange>,
        text: String,
        parsed: Option<SyntaxTree>,
    ) -> (r: ChangeOutcome)
        requires
            documents_wf(old(self).documents@),
            parsed is Some ==> tree_wf(parsed->0),
        ensures
            documents_wf(final(self).documents@),
            r == ChangeOutcome::ParseFailed ==> *final(self) == *old(self),
            parsed is None ==> r == ChangeOutcome::ParseFailed,
            !old(self).documents@.contains_key(url@) && parsed is Some ==> {
                let t = parsed->0;
                let content = encode_utf8(text@);
                &&& !has_class_name(t, content) ==> r == ChangeOutcome::ParseFailed
                &&& has_class_name(t, content) ==> r == ChangeOutcome::Registered && registered_document(
                    *old(self),
                    *final(self),
                    url@,
                    text@,
                    class_name_chars(t, content),
                    FileType::Cls,
                    Some(version),
                )
            },
            old(self).documents@.contains_key(url@) && parsed is Some ==> {
                let t = parsed->0;
                let d0 = old(self).documents@[url@];
                let old_version = match d0.version {
                    Some(x) => x,
                    None => 0,
                };
                let d = final(self).documents@[url@];
                &&& r == (ChangeOutcome::Stored {
                    regressed: version < old_version,
                    full_replace: last_full_change(changes@) is Some,
                    has_error: t.has_error,
                })
                &&& final(self).documents@.dom() == old(self).documents@.dom()
                &&& d.content@ == text@
                &&& d.version == Some(version)
                &&& d.file_type == d0.file_type
                &&& t.has_error ==> {
                    &&& d.tree == t
                    &&& final(self).global_semantic_model == old(self).global_semantic_model
                    &&& final(self).classes == old(self).classes
                    &&& final(self).class_defs == old(self).class_defs
                    &&& final(self).override_index == old(self).override_index
                }
                &&& !t.has_error ==> change_stored_and_updated(*old(self), *final(self), url@, t, d0.file_type, version, text@)
            },
    {
        let tree = match parsed {
            Some(t) => t,
            None => return ChangeOutcome::ParseFailed,
        };
        let info = self.get_document_info(&url);
        match info {
            None => {
                let code = text.as_str();
                let class_name = match get_class_name_from_root(code, &tree) {
                    Some(n) => n,
                    None => return ChangeOutcome::ParseFailed,
                };
                proof {
                    lemma_class_name_chars(tree, code, class_name);
                }
                let _ = self.add_document_if_absent(url, text, tree, FileType::Cls, class_name, Some(version));
                ChangeOutcome::Registered
            },
            Some((file_type, _old_text, old_version)) => {
                let regressed = version < old_version;
                let mut full_replace = false;
                let mut k: usize = 0;
                while k < changes.len()
                    invariant
                        k <= changes@.len(),
                        full_replace == (last_full_change(changes@.take(k as int)) is Some),
                    decreases changes@.len() - k,
                {
                    proof {
                        assert(changes@.take(k + 1).drop_last() =~= changes@.take(k as int));
                        assert(changes@.take(k + 1).last() == changes@[k as int]);
                    }
                    if changes[k].range.is_none() {
                        full_replace = true;
                    }
                    k = k + 1;
                }
                proof {
                    assert(changes@.take(changes@.len() as int) =~= changes@);
                }
                let has_error = tree.has_error;
                if has_error {
                    let _ = self.set_document_text(&url, text, tree, version, file_type);
                } else {
                    let stored = text.clone();
                    let _ = self.set_document_text(&url, stored, tree.duplicate(), version, file_type);
                    let ghost mid = *self;
                    let ghost ug = url@;
                    let ghost tg = tree;
                    self.update_document(url, tree, file_type, version, text.as_str());
                    proof {
                        assert(document_updated(mid, *self, ug, tg, file_type, version, text@));
                    }
                }
                ChangeOutcome::Stored { regressed, full_replace, has_error }
            },
        }
    }

    /// Handles an editor change notification for the class document at `url`.
    ///
    /// A tracked document gets its new text (the last whole-text change, or every ranged change
    /// in order); an untracked one is registered from `base_text` (the file's contents as read
    /// from disk) with the changes applied in order. The new text is parsed, and the text with
    /// its tree is stored as `store_parsed_change` describes.
    pub fn apply_did_change(&mut self, url: String, version: i32, changes: &Vec<ContentChange>, base_text: String) -> (r: ChangeOutcome)
        requires
            documents_wf(old(self).documents@),
        ensures
            documents_wf(final(self).documents@),
            r == ChangeOutcome::InvalidEdit || r == ChangeOutcome::ParseFailed ==> *final(self) == *old(self),
            !old(self).documents@.contains_key(url@) ==> match edits_in_order(encode_utf8(base_text@), changes@) {
                None => r == ChangeOutcome::InvalidEdit,
                Some(b) => exists|t: SyntaxTree| #[trigger] parsed_as(t, decode_utf8(b)) && {
                    &&& !has_class_name(t, b) ==> r == ChangeOutcome::ParseFailed
                    &&& has_class_name(t, b) ==> r == ChangeOutcome::Registered && registered_document(
                        *old(self),
                        *final(self),
                        url@,
                        decode_utf8(b),
                        class_name_chars(t, b),
                        FileType::Cls,
                        Some(version),
                    )
                },
            },
            old(self).documents@.contains_key(url@) ==> {
                let d0 = old(self).documents@[url@];
                let old_version = match d0.version {
                    Some(x) => x,
                    None => 0,
                };
                match changed_text(encode_utf8(d0.content@), changes@) {
                    None => r == ChangeOutcome::InvalidEdit,
                    Some(b) => r matches ChangeOutcome::Stored { regressed, full_replace, has_error } && {
                        let d = final(self).documents@[url@];
                        &&& regressed == (version < old_version)
                        &&& full_replace == (last_full_change(changes@) is Some)
                        &&& has_error == syntax_has_error(decode_utf8(b), Seq::<int>::empty())
                        &&& final(self).documents@.dom() == old(self).documents@.dom()
                        &&& encode_utf8(d.content@) == b
                        &&& d.version == Some(version)
                        &&& d.file_type == d0.file_type
                        &&& has_error ==> {
                            &&& final(self).global_semantic_model == old(self).global_semantic_model
                            &&& final(self).classes == old(self).classes
                            &&& final(self).class_defs == old(self).class_defs
                            &&& final(self).override_index == old(self).override_index
                        }
                        &&& exists|t: SyntaxTree| #[trigger] parsed_as(t, decode_utf8(b)) && t.has_error == has_error
                            && (!has_error ==> change_stored_and_updated(*old(self), *final(self), url@, t, d0.file_type, version, decode_utf8(b)))
                    },
                }
            },
    {
        let info = self.get_document_info(&url);
        let text = match info {
            None => match apply_content_changes_in_order(base_text.as_str(), changes) {
                Some(t) => t,
                None => return ChangeOutcome::InvalidEdit,
            },
            Some((_file_type, old_text, _old_version)) => match apply_content_changes(old_text.as_str(), changes) {
                Some(t) => t,
                None => return ChangeOutcome::InvalidEdit,
            },
        };
        proof {
            encode_utf8_decode_utf8(text@);
        }
        let parsed = parse_source(text.as_str());
        let ghost parsed_g = parsed;
        let ghost text_g = text@;
        let ghost url_g = url@;
        let r = self.store_parsed_change(url, version, changes, text, parsed);
        proof {
            let t = parsed_g->0;
            assert(parsed_as(t, text_g));
            if !old(self).documents@.contains_key(url_g) {
                let b = edits_in_order(encode_utf8(base_text@), changes@)->0;
                assert(b == encode_utf8(text_g));
                assert(decode_utf8(b) == text_g);
            } else {
                let paths = choose|p: Seq<Seq<int>>| tree_follows_paths(t, text_g, p);
                assert(tree_follows_paths(t, text_g, paths));
                assert(t.has_error == syntax_has_error(text_g, Seq::<int>::empty()));
                let b = changed_text(encode_utf8(old(self).documents@[url_g].content@), changes@)->0;
                assert(b == encode_utf8(text_g));
                assert(decode_utf8(b) == text_g);
            }
        }
        r
    }
}

} // verus!
