use crate::calls::{nth_child, readable};
use crate::expressions::kind_lookup_ok;
use crate::keywords::{grammar_node_types, keyword_from};
use crate::keywords::{eq_ignore_ascii_case, eq_ignore_case_bytes};
use crate::maps::AssocMap;
use crate::method::{initial_build_method, method_built, method_named};
use crate::parse_structures::{Class, Language, Method, MethodType, PrivateMethodId, PublicMethodId, TextRange};
use crate::syntax::{child_of, lemma_node_text_chars, node_bytes, tree_wf, SyntaxTree};
use vstd::prelude::*;
use vstd::string::StringSliceAdditionalSpecFns;

verus! {

/// A class with no members, parents, imports or keywords.
pub open spec fn is_blank_class(c: Class, name: Seq<char>, active: bool) -> bool {
    &&& c.name@ == name
    &&& c.imports@.len() == 0
    &&& c.inherited_classes@.len() == 0
    &&& c.inheritance_direction@ == "left"@
    &&& c.is_procedure_block is None
    &&& c.default_language is None
    &&& c.private_methods@ == Map::<Seq<char>, PrivateMethodId>::empty()
    &&& c.public_methods@ == Map::<Seq<char>, PublicMethodId>::empty()
    &&& c.private_properties@.len() == 0
    &&& c.public_properties@.len() == 0
    &&& c.parameters@.len() == 0
    &&& c.method_calls@.len() == 0
    &&& c.active == active
}

impl Class {
    /// Creates a new `Class` with the given name and empty semantic state.
    ///
    /// Inheritance, imports, keywords and members are initialized to defaults; `active` is
    /// `true`.
    pub fn new(name: String) -> (r: Self)
        ensures
            is_blank_class(r, name@, true),
    {
        let r = Class {
            name,
            imports: Vec::new(),
            inherited_classes: Vec::new(),
            inheritance_direction: "left".to_owned(),
            is_procedure_block: None,
            default_language: None,
            private_methods: AssocMap::new(),
            public_methods: AssocMap::new(),
            private_properties: AssocMap::new(),
            public_properties: AssocMap::new(),
            parameters: AssocMap::new(),
            method_calls: Vec::new(),
            active: true,
        };
        assert(r.private_properties@ =~= Map::empty());
        r
    }

    /// Resets this `Class` to a clean state and sets its `name` and `active` flag.
    ///
    /// Clears imports, inheritance, keywords, methods, properties, parameters and method calls
    /// and restores the default inheritance direction `"left"`.
    pub fn clear(&mut self, class_name: String, active: bool)
        ensures
            is_blank_class(*final(self), class_name@, active),
    {
        *self = Class::new(class_name);
        self.active = active;
    }

    /// Returns the `PublicMethodId` for `method_name`, if this class declares it as public.
    pub fn get_public_method_id(&self, method_name: &str) -> (r: Option<&PublicMethodId>)
        ensures
            match r {
                Some(id) => self.public_methods@.contains_key(method_name@) && *id
                    == self.public_methods@[method_name@],
                None => !self.public_methods@.contains_key(method_name@),
            },
    {
        let key = method_name.to_owned();
        self.public_methods.get(&key)
    }

    /// Returns the `PrivateMethodId` for `method_name`, if this class declares it as private.
    pub fn get_private_method_id(&self, method_name: &str) -> (r: Option<&PrivateMethodId>)
        ensures
            match r {
                Some(id) => self.private_methods@.contains_key(method_name@) && *id
                    == self.private_methods@[method_name@],
                None => !self.private_methods@.contains_key(method_name@),
            },
    {
        let key = method_name.to_owned();
        self.private_methods.get(&key)
    }
}


/// `b` is `a` with at most its keyword fields (ProcedureBlock, Language, inheritance
/// direction) changed.
pub open spec fn only_keywords_changed(a: Class, b: Class) -> bool {
    b == Class {
        is_procedure_block: b.is_procedure_block,
        default_language: b.default_language,
        inheritance_direction: b.inheritance_direction,
        ..a
    }
}

/// The grammar's node kinds of the class keywords that are looked up by name: ProcedureBlock,
/// Language and Inheritance.
pub struct ClassKeywordKinds {
    pub procedure_block: String,
    pub language: String,
    pub inheritance: String,
}

/// The class keyword values while reading: ProcedureBlock, Language and the inheritance
/// direction.
pub type ClassKeywordState = (Option<bool>, Option<Language>, Seq<char>);

/// The keyword values after reading keyword node `child`: ProcedureBlock is on, or off with a
/// `Not`; Language takes `tsql` or `objectscript` (any case); Inheritance takes `right` (any
/// case). Anything else leaves the values as they are.
pub open spec fn class_keyword_step(t: SyntaxTree, content: &str, kinds: ClassKeywordKinds, st: ClassKeywordState, child: int) -> ClassKeywordState {
    let (pb, lang, dir) = st;
    match nth_child(t, child, 0) {
        None => st,
        Some(kw) => {
            let k = t.nodes@[kw].kind@;
            if k == kinds.procedure_block@ {
                match nth_child(t, kw, 0) {
                    None => st,
                    Some(c) => if t.nodes@[c].kind@ == "keyword_not"@ {
                        (Some(false), lang, dir)
                    } else {
                        (Some(true), lang, dir)
                    },
                }
            } else if k == kinds.language@ {
                match nth_child(t, kw, 1) {
                    None => st,
                    Some(v) => if !readable(t, content, v) {
                        st
                    } else if eq_ignore_case_bytes(node_bytes(t, content, v), "tsql".spec_bytes()) {
                        (pb, Some(Language::TSql), dir)
                    } else if eq_ignore_case_bytes(node_bytes(t, content, v), "objectscript".spec_bytes()) {
                        (pb, Some(Language::Objectscript), dir)
                    } else {
                        st
                    },
                }
            } else if k == kinds.inheritance@ {
                match nth_child(t, kw, 1) {
                    None => st,
                    Some(v) => if readable(t, content, v) && eq_ignore_case_bytes(node_bytes(t, content, v), "right".spec_bytes()) {
                        (pb, lang, "right"@)
                    } else {
                        st
                    },
                }
            } else {
                st
            }
        },
    }
}

/// The keyword values after reading the first `k` keyword nodes of `class_keywords` node `node`.
pub open spec fn class_keyword_list(t: SyntaxTree, content: &str, kinds: ClassKeywordKinds, node: int, k: int, st: ClassKeywordState) -> ClassKeywordState
    decreases k,
{
    if k <= 0 {
        st
    } else {
        class_keyword_step(t, content, kinds, class_keyword_list(t, content, kinds, node, k - 1, st), child_of(t, node, k - 1))
    }
}

/// The keyword values after reading the `class_keywords` nodes among the named children
/// `2 .. i` of class definition `def`.
pub open spec fn class_keywords_fold(t: SyntaxTree, content: &str, kinds: ClassKeywordKinds, def: int, i: int, st: ClassKeywordState) -> ClassKeywordState
    decreases i,
{
    if i <= 2 {
        st
    } else {
        let before = class_keywords_fold(t, content, kinds, def, i - 1, st);
        let child = child_of(t, def, i - 1);
        if t.nodes@[child].kind@ == "class_keywords"@ {
            class_keyword_list(t, content, kinds, child, t.nodes@[child].child_count as int, before)
        } else {
            before
        }
    }
}

/// Some named child among `2 .. i` of class definition `def` is a `class_keywords` node.
pub open spec fn has_class_keywords(t: SyntaxTree, def: int, i: int) -> bool
    decreases i,
{
    if i <= 2 {
        false
    } else {
        has_class_keywords(t, def, i - 1) || t.nodes@[child_of(t, def, i - 1)].kind@ == "class_keywords"@
    }
}

/// Without a `class_keywords` node the kinds play no part.
proof fn lemma_fold_without_keywords(t: SyntaxTree, content: &str, kinds: ClassKeywordKinds, def: int, i: int, st: ClassKeywordState)
    requires
        !has_class_keywords(t, def, i),
    ensures
        class_keywords_fold(t, content, kinds, def, i, st) == st,
    decreases i,
{
    if i > 2 {
        lemma_fold_without_keywords(t, content, kinds, def, i - 1, st);
    }
}

/// The kinds are those that looking up ProcedureBlock, Language and Inheritance among the
/// class keyword node types of one node-types description gives.
pub open spec fn class_kinds_ok(kinds: ClassKeywordKinds) -> bool {
    exists|node_types: Seq<char>| #[trigger] class_kinds_from(node_types, kinds)
}

/// The class keyword kinds are those of the ProcedureBlock, Language and Inheritance keywords
/// in the node-types description `node_types`.
pub open spec fn class_kinds_from(node_types: Seq<char>, kinds: ClassKeywordKinds) -> bool {
    &&& kind_lookup_ok(node_types, kinds.procedure_block@, "class_keyword"@, "procedure"@)
    &&& kind_lookup_ok(node_types, kinds.language@, "class_keyword"@, "language"@)
    &&& kind_lookup_ok(node_types, kinds.inheritance@, "class_keyword"@, "inheritance"@)
}

/// The node kinds of the class keywords in the node-types description `node_types`.
pub fn class_keyword_kinds(node_types: &str) -> (kinds: ClassKeywordKinds)
    ensures
        class_kinds_from(node_types@, kinds),
{
    let procedure_block = keyword_from(node_types, "class_keyword", "procedure");
    let language = keyword_from(node_types, "class_keyword", "language");
    let inheritance = keyword_from(node_types, "class_keyword", "inheritance");
    ClassKeywordKinds { procedure_block, language, inheritance }
}

/// The keyword values of class `c`.
pub open spec fn class_keyword_values(c: Class) -> ClassKeywordState {
    (c.is_procedure_block, c.default_language, c.inheritance_direction@)
}

/// The method that the `class_statement` node `st` declares: its definition node and type, for
/// a `method` or `classmethod` whose name can be read.
pub open spec fn statement_method(t: SyntaxTree, content: &str, st: int) -> Option<(int, MethodType)> {
    match nth_child(t, st, 0) {
        None => None,
        Some(stype) => match nth_child(t, stype, 1) {
            None => None,
            Some(def) => if t.nodes@[stype].kind@ == "method"@ {
                if method_named(t, content, def) {
                    Some((def, MethodType::InstanceMethod))
                } else {
                    None
                }
            } else if t.nodes@[stype].kind@ == "classmethod"@ {
                if method_named(t, content, def) {
                    Some((def, MethodType::ClassMethod))
                } else {
                    None
                }
            } else {
                None
            },
        },
    }
}

/// The methods that the first `k` statements of `class_body` node `body` declare.
pub open spec fn body_methods(t: SyntaxTree, content: &str, body: int, k: int) -> Seq<(int, MethodType)>
    decreases k,
{
    if k <= 0 {
        Seq::empty()
    } else {
        let before = body_methods(t, content, body, k - 1);
        match statement_method(t, content, child_of(t, body, k - 1)) {
            Some(m) => before.push(m),
            None => before,
        }
    }
}

/// The methods that the class bodies among the named children `2 .. i` of class definition
/// `def` declare, in order.
pub open spec fn class_methods(t: SyntaxTree, content: &str, def: int, i: int) -> Seq<(int, MethodType)>
    decreases i,
{
    if i <= 2 {
        Seq::empty()
    } else {
        let before = class_methods(t, content, def, i - 1);
        let child = child_of(t, def, i - 1);
        if t.nodes@[child].kind@ == "class_body"@ {
            before + body_methods(t, content, child, t.nodes@[child].child_count as int)
        } else {
            before
        }
    }
}

/// `ms` are the methods built from the declarations `decls`, one for one.
pub open spec fn methods_built(t: SyntaxTree, content: &str, decls: Seq<(int, MethodType)>, ms: Seq<(Method, TextRange)>) -> bool {
    &&& ms.len() == decls.len()
    &&& forall|j: int| 0 <= j < ms.len() ==> method_built(t, content, decls[j].0, decls[j].1, #[trigger] ms[j])
}

impl Class {
    /// The first pass over a class definition node: reads the class keywords
    /// (ProcedureBlock, Language, Inheritance) into this class and returns the methods of the
    /// class body with the ranges of their definitions. Imports, parents and statements are
    /// read later. A node with fewer than two named children gives no methods.
    pub fn initial_build(&mut self, tree: &SyntaxTree, node: usize, content: &str) -> (methods: Vec<(Method, TextRange)>)
        requires
            tree_wf(*tree),
            node < tree.nodes@.len(),
        ensures
            only_keywords_changed(*old(self), *final(self)),
            tree.nodes@[node as int].child_count < 2 ==> methods@.len() == 0 && *final(self) == *old(self),
            methods_built(*tree, content, class_methods(*tree, content, node as int, tree.nodes@[node as int].child_count as int), methods@),
            !has_class_keywords(*tree, node as int, tree.nodes@[node as int].child_count as int)
                ==> class_keyword_values(*final(self)) == class_keyword_values(*old(self)),
            has_class_keywords(*tree, node as int, tree.nodes@[node as int].child_count as int) ==> exists|kinds: ClassKeywordKinds|
                class_kinds_ok(kinds) && class_keyword_values(*final(self)) == #[trigger] class_keywords_fold(
                    *tree,
                    content,
                    kinds,
                    node as int,
                    tree.nodes@[node as int].child_count as int,
                    class_keyword_values(*old(self)),
                ),
    {
        let ghost t = *tree;
        let children = tree.named_children(node);
        let mut methods: Vec<(Method, TextRange)> = Vec::new();
        if children.len() < 2 {
            return methods;
        }
        let ghost start = *self;
        let ghost st0 = class_keyword_values(*self);
        let mut kinds: Option<ClassKeywordKinds> = None;
        let mut i: usize = 2;
        while i < children.len()
            invariant
                t == *tree,
                tree_wf(*tree),
                node < tree.nodes@.len(),
                children@.len() == tree.nodes@[node as int].child_count,
                forall|m: int| 0 <= m < children@.len() ==> #[trigger] children@[m] == child_of(t, node as int, m),
                forall|m: int| 0 <= m < children@.len() ==> #[trigger] children@[m] < tree.nodes@.len(),
                2 <= i <= children@.len(),
                only_keywords_changed(start, *self),
                start == *old(self),
                st0 == class_keyword_values(start),
                methods_built(t, content, class_methods(t, content, node as int, i as int), methods@),
                kinds is Some <==> has_class_keywords(t, node as int, i as int),
                match kinds {
                    Some(k) => class_kinds_ok(k) && class_keyword_values(*self) == class_keywords_fold(t, content, k, node as int, i as int, st0),
                    None => class_keyword_values(*self) == st0,
                },
            decreases children@.len() - i,
        {
            let child = children[i];
            let ghost prefix = class_methods(t, content, node as int, i as int);
            proof {
                reveal_strlit("class_keywords");
                reveal_strlit("class_body");
                assert("class_keywords"@.len() == 14 && "class_body"@.len() == 10);
            }
            i = i + 1;
            if tree.is_kind(child, "class_keywords") {
                let k = match kinds {
                    Some(k) => k,
                    None => {
                        let node_types = grammar_node_types();
                        let looked_up = class_keyword_kinds(node_types);
                        assert(class_kinds_from(node_types@, looked_up));
                        proof {
                            lemma_fold_without_keywords(t, content, looked_up, node as int, i - 1, st0);
                        }
                        looked_up
                    },
                };
                self.initial_build_class_keywords(tree, child, content, &k);
                kinds = Some(k);
            } else if tree.is_kind(child, "class_body") {
                let statements = tree.named_children(child);
                let mut k: usize = 0;
                while k < statements.len()
                    invariant
                        t == *tree,
                        tree_wf(*tree),
                        child < tree.nodes@.len(),
                        statements@.len() == tree.nodes@[child as int].child_count,
                        forall|m: int| 0 <= m < statements@.len() ==> #[trigger] statements@[m] == child_of(t, child as int, m),
                        forall|m: int| 0 <= m < statements@.len() ==> #[trigger] statements@[m] < tree.nodes@.len(),
                        k <= statements@.len(),
                        methods_built(t, content, prefix + body_methods(t, content, child as int, k as int), methods@),
                    decreases statements@.len() - k,
                {
                    let statement = statements[k];
                    let ghost before = prefix + body_methods(t, content, child as int, k as int);
                    k = k + 1;
                    match self.handle_class_statement_method(tree, statement, content) {
                        Some(m) => {
                            let ghost ms0 = methods@;
                            methods.push(m);
                            proof {
                                let d = statement_method(t, content, statement as int)->0;
                                assert((prefix + body_methods(t, content, child as int, k as int)) =~= before.push(d));
                                assert forall|j: int| 0 <= j < methods@.len() implies method_built(t, content, before.push(d)[j].0, before.push(d)[j].1, #[trigger] methods@[j]) by {
                                    if j < ms0.len() {
                                        assert(methods@[j] == ms0[j]);
                                        assert(before.push(d)[j] == before[j]);
                                    }
                                }
                            }
                        },
                        None => {},
                    }
                }
                proof {
                    assert(class_methods(t, content, node as int, i as int) == prefix + body_methods(t, content, child as int, statements@.len() as int));
                }
            }
        }
        methods
    }

    /// Builds the method that a `class_statement` node declares: an instance method for
    /// `method`, a class method for `classmethod`; `None` for any other statement or a
    /// malformed one.
    fn handle_class_statement_method(&self, tree: &SyntaxTree, node: usize, content: &str) -> (r: Option<(Method, TextRange)>)
        requires
            tree_wf(*tree),
            node < tree.nodes@.len(),
        ensures
            match statement_method(*tree, content, node as int) {
                Some((def, ty)) => r is Some && method_built(*tree, content, def, ty, r->0),
                None => r is None,
            },
    {
        let statement_type = match tree.named_child(node, 0) {
            Some(n) => n,
            None => return None,
        };
        let definition = match tree.named_child(statement_type, 1) {
            Some(n) => n,
            None => return None,
        };
        if tree.is_kind(statement_type, "method") {
            initial_build_method(tree, definition, MethodType::InstanceMethod, content)
        } else if tree.is_kind(statement_type, "classmethod") {
            initial_build_method(tree, definition, MethodType::ClassMethod, content)
        } else {
            None
        }
    }

    /// Reads the class keywords of `class_keywords` node `node`, with the grammar's kinds of
    /// the keyword nodes: ProcedureBlock (turned off by a `Not` child), Language (`tsql` or
    /// `objectscript`, any case) and Inheritance (`right`, any case). Other keywords and values
    /// are skipped.
    fn initial_build_class_keywords(&mut self, tree: &SyntaxTree, node: usize, content: &str, kinds: &ClassKeywordKinds)
        requires
            tree_wf(*tree),
            node < tree.nodes@.len(),
        ensures
            only_keywords_changed(*old(self), *final(self)),
            class_keyword_values(*final(self)) == class_keyword_list(
                *tree,
                content,
                *kinds,
                node as int,
                tree.nodes@[node as int].child_count as int,
                class_keyword_values(*old(self)),
            ),
    {
        proof {
            reveal_strlit("right");
        }
        let ghost t = *tree;
        let children = tree.named_children(node);
        let ghost start = *self;
        let mut i: usize = 0;
        while i < children.len()
            invariant
                t == *tree,
                tree_wf(*tree),
                node < tree.nodes@.len(),
                children@.len() == tree.nodes@[node as int].child_count,
                forall|m: int| 0 <= m < children@.len() ==> #[trigger] children@[m] == child_of(t, node as int, m),
                forall|m: int| 0 <= m < children@.len() ==> #[trigger] children@[m] < tree.nodes@.len(),
                i <= children@.len(),
                only_keywords_changed(start, *self),
                start == *old(self),
                class_keyword_values(*self) == class_keyword_list(t, content, *kinds, node as int, i as int, class_keyword_values(start)),
            decreases children@.len() - i,
        {
            let child = children[i];
            i = i + 1;
            let keyword = match tree.named_child(child, 0) {
                Some(k) => k,
                None => continue,
            };
            if tree.is_kind(keyword, kinds.procedure_block.as_str()) {
                let keyword_child = match tree.named_child(keyword, 0) {
                    Some(k) => k,
                    None => continue,
                };
                if tree.is_kind(keyword_child, "keyword_not") {
                    self.is_procedure_block = Some(false);
                } else {
                    self.is_procedure_block = Some(true);
                }
            } else if tree.is_kind(keyword, kinds.language.as_str()) {
                if let Some(value) = tree.named_child(keyword, 1) {
                    if let Some(text) = tree.node_text(content, value) {
                        proof {
                            lemma_node_text_chars(t, content, value as int, text);
                        }
                        if eq_ignore_ascii_case(text.as_str(), "tsql") {
                            self.default_language = Some(Language::TSql);
                        } else if eq_ignore_ascii_case(text.as_str(), "objectscript") {
                            self.default_language = Some(Language::Objectscript);
                        }
                    }
                }
            } else if tree.is_kind(keyword, kinds.inheritance.as_str()) {
                if let Some(value) = tree.named_child(keyword, 1) {
                    if let Some(text) = tree.node_text(content, value) {
                        proof {
                            lemma_node_text_chars(t, content, value as int, text);
                        }
                        if eq_ignore_ascii_case(text.as_str(), "right") {
                            self.inheritance_direction = "right".to_owned();
                        }
                    }
                }
            }
        }
    }
}

} // verus!
