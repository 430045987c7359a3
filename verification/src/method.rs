use crate::expressions::{
    find_return_type, handle_method_keywords, keywords_declare, keywords_state, method_kinds_ok, MethodKeywordKinds,
    MethodKeywords,
};
use crate::keywords::str_eq;
use crate::maps::AssocMap;
use crate::parse_structures::{
    CodeMode, Language, Method, MethodType, PrivateVarId, PublicVarId, ReturnType, TextRange,
};
use crate::calls::{nth_child, readable};
use crate::expressions::{expression_sources, sources_give};
use crate::syntax::{child_of, lemma_node_text_chars, node_chars, node_text_ok, tree_wf, SyntaxTree};
use crate::variable::{
    argument_describes, argument_state, build_variable_from_argument, build_variable_from_set_argument_rhs,
    return_type_named, source_property_names, source_var_names, VariableDef,
};
use vstd::prelude::*;

verus! {

/// The keyword values a method ends up with once its class's defaults are applied: an unset
/// ProcedureBlock becomes `false` only when the class turns it off, and an unset Language
/// becomes the class default.
pub open spec fn keywords_after_update(
    m: Method,
    class_pb: bool,
    class_lang: Language,
) -> (Option<bool>, Option<Language>) {
    (
        if m.is_procedure_block is None && !class_pb {
            Some(false)
        } else {
            m.is_procedure_block
        },
        if m.language is None {
            Some(class_lang)
        } else {
            m.language
        },
    )
}

impl Method {
    /// Creates a new `Method` from parsed header information, with empty variable tables.
    pub fn new(
        method_name: String,
        is_procedure_block: Option<bool>,
        language: Option<Language>,
        code_mode: CodeMode,
        is_public: bool,
        return_type: Option<ReturnType>,
        public_variables: Vec<String>,
        method_type: MethodType,
    ) -> (r: Self)
        ensures
            r.name@ == method_name@,
            r.is_procedure_block == is_procedure_block,
            r.language == language,
            r.code_mode == code_mode,
            r.is_public == is_public,
            r.return_type == return_type,
            r.public_variables_declared@ == public_variables@,
            r.method_type == method_type,
            r.private_variables@ == Map::<Seq<char>, PrivateVarId>::empty(),
            r.public_variables@ == Map::<Seq<char>, PublicVarId>::empty(),
    {
        Method {
            method_type,
            return_type,
            name: method_name,
            private_variables: AssocMap::new(),
            public_variables: AssocMap::new(),
            is_public,
            is_procedure_block,
            language,
            code_mode,
            public_variables_declared: public_variables,
        }
    }

    /// Applies inherited class keywords to this method when not explicitly set.
    ///
    /// - Inherits `ProcedureBlock = false` only when the method has no explicit setting.
    /// - Inherits the class `default_language` when the method language is unset.
    pub fn update_keywords(&mut self, is_procedure_block: bool, default_language: Language)
        ensures
            (final(self).is_procedure_block, final(self).language) == keywords_after_update(
                *old(self),
                is_procedure_block,
                default_language,
            ),
            final(self).name == old(self).name,
            final(self).method_type == old(self).method_type,
            final(self).return_type == old(self).return_type,
            final(self).private_variables == old(self).private_variables,
            final(self).public_variables == old(self).public_variables,
            final(self).is_public == old(self).is_public,
            final(self).code_mode == old(self).code_mode,
            final(self).public_variables_declared == old(self).public_variables_declared,
    {
        if self.is_procedure_block.is_none() && !is_procedure_block {
            self.is_procedure_block = Some(is_procedure_block);
        }
        if self.language.is_none() {
            self.language = Some(default_language);
        }
    }
}


/// A change to a recorded method.
pub enum MethodEdit {
    /// Apply the class's ProcedureBlock and Language defaults (see `update_keywords`).
    Keywords(bool, Language),
    /// Record a public variable of the method.
    PublicVariable(String, PublicVarId),
    /// Record a private variable of the method.
    PrivateVariable(String, PrivateVarId),
}

/// `b` is `a` after `e`.
pub open spec fn method_edited(a: Method, b: Method, e: MethodEdit) -> bool {
    match e {
        MethodEdit::Keywords(pb, lang) => {
            &&& (b.is_procedure_block, b.language) == keywords_after_update(a, pb, lang)
            &&& b == Method { is_procedure_block: b.is_procedure_block, language: b.language, ..a }
        },
        MethodEdit::PublicVariable(name, id) => {
            &&& b.public_variables@ == a.public_variables@.insert(name@, id)
            &&& b == Method { public_variables: b.public_variables, ..a }
        },
        MethodEdit::PrivateVariable(name, id) => {
            &&& b.private_variables@ == a.private_variables@.insert(name@, id)
            &&& b == Method { private_variables: b.private_variables, ..a }
        },
    }
}

impl Method {
    /// Applies `e` to this method.
    pub fn apply_edit(&mut self, e: MethodEdit)
        ensures
            method_edited(*old(self), *final(self), e),
    {
        match e {
            MethodEdit::Keywords(pb, lang) => {
                self.update_keywords(pb, lang);
            },
            MethodEdit::PublicVariable(name, id) => {
                self.public_variables.insert(name, id);
            },
            MethodEdit::PrivateVariable(name, id) => {
                self.private_variables.insert(name, id);
            },
        }
    }
}


/// Whether `name` is among `names`.
pub fn contains_name(names: &Vec<String>, name: &String) -> (r: bool)
    ensures
        r == names@.map_values(|s: String| s@).contains(name@),
{
    let mut i: usize = 0;
    while i < names.len()
        invariant
            i <= names@.len(),
            forall|j: int| 0 <= j < i ==> #[trigger] names@[j]@ != name@,
        decreases names@.len() - i,
    {
        if str_eq(names[i].as_str(), name.as_str()) {
            assert(names@.map_values(|s: String| s@)[i as int] == name@);
            return true;
        }
        i = i + 1;
    }
    proof {
        let views = names@.map_values(|s: String| s@);
        if views.contains(name@) {
            let j = choose|j: int| 0 <= j < views.len() && #[trigger] views[j] == name@;
            assert(names@[j]@ == name@);
        }
    }
    false
}

/// A variable of method `m` named `name` is public: the method is not a procedure block,
/// or it lists the name in its `PublicList`.
pub open spec fn variable_is_public(m: Method, name: Seq<char>) -> bool {
    m.is_procedure_block == Some(false) || m.public_variables_declared@.map_values(
        |s: String| s@,
    ).contains(name)
}

/// What the header of method definition `def` says among its named children `1 .. i`: the
/// node naming the return type (of the last `return_type` whose type name can be read) and the
/// last `method_keywords` node.
pub open spec fn method_header(t: SyntaxTree, content: &str, def: int, i: int) -> (Option<int>, Option<int>)
    decreases i,
{
    if i <= 1 {
        (None, None)
    } else {
        let (ret, kw) = method_header(t, content, def, i - 1);
        let child = child_of(t, def, i - 1);
        if t.nodes@[child].kind@ == "return_type"@ {
            match nth_child(t, child, 1) {
                Some(n) => if readable(t, content, n) {
                    (Some(n), kw)
                } else {
                    (ret, kw)
                },
                None => (ret, kw),
            }
        } else if t.nodes@[child].kind@ == "method_keywords"@ {
            (ret, Some(child))
        } else {
            (ret, kw)
        }
    }
}

/// `m` has the return type named by node `ret`, if any.
pub open spec fn return_type_from(t: SyntaxTree, content: &str, ret: Option<int>, r: Option<ReturnType>) -> bool {
    match ret {
        None => r is None,
        Some(n) => return_type_named(node_chars(t, content, n), r),
    }
}

/// `m` has the keywords of the `method_keywords` node `kw` (read with some kinds of the
/// grammar's keyword nodes, as `handle_method_keywords` looks them up), or the defaults
/// without one: ProcedureBlock and Language unset, CodeMode `Code`, public, no `PublicList`.
pub open spec fn keywords_from(t: SyntaxTree, content: &str, kw: Option<int>, k: MethodKeywords) -> bool {
    match kw {
        None => {
            &&& k.0 is None
            &&& k.1 is None
            &&& k.2 is None || k.2 == Some(CodeMode::Code)
            &&& k.3
            &&& k.4@.len() == 0
        },
        Some(n) => exists|kinds: MethodKeywordKinds| {
            &&& method_kinds_ok(kinds)
            &&& keywords_declare(t, content, #[trigger] keywords_state(t, content, kinds, n, t.nodes@[n].child_count as int), k)
        },
    }
}

/// The method definition `def` has a name that can be read: the text of its first named
/// child.
pub open spec fn method_named(t: SyntaxTree, content: &str, def: int) -> bool {
    t.nodes@[def].child_count > 0 && readable(t, content, child_of(t, def, 0))
}

/// `r` is the method (with the range of its definition) that definition `def` declares, of
/// type `method_type`: its name, return type and keywords are those of the header, and it
/// has no variables yet.
pub open spec fn method_built(t: SyntaxTree, content: &str, def: int, method_type: MethodType, r: (Method, TextRange)) -> bool {
    let (m, range) = r;
    let (ret, kw) = method_header(t, content, def, t.nodes@[def].child_count as int);
    &&& node_text_ok(t, content, child_of(t, def, 0), Some(m.name))
    &&& range == t.nodes@[def].range
    &&& m.method_type == method_type
    &&& return_type_from(t, content, ret, m.return_type)
    &&& keywords_from(t, content, kw, (m.is_procedure_block, m.language, Some(m.code_mode), m.is_public, m.public_variables_declared))
    &&& m.private_variables@.len() == 0
    &&& m.public_variables@.len() == 0
}

/// Builds a `Method` from its definition node: its name (the text of the first named child),
/// return type and keywords. The statements of its body are not read here.
///
/// Returns the method and the range of the definition node, or `None` when the name cannot
/// be read.
pub fn initial_build_method(
    tree: &SyntaxTree,
    node: usize,
    method_type: MethodType,
    content: &str,
) -> (r: Option<(Method, TextRange)>)
    requires
        tree_wf(*tree),
        node < tree.nodes@.len(),
    ensures
        r is Some <==> method_named(*tree, content, node as int),
        r is Some ==> method_built(*tree, content, node as int, method_type, r->0),
{
    let ghost t = *tree;
    let name_node = match tree.named_child(node, 0) {
        Some(n) => n,
        None => return None,
    };
    let method_name = match tree.node_text(content, name_node) {
        Some(s) => s,
        None => return None,
    };
    let method_range = tree.range(node);
    let mut method_return_type: Option<ReturnType> = None;
    let mut is_procedure_block: Option<bool> = None;
    let mut language: Option<Language> = None;
    let mut codemode: Option<CodeMode> = None;
    let mut is_public = true;
    let mut public_variables: Vec<String> = Vec::new();
    let children = tree.named_children(node);
    let mut i: usize = 1;
    while i < children.len()
        invariant
            t == *tree,
            tree_wf(*tree),
            node < tree.nodes@.len(),
            children@.len() == tree.nodes@[node as int].child_count,
            children@.len() > 0,
            forall|m: int| 0 <= m < children@.len() ==> #[trigger] children@[m] == child_of(t, node as int, m),
            forall|m: int| 0 <= m < children@.len() ==> #[trigger] children@[m] < tree.nodes@.len(),
            1 <= i <= children@.len(),
            ({
                let (ret, kw) = method_header(t, content, node as int, i as int);
                &&& return_type_from(t, content, ret, method_return_type)
                &&& keywords_from(t, content, kw, (is_procedure_block, language, codemode, is_public, public_variables))
            }),
        decreases children@.len() - i,
    {
        let child = children[i];
        i = i + 1;
        if tree.is_kind(child, "return_type") {
            let type_name_node = match tree.named_child(child, 1) {
                Some(n) => n,
                None => continue,
            };
            match tree.node_text(content, type_name_node) {
                Some(typename) => {
                    proof {
                        lemma_node_text_chars(t, content, type_name_node as int, typename);
                    }
                    method_return_type = find_return_type(typename);
                },
                None => continue,
            }
        } else if tree.is_kind(child, "method_keywords") {
            match handle_method_keywords(tree, child, content) {
                Some((pb, lang, cm, public, vars)) => {
                    is_procedure_block = pb;
                    language = lang;
                    codemode = cm;
                    is_public = public;
                    public_variables = vars;
                },
                None => continue,
            }
        }
    }
    let code_mode = match codemode {
        Some(c) => c,
        None => CodeMode::Code,
    };
    let method = Method::new(
        method_name,
        is_procedure_block,
        language,
        code_mode,
        is_public,
        method_return_type,
        public_variables,
        method_type,
    );
    assert(method.private_variables@.len() == 0 && method.public_variables@.len() == 0);
    Some((method, method_range))
}

/// Where a variable of a method is defined: whether it is an argument, the node that defines
/// it (the argument node, or the right-hand side of the `set`), and the node naming it.
pub type VariableSource = (bool, int, int);

/// The arguments among the first `a` named children of the argument list `args` whose name
/// (their first named child) can be read.
pub open spec fn argument_sources(t: SyntaxTree, content: &str, args: int, a: int) -> Seq<VariableSource>
    decreases a,
{
    if a <= 0 {
        Seq::empty()
    } else {
        let before = argument_sources(t, content, args, a - 1);
        let arg = child_of(t, args, a - 1);
        match nth_child(t, arg, 0) {
            Some(name) => if readable(t, content, name) {
                before.push((true, arg, name))
            } else {
                before
            },
            None => before,
        }
    }
}

/// The `set` commands among the first `k` statements of the method body `body` that name a
/// readable variable and give it a right-hand side.
pub open spec fn set_sources(t: SyntaxTree, content: &str, body: int, k: int) -> Seq<VariableSource>
    decreases k,
{
    if k <= 0 {
        Seq::empty()
    } else {
        let before = set_sources(t, content, body, k - 1);
        match nth_child(t, child_of(t, body, k - 1), 0) {
            None => before,
            Some(cmd) => if t.nodes@[cmd].kind@ != "command_set"@ {
                before
            } else {
                match nth_child(t, cmd, 1) {
                    None => before,
                    Some(arg) => match nth_child(t, arg, 0) {
                        None => before,
                        Some(name) => if !readable(t, content, name) {
                            before
                        } else {
                            match nth_child(t, arg, 1) {
                                None => before,
                                Some(rhs) => before.push((false, rhs, name)),
                            }
                        },
                    },
                }
            },
        }
    }
}

/// The variables that the named children `1 .. i` of method definition `def` define: those of
/// its argument lists and of its method bodies, in order.
pub open spec fn method_variable_sources(t: SyntaxTree, content: &str, def: int, i: int) -> Seq<VariableSource>
    decreases i,
{
    if i <= 1 {
        Seq::empty()
    } else {
        let before = method_variable_sources(t, content, def, i - 1);
        let child = child_of(t, def, i - 1);
        if t.nodes@[child].kind@ == "arguments"@ {
            before + argument_sources(t, content, child, t.nodes@[child].child_count as int)
        } else if t.nodes@[child].kind@ == "core_method_body_content"@ {
            before + set_sources(t, content, child, t.nodes@[child].child_count as int)
        } else {
            before
        }
    }
}

/// `v` is the variable of method `m` that `src` defines: named by the text of its name node,
/// ranging over that node, public as the method decides, and built from the argument or the
/// right-hand side.
pub open spec fn variable_from_source(t: SyntaxTree, content: &str, m: Method, src: VariableSource, v: VariableDef) -> bool {
    let (is_argument, def, name) = src;
    &&& node_text_ok(t, content, name, Some(v.0.name))
    &&& v.0.is_public == variable_is_public(m, v.0.name@)
    &&& v.1 == t.nodes@[name].range
    &&& if is_argument {
        argument_describes(t, content, argument_state(t, content, def, t.nodes@[def].child_count as int), v)
    } else {
        &&& v.0.arg_type is None
        &&& sources_give(t, content, expression_sources(t, content, def), v.0.var_type@)
        &&& v.2@.map_values(|s: String| s@) == source_var_names(t, content, expression_sources(t, content, def))
        &&& v.3@.map_values(|s: String| s@) == source_property_names(t, content, expression_sources(t, content, def))
    }
}

/// `vs` are the variables that `srcs` define, one for one.
pub open spec fn variables_from_sources(t: SyntaxTree, content: &str, m: Method, srcs: Seq<VariableSource>, vs: Seq<VariableDef>) -> bool {
    &&& vs.len() == srcs.len()
    &&& forall|k: int| 0 <= k < vs.len() ==> variable_from_source(t, content, m, srcs[k], #[trigger] vs[k])
}

impl Method {
    /// Collects the variables of a method definition: its arguments and the variables that
    /// `set` commands of its body assign. A variable is public when the method is not a
    /// procedure block or lists the name in its `PublicList`.
    ///
    /// Returns each variable with the range of its name and the variable and property names
    /// its definition refers to.
    pub fn build_method_variables_and_ref(&self, tree: &SyntaxTree, node: usize, content: &str) -> (r: Vec<VariableDef>)
        requires
            tree_wf(*tree),
            node < tree.nodes@.len(),
        ensures
            variables_from_sources(*tree, content, *self, method_variable_sources(*tree, content, node as int, tree.nodes@[node as int].child_count as int), r@),
    {
        let ghost t = *tree;
        let mut variables: Vec<VariableDef> = Vec::new();
        let procedure_block = match self.is_procedure_block {
            Some(b) => b,
            None => true,
        };
        let children = tree.named_children(node);
        if children.len() == 0 {
            return variables;
        }
        let mut i: usize = 1;
        while i < children.len()
            invariant
                t == *tree,
                tree_wf(*tree),
                node < tree.nodes@.len(),
                procedure_block == (self.is_procedure_block != Some(false)),
                children@.len() == tree.nodes@[node as int].child_count,
                forall|m: int| 0 <= m < children@.len() ==> #[trigger] children@[m] == child_of(t, node as int, m),
                forall|m: int| 0 <= m < children@.len() ==> #[trigger] children@[m] < tree.nodes@.len(),
                1 <= i <= children@.len(),
                variables_from_sources(t, content, *self, method_variable_sources(t, content, node as int, i as int), variables@),
            decreases children@.len() - i,
        {
            let child = children[i];
            i = i + 1;
            let ghost prefix = method_variable_sources(t, content, node as int, i - 1);
            if tree.is_kind(child, "arguments") {
                let args = tree.named_children(child);
                let mut a: usize = 0;
                while a < args.len()
                    invariant
                        t == *tree,
                        tree_wf(*tree),
                        child < tree.nodes@.len(),
                        procedure_block == (self.is_procedure_block != Some(false)),
                        args@.len() == tree.nodes@[child as int].child_count,
                        forall|m: int| 0 <= m < args@.len() ==> #[trigger] args@[m] == child_of(t, child as int, m),
                        forall|m: int| 0 <= m < args@.len() ==> #[trigger] args@[m] < tree.nodes@.len(),
                        a <= args@.len(),
                        variables_from_sources(t, content, *self, prefix + argument_sources(t, content, child as int, a as int), variables@),
                    decreases args@.len() - a,
                {
                    let arg = args[a];
                    let ghost before = prefix + argument_sources(t, content, child as int, a as int);
                    a = a + 1;
                    let name_node = match tree.named_child(arg, 0) {
                        Some(n) => n,
                        None => continue,
                    };
                    let var_name = match tree.node_text(content, name_node) {
                        Some(s) => s,
                        None => continue,
                    };
                    let public = !procedure_block || contains_name(&self.public_variables_declared, &var_name);
                    let range = tree.range(name_node);
                    let v = build_variable_from_argument(tree, arg, var_name, content, public, range);
                    let ghost v0 = variables@;
                    variables.push(v);
                    proof {
                        let src = (true, arg as int, name_node as int);
                        assert(variable_from_source(t, content, *self, src, v));
                        assert((prefix + argument_sources(t, content, child as int, a as int)) =~= before.push(src));
                        assert forall|k: int| 0 <= k < variables@.len() implies variable_from_source(t, content, *self, before.push(src)[k], #[trigger] variables@[k]) by {
                            if k < v0.len() {
                                assert(variables@[k] == v0[k]);
                                assert(before.push(src)[k] == before[k]);
                            }
                        }
                    }
                }
                proof {
                    assert(method_variable_sources(t, content, node as int, i as int) == prefix + argument_sources(t, content, child as int, args@.len() as int));
                }
            } else if tree.is_kind(child, "core_method_body_content") {
                let statements = tree.named_children(child);
                let mut k: usize = 0;
                while k < statements.len()
                    invariant
                        t == *tree,
                        tree_wf(*tree),
                        child < tree.nodes@.len(),
                        procedure_block == (self.is_procedure_block != Some(false)),
                        statements@.len() == tree.nodes@[child as int].child_count,
                        forall|m: int| 0 <= m < statements@.len() ==> #[trigger] statements@[m] == child_of(t, child as int, m),
                        forall|m: int| 0 <= m < statements@.len() ==> #[trigger] statements@[m] < tree.nodes@.len(),
                        k <= statements@.len(),
                        variables_from_sources(t, content, *self, prefix + set_sources(t, content, child as int, k as int), variables@),
                    decreases statements@.len() - k,
                {
                    let statement = statements[k];
                    let ghost before = prefix + set_sources(t, content, child as int, k as int);
                    k = k + 1;
                    let command = match tree.named_child(statement, 0) {
                        Some(c) => c,
                        None => continue,
                    };
                    if !tree.is_kind(command, "command_set") {
                        continue;
                    }
                    let set_argument = match tree.named_child(command, 1) {
                        Some(n) => n,
                        None => continue,
                    };
                    let name_node = match tree.named_child(set_argument, 0) {
                        Some(n) => n,
                        None => continue,
                    };
                    let var_name = match tree.node_text(content, name_node) {
                        Some(s) => s,
                        None => continue,
                    };
                    let rhs = match tree.named_child(set_argument, 1) {
                        Some(n) => n,
                        None => continue,
                    };
                    let public = !procedure_block || contains_name(&self.public_variables_declared, &var_name);
                    let range = tree.range(name_node);
                    let v = build_variable_from_set_argument_rhs(tree, rhs, var_name, content, public, range);
                    let ghost v0 = variables@;
                    variables.push(v);
                    proof {
                        let src = (false, rhs as int, name_node as int);
                        assert(variable_from_source(t, content, *self, src, v));
                        assert((prefix + set_sources(t, content, child as int, k as int)) =~= before.push(src));
                        assert forall|j: int| 0 <= j < variables@.len() implies variable_from_source(t, content, *self, before.push(src)[j], #[trigger] variables@[j]) by {
                            if j < v0.len() {
                                assert(variables@[j] == v0[j]);
                                assert(before.push(src)[j] == before[j]);
                            }
                        }
                    }
                }
                proof {
                    assert(method_variable_sources(t, content, node as int, i as int) == prefix + set_sources(t, content, child as int, statements@.len() as int));
                }
            } else {
                proof {
                    assert(method_variable_sources(t, content, node as int, i as int) == prefix);
                }
            }
        }
        variables
    }
}

} // verus!
