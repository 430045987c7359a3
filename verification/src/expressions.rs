use crate::calls::{nth_child, readable};
use crate::keywords::{
    bytes_contain, eq_ignore_ascii_case, eq_ignore_case_bytes, grammar_node_types, keyword_from, keyword_lookup, str_eq,
};
use crate::parse_structures::{CodeMode, Language, ReturnType, VarType};
use crate::syntax::{
    child_of, lemma_node_text_chars, node_bytes, node_chars, node_text_ok, tree_wf, SyntaxTree,
};
use vstd::prelude::*;
use vstd::string::StringSliceAdditionalSpecFns;
use vstd::utf8::encode_utf8;

verus! {

/// The return type that a recognized InterSystems type name denotes.
pub open spec fn known_return_type(name: Seq<char>) -> Option<ReturnType> {
    if name == "%exactstring"@ || name == "%enumstring"@ || name == "%string"@ || name
        == "%char"@ {
        Some(ReturnType::String)
    } else if name == "%bigint"@ || name == "%smallint"@ || name == "%integer"@ || name
        == "%posixtime"@ || name == "%counter"@ {
        Some(ReturnType::Integer)
    } else if name == "%tinyint"@ {
        Some(ReturnType::TinyInteger)
    } else if name == "%binary"@ {
        Some(ReturnType::Binary)
    } else if name == "%date"@ {
        Some(ReturnType::Date)
    } else if name == "%double"@ {
        Some(ReturnType::Double)
    } else if name == "%numeric"@ || name == "%time"@ {
        Some(ReturnType::Number)
    } else if name == "%status"@ {
        Some(ReturnType::Status)
    } else {
        None
    }
}

/// Maps a type name (such as an InterSystems `%` type) to a `ReturnType`; an unrecognized
/// name gives `ReturnType::Other` with the name.
pub fn find_return_type(typename: String) -> (r: Option<ReturnType>)
    ensures
        match known_return_type(typename@) {
            Some(k) => r == Some(k),
            None => r matches Some(ReturnType::Other(s)) && s@ == typename@,
        },
{
    let t = typename.as_str();
    if str_eq(t, "%exactstring") || str_eq(t, "%enumstring") || str_eq(t, "%string") || str_eq(
        t,
        "%char",
    ) {
        Some(ReturnType::String)
    } else if str_eq(t, "%bigint") || str_eq(t, "%smallint") || str_eq(t, "%integer") || str_eq(
        t,
        "%posixtime",
    ) || str_eq(t, "%counter") {
        Some(ReturnType::Integer)
    } else if str_eq(t, "%tinyint") {
        Some(ReturnType::TinyInteger)
    } else if str_eq(t, "%binary") {
        Some(ReturnType::Binary)
    } else if str_eq(t, "%date") {
        Some(ReturnType::Date)
    } else if str_eq(t, "%double") {
        Some(ReturnType::Double)
    } else if str_eq(t, "%numeric") || str_eq(t, "%time") {
        Some(ReturnType::Number)
    } else if str_eq(t, "%status") {
        Some(ReturnType::Status)
    } else {
        Some(ReturnType::Other(typename))
    }
}

/// The expression-atom type that a node kind denotes by itself.
pub open spec fn atom_type_of_kind(kind: Seq<char>) -> Option<VarType> {
    if kind == "json_object_literal"@ {
        Some(VarType::JsonObjectLiteral)
    } else if kind == "json_array_literal"@ {
        Some(VarType::JsonArrayLiteral)
    } else if kind == "string_literal"@ {
        Some(VarType::String)
    } else if kind == "numeric_literal"@ {
        Some(VarType::Number)
    } else if kind == "relative_dot_method"@ {
        Some(VarType::RelativeDotMethod)
    } else if kind == "relative_dot_property"@ {
        Some(VarType::RelativeDotProperty)
    } else if kind == "relative_dot_parameter"@ {
        Some(VarType::RelativeDotParameter)
    } else if kind == "oref_chain_expr"@ {
        Some(VarType::OrefChainExpr)
    } else if kind == "class_method_call"@ {
        Some(VarType::ClassMethodCall)
    } else if kind == "class_parameter_ref"@ {
        Some(VarType::ClassParameterRef)
    } else if kind == "superclass_method_call"@ {
        Some(VarType::SuperclassMethodCall)
    } else {
        None
    }
}

/// The kinds that give an atom type by themselves differ from `gvn`, `lvn` and
/// `instance_variable`, which differ from one another.
pub proof fn lemma_atom_kinds_distinct()
    ensures
        forall|k: Seq<char>| #[trigger] atom_type_of_kind(k) is Some ==> k != "gvn"@ && k != "lvn"@ && k != "instance_variable"@,
        "gvn"@ != "lvn"@,
        "gvn"@ != "instance_variable"@,
        "lvn"@ != "instance_variable"@,
{
    reveal_strlit("json_object_literal");
    reveal_strlit("json_array_literal");
    reveal_strlit("string_literal");
    reveal_strlit("numeric_literal");
    reveal_strlit("relative_dot_method");
    reveal_strlit("relative_dot_property");
    reveal_strlit("relative_dot_parameter");
    reveal_strlit("oref_chain_expr");
    reveal_strlit("class_method_call");
    reveal_strlit("class_parameter_ref");
    reveal_strlit("superclass_method_call");
    reveal_strlit("gvn");
    reveal_strlit("lvn");
    reveal_strlit("instance_variable");
    assert("json_object_literal"@.len() == 19 && "json_object_literal"@[0] == 'j');
    assert("json_array_literal"@.len() == 18 && "json_array_literal"@[0] == 'j');
    assert("string_literal"@.len() == 14 && "string_literal"@[0] == 's');
    assert("numeric_literal"@.len() == 15 && "numeric_literal"@[0] == 'n');
    assert("relative_dot_method"@.len() == 19 && "relative_dot_method"@[0] == 'r');
    assert("relative_dot_property"@.len() == 21 && "relative_dot_property"@[0] == 'r');
    assert("relative_dot_parameter"@.len() == 22 && "relative_dot_parameter"@[0] == 'r');
    assert("oref_chain_expr"@.len() == 15 && "oref_chain_expr"@[0] == 'o');
    assert("class_method_call"@.len() == 17 && "class_method_call"@[0] == 'c');
    assert("class_parameter_ref"@.len() == 19 && "class_parameter_ref"@[0] == 'c');
    assert("superclass_method_call"@.len() == 22 && "superclass_method_call"@[0] == 's');
    assert("gvn"@.len() == 3 && "gvn"@[0] == 'g');
    assert("lvn"@.len() == 3 && "lvn"@[0] == 'l');
    assert("instance_variable"@.len() == 17 && "instance_variable"@[0] == 'i');
}

/// `r` is the `VarType` of the expression atom `node`: its first named child's kind gives
/// it (literals, relative-dot and class references, calls), or the child's text (`gvn`,
/// `lvn`), or the text of the child's first named child (`instance_variable`); `None` for
/// any other kind, a missing child, or a text that cannot be read.
pub open spec fn atom_type_ok(t: SyntaxTree, content: &str, node: int, r: Option<VarType>) -> bool {
    match nth_child(t, node, 0) {
        None => r is None,
        Some(c) => {
            let k = t.nodes@[c].kind@;
            if atom_type_of_kind(k) is Some {
                r == atom_type_of_kind(k)
            } else if k == "gvn"@ {
                match r {
                    Some(VarType::Gvn(s)) => node_text_ok(t, content, c, Some(s)),
                    None => node_text_ok(t, content, c, None),
                    _ => false,
                }
            } else if k == "lvn"@ {
                match r {
                    Some(VarType::Lvn(s)) => node_text_ok(t, content, c, Some(s)),
                    None => node_text_ok(t, content, c, None),
                    _ => false,
                }
            } else if k == "instance_variable"@ {
                match nth_child(t, c, 0) {
                    None => r is None,
                    Some(n) => match r {
                        Some(VarType::InstanceVariable(s)) => node_text_ok(t, content, n, Some(s)),
                        None => node_text_ok(t, content, n, None),
                        _ => false,
                    },
                }
            } else {
                r is None
            }
        },
    }
}

/// The expression atom `node` has a type (see `atom_type_ok`).
pub open spec fn atom_has_type(t: SyntaxTree, content: &str, node: int) -> bool {
    match nth_child(t, node, 0) {
        None => false,
        Some(c) => {
            let k = t.nodes@[c].kind@;
            if atom_type_of_kind(k) is Some {
                true
            } else if k == "gvn"@ || k == "lvn"@ {
                readable(t, content, c)
            } else if k == "instance_variable"@ {
                match nth_child(t, c, 0) {
                    None => false,
                    Some(n) => readable(t, content, n),
                }
            } else {
                false
            }
        },
    }
}

/// Infers a `VarType` from the first named child of an expression-atom node.
///
/// Literal and call kinds map to their type; `gvn` and `lvn` carry the variable's text and
/// `instance_variable` the text of its name; any other kind, or a text that does not fit
/// `content`, gives `None`.
pub fn get_expr_atom_var_type(tree: &SyntaxTree, node: usize, content: &str) -> (r: Option<VarType>)
    requires
        tree_wf(*tree),
        node < tree.nodes@.len(),
    ensures
        atom_type_ok(*tree, content, node as int, r),
        r is Some <==> atom_has_type(*tree, content, node as int),
{
    proof {
        reveal_strlit("json_object_literal");
        assert("json_object_literal"@.len() == 19 && "json_object_literal"@[0] == 'j');
        reveal_strlit("json_array_literal");
        assert("json_array_literal"@.len() == 18 && "json_array_literal"@[0] == 'j');
        reveal_strlit("string_literal");
        assert("string_literal"@.len() == 14 && "string_literal"@[0] == 's');
        reveal_strlit("numeric_literal");
        assert("numeric_literal"@.len() == 15 && "numeric_literal"@[0] == 'n');
        reveal_strlit("relative_dot_method");
        assert("relative_dot_method"@.len() == 19 && "relative_dot_method"@[0] == 'r');
        reveal_strlit("relative_dot_property");
        assert("relative_dot_property"@.len() == 21 && "relative_dot_property"@[0] == 'r');
        reveal_strlit("relative_dot_parameter");
        assert("relative_dot_parameter"@.len() == 22 && "relative_dot_parameter"@[0] == 'r');
        reveal_strlit("oref_chain_expr");
        assert("oref_chain_expr"@.len() == 15 && "oref_chain_expr"@[0] == 'o');
        reveal_strlit("class_method_call");
        assert("class_method_call"@.len() == 17 && "class_method_call"@[0] == 'c');
        reveal_strlit("class_parameter_ref");
        assert("class_parameter_ref"@.len() == 19 && "class_parameter_ref"@[0] == 'c');
        reveal_strlit("superclass_method_call");
        assert("superclass_method_call"@.len() == 22 && "superclass_method_call"@[0] == 's');
        reveal_strlit("gvn");
        assert("gvn"@.len() == 3 && "gvn"@[0] == 'g');
        reveal_strlit("lvn");
        assert("lvn"@.len() == 3 && "lvn"@[0] == 'l');
        reveal_strlit("instance_variable");
        assert("instance_variable"@.len() == 17 && "instance_variable"@[0] == 'i');
    }
    let child = match tree.named_child(node, 0) {
        Some(c) => c,
        None => return None,
    };
    if tree.is_kind(child, "json_object_literal") {
        Some(VarType::JsonObjectLiteral)
    } else if tree.is_kind(child, "json_array_literal") {
        Some(VarType::JsonArrayLiteral)
    } else if tree.is_kind(child, "string_literal") {
        Some(VarType::String)
    } else if tree.is_kind(child, "numeric_literal") {
        Some(VarType::Number)
    } else if tree.is_kind(child, "relative_dot_method") {
        Some(VarType::RelativeDotMethod)
    } else if tree.is_kind(child, "relative_dot_property") {
        Some(VarType::RelativeDotProperty)
    } else if tree.is_kind(child, "relative_dot_parameter") {
        Some(VarType::RelativeDotParameter)
    } else if tree.is_kind(child, "oref_chain_expr") {
        Some(VarType::OrefChainExpr)
    } else if tree.is_kind(child, "class_method_call") {
        Some(VarType::ClassMethodCall)
    } else if tree.is_kind(child, "class_parameter_ref") {
        Some(VarType::ClassParameterRef)
    } else if tree.is_kind(child, "superclass_method_call") {
        Some(VarType::SuperclassMethodCall)
    } else if tree.is_kind(child, "gvn") {
        match tree.node_text(content, child) {
            Some(s) => Some(VarType::Gvn(s)),
            None => None,
        }
    } else if tree.is_kind(child, "lvn") {
        match tree.node_text(content, child) {
            Some(s) => Some(VarType::Lvn(s)),
            None => None,
        }
    } else if tree.is_kind(child, "instance_variable") {
        let name_node = match tree.named_child(child, 0) {
            Some(n) => n,
            None => return None,
        };
        match tree.node_text(content, name_node) {
            Some(s) => Some(VarType::InstanceVariable(s)),
            None => None,
        }
    } else {
        None
    }
}

/// A `VarType` found in an expression, as a node and a flag: with the flag, the `Gvn` named
/// by the node's text; without, the type of the expression atom at the node.
pub type TypeSource = (int, bool);

/// `v` is the type that `src` gives.
pub open spec fn source_gives(t: SyntaxTree, content: &str, src: TypeSource, v: VarType) -> bool {
    if src.1 {
        v matches VarType::Gvn(s) && node_text_ok(t, content, src.0, Some(s))
    } else {
        atom_type_ok(t, content, src.0, Some(v))
    }
}

/// `vs` are the types that `srcs` give, one for one.
pub open spec fn sources_give(t: SyntaxTree, content: &str, srcs: Seq<TypeSource>, vs: Seq<VarType>) -> bool {
    &&& vs.len() == srcs.len()
    &&& forall|j: int| 0 <= j < vs.len() ==> source_gives(t, content, srcs[j], #[trigger] vs[j])
}

/// The types found in the expression `e`, a descendant of node `from`.
pub open spec fn sub_expression_sources(t: SyntaxTree, content: &str, from: int, e: int) -> Seq<TypeSource>
    decreases t.nodes@.len() - from, 0int, 0int,
{
    if from < e < t.nodes@.len() {
        expression_sources(t, content, e)
    } else {
        Seq::empty()
    }
}

/// The types found in the leading part of expression `node`, and whether its binary-operator
/// tails are read too: a parenthesized, nested or unary expression is descended into, a
/// unary `glvn` gives its name, and any other atom its own type; a missing part, an atom
/// without a type or an unreadable name ends the reading.
pub open spec fn lead_sources(t: SyntaxTree, content: &str, node: int) -> (Seq<TypeSource>, bool)
    decreases t.nodes@.len() - node, 1int, 0int,
{
    match nth_child(t, node, 0) {
        None => (Seq::empty(), false),
        Some(first) => {
            let k = t.nodes@[first].kind@;
            if k == "_parenthetical_expression"@ {
                match nth_child(t, first, 0) {
                    None => (Seq::empty(), false),
                    Some(e) => (sub_expression_sources(t, content, node, e), true),
                }
            } else if k == "expression"@ {
                (sub_expression_sources(t, content, node, first), true)
            } else if k == "unary_expression"@ {
                match nth_child(t, first, 0) {
                    None => (Seq::empty(), false),
                    Some(u) => if t.nodes@[u].kind@ == "expression"@ {
                        (sub_expression_sources(t, content, node, u), true)
                    } else if t.nodes@[u].kind@ == "glvn"@ {
                        match nth_child(t, u, 0) {
                            None => (Seq::empty(), false),
                            Some(n) => if readable(t, content, n) {
                                (seq![(n, true)], true)
                            } else {
                                (Seq::empty(), false)
                            },
                        }
                    } else {
                        (Seq::empty(), true)
                    },
                }
            } else if atom_has_type(t, content, first) {
                (seq![(first, false)], true)
            } else {
                (Seq::empty(), false)
            }
        },
    }
}

/// The types found in the binary-operator tails among the named children `1 .. k` of
/// expression `node`: each tail whose first child is a binary operator gives those of its
/// second child.
pub open spec fn tail_sources(t: SyntaxTree, content: &str, node: int, k: int) -> Seq<TypeSource>
    decreases t.nodes@.len() - node, 1int, k,
{
    if k <= 1 {
        Seq::empty()
    } else {
        let before = tail_sources(t, content, node, k - 1);
        let tail = child_of(t, node, k - 1);
        if !(0 <= tail < t.nodes@.len()) {
            before
        } else {
            match nth_child(t, tail, 0) {
                None => before,
                Some(op) => if t.nodes@[op].kind@ == "binary_operator"@ {
                    match nth_child(t, tail, 1) {
                        None => before,
                        Some(e) => before + sub_expression_sources(t, content, node, e),
                    }
                } else {
                    before
                },
            }
        }
    }
}

/// The types found in expression `node`: those of its leading part, followed (unless the
/// reading ended there) by those of its binary-operator tails.
pub open spec fn expression_sources(t: SyntaxTree, content: &str, node: int) -> Seq<TypeSource>
    decreases t.nodes@.len() - node, 2int, 0int,
{
    if !(0 <= node < t.nodes@.len()) {
        Seq::empty()
    } else {
        let (lead, go_on) = lead_sources(t, content, node);
        if go_on {
            lead + tail_sources(t, content, node, t.nodes@[node].child_count as int)
        } else {
            lead
        }
    }
}

proof fn lemma_sources_concat(t: SyntaxTree, content: &str, s1: Seq<TypeSource>, v1: Seq<VarType>, s2: Seq<TypeSource>, v2: Seq<VarType>)
    requires
        sources_give(t, content, s1, v1),
        sources_give(t, content, s2, v2),
    ensures
        sources_give(t, content, s1 + s2, v1 + v2),
{
    assert forall|j: int| 0 <= j < (v1 + v2).len() implies source_gives(t, content, (s1 + s2)[j], #[trigger] (v1 + v2)[j]) by {
        if j < v1.len() {
            assert(source_gives(t, content, s1[j], v1[j]));
        } else {
            assert(source_gives(t, content, s2[j - v1.len()], v2[j - v1.len()]));
        }
    }
}

/// Walks an expression node and returns the `VarType`s found in it: those of its leading
/// atom (descending into parenthesized, nested and unary expressions) followed by those of
/// each binary-operator tail, in order.
pub fn find_var_type_from_expression(tree: &SyntaxTree, node: usize, content: &str) -> (r: Vec<
    VarType,
>)
    requires
        tree_wf(*tree),
        node < tree.nodes@.len(),
    ensures
        sources_give(*tree, content, expression_sources(*tree, content, node as int), r@),
    decreases tree.nodes@.len() - node,
{
    let ghost t = *tree;
    let mut var_types: Vec<VarType> = Vec::new();
    let children = tree.named_children(node);
    if children.len() == 0 {
        return var_types;
    }
    let first = children[0];
    let ghost lead = lead_sources(t, content, node as int).0;
    if tree.is_kind(first, "_parenthetical_expression") {
        let expression = match tree.named_child(first, 0) {
            Some(e) => e,
            None => return Vec::new(),
        };
        let inner = find_var_type_from_expression(tree, expression, content);
        var_types = inner;
    } else if tree.is_kind(first, "expression") {
        let inner = find_var_type_from_expression(tree, first, content);
        var_types = inner;
    } else if tree.is_kind(first, "unary_expression") {
        let unary_child = match tree.named_child(first, 0) {
            Some(e) => e,
            None => return Vec::new(),
        };
        if tree.is_kind(unary_child, "expression") {
            let inner = find_var_type_from_expression(tree, unary_child, content);
            var_types = inner;
        } else if tree.is_kind(unary_child, "glvn") {
            let name_node = match tree.named_child(unary_child, 0) {
                Some(n) => n,
                None => return var_types,
            };
            match tree.node_text(content, name_node) {
                Some(s) => var_types.push(VarType::Gvn(s)),
                None => return var_types,
            }
        }
    } else {
        match get_expr_atom_var_type(tree, first, content) {
            Some(ty) => var_types.push(ty),
            None => return var_types,
        }
    }
    assert(lead_sources(t, content, node as int).1);
    assert(sources_give(t, content, lead, var_types@));
    let mut k: usize = 1;
    while k < children.len()
        invariant
            t == *tree,
            tree_wf(*tree),
            node < tree.nodes@.len(),
            children@.len() == tree.nodes@[node as int].child_count,
            forall|m: int| 0 <= m < children@.len() ==> #[trigger] children@[m] == child_of(*tree, node as int, m),
            forall|m: int| 0 <= m < children@.len() ==> node < #[trigger] children@[m] < tree.nodes@.len(),
            1 <= k <= children@.len(),
            sources_give(t, content, lead + tail_sources(t, content, node as int, k as int), var_types@),
        decreases children@.len() - k,
    {
        let tail = children[k];
        let ghost before = lead + tail_sources(t, content, node as int, k as int);
        match tree.named_child(tail, 0) {
            Some(op) => {
                if tree.is_kind(op, "binary_operator") {
                    match tree.named_child(tail, 1) {
                        Some(expr) => {
                            let ghost v0 = var_types@;
                            let mut more = find_var_type_from_expression(tree, expr, content);
                            let ghost vm = more@;
                            var_types.append(&mut more);
                            proof {
                                lemma_sources_concat(t, content, before, v0, expression_sources(t, content, expr as int), vm);
                                assert(tail as int == child_of(t, node as int, k as int));
                                assert(nth_child(t, tail as int, 0) == Some(op as int));
                                assert(nth_child(t, tail as int, 1) == Some(expr as int));
                                assert(tail < expr);
                                assert(sub_expression_sources(t, content, node as int, expr as int) == expression_sources(t, content, expr as int));
                                assert(tail_sources(t, content, node as int, k + 1) == tail_sources(t, content, node as int, k as int) + expression_sources(t, content, expr as int));
                                assert(lead + tail_sources(t, content, node as int, k + 1) =~= before + expression_sources(t, content, expr as int));
                            }
                        },
                        None => {},
                    }
                }
            },
            None => {},
        }
        k = k + 1;
    }
    var_types
}

/// The variable names (`gvn`, `lvn`, `glvn`) and instance-property names among `types`, in
/// order: the dependencies of a definition.
pub open spec fn var_ref_names(types: Seq<VarType>) -> Seq<Seq<char>>
    decreases types.len(),
{
    if types.len() == 0 {
        Seq::empty()
    } else {
        let prev = var_ref_names(types.drop_last());
        match types.last() {
            VarType::Gvn(s) => prev.push(s@),
            VarType::Lvn(s) => prev.push(s@),
            VarType::Glvn(s) => prev.push(s@),
            _ => prev,
        }
    }
}

pub open spec fn property_ref_names(types: Seq<VarType>) -> Seq<Seq<char>>
    decreases types.len(),
{
    if types.len() == 0 {
        Seq::empty()
    } else {
        let prev = property_ref_names(types.drop_last());
        match types.last() {
            VarType::InstanceVariable(s) => prev.push(s@),
            _ => prev,
        }
    }
}

/// Splits the names that `types` refers to into variable names and property names.
pub fn collect_refs(types: &Vec<VarType>) -> (r: (Vec<String>, Vec<String>))
    ensures
        r.0@.map_values(|s: String| s@) == var_ref_names(types@),
        r.1@.map_values(|s: String| s@) == property_ref_names(types@),
{
    let mut var_refs: Vec<String> = Vec::new();
    let mut property_refs: Vec<String> = Vec::new();
    let mut i: usize = 0;
    while i < types.len()
        invariant
            i <= types@.len(),
            var_refs@.map_values(|s: String| s@) == var_ref_names(types@.take(i as int)),
            property_refs@.map_values(|s: String| s@) == property_ref_names(types@.take(i as int)),
        decreases types@.len() - i,
    {
        proof {
            assert(types@.take(i + 1).drop_last() =~= types@.take(i as int));
            assert(types@.take(i + 1).last() == types@[i as int]);
        }
        match &types[i] {
            VarType::Gvn(s) => var_refs.push(s.clone()),
            VarType::Lvn(s) => var_refs.push(s.clone()),
            VarType::Glvn(s) => var_refs.push(s.clone()),
            VarType::InstanceVariable(s) => property_refs.push(s.clone()),
            _ => {},
        }
        proof {
            assert(var_refs@.map_values(|s: String| s@) =~= var_ref_names(types@.take(i + 1)));
            assert(property_refs@.map_values(|s: String| s@) =~= property_ref_names(types@.take(i + 1)));
        }
        i = i + 1;
    }
    proof {
        assert(types@.take(types@.len() as int) =~= types@);
    }
    (var_refs, property_refs)
}

/// What the keywords of a method declare: ProcedureBlock, Language, CodeMode (`Code` when
/// unset), visibility (public unless `Private`), and the `PublicList` names.
pub type MethodKeywords = (Option<bool>, Option<Language>, Option<CodeMode>, bool, Vec<String>);

/// The grammar's node kinds of the method keywords that are looked up by name: ProcedureBlock,
/// Private, PublicList, Language (ObjectScript) and CodeMode.
pub struct MethodKeywordKinds {
    pub procedure_block: String,
    pub private: String,
    pub public_list: String,
    pub language: String,
    pub codemode: String,
}

/// The keyword state while reading a method's keywords: ProcedureBlock, Language, CodeMode,
/// visibility, and the nodes of the `PublicList` names read so far.
pub type KeywordState = (Option<bool>, Option<Language>, Option<CodeMode>, bool, Seq<int>);

/// The readable name nodes of the `PublicList` keyword `kw` among its named children `1 .. m`.
pub open spec fn public_list_nodes(t: SyntaxTree, content: &str, kw: int, m: int) -> Seq<int>
    decreases m,
{
    if m <= 1 {
        Seq::empty()
    } else {
        let before = public_list_nodes(t, content, kw, m - 1);
        let n = child_of(t, kw, m - 1);
        if readable(t, content, n) {
            before.push(n)
        } else {
            before
        }
    }
}

/// The keyword state after reading the keyword node `child` in state `st`. A value is only
/// set once; ProcedureBlock is on when given without a value, and takes `0` or `1`; CodeMode
/// takes `code` or `objectgenerator` (any case), or the call or expression forms; Language
/// takes `tsql`, `python` or `ispl` (any case), or ObjectScript; `Private` makes the method
/// private, and `PublicList` adds its readable names. Anything else leaves the state as it is.
pub open spec fn keyword_step(t: SyntaxTree, content: &str, kinds: MethodKeywordKinds, st: KeywordState, child: int) -> KeywordState {
    let (pb, lang, cm, public, vars) = st;
    match nth_child(t, child, 0) {
        None => st,
        Some(kw) => {
            let k = t.nodes@[kw].kind@;
            if k == kinds.procedure_block@ {
                if pb is Some {
                    st
                } else if t.nodes@[kw].child_count == 1 {
                    (Some(true), lang, cm, public, vars)
                } else {
                    match nth_child(t, kw, 1) {
                        None => st,
                        Some(rhs) => if !readable(t, content, rhs) {
                            st
                        } else if node_chars(t, content, rhs) == "0"@ {
                            (Some(false), lang, cm, public, vars)
                        } else if node_chars(t, content, rhs) == "1"@ {
                            (Some(true), lang, cm, public, vars)
                        } else {
                            st
                        },
                    }
                }
            } else if k == "call_method_keyword"@ {
                if cm is None { (pb, lang, Some(CodeMode::Call), public, vars) } else { st }
            } else if k == "method_keyword_codemode_expression"@ {
                if cm is None { (pb, lang, Some(CodeMode::Expression), public, vars) } else { st }
            } else if k == kinds.codemode@ {
                if cm is Some {
                    st
                } else {
                    match nth_child(t, kw, 1) {
                        None => st,
                        Some(v) => if !readable(t, content, v) {
                            st
                        } else if eq_ignore_case_bytes(node_bytes(t, content, v), "code".spec_bytes()) {
                            (pb, lang, Some(CodeMode::Code), public, vars)
                        } else if eq_ignore_case_bytes(node_bytes(t, content, v), "objectgenerator".spec_bytes()) {
                            (pb, lang, Some(CodeMode::ObjectGenerator), public, vars)
                        } else {
                            st
                        },
                    }
                }
            } else if k == "method_keyword_language"@ {
                if lang is Some {
                    st
                } else {
                    match nth_child(t, kw, 1) {
                        None => st,
                        Some(v) => if !readable(t, content, v) {
                            st
                        } else if eq_ignore_case_bytes(node_bytes(t, content, v), "tsql".spec_bytes()) {
                            (pb, Some(Language::TSql), cm, public, vars)
                        } else if eq_ignore_case_bytes(node_bytes(t, content, v), "python".spec_bytes()) {
                            (pb, Some(Language::Python), cm, public, vars)
                        } else if eq_ignore_case_bytes(node_bytes(t, content, v), "ispl".spec_bytes()) {
                            (pb, Some(Language::ISpl), cm, public, vars)
                        } else {
                            st
                        },
                    }
                }
            } else if k == kinds.language@ {
                if lang is None { (pb, Some(Language::Objectscript), cm, public, vars) } else { st }
            } else if k == kinds.private@ {
                (pb, lang, cm, false, vars)
            } else if k == kinds.public_list@ {
                (pb, lang, cm, public, vars + public_list_nodes(t, content, kw, t.nodes@[kw].child_count as int))
            } else {
                st
            }
        },
    }
}

/// The keyword state after reading the first `i` keyword nodes of `method_keywords` node
/// `node`.
pub open spec fn keywords_state(t: SyntaxTree, content: &str, kinds: MethodKeywordKinds, node: int, i: int) -> KeywordState
    decreases i,
{
    if i <= 0 {
        (None, None, None, true, Seq::empty())
    } else {
        keyword_step(t, content, kinds, keywords_state(t, content, kinds, node, i - 1), child_of(t, node, i - 1))
    }
}

/// `r` is what the keyword state `st` declares: CodeMode `Code` when unset, and the texts of
/// the `PublicList` name nodes.
pub open spec fn keywords_declare(t: SyntaxTree, content: &str, st: KeywordState, r: MethodKeywords) -> bool {
    &&& r.0 == st.0
    &&& r.1 == st.1
    &&& r.2 == (if st.2 is None { Some(CodeMode::Code) } else { st.2 })
    &&& r.3 == st.3
    &&& r.4@.len() == st.4.len()
    &&& forall|j: int| 0 <= j < r.4@.len() ==> node_text_ok(t, content, st.4[j], Some(#[trigger] r.4@[j]))
}

/// Reads the keywords of a `method_keywords` node, given the grammar's kinds of the keywords
/// looked up by name.
pub fn method_keywords_with(tree: &SyntaxTree, node: usize, content: &str, kinds: &MethodKeywordKinds) -> (r: MethodKeywords)
    requires
        tree_wf(*tree),
        node < tree.nodes@.len(),
    ensures
        keywords_declare(*tree, content, keywords_state(*tree, content, *kinds, node as int, tree.nodes@[node as int].child_count as int), r),
{
    proof {
        reveal_strlit("0");
        reveal_strlit("1");
    }
    let mut is_procedure_block: Option<bool> = None;
    let mut is_public = true;
    let mut public_variables: Vec<String> = Vec::new();
    let mut codemode: Option<CodeMode> = None;
    let mut language: Option<Language> = None;
    let children = tree.named_children(node);
    let ghost mut vars: Seq<int> = Seq::empty();
    let mut i: usize = 0;
    while i < children.len()
        invariant
            tree_wf(*tree),
            node < tree.nodes@.len(),
            children@.len() == tree.nodes@[node as int].child_count,
            forall|m: int| 0 <= m < children@.len() ==> #[trigger] children@[m] == child_of(*tree, node as int, m),
            forall|m: int| 0 <= m < children@.len() ==> node < #[trigger] children@[m] < tree.nodes@.len(),
            i <= children@.len(),
            keywords_state(*tree, content, *kinds, node as int, i as int) == (is_procedure_block, language, codemode, is_public, vars),
            public_variables@.len() == vars.len(),
            forall|j: int| 0 <= j < public_variables@.len() ==> node_text_ok(*tree, content, vars[j], Some(#[trigger] public_variables@[j])),
        decreases children@.len() - i,
    {
        let child = children[i];
        i = i + 1;
        let keyword = match tree.named_child(child, 0) {
            Some(k) => k,
            None => continue,
        };
        if tree.is_kind(keyword, kinds.procedure_block.as_str()) {
            if is_procedure_block.is_some() {
                continue;
            }
            let count = tree.named_child_count(keyword);
            if count == 1 {
                is_procedure_block = Some(true);
            } else {
                let rhs = match tree.named_child(keyword, 1) {
                    Some(n) => n,
                    None => continue,
                };
                let text = match tree.node_text(content, rhs) {
                    Some(t) => t,
                    None => continue,
                };
                proof {
                    lemma_node_text_chars(*tree, content, rhs as int, text);
                }
                if str_eq(text.as_str(), "0") {
                    is_procedure_block = Some(false);
                } else if str_eq(text.as_str(), "1") {
                    is_procedure_block = Some(true);
                }
            }
        } else if tree.is_kind(keyword, "call_method_keyword") {
            if codemode.is_none() {
                codemode = Some(CodeMode::Call);
            }
        } else if tree.is_kind(keyword, "method_keyword_codemode_expression") {
            if codemode.is_none() {
                codemode = Some(CodeMode::Expression);
            }
        } else if tree.is_kind(keyword, kinds.codemode.as_str()) {
            if codemode.is_some() {
                continue;
            }
            let value = match tree.named_child(keyword, 1) {
                Some(v) => v,
                None => continue,
            };
            let text = match tree.node_text(content, value) {
                Some(t) => t,
                None => continue,
            };
            proof {
                lemma_node_text_chars(*tree, content, value as int, text);
            }
            if eq_ignore_ascii_case(text.as_str(), "code") {
                codemode = Some(CodeMode::Code);
            } else if eq_ignore_ascii_case(text.as_str(), "objectgenerator") {
                codemode = Some(CodeMode::ObjectGenerator);
            }
        } else if tree.is_kind(keyword, "method_keyword_language") {
            if language.is_some() {
                continue;
            }
            let value = match tree.named_child(keyword, 1) {
                Some(v) => v,
                None => continue,
            };
            let text = match tree.node_text(content, value) {
                Some(t) => t,
                None => continue,
            };
            proof {
                lemma_node_text_chars(*tree, content, value as int, text);
            }
            if eq_ignore_ascii_case(text.as_str(), "tsql") {
                language = Some(Language::TSql);
            } else if eq_ignore_ascii_case(text.as_str(), "python") {
                language = Some(Language::Python);
            } else if eq_ignore_ascii_case(text.as_str(), "ispl") {
                language = Some(Language::ISpl);
            }
        } else if tree.is_kind(keyword, kinds.language.as_str()) {
            if language.is_none() {
                language = Some(Language::Objectscript);
            }
        } else if tree.is_kind(keyword, kinds.private.as_str()) {
            is_public = false;
        } else if tree.is_kind(keyword, kinds.public_list.as_str()) {
            let names = tree.named_children(keyword);
            let ghost vars0 = vars;
            let ghost len0 = public_variables@.len();
            let mut k: usize = 1;
            if names.len() > 0 {
                while k < names.len()
                    invariant
                        tree_wf(*tree),
                        keyword < tree.nodes@.len(),
                        names@.len() == tree.nodes@[keyword as int].child_count,
                        forall|m: int| 0 <= m < names@.len() ==> #[trigger] names@[m] == child_of(*tree, keyword as int, m),
                        forall|m: int| 0 <= m < names@.len() ==> #[trigger] names@[m] < tree.nodes@.len(),
                        1 <= k <= names@.len(),
                        vars == vars0 + public_list_nodes(*tree, content, keyword as int, k as int),
                        public_variables@.len() == vars.len(),
                        forall|j: int| 0 <= j < public_variables@.len() ==> node_text_ok(*tree, content, vars[j], Some(#[trigger] public_variables@[j])),
                    decreases names@.len() - k,
                {
                    match tree.node_text(content, names[k]) {
                        Some(t) => {
                            public_variables.push(t);
                            proof {
                                vars = vars.push(names@[k as int] as int);
                                assert(vars0 + public_list_nodes(*tree, content, keyword as int, k + 1) =~= (vars0 + public_list_nodes(*tree, content, keyword as int, k as int)).push(names@[k as int] as int));
                            }
                        },
                        None => {},
                    }
                    k = k + 1;
                }
            }
        }
    }
    if codemode.is_none() {
        codemode = Some(CodeMode::Code);
    }
    (is_procedure_block, language, codemode, is_public, public_variables)
}

/// `kind` is the node kind that looking up `filter` among the children of `keyword_type` in
/// the node-types description `node_types` gives (see `keyword_from`).
pub open spec fn kind_lookup_ok(node_types: Seq<char>, kind: Seq<char>, keyword_type: Seq<char>, filter: Seq<char>) -> bool {
    kind == keyword_lookup(node_types, keyword_type, encode_utf8(filter))
}

/// The method keyword kinds are those of the ProcedureBlock, Private, PublicList, Language and
/// CodeMode keywords in the node-types description `node_types`.
pub open spec fn method_kinds_from(node_types: Seq<char>, kinds: MethodKeywordKinds) -> bool {
    &&& kind_lookup_ok(node_types, kinds.procedure_block@, "method_keyword"@, "procedure"@)
    &&& kind_lookup_ok(node_types, kinds.private@, "method_keyword"@, "private"@)
    &&& kind_lookup_ok(node_types, kinds.public_list@, "method_keyword"@, "public_list"@)
    &&& kind_lookup_ok(node_types, kinds.language@, "method_keyword"@, "language"@)
    &&& kind_lookup_ok(node_types, kinds.codemode@, "method_keyword"@, "codemode"@)
}

/// The method keyword kinds are all read from one node-types description.
pub open spec fn method_kinds_ok(kinds: MethodKeywordKinds) -> bool {
    exists|node_types: Seq<char>| #[trigger] method_kinds_from(node_types, kinds)
}

/// The node kinds of the method keywords in the node-types description `node_types`.
pub fn method_keyword_kinds(node_types: &str) -> (kinds: MethodKeywordKinds)
    ensures
        method_kinds_from(node_types@, kinds),
{
    let procedure_block = keyword_from(node_types, "method_keyword", "procedure");
    let private = keyword_from(node_types, "method_keyword", "private");
    let public_list = keyword_from(node_types, "method_keyword", "public_list");
    let language = keyword_from(node_types, "method_keyword", "language");
    let codemode = keyword_from(node_types, "method_keyword", "codemode");
    MethodKeywordKinds { procedure_block, private, public_list, language, codemode }
}

/// Parses a `method_keywords` node, with the grammar's node kinds of the ProcedureBlock,
/// Private, PublicList, Language and CodeMode keywords looked up in its node types (see
/// `method_keywords_with`).
///
/// A keyword given twice keeps its first value; ProcedureBlock accepts `0` and `1`, CodeMode
/// `code` and `objectgenerator` (or the call and expression forms), Language `tsql`,
/// `python`, `ispl` or ObjectScript; other values are skipped.
pub fn handle_method_keywords(tree: &SyntaxTree, node: usize, content: &str) -> (r: Option<
    MethodKeywords,
>)
    requires
        tree_wf(*tree),
        node < tree.nodes@.len(),
    ensures
        r is Some,
        exists|kinds: MethodKeywordKinds| {
            &&& method_kinds_ok(kinds)
            &&& keywords_declare(*tree, content, #[trigger] keywords_state(*tree, content, kinds, node as int, tree.nodes@[node as int].child_count as int), r->0)
        },
{
    let node_types = grammar_node_types();
    let kinds = method_keyword_kinds(node_types);
    assert(method_kinds_from(node_types@, kinds));
    let r = method_keywords_with(tree, node, content, &kinds);
    proof {
        assert(keywords_declare(*tree, content, keywords_state(*tree, content, kinds, node as int, tree.nodes@[node as int].child_count as int), r));
    }
    Some(r)
}

} // verus!
