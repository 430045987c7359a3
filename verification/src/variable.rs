use crate::calls::{nth_child, readable};
use crate::expressions::{
    collect_refs, expression_sources, find_return_type, find_var_type_from_expression, known_return_type,
    lemma_atom_kinds_distinct, property_ref_names, source_gives, sources_give, var_ref_names, TypeSource,
};
use crate::parse_structures::{ReturnType, TextRange, VarType, Variable};
use crate::syntax::{child_of, lemma_node_text_chars, node_chars, tree_wf, SyntaxTree};
use vstd::prelude::*;

verus! {

/// A discovered variable with its definition range and the variable and property names its
/// definition refers to.
pub type VariableDef = (Variable, TextRange, Vec<String>, Vec<String>);

impl Variable {
    /// A `Variable` with an optional declared argument type and the inferred expression types.
    pub fn new(var_name: String, arg_type: Option<ReturnType>, var_type: Vec<VarType>, is_public: bool) -> (r: Self)
        ensures
            r.name@ == var_name@,
            r.arg_type == arg_type,
            r.var_type@ == var_type@,
            r.is_public == is_public,
    {
        Variable { name: var_name, arg_type, var_type, is_public }
    }
}

/// The variable names (`gvn`, `lvn`) that the types given by `srcs` refer to, in order.
pub open spec fn source_var_names(t: SyntaxTree, content: &str, srcs: Seq<TypeSource>) -> Seq<Seq<char>>
    decreases srcs.len(),
{
    if srcs.len() == 0 {
        Seq::empty()
    } else {
        let prev = source_var_names(t, content, srcs.drop_last());
        let (n, gvn) = srcs.last();
        if gvn {
            prev.push(node_chars(t, content, n))
        } else {
            match nth_child(t, n, 0) {
                Some(c) => if t.nodes@[c].kind@ == "gvn"@ || t.nodes@[c].kind@ == "lvn"@ {
                    prev.push(node_chars(t, content, c))
                } else {
                    prev
                },
                None => prev,
            }
        }
    }
}

/// The instance-property names that the types given by `srcs` refer to, in order.
pub open spec fn source_property_names(t: SyntaxTree, content: &str, srcs: Seq<TypeSource>) -> Seq<Seq<char>>
    decreases srcs.len(),
{
    if srcs.len() == 0 {
        Seq::empty()
    } else {
        let prev = source_property_names(t, content, srcs.drop_last());
        let (n, gvn) = srcs.last();
        if gvn {
            prev
        } else {
            match nth_child(t, n, 0) {
                Some(c) => if t.nodes@[c].kind@ == "instance_variable"@ {
                    match nth_child(t, c, 0) {
                        Some(m) => prev.push(node_chars(t, content, m)),
                        None => prev,
                    }
                } else {
                    prev
                },
                None => prev,
            }
        }
    }
}

/// The names that types refer to are those that their sources name.
pub proof fn lemma_ref_names_of_sources(t: SyntaxTree, content: &str, srcs: Seq<TypeSource>, vs: Seq<VarType>)
    requires
        sources_give(t, content, srcs, vs),
    ensures
        var_ref_names(vs) == source_var_names(t, content, srcs),
        property_ref_names(vs) == source_property_names(t, content, srcs),
    decreases srcs.len(),
{
    lemma_atom_kinds_distinct();
    if srcs.len() > 0 {
        let k = srcs.len() - 1;
        assert(source_gives(t, content, srcs[k], vs[k]));
        assert(sources_give(t, content, srcs.drop_last(), vs.drop_last())) by {
            assert forall|j: int| 0 <= j < vs.drop_last().len() implies source_gives(t, content, srcs.drop_last()[j], #[trigger] vs.drop_last()[j]) by {
                assert(source_gives(t, content, srcs[j], vs[j]));
            }
        }
        lemma_ref_names_of_sources(t, content, srcs.drop_last(), vs.drop_last());
        let (n, gvn) = srcs.last();
        if gvn {
            match vs.last() {
                VarType::Gvn(s) => lemma_node_text_chars(t, content, n, s),
                _ => {},
            }
        } else {
            match nth_child(t, n, 0) {
                Some(c) => match vs.last() {
                    VarType::Gvn(s) => lemma_node_text_chars(t, content, c, s),
                    VarType::Lvn(s) => lemma_node_text_chars(t, content, c, s),
                    VarType::InstanceVariable(s) => match nth_child(t, c, 0) {
                        Some(m) => lemma_node_text_chars(t, content, m, s),
                        None => {},
                    },
                    _ => {},
                },
                None => {},
            }
        }
    }
}

/// Builds a `Variable` from the right-hand side of a `set` argument: its types are those
/// found in the expression `node`, and the names they refer to are returned beside it.
pub fn build_variable_from_set_argument_rhs(
    tree: &SyntaxTree,
    node: usize,
    var_name: String,
    content: &str,
    is_public: bool,
    var_range: TextRange,
) -> (r: VariableDef)
    requires
        tree_wf(*tree),
        node < tree.nodes@.len(),
    ensures
        r.0.name@ == var_name@,
        r.0.arg_type is None,
        r.0.is_public == is_public,
        sources_give(*tree, content, expression_sources(*tree, content, node as int), r.0.var_type@),
        r.1 == var_range,
        r.2@.map_values(|s: String| s@) == var_ref_names(r.0.var_type@),
        r.3@.map_values(|s: String| s@) == property_ref_names(r.0.var_type@),
        r.2@.map_values(|s: String| s@) == source_var_names(*tree, content, expression_sources(*tree, content, node as int)),
        r.3@.map_values(|s: String| s@) == source_property_names(*tree, content, expression_sources(*tree, content, node as int)),
{
    let argument_value = find_var_type_from_expression(tree, node, content);
    let (var_refs, property_refs) = collect_refs(&argument_value);
    proof {
        lemma_ref_names_of_sources(*tree, content, expression_sources(*tree, content, node as int), argument_value@);
    }
    (Variable::new(var_name, None, argument_value, is_public), var_range, var_refs, property_refs)
}

/// `r` is the return type that the type name `name` denotes (see `find_return_type`).
pub open spec fn return_type_named(name: Seq<char>, r: Option<ReturnType>) -> bool {
    match known_return_type(name) {
        Some(k) => r == Some(k),
        None => r matches Some(ReturnType::Other(s)) && s@ == name,
    }
}

/// A string default agrees with the type named by node `ty`, if any.
pub open spec fn agrees_with_string(t: SyntaxTree, content: &str, ty: Option<int>) -> bool {
    match ty {
        None => true,
        Some(n) => known_return_type(node_chars(t, content, n)) == Some(ReturnType::String),
    }
}

/// A numeric default agrees with the type named by node `ty`, if any.
pub open spec fn agrees_with_number(t: SyntaxTree, content: &str, ty: Option<int>) -> bool {
    match ty {
        None => true,
        Some(n) => {
            let k = known_return_type(node_chars(t, content, n));
            k == Some(ReturnType::Number) || k == Some(ReturnType::Integer) || k == Some(ReturnType::TinyInteger)
        },
    }
}

/// What reading a method argument has found so far: the node naming its type, the default
/// expression whose types it holds, the literal defaults found after it (`true` for a
/// string, `false` for a number), and the sources of every default expression read.
pub type ArgumentState = (Option<int>, Option<int>, Seq<bool>, Seq<TypeSource>);

/// The argument state after reading child `child` of a method argument: an `argument_type`
/// names the type (when readable); a `default_argument_value` with a readable first child adds
/// a string or numeric literal that agrees with the type, or replaces the types with those
/// of an expression default. Anything else changes nothing.
pub open spec fn argument_step(t: SyntaxTree, content: &str, st: ArgumentState, child: int) -> ArgumentState {
    let (ty, expr, consts, refs) = st;
    let k = t.nodes@[child].kind@;
    if k == "argument_type"@ {
        match nth_child(t, child, 1) {
            None => st,
            Some(n) => if readable(t, content, n) {
                (Some(n), expr, consts, refs)
            } else {
                st
            },
        }
    } else if k == "default_argument_value"@ {
        match nth_child(t, child, 0) {
            None => st,
            Some(a) => if !readable(t, content, a) {
                st
            } else if t.nodes@[a].kind@ == "string_literal"@ {
                if agrees_with_string(t, content, ty) {
                    (ty, expr, consts.push(true), refs)
                } else {
                    st
                }
            } else if t.nodes@[a].kind@ == "numeric_literal"@ {
                if agrees_with_number(t, content, ty) {
                    (ty, expr, consts.push(false), refs)
                } else {
                    st
                }
            } else if t.nodes@[a].kind@ == "expression"@ {
                (ty, Some(child), Seq::empty(), refs + expression_sources(t, content, child))
            } else {
                st
            },
        }
    } else {
        st
    }
}

/// The argument state after reading the named children `1 .. i` of argument node `node`.
pub open spec fn argument_state(t: SyntaxTree, content: &str, node: int, i: int) -> ArgumentState
    decreases i,
{
    if i <= 1 {
        (None, None, Seq::empty(), Seq::empty())
    } else {
        argument_step(t, content, argument_state(t, content, node, i - 1), child_of(t, node, i - 1))
    }
}

/// The types of literal defaults: `String` for `true`, `Number` for `false`.
pub open spec fn literal_types(consts: Seq<bool>) -> Seq<VarType> {
    consts.map_values(|b: bool| if b { VarType::String } else { VarType::Number })
}

/// `r` is the variable (with its reference names) that the argument state `st` describes.
pub open spec fn argument_describes(t: SyntaxTree, content: &str, st: ArgumentState, r: VariableDef) -> bool {
    let (ty, expr, consts, refs) = st;
    let srcs = match expr {
        Some(e) => expression_sources(t, content, e),
        None => Seq::<TypeSource>::empty(),
    };
    let vs = r.0.var_type@;
    &&& match ty {
        None => r.0.arg_type is None,
        Some(n) => return_type_named(node_chars(t, content, n), r.0.arg_type),
    }
    &&& vs.len() == srcs.len() + consts.len()
    &&& sources_give(t, content, srcs, vs.take(srcs.len() as int))
    &&& vs.skip(srcs.len() as int) == literal_types(consts)
    &&& r.2@.map_values(|s: String| s@) == source_var_names(t, content, refs)
    &&& r.3@.map_values(|s: String| s@) == source_property_names(t, content, refs)
}

proof fn lemma_names_concat(t: SyntaxTree, content: &str, a: Seq<TypeSource>, b: Seq<TypeSource>)
    ensures
        source_var_names(t, content, a + b) == source_var_names(t, content, a) + source_var_names(t, content, b),
        source_property_names(t, content, a + b) == source_property_names(t, content, a) + source_property_names(t, content, b),
    decreases b.len(),
{
    if b.len() == 0 {
        assert(a + b =~= a);
    } else {
        lemma_names_concat(t, content, a, b.drop_last());
        assert((a + b).drop_last() =~= a + b.drop_last());
        assert((a + b).last() == b.last());
    }
}

/// Parses a method argument node into a `Variable`: its declared type (`argument_type`) and
/// the types of its default value (a string or numeric literal that agrees with the declared
/// type, or an expression, whose referenced names are returned beside it).
pub fn build_variable_from_argument(
    tree: &SyntaxTree,
    node: usize,
    var_name: String,
    content: &str,
    is_public: bool,
    var_name_range: TextRange,
) -> (r: VariableDef)
    requires
        tree_wf(*tree),
        node < tree.nodes@.len(),
    ensures
        r.0.name@ == var_name@,
        r.0.is_public == is_public,
        r.1 == var_name_range,
        argument_describes(*tree, content, argument_state(*tree, content, node as int, tree.nodes@[node as int].child_count as int), r),
{
    let ghost t = *tree;
    let children = tree.named_children(node);
    let mut argument_type: Option<ReturnType> = None;
    let mut argument_value: Vec<VarType> = Vec::new();
    let mut var_refs: Vec<String> = Vec::new();
    let mut property_refs: Vec<String> = Vec::new();
    let ghost mut ty: Option<int> = None;
    let ghost mut expr: Option<int> = None;
    let ghost mut consts: Seq<bool> = Seq::empty();
    let ghost mut refs: Seq<TypeSource> = Seq::empty();
    let mut i: usize = 1;
    proof {
        assert(var_refs@.map_values(|s: String| s@) =~= Seq::<Seq<char>>::empty());
        assert(property_refs@.map_values(|s: String| s@) =~= Seq::<Seq<char>>::empty());
        assert(argument_value@.take(0) =~= Seq::<VarType>::empty());
        assert(argument_value@.skip(0) =~= literal_types(Seq::empty()));
    }
    if children.len() == 0 {
        return (Variable::new(var_name, argument_type, argument_value, is_public), var_name_range, var_refs, property_refs);
    }
    while i < children.len()
        invariant
            t == *tree,
            tree_wf(*tree),
            node < tree.nodes@.len(),
            children@.len() == tree.nodes@[node as int].child_count,
            forall|m: int| 0 <= m < children@.len() ==> #[trigger] children@[m] == child_of(*tree, node as int, m),
            forall|m: int| 0 <= m < children@.len() ==> #[trigger] children@[m] < tree.nodes@.len(),
            1 <= i <= children@.len(),
            argument_state(t, content, node as int, i as int) == (ty, expr, consts, refs),
            argument_describes(t, content, (ty, expr, consts, refs), (
                Variable { name: var_name, arg_type: argument_type, var_type: argument_value, is_public },
                var_name_range,
                var_refs,
                property_refs,
            )),
        decreases children@.len() - i,
    {
        let child = children[i];
        i = i + 1;
        if tree.is_kind(child, "argument_type") {
            let type_name_node = match tree.named_child(child, 1) {
                Some(n) => n,
                None => continue,
            };
            match tree.node_text(content, type_name_node) {
                Some(typename) => {
                    proof {
                        lemma_node_text_chars(t, content, type_name_node as int, typename);
                        ty = Some(type_name_node as int);
                    }
                    argument_type = find_return_type(typename);
                },
                None => continue,
            }
        } else if tree.is_kind(child, "default_argument_value") {
            let arg_content_node = match tree.named_child(child, 0) {
                Some(n) => n,
                None => continue,
            };
            if tree.node_text(content, arg_content_node).is_none() {
                continue;
            }
            let ghost srcs = match expr {
                Some(e) => expression_sources(t, content, e),
                None => Seq::<TypeSource>::empty(),
            };
            if tree.is_kind(arg_content_node, "string_literal") {
                let agrees = match &argument_type {
                    Some(a) => matches!(a, ReturnType::String),
                    None => true,
                };
                if !agrees {
                    continue;
                }
                let ghost v0 = argument_value@;
                let ghost c0 = consts;
                assert(v0.len() == srcs.len() + c0.len());
                argument_value.push(VarType::String);
                proof {
                    consts = consts.push(true);
                    assert(argument_value@.take(srcs.len() as int) =~= v0.take(srcs.len() as int));
                    assert(argument_value@.skip(srcs.len() as int) =~= v0.skip(srcs.len() as int).push(VarType::String));
                    assert(literal_types(consts) =~= literal_types(c0).push(VarType::String));
                }
            } else if tree.is_kind(arg_content_node, "numeric_literal") {
                let agrees = match &argument_type {
                    Some(a) => matches!(a, ReturnType::Number) || matches!(a, ReturnType::Integer)
                        || matches!(a, ReturnType::TinyInteger),
                    None => true,
                };
                if !agrees {
                    continue;
                }
                let ghost v0 = argument_value@;
                let ghost c0 = consts;
                assert(v0.len() == srcs.len() + c0.len());
                argument_value.push(VarType::Number);
                proof {
                    consts = consts.push(false);
                    assert(argument_value@.take(srcs.len() as int) =~= v0.take(srcs.len() as int));
                    assert(argument_value@.skip(srcs.len() as int) =~= v0.skip(srcs.len() as int).push(VarType::Number));
                    assert(literal_types(consts) =~= literal_types(c0).push(VarType::Number));
                }
            } else if tree.is_kind(arg_content_node, "expression") {
                argument_value = find_var_type_from_expression(tree, child, content);
                let (mut more_vars, mut more_props) = collect_refs(&argument_value);
                proof {
                    lemma_ref_names_of_sources(t, content, expression_sources(t, content, child as int), argument_value@);
                    lemma_names_concat(t, content, refs, expression_sources(t, content, child as int));
                }
                let ghost vr0 = var_refs@;
                let ghost pr0 = property_refs@;
                let ghost mv = more_vars@;
                let ghost mp = more_props@;
                var_refs.append(&mut more_vars);
                property_refs.append(&mut more_props);
                proof {
                    assert(var_refs@.map_values(|s: String| s@) =~= vr0.map_values(|s: String| s@) + mv.map_values(|s: String| s@));
                    assert(property_refs@.map_values(|s: String| s@) =~= pr0.map_values(|s: String| s@) + mp.map_values(|s: String| s@));
                    expr = Some(child as int);
                    consts = Seq::empty();
                    refs = refs + expression_sources(t, content, child as int);
                    assert(argument_value@.take(argument_value@.len() as int) =~= argument_value@);
                    assert(argument_value@.skip(argument_value@.len() as int) =~= literal_types(Seq::empty()));
                }
            }
        }
    }
    (
        Variable::new(var_name, argument_type, argument_value, is_public),
        var_name_range,
        var_refs,
        property_refs,
    )
}

} // verus!
