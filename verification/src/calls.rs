use crate::maps::AssocMap;
use crate::override_index::OverrideIndex;
use crate::parse_structures::{ClassId, MethodCallSite, PublicMethodRef, TextRange, UnresolvedCallSite};
use crate::syntax::{child_of, node_text_ok, tree_wf, SyntaxTree};
use crate::text::byte_range_ok;
use vstd::string::StringSliceAdditionalSpecFns;
use vstd::prelude::*;

verus! {

/// The ranges of the named children of node `n`.
pub open spec fn child_ranges(t: SyntaxTree, n: int) -> Seq<TextRange> {
    Seq::new(t.nodes@[n].child_count as nat, |k: int| t.nodes@[child_of(t, n, k)].range)
}

/// The argument ranges of a call whose argument list is node `args`, if any.
pub open spec fn args_ranges(t: SyntaxTree, args: Option<int>) -> Seq<TextRange> {
    match args {
        Some(a) => child_ranges(t, a),
        None => Seq::empty(),
    }
}

/// The text of node `n` can be read from `content`.
pub open spec fn readable(t: SyntaxTree, content: &str, n: int) -> bool {
    let range = t.nodes@[n].range;
    byte_range_ok(content.spec_bytes(), range.start_byte as int, range.end_byte as int)
}

/// The `k`-th named child of `n`, when `n` has one.
pub open spec fn nth_child(t: SyntaxTree, n: int, k: int) -> Option<int> {
    if 0 <= k < t.nodes@[n].child_count {
        Some(child_of(t, n, k))
    } else {
        None
    }
}

/// The call that a method-body statement makes, as nodes: the node naming the class (`None`
/// for a relative-dot call on the current class), the node naming the method, the range of
/// the call and the argument-list node. A `do ##class(C).M(args)` statement gives the class
/// name node, the method node and the arguments; a `do ..M(args)` statement (a single
/// relative-dot segment) the method node and its arguments. `None` for any other statement,
/// or when a name cannot be read.
pub open spec fn statement_call(t: SyntaxTree, content: &str, statement: int) -> Option<(Option<int>, int, TextRange, Option<int>)> {
    match nth_child(t, statement, 0) {
        None => None,
        Some(cmd) => if t.nodes@[cmd].kind@ != "command_do"@ {
            None
        } else {
            match nth_child(t, cmd, 1) {
                None => None,
                Some(d) => if t.nodes@[d].kind@ == "class_method_call"@ {
                    match nth_child(t, d, 0) {
                        None => None,
                        Some(class_ref) => match nth_child(t, class_ref, 1) {
                            None => None,
                            Some(name) => if !readable(t, content, name) {
                                None
                            } else {
                                match nth_child(t, d, 1) {
                                    None => None,
                                    Some(m) => if !readable(t, content, m) {
                                        None
                                    } else {
                                        Some((Some(name), m, t.nodes@[d].range, nth_child(t, d, 2)))
                                    },
                                }
                            },
                        },
                    }
                } else if t.nodes@[d].kind@ == "instance_method_call"@ {
                    if t.nodes@[d].child_count != 1 {
                        None
                    } else {
                        let rel = child_of(t, d, 0);
                        if t.nodes@[rel].kind@ != "relative_dot_method"@ {
                            None
                        } else {
                            match nth_child(t, rel, 0) {
                                None => None,
                                Some(o) => match nth_child(t, o, 0) {
                                    None => None,
                                    Some(m) => if !readable(t, content, m) {
                                        None
                                    } else {
                                        Some((None, m, t.nodes@[rel].range, nth_child(t, o, 1)))
                                    },
                                },
                            }
                        }
                    }
                } else {
                    None
                },
            }
        },
    }
}

/// The calls that the first `k` statements of the method body `body` make, in order.
pub open spec fn body_calls(t: SyntaxTree, content: &str, body: int, k: int) -> Seq<(Option<int>, int, TextRange, Option<int>)>
    decreases k,
{
    if k <= 0 {
        Seq::empty()
    } else {
        let before = body_calls(t, content, body, k - 1);
        match statement_call(t, content, child_of(t, body, k - 1)) {
            Some(c) => before.push(c),
            None => before,
        }
    }
}

/// The calls that the method definition `def` makes in the method bodies among its named
/// children `1 .. i`, in order.
pub open spec fn method_calls(t: SyntaxTree, content: &str, def: int, i: int) -> Seq<(Option<int>, int, TextRange, Option<int>)>
    decreases i,
{
    if i <= 1 {
        Seq::empty()
    } else {
        let before = method_calls(t, content, def, i - 1);
        let child = child_of(t, def, i - 1);
        if t.nodes@[child].kind@ == "core_method_body_content"@ {
            before + body_calls(t, content, child, t.nodes@[child].child_count as int)
        } else {
            before
        }
    }
}

/// The call site `site` records the call `call`: its class (read from the class name node, or
/// `current_class`), its method name, its range and its argument ranges.
pub open spec fn site_records(t: SyntaxTree, content: &str, current_class: Seq<char>, call: (Option<int>, int, TextRange, Option<int>), site: UnresolvedCallSite) -> bool {
    let (class_node, method_node, call_range, args) = call;
    &&& match class_node {
        Some(n) => node_text_ok(t, content, n, Some(site.callee_class)),
        None => site.callee_class@ == current_class,
    }
    &&& node_text_ok(t, content, method_node, Some(site.callee_method))
    &&& site.call_range == call_range
    &&& site.arg_ranges@ == args_ranges(t, args)
}

/// The ranges of the named children of node `args`, or none when there is no such node.
fn argument_ranges(tree: &SyntaxTree, args: Option<usize>) -> (r: Vec<TextRange>)
    requires
        tree_wf(*tree),
        args is Some ==> args->0 < tree.nodes@.len(),
    ensures
        r@ == args_ranges(*tree, match args { Some(a) => Some(a as int), None => None }),
{
    let mut ranges: Vec<TextRange> = Vec::new();
    match args {
        Some(a) => {
            let children = tree.named_children(a);
            let mut k: usize = 0;
            while k < children.len()
                invariant
                    tree_wf(*tree),
                    a < tree.nodes@.len(),
                    children@.len() == tree.nodes@[a as int].child_count,
                    forall|m: int| 0 <= m < children@.len() ==> #[trigger] children@[m] == child_of(*tree, a as int, m),
                    forall|m: int| 0 <= m < children@.len() ==> #[trigger] children@[m] < tree.nodes@.len(),
                    k <= children@.len(),
                    ranges@ =~= child_ranges(*tree, a as int).take(k as int),
                decreases children@.len() - k,
            {
                ranges.push(tree.range(children[k]));
                k = k + 1;
            }
            assert(child_ranges(*tree, a as int).take(k as int) =~= child_ranges(*tree, a as int));
        },
        None => {},
    }
    ranges
}

/// Reads the call that statement node `statement` makes, if any.
fn statement_call_site(current_class: &str, tree: &SyntaxTree, statement: usize, content: &str) -> (r: Option<UnresolvedCallSite>)
    requires
        tree_wf(*tree),
        statement < tree.nodes@.len(),
    ensures
        match statement_call(*tree, content, statement as int) {
            Some(c) => r is Some && site_records(*tree, content, current_class@, c, r->0),
            None => r is None,
        },
{
    let cmd = match tree.named_child(statement, 0) {
        Some(c) => c,
        None => return None,
    };
    if !tree.is_kind(cmd, "command_do") {
        return None;
    }
    let do_arg = match tree.named_child(cmd, 1) {
        Some(d) => d,
        None => return None,
    };
    if tree.is_kind(do_arg, "class_method_call") {
        let call_range = tree.range(do_arg);
        let class_ref = match tree.named_child(do_arg, 0) {
            Some(c) => c,
            None => return None,
        };
        let name_node = match tree.named_child(class_ref, 1) {
            Some(n) => n,
            None => return None,
        };
        let class_ref_name = match tree.node_text(content, name_node) {
            Some(s) => s,
            None => return None,
        };
        let method_node = match tree.named_child(do_arg, 1) {
            Some(m) => m,
            None => return None,
        };
        let callee_method = match tree.node_text(content, method_node) {
            Some(s) => s,
            None => return None,
        };
        let arg_ranges = argument_ranges(tree, tree.named_child(do_arg, 2));
        Some(UnresolvedCallSite { callee_class: class_ref_name, callee_method, call_range, arg_ranges })
    } else if tree.is_kind(do_arg, "instance_method_call") {
        if tree.named_child_count(do_arg) != 1 {
            return None;
        }
        let rel = match tree.named_child(do_arg, 0) {
            Some(r) => r,
            None => return None,
        };
        if !tree.is_kind(rel, "relative_dot_method") {
            return None;
        }
        let call_range = tree.range(rel);
        let oref_method = match tree.named_child(rel, 0) {
            Some(o) => o,
            None => return None,
        };
        let method_node = match tree.named_child(oref_method, 0) {
            Some(m) => m,
            None => return None,
        };
        let callee_method = match tree.node_text(content, method_node) {
            Some(s) => s,
            None => return None,
        };
        let arg_ranges = argument_ranges(tree, tree.named_child(oref_method, 1));
        Some(UnresolvedCallSite { callee_class: current_class.to_owned(), callee_method, call_range, arg_ranges })
    } else {
        None
    }
}

/// Scans a method definition for calls to resolve later:
/// `do ##class(Some.Class).Method(args...)` calls, and `do ..Method(args...)` calls on
/// `current_class` (a single relative-dot segment). Each comes with the range of the call
/// and the ranges of its arguments; other commands and call forms are skipped.
pub fn build_method_calls(current_class: &str, tree: &SyntaxTree, method_definition_node: usize, content: &str) -> (out: Vec<UnresolvedCallSite>)
    requires
        tree_wf(*tree),
        method_definition_node < tree.nodes@.len(),
    ensures
        ({
            let calls = method_calls(*tree, content, method_definition_node as int, tree.nodes@[method_definition_node as int].child_count as int);
            &&& out@.len() == calls.len()
            &&& forall|j: int| 0 <= j < out@.len() ==> site_records(*tree, content, current_class@, calls[j], #[trigger] out@[j])
        }),
{
    let mut out: Vec<UnresolvedCallSite> = Vec::new();
    let children = tree.named_children(method_definition_node);
    let ghost def = method_definition_node as int;
    let mut i: usize = 1;
    if children.len() == 0 {
        return out;
    }
    while i < children.len()
        invariant
            tree_wf(*tree),
            method_definition_node < tree.nodes@.len(),
            children@.len() == tree.nodes@[def].child_count,
            forall|m: int| 0 <= m < children@.len() ==> #[trigger] children@[m] == child_of(*tree, def, m),
            forall|m: int| 0 <= m < children@.len() ==> #[trigger] children@[m] < tree.nodes@.len(),
            1 <= i <= children@.len(),
            out@.len() == method_calls(*tree, content, def, i as int).len(),
            forall|j: int| 0 <= j < out@.len() ==> site_records(*tree, content, current_class@, method_calls(*tree, content, def, i as int)[j], #[trigger] out@[j]),
        decreases children@.len() - i,
    {
        let child = children[i];
        i = i + 1;
        if !tree.is_kind(child, "core_method_body_content") {
            continue;
        }
        let ghost prefix = method_calls(*tree, content, def, i - 1);
        let ghost base_len = out@.len();
        let statements = tree.named_children(child);
        let mut k: usize = 0;
        while k < statements.len()
            invariant
                tree_wf(*tree),
                child < tree.nodes@.len(),
                statements@.len() == tree.nodes@[child as int].child_count,
                forall|m: int| 0 <= m < statements@.len() ==> #[trigger] statements@[m] == child_of(*tree, child as int, m),
                forall|m: int| 0 <= m < statements@.len() ==> #[trigger] statements@[m] < tree.nodes@.len(),
                k <= statements@.len(),
                base_len == prefix.len(),
                out@.len() == prefix.len() + body_calls(*tree, content, child as int, k as int).len(),
                forall|j: int| 0 <= j < out@.len() ==> site_records(*tree, content, current_class@,
                    (prefix + body_calls(*tree, content, child as int, k as int))[j], #[trigger] out@[j]),
            decreases statements@.len() - k,
        {
            let statement = statements[k];
            let ghost before = body_calls(*tree, content, child as int, k as int);
            k = k + 1;
            match statement_call_site(current_class, tree, statement, content) {
                Some(site) => {
                    out.push(site);
                    proof {
                        assert((prefix + before.push(statement_call(*tree, content, statement as int)->0)) =~= (prefix + before).push(statement_call(*tree, content, statement as int)->0));
                    }
                },
                None => {},
            }
        }
    }
    out
}

/// The public method that a call of `method` on class `class` resolves to: the class is
/// looked up by name, then the method in the class's effective public methods.
pub open spec fn resolve_call(
    classes_map: Map<Seq<char>, ClassId>,
    idx: OverrideIndex,
    class: Seq<char>,
    method: Seq<char>,
) -> Option<PublicMethodRef> {
    if classes_map.contains_key(class) && idx.effective_public_methods@.contains_key(classes_map[class])
        && idx.effective_public_methods@[classes_map[class]]@.contains_key(method) {
        Some(idx.effective_public_methods@[classes_map[class]]@[method])
    } else {
        None
    }
}

/// Resolves call sites found in method `method_name`: each keeps its callee names and ranges
/// and gets the public method it calls, when the class is known and sees a public method of
/// that name.
pub fn build_method_calls_from_unresolved(
    classes_map: &AssocMap<String, ClassId>,
    idx: &OverrideIndex,
    unresolved_call_site: Vec<UnresolvedCallSite>,
    method_name: String,
) -> (sites: Vec<MethodCallSite>)
    ensures
        sites@.len() == unresolved_call_site@.len(),
        forall|i: int| 0 <= i < sites@.len() ==> {
            let s = #[trigger] sites@[i];
            let u = unresolved_call_site@[i];
            &&& s.caller_method@ == method_name@
            &&& s.callee_class == u.callee_class
            &&& s.callee_method == u.callee_method
            &&& s.call_range == u.call_range
            &&& s.arg_ranges == u.arg_ranges
            &&& s.callee_symbol == resolve_call(classes_map@, *idx, u.callee_class@, u.callee_method@)
        },
{
    let ghost calls = unresolved_call_site@;
    let mut remaining = unresolved_call_site;
    let mut reversed: Vec<MethodCallSite> = Vec::new();
    let n = remaining.len();
    while remaining.len() > 0
        invariant
            n == calls.len(),
            remaining@ == calls.take(remaining@.len() as int),
            reversed@.len() + remaining@.len() == n,
            forall|j: int| 0 <= j < reversed@.len() ==> {
                let s = #[trigger] reversed@[j];
                let u = calls[n - 1 - j];
                &&& s.caller_method@ == method_name@
                &&& s.callee_class == u.callee_class
                &&& s.callee_method == u.callee_method
                &&& s.call_range == u.call_range
                &&& s.arg_ranges == u.arg_ranges
                &&& s.callee_symbol == resolve_call(classes_map@, *idx, u.callee_class@, u.callee_method@)
            },
        decreases remaining@.len(),
    {
        let call = remaining.pop().unwrap();
        let callee_symbol = match classes_map.get(&call.callee_class) {
            Some(class_id) => match idx.effective_public_methods.get(class_id) {
                Some(table) => match table.get(&call.callee_method) {
                    Some(r) => Some(*r),
                    None => None,
                },
                None => None,
            },
            None => None,
        };
        reversed.push(MethodCallSite {
            caller_method: method_name.clone(),
            callee_class: call.callee_class,
            callee_method: call.callee_method,
            callee_symbol,
            call_range: call.call_range,
            arg_ranges: call.arg_ranges,
        });
    }
    let mut sites: Vec<MethodCallSite> = Vec::new();
    while reversed.len() > 0
        invariant
            n == calls.len(),
            reversed@.len() + sites@.len() == n,
            forall|j: int| 0 <= j < reversed@.len() ==> {
                let s = #[trigger] reversed@[j];
                let u = calls[n - 1 - j];
                &&& s.caller_method@ == method_name@
                &&& s.callee_class == u.callee_class
                &&& s.callee_method == u.callee_method
                &&& s.call_range == u.call_range
                &&& s.arg_ranges == u.arg_ranges
                &&& s.callee_symbol == resolve_call(classes_map@, *idx, u.callee_class@, u.callee_method@)
            },
            forall|i: int| 0 <= i < sites@.len() ==> {
                let s = #[trigger] sites@[i];
                let u = calls[i];
                &&& s.caller_method@ == method_name@
                &&& s.callee_class == u.callee_class
                &&& s.callee_method == u.callee_method
                &&& s.call_range == u.call_range
                &&& s.arg_ranges == u.arg_ranges
                &&& s.callee_symbol == resolve_call(classes_map@, *idx, u.callee_class@, u.callee_method@)
            },
        decreases reversed@.len(),
    {
        let s = reversed.pop().unwrap();
        sites.push(s);
    }
    sites
}

} // verus!
