use crate::parse_structures::{point_lt, Point, TextRange};
use crate::syntax::{
    enclosing_method_name_ok, get_class_name_from_root, lemma_point_descent_in_bounds,
    method_name_from_identifier_node, has_class_name, node_text_ok, point_descent, tree_wf, SyntaxTree,
};
use crate::text::byte_range_ok;
use crate::text::{
    point_to_lsp_position_spec, position_to_point, position_to_point_spec, ts_range_to_lsp_range, LspPosition,
    LspRange,
};
use crate::document::Document;
use crate::workspace::ProjectData;
use crate::keywords::str_eq;
use vstd::prelude::*;
use vstd::string::StringSliceAdditionalSpecFns;
use vstd::utf8::encode_utf8;

verus! {

/// The node that a request at `position` in `content` designates: the smallest named node at
/// the point of that position.
pub open spec fn requested_node(tree: SyntaxTree, content: &str, position: LspPosition) -> int {
    let p = position_to_point_spec(content.spec_bytes(), position);
    point_descent(tree, 0, p, p)
}

/// What a go-to-definition request at `position` asks for: the point it designates, the text
/// of the identifier there and the method that holds it; `None` when the smallest named node
/// at that point is not an ObjectScript identifier inside a method, or its text cannot be
/// read.
pub fn definition_request(tree: &SyntaxTree, content: &str, position: LspPosition) -> (r: Option<(Point, String, String)>)
    requires
        tree_wf(*tree),
    ensures
        ({
            let p = position_to_point_spec(content.spec_bytes(), position);
            let n = requested_node(*tree, content, position);
            let is_ident = tree.nodes@[n].kind@ == "objectscript_identifier"@;
            let range = tree.nodes@[n].range;
            let readable = byte_range_ok(content.spec_bytes(), range.start_byte as int, range.end_byte as int);
            match r {
                Some((q, symbol, method)) => {
                    &&& q == p
                    &&& is_ident
                    &&& node_text_ok(*tree, content, n, Some(symbol))
                    &&& enclosing_method_name_ok(*tree, content, n, 0, Some(method))
                },
                None => !is_ident || !readable || enclosing_method_name_ok(*tree, content, n, 0, None),
            }
        }),
{
    let point = position_to_point(content, position);
    let node = match tree.named_descendant_for_point_range(point, point) {
        Some(n) => n,
        None => return None,
    };
    let _len = tree.nodes.len();
    proof {
        lemma_point_descent_in_bounds(*tree, 0, point, point);
        assert(node as int == point_descent(*tree, 0, point, point));
    }
    let symbol = match tree.node_text(content, node) {
        Some(s) => s,
        None => return None,
    };
    if !tree.is_kind(node, "objectscript_identifier") {
        return None;
    }
    let method_name = match method_name_from_identifier_node(tree, node, content, 0) {
        Some(m) => m,
        None => return None,
    };
    Some((point, symbol, method_name))
}

/// A method name at its definition: node `n` is an identifier within an identifier within a
/// method definition.
pub open spec fn is_method_name_node(t: SyntaxTree, n: int) -> bool {
    &&& t.nodes@[n].kind@ == "identifier"@
    &&& t.nodes@[n].parent is Some
    &&& t.nodes@[t.nodes@[n].parent->0 as int].kind@ == "identifier"@
    &&& t.nodes@[t.nodes@[n].parent->0 as int].parent is Some
    &&& t.nodes@[t.nodes@[t.nodes@[n].parent->0 as int].parent->0 as int].kind@ == "method_definition"@
}

/// The method whose implementations a go-to-implementation request at `position` asks for:
/// the name of a method at its definition (an identifier within an identifier within a
/// method definition); `None` for any other node, when the node's text cannot be read, or
/// when the document has no class name.
pub fn implementation_request(tree: &SyntaxTree, content: &str, position: LspPosition) -> (r: Option<String>)
    requires
        tree_wf(*tree),
    ensures
        ({
            let n = requested_node(*tree, content, position);
            let has_class = has_class_name(*tree, content.spec_bytes());
            match r {
                Some(_) => has_class && is_method_name_node(*tree, n) && node_text_ok(*tree, content, n, r),
                None => !has_class || !is_method_name_node(*tree, n) || node_text_ok(*tree, content, n, None),
            }
        }),
{
    let point = position_to_point(content, position);
    if get_class_name_from_root(content, tree).is_none() {
        return None;
    }
    let node = match tree.named_descendant_for_point_range(point, point) {
        Some(n) => n,
        None => return None,
    };
    let _len = tree.nodes.len();
    proof {
        lemma_point_descent_in_bounds(*tree, 0, point, point);
        assert(node as int == point_descent(*tree, 0, point, point));
    }
    if !tree.is_kind(node, "identifier") {
        return None;
    }
    let parent = match tree.parent(node) {
        Some(p) => p,
        None => return None,
    };
    if !tree.is_kind(parent, "identifier") {
        return None;
    }
    let grandparent = match tree.parent(parent) {
        Some(g) => g,
        None => return None,
    };
    if !tree.is_kind(grandparent, "method_definition") {
        return None;
    }
    tree.node_text(content, node)
}

/// The editor form of a location in a document with text `text`.
pub open spec fn lsp_range_spec(text: Seq<u8>, range: TextRange) -> LspRange {
    LspRange {
        start: point_to_lsp_position_spec(text, range.start_point),
        end: point_to_lsp_position_spec(text, range.end_point),
    }
}

/// The locations of `locs` whose document is tracked in `docs`, in order, each as the editor
/// range computed with the text of its own document.
pub open spec fn lsp_locations(docs: Map<Seq<char>, Document>, locs: Seq<(String, TextRange)>) -> Seq<(Seq<char>, LspRange)>
    decreases locs.len(),
{
    if locs.len() == 0 {
        Seq::empty()
    } else {
        let rest = lsp_locations(docs, locs.drop_last());
        let (url, range) = locs.last();
        if docs.contains_key(url@) {
            rest.push((url@, lsp_range_spec(encode_utf8(docs[url@].content@), range)))
        } else {
            rest
        }
    }
}

impl ProjectData {
    /// The locations `locs` as editor ranges, each converted with the text of its own
    /// document; locations whose document is not tracked are dropped.
    pub fn locations_to_lsp(&self, locs: &Vec<(String, TextRange)>) -> (r: Vec<(String, LspRange)>)
        ensures
            r@.map_values(|p: (String, LspRange)| (p.0@, p.1)) == lsp_locations(self.documents@, locs@),
    {
        let mut out: Vec<(String, LspRange)> = Vec::new();
        let mut k: usize = 0;
        while k < locs.len()
            invariant
                k <= locs@.len(),
                out@.map_values(|p: (String, LspRange)| (p.0@, p.1)) == lsp_locations(self.documents@, locs@.take(k as int)),
            decreases locs@.len() - k,
        {
            proof {
                assert(locs@.take(k + 1).drop_last() =~= locs@.take(k as int));
                assert(locs@.take(k + 1).last() == locs@[k as int]);
            }
            let (url, range) = &locs[k];
            k = k + 1;
            match self.get_document(url) {
                Some(doc) => {
                    let lsp_range = ts_range_to_lsp_range(doc.content.as_str(), *range);
                    let ghost before = out@;
                    out.push((url.clone(), lsp_range));
                    proof {
                        assert(out@.map_values(|p: (String, LspRange)| (p.0@, p.1)) =~= before.map_values(
                            |p: (String, LspRange)| (p.0@, p.1),
                        ).push((url@, lsp_range)));
                    }
                },
                None => {},
            }
        }
        proof {
            assert(locs@.take(locs@.len() as int) =~= locs@);
        }
        out
    }
}

/// `ws` is a prefix of `doc`, component by component.
pub open spec fn is_prefix_path(ws: Seq<String>, doc: Seq<String>) -> bool {
    ws.len() <= doc.len() && forall|i: int| 0 <= i < ws.len() ==> #[trigger] ws[i]@ == doc[i]@
}

/// Whether the path `ws` is a prefix of the path `doc`.
fn path_starts_with(doc: &Vec<String>, ws: &Vec<String>) -> (r: bool)
    ensures
        r == is_prefix_path(ws@, doc@),
{
    if ws.len() > doc.len() {
        return false;
    }
    let mut i: usize = 0;
    while i < ws.len()
        invariant
            ws@.len() <= doc@.len(),
            i <= ws@.len(),
            forall|j: int| 0 <= j < i ==> #[trigger] ws@[j]@ == doc@[j]@,
        decreases ws@.len() - i,
    {
        if !str_eq(ws[i].as_str(), doc[i].as_str()) {
            return false;
        }
        i = i + 1;
    }
    true
}

/// The workspace that most specifically holds a document: among the workspace paths (split
/// into components) that are a prefix of the document's path, the one with the most
/// components, the last such on a tie.
pub fn deepest_workspace(doc: &Vec<String>, workspaces: &Vec<Vec<String>>) -> (r: Option<usize>)
    ensures
        match r {
            Some(i) => i < workspaces@.len() && is_prefix_path(workspaces@[i as int]@, doc@)
                && forall|j: int| 0 <= j < workspaces@.len() && is_prefix_path(#[trigger] workspaces@[j]@, doc@)
                    ==> workspaces@[j]@.len() <= workspaces@[i as int]@.len(),
            None => forall|j: int| 0 <= j < workspaces@.len() ==> !is_prefix_path(#[trigger] workspaces@[j]@, doc@),
        },
{
    let mut best: Option<usize> = None;
    let mut k: usize = 0;
    while k < workspaces.len()
        invariant
            k <= workspaces@.len(),
            match best {
                Some(i) => i < k && is_prefix_path(workspaces@[i as int]@, doc@)
                    && forall|j: int| 0 <= j < k && is_prefix_path(#[trigger] workspaces@[j]@, doc@)
                        ==> workspaces@[j]@.len() <= workspaces@[i as int]@.len(),
                None => forall|j: int| 0 <= j < k ==> !is_prefix_path(#[trigger] workspaces@[j]@, doc@),
            },
        decreases workspaces@.len() - k,
    {
        if path_starts_with(doc, &workspaces[k]) {
            best = match best {
                Some(i) => if workspaces[k].len() >= workspaces[i].len() {
                    Some(k)
                } else {
                    Some(i)
                },
                None => Some(k),
            };
        }
        k = k + 1;
    }
    best
}

} // verus!
