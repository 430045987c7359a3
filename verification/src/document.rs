use crate::keywords::str_eq;
use crate::parse_structures::{ClassId, FileType, LocalSemanticModelId};
use vstd::string::StringSliceAdditionalSpecFns;
use crate::scope_tree::ScopeTree;
use crate::syntax::SyntaxTree;
use vstd::prelude::*;

verus! {

/// A tracked source file: its text, syntax tree, scopes and the semantic entries built from it.
#[derive(Debug)]
pub struct Document {
    pub content: String,
    pub tree: SyntaxTree,
    /// `None` until the editor has synchronized the document.
    pub version: Option<i32>,
    pub file_type: FileType,
    pub scope_tree: ScopeTree,
    pub local_semantic_model_id: Option<LocalSemanticModelId>,
    pub class_id: Option<ClassId>,
    pub class_name: String,
}

impl Document {
    /// A document that no semantic entry refers to yet.
    pub fn new(
        content: String,
        tree: SyntaxTree,
        file_type: FileType,
        class_name: String,
        scope_tree: ScopeTree,
        version: Option<i32>,
    ) -> (r: Self)
        ensures
            r.content@ == content@,
            r.tree == tree,
            r.version == version,
            r.file_type == file_type,
            r.scope_tree == scope_tree,
            r.local_semantic_model_id is None,
            r.class_id is None,
            r.class_name@ == class_name@,
    {
        Document {
            content,
            tree,
            version,
            file_type,
            scope_tree,
            local_semantic_model_id: None,
            class_id: None,
            class_name,
        }
    }
}


/// The file type of the extension `ext`: `cls` classes, `mac` routines and `inc` include
/// files.
pub fn file_type_from_extension(ext: &str) -> (r: Option<FileType>)
    ensures
        r == (if ext@ == "cls"@ {
            Some(FileType::Cls)
        } else if ext@ == "mac"@ {
            Some(FileType::Mac)
        } else if ext@ == "inc"@ {
            Some(FileType::Inc)
        } else {
            None
        }),
{
    if str_eq(ext, "cls") {
        Some(FileType::Cls)
    } else if str_eq(ext, "mac") {
        Some(FileType::Mac)
    } else if str_eq(ext, "inc") {
        Some(FileType::Inc)
    } else {
        None
    }
}

/// `s` ends with the bytes `suffix`.
pub open spec fn ends_with_bytes(s: Seq<u8>, suffix: Seq<u8>) -> bool {
    suffix.len() <= s.len() && s.subrange(s.len() - suffix.len(), s.len() as int) == suffix
}

/// Whether `s` ends with `suffix`.
pub fn str_ends_with(s: &str, suffix: &str) -> (r: bool)
    ensures
        r == ends_with_bytes(s.spec_bytes(), suffix.spec_bytes()),
{
    let a = s.as_bytes();
    let b = suffix.as_bytes();
    if b.len() > a.len() {
        return false;
    }
    let alen = a.len();
    let off = alen - b.len();
    let mut i: usize = 0;
    while i < b.len()
        invariant
            alen == a@.len(),
            a@ == s.spec_bytes(),
            b@ == suffix.spec_bytes(),
            off == a@.len() - b@.len(),
            i <= b@.len(),
            forall|j: int| 0 <= j < i ==> #[trigger] a@[off + j] == b@[j],
        decreases b@.len() - i,
    {
        if a[off + i] != b[i] {
            assert(a@.subrange(off as int, a@.len() as int)[i as int] != b@[i as int]);
            return false;
        }
        i = i + 1;
    }
    proof {
        let sub = a@.subrange(off as int, a@.len() as int);
        assert forall|j: int| 0 <= j < b@.len() implies sub[j] == b@[j] by {
            assert(a@[off + j] == b@[j]);
        }
        assert(sub =~= b@);
    }
    true
}

/// The file type of a document path by its ending: `.cls`, `.mac` or `.inc`.
pub fn file_type_from_path(path: &str) -> (r: Option<FileType>)
    ensures
        r == (if ends_with_bytes(path.spec_bytes(), ".cls".spec_bytes()) {
            Some(FileType::Cls)
        } else if ends_with_bytes(path.spec_bytes(), ".mac".spec_bytes()) {
            Some(FileType::Mac)
        } else if ends_with_bytes(path.spec_bytes(), ".inc".spec_bytes()) {
            Some(FileType::Inc)
        } else {
            None
        }),
{
    if str_ends_with(path, ".cls") {
        Some(FileType::Cls)
    } else if str_ends_with(path, ".mac") {
        Some(FileType::Mac)
    } else if str_ends_with(path, ".inc") {
        Some(FileType::Inc)
    } else {
        None
    }
}

} // verus!
