use serde_json::Value;
use vstd::prelude::*;
use vstd::string::StringSliceAdditionalSpecFns;
use vstd::utf8::{encode_utf8, encode_utf8_decode_utf8};

verus! {

#[verifier::external_type_specification]
#[verifier::external_body]
pub struct ExValue(Value);

/// The JSON value that `serde_json::from_str` reads from `text`, or `None` when `text` is not
/// JSON.
pub uninterp spec fn json_parse(text: Seq<char>) -> Option<Value>;

/// The items of `v` when it is a JSON array (`serde_json::Value::as_array`).
pub uninterp spec fn json_array(v: Value) -> Option<Seq<Value>>;

/// The member `key` of `v` when it is a JSON object that has one (`serde_json::Value::get`
/// with a string key).
pub uninterp spec fn json_member(v: Value, key: Seq<char>) -> Option<Value>;

/// The text of `v` when it is a JSON string (`serde_json::Value::as_str`).
pub uninterp spec fn json_string(v: Value) -> Option<Seq<char>>;

/// Calls `serde_json::from_str` for a `Value`; its result is the value that names
/// `json_parse` on the text, a parse error giving `None`.
#[verifier::external_body]
fn json_from_str(text: &str) -> (r: Option<Value>)
    ensures
        r == json_parse(text@),
{
    serde_json::from_str(text).ok()
}

/// Calls `serde_json::Value::as_array`: the items of an array, `None` for any other value.
#[verifier::external_body]
fn json_as_array(v: &Value) -> (r: Option<&Vec<Value>>)
    ensures
        match r {
            Some(a) => json_array(*v) == Some(a@),
            None => json_array(*v) is None,
        },
{
    v.as_array()
}

/// Calls `serde_json::Value::get` with a string key: the member of an object with that key,
/// `None` when there is none or the value is not an object.
#[verifier::external_body]
fn json_get<'a>(v: &'a Value, key: &str) -> (r: Option<&'a Value>)
    ensures
        match r {
            Some(m) => json_member(*v, key@) == Some(*m),
            None => json_member(*v, key@) is None,
        },
{
    v.get(key)
}

/// Calls `serde_json::Value::as_str`: the text of a string, `None` for any other value.
#[verifier::external_body]
fn json_as_str(v: &Value) -> (r: Option<&str>)
    ensures
        match r {
            Some(t) => json_string(*v) == Some(t@),
            None => json_string(*v) is None,
        },
{
    v.as_str()
}

/// Reads `tree_sitter_objectscript::NODE_TYPES`, the node-types description
/// (`node-types.json`) of the ObjectScript UDL grammar, the one the parser uses. The text is a
/// constant of the grammar crate; nothing is stated of it here, and the functions that read it
/// take it as an argument.
#[verifier::external_body]
pub(crate) fn grammar_node_types() -> &'static str {
    tree_sitter_objectscript::NODE_TYPES
}

/// `n` occurs in `h` as a run of consecutive bytes.
pub open spec fn bytes_contain(h: Seq<u8>, n: Seq<u8>) -> bool {
    exists|i: int| 0 <= i && i + n.len() <= h.len() && #[trigger] h.subrange(i, i + n.len()) == n
}

/// Whether `pattern` occurs in `s`.
pub fn str_contains(s: &str, pattern: &str) -> (r: bool)
    ensures
        r == bytes_contain(s.spec_bytes(), pattern.spec_bytes()),
{
    let h = s.as_bytes();
    let n = pattern.as_bytes();
    let hl = h.len();
    let nl = n.len();
    if nl > hl {
        proof {
            assert forall|i: int| 0 <= i && i + n@.len() <= h@.len() implies #[trigger] h@.subrange(
                i,
                i + n@.len(),
            ) != n@ by {}
        }
        return false;
    }
    let mut i: usize = 0;
    while i <= hl - nl
        invariant
            h@ == s.spec_bytes(),
            n@ == pattern.spec_bytes(),
            hl == h@.len(),
            nl == n@.len(),
            nl <= hl,
            i <= hl - nl + 1,
            forall|j: int| 0 <= j < i ==> #[trigger] h@.subrange(j, j + nl) != n@,
        decreases hl - nl + 1 - i,
    {
        let mut k: usize = 0;
        let mut same = true;
        while k < nl && same
            invariant
                hl == h@.len(),
                nl == n@.len(),
                i + nl <= hl,
                k <= nl,
                same <==> forall|m: int| 0 <= m < k ==> h@[i + m] == n@[m],
            decreases nl - k,
        {
            if h[i + k] != n[k] {
                same = false;
            }
            k = k + 1;
        }
        if same {
            assert(h@.subrange(i as int, i + nl) =~= n@);
            return true;
        }
        proof {
            let m = choose|m: int| 0 <= m < k && h@[i + m] != n@[m];
            assert(h@.subrange(i as int, i + nl)[m] != n@[m]);
        }
        i = i + 1;
    }
    proof {
        assert forall|j: int| 0 <= j && j + n@.len() <= h@.len() implies #[trigger] h@.subrange(
            j,
            j + n@.len(),
        ) != n@ by {
            assert(j < i);
        }
    }
    false
}

/// Whether `a` and `b` are the same text.
pub fn str_eq(a: &str, b: &str) -> (r: bool)
    ensures
        r == (a@ == b@),
{
    let x = a.as_bytes();
    let y = b.as_bytes();
    if x.len() != y.len() {
        return false;
    }
    let mut i: usize = 0;
    while i < x.len()
        invariant
            x@ == a.spec_bytes(),
            y@ == b.spec_bytes(),
            x@.len() == y@.len(),
            i <= x@.len(),
            forall|j: int| 0 <= j < i ==> #[trigger] x@[j] == y@[j],
        decreases x@.len() - i,
    {
        if x[i] != y[i] {
            return false;
        }
        i = i + 1;
    }
    proof {
        assert(x@ =~= y@);
        encode_utf8_decode_utf8(a@);
        encode_utf8_decode_utf8(b@);
    }
    true
}

/// The ASCII lower-case form of a byte.
pub open spec fn ascii_lower(b: u8) -> u8 {
    if 65 <= b <= 90 {
        (b + 32) as u8
    } else {
        b
    }
}

/// The byte strings are equal up to ASCII case.
pub open spec fn eq_ignore_case_bytes(a: Seq<u8>, b: Seq<u8>) -> bool {
    a.len() == b.len() && forall|i: int| 0 <= i < a.len() ==> ascii_lower(#[trigger] a[i])
        == ascii_lower(b[i])
}

/// Whether `a` and `b` are equal up to ASCII case.
pub fn eq_ignore_ascii_case(a: &str, b: &str) -> (r: bool)
    ensures
        r == eq_ignore_case_bytes(a.spec_bytes(), b.spec_bytes()),
{
    let x = a.as_bytes();
    let y = b.as_bytes();
    if x.len() != y.len() {
        return false;
    }
    let mut i: usize = 0;
    while i < x.len()
        invariant
            x@ == a.spec_bytes(),
            y@ == b.spec_bytes(),
            x@.len() == y@.len(),
            i <= x@.len(),
            forall|j: int| 0 <= j < i ==> ascii_lower(#[trigger] x@[j]) == ascii_lower(y@[j]),
        decreases x@.len() - i,
    {
        let p = x[i];
        let q = y[i];
        let lp = if 65 <= p && p <= 90 {
            p + 32
        } else {
            p
        };
        let lq = if 65 <= q && q <= 90 {
            q + 32
        } else {
            q
        };
        if lp != lq {
            return false;
        }
        i = i + 1;
    }
    true
}

/// The position of the first of `types` that contains `filter`.
pub open spec fn first_containing_index(types: Seq<Seq<char>>, filter: Seq<u8>) -> Option<int>
    decreases types.len(),
{
    if types.len() == 0 {
        None
    } else {
        match first_containing_index(types.drop_last(), filter) {
            Some(i) => Some(i),
            None => if bytes_contain(encode_utf8(types.last()), filter) {
                Some(types.len() - 1)
            } else {
                None
            },
        }
    }
}

/// The texts of `v`.
pub open spec fn string_views(v: Seq<String>) -> Seq<Seq<char>> {
    v.map_values(|s: String| s@)
}

/// The first of `types` that contains `filter`, or the empty string when none does.
pub fn first_containing(types: &Vec<String>, filter: &str) -> (r: String)
    ensures
        match first_containing_index(string_views(types@), filter.spec_bytes()) {
            Some(i) => r@ == types@[i]@,
            None => r@ == Seq::<char>::empty(),
        },
{
    let ghost names = string_views(types@);
    let mut i: usize = 0;
    while i < types.len()
        invariant
            i <= types@.len(),
            names == string_views(types@),
            first_containing_index(names.take(i as int), filter.spec_bytes()) is None,
        decreases types@.len() - i,
    {
        proof {
            assert(names.take(i + 1).drop_last() =~= names.take(i as int));
            assert(names.take(i + 1).last() == types@[i as int]@);
        }
        if str_contains(types[i].as_str(), filter) {
            proof {
                lemma_first_containing_prefix(names, filter.spec_bytes(), i + 1);
            }
            return types[i].clone();
        }
        i = i + 1;
    }
    proof {
        assert(names.take(types@.len() as int) =~= names);
    }
    String::new()
}

proof fn lemma_first_containing_prefix(types: Seq<Seq<char>>, filter: Seq<u8>, m: int)
    requires
        0 <= m <= types.len(),
        first_containing_index(types.take(m), filter) is Some,
    ensures
        first_containing_index(types, filter) == first_containing_index(types.take(m), filter),
    decreases types.len(),
{
    if m == types.len() {
        assert(types.take(m) =~= types);
    } else {
        assert(types.drop_last().take(m) =~= types.take(m));
        lemma_first_containing_prefix(types.drop_last(), filter, m);
    }
}

/// The `"type"` string of a JSON object, if it has one.
pub open spec fn type_of_entry(v: Value) -> Option<Seq<char>> {
    match json_member(v, "type"@) {
        Some(t) => json_string(t),
        None => None,
    }
}

/// The position of the first of `entries` whose type is `keyword_type`.
pub open spec fn first_of_type(entries: Seq<Value>, keyword_type: Seq<char>) -> Option<int>
    decreases entries.len(),
{
    if entries.len() == 0 {
        None
    } else {
        match first_of_type(entries.drop_last(), keyword_type) {
            Some(i) => Some(i),
            None => if type_of_entry(entries.last()) == Some(keyword_type) {
                Some(entries.len() - 1)
            } else {
                None
            },
        }
    }
}

/// The items of `children.types` of a node-type entry.
pub open spec fn child_type_entries(entry: Value) -> Option<Seq<Value>> {
    match json_member(entry, "children"@) {
        Some(c) => match json_member(c, "types"@) {
            Some(ts) => json_array(ts),
            None => None,
        },
        None => None,
    }
}

/// The `"type"` strings of `entries`, in order, skipping entries without one.
pub open spec fn entry_types(entries: Seq<Value>) -> Seq<Seq<char>>
    decreases entries.len(),
{
    if entries.len() == 0 {
        Seq::empty()
    } else {
        let before = entry_types(entries.drop_last());
        match type_of_entry(entries.last()) {
            Some(t) => before.push(t),
            None => before,
        }
    }
}

/// The child types that the node-types description `node_types` lists for the node type
/// `keyword_type`: those of the first entry of that type; `None` when the description is not
/// a JSON array, has no such entry, or that entry lists no child types.
pub open spec fn keyword_types(node_types: Seq<char>, keyword_type: Seq<char>) -> Option<Seq<Seq<char>>> {
    match json_parse(node_types) {
        None => None,
        Some(v) => match json_array(v) {
            None => None,
            Some(entries) => match first_of_type(entries, keyword_type) {
                None => None,
                Some(i) => match child_type_entries(entries[i]) {
                    None => None,
                    Some(ts) => Some(entry_types(ts)),
                },
            },
        },
    }
}

/// The first child type of `keyword_type` in `node_types` that contains `filter`, or the
/// empty string.
pub open spec fn keyword_lookup(node_types: Seq<char>, keyword_type: Seq<char>, filter: Seq<u8>) -> Seq<char> {
    match keyword_types(node_types, keyword_type) {
        Some(ts) => match first_containing_index(ts, filter) {
            Some(i) => ts[i],
            None => Seq::empty(),
        },
        None => Seq::empty(),
    }
}

/// The child types that the node-types description `node_types` lists for the node type
/// `keyword_type`; `None` when the description is not JSON, is not a list, or lists no
/// children for that type.
pub fn keyword_child_types(node_types: &str, keyword_type: &str) -> (r: Option<Vec<String>>)
    ensures
        match r {
            Some(ts) => keyword_types(node_types@, keyword_type@) == Some(string_views(ts@)),
            None => keyword_types(node_types@, keyword_type@) is None,
        },
{
    let v = match json_from_str(node_types) {
        Some(v) => v,
        None => return None,
    };
    let arr = match json_as_array(&v) {
        Some(a) => a,
        None => return None,
    };
    let mut i: usize = 0;
    while i < arr.len()
        invariant
            i <= arr@.len(),
            json_parse(node_types@) == Some(v),
            json_array(v) == Some(arr@),
            first_of_type(arr@.take(i as int), keyword_type@) is None,
        decreases arr@.len() - i,
    {
        proof {
            assert(arr@.take(i + 1).drop_last() =~= arr@.take(i as int));
        }
        let obj = &arr[i];
        let matches = match json_get(obj, "type") {
            Some(t) => match json_as_str(t) {
                Some(s) => str_eq(s, keyword_type),
                None => false,
            },
            None => false,
        };
        if matches {
            proof {
                lemma_first_of_type_prefix(arr@, keyword_type@, i + 1);
            }
            let types = match json_get(obj, "children") {
                Some(c) => match json_get(c, "types") {
                    Some(ts) => json_as_array(ts),
                    None => None,
                },
                None => None,
            };
            let types = match types {
                Some(ts) => ts,
                None => return None,
            };
            let mut out: Vec<String> = Vec::new();
            let mut k: usize = 0;
            while k < types.len()
                invariant
                    k <= types@.len(),
                    string_views(out@) == entry_types(types@.take(k as int)),
                decreases types@.len() - k,
            {
                proof {
                    assert(types@.take(k + 1).drop_last() =~= types@.take(k as int));
                }
                let ghost before = out@;
                match json_get(&types[k], "type") {
                    Some(t) => match json_as_str(t) {
                        Some(s) => {
                            out.push(s.to_owned());
                            proof {
                                assert(string_views(out@) =~= string_views(before).push(s@));
                            }
                        },
                        None => {},
                    },
                    None => {},
                }
                k = k + 1;
            }
            proof {
                assert(types@.take(types@.len() as int) =~= types@);
            }
            return Some(out);
        }
        i = i + 1;
    }
    proof {
        assert(arr@.take(arr@.len() as int) =~= arr@);
    }
    None
}

proof fn lemma_first_of_type_prefix(entries: Seq<Value>, keyword_type: Seq<char>, m: int)
    requires
        0 <= m <= entries.len(),
        first_of_type(entries.take(m), keyword_type) is Some,
    ensures
        first_of_type(entries, keyword_type) == first_of_type(entries.take(m), keyword_type),
    decreases entries.len(),
{
    if m == entries.len() {
        assert(entries.take(m) =~= entries);
    } else {
        assert(entries.drop_last().take(m) =~= entries.take(m));
        lemma_first_of_type_prefix(entries.drop_last(), keyword_type, m);
    }
}

/// The first child type of `keyword_type` in the node-types description `node_types` that
/// contains `filter`, or the empty string.
pub fn keyword_from(node_types: &str, keyword_type: &str, filter: &str) -> (r: String)
    ensures
        r@ == keyword_lookup(node_types@, keyword_type@, filter.spec_bytes()),
        r@ == Seq::<char>::empty() || bytes_contain(encode_utf8(r@), filter.spec_bytes()),
{
    match keyword_child_types(node_types, keyword_type) {
        Some(types) => {
            let r = first_containing(&types, filter);
            proof {
                match first_containing_index(string_views(types@), filter.spec_bytes()) {
                    Some(i) => lemma_first_containing_holds(string_views(types@), filter.spec_bytes()),
                    None => {},
                }
            }
            r
        },
        None => String::new(),
    }
}

/// Looks up a child node type of the grammar: the first child type of `keyword_type` in the
/// grammar's node-types description that contains `filter`, or the empty string (see
/// `keyword_from`, which takes the description as an argument).
pub fn get_keyword(keyword_type: &str, filter: &str) -> (r: String)
    ensures
        exists|node_types: Seq<char>| r@ == #[trigger] keyword_lookup(node_types, keyword_type@, filter.spec_bytes()),
        r@ == Seq::<char>::empty() || bytes_contain(encode_utf8(r@), filter.spec_bytes()),
{
    let node_types = grammar_node_types();
    keyword_from(node_types, keyword_type, filter)
}

proof fn lemma_first_containing_holds(types: Seq<Seq<char>>, filter: Seq<u8>)
    requires
        first_containing_index(types, filter) is Some,
    ensures
        ({
            let i = first_containing_index(types, filter)->0;
            0 <= i < types.len() && bytes_contain(encode_utf8(types[i]), filter)
        }),
    decreases types.len(),
{
    if first_containing_index(types.drop_last(), filter) is Some {
        lemma_first_containing_holds(types.drop_last(), filter);
    }
}

} // verus!
