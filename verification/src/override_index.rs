use crate::maps::{
    entries_map, lemma_entries_map_take_all, lemma_entries_map_take_none,
    lemma_entries_map_take_step, unique_keys, AssocMap, MapKey,
};
use crate::parse_structures::{
    Class, ClassId, DfsState, MethodRef, PrivateMethodId, PublicMethodId, PublicMethodRef,
};
use vstd::prelude::*;

verus! {

/// The result of resolving methods along the inheritance graph.
#[derive(Debug)]
pub struct OverrideIndex {
    /// After inheritance and overrides, the public method each class sees for each public
    /// method name.
    pub effective_public_methods: AssocMap<ClassId, AssocMap<String, PublicMethodRef>>,
    /// child -> base: the inherited public method that a declaration replaced.
    pub overrides: AssocMap<MethodRef, PublicMethodRef>,
    /// base -> children that replaced it.
    pub overridden_by: AssocMap<PublicMethodRef, Vec<MethodRef>>,
}

impl OverrideIndex {
    /// An index with no entries.
    pub fn new() -> (r: Self)
        ensures
            r.effective_public_methods@ == Map::<ClassId, AssocMap<String, PublicMethodRef>>::empty(),
            r.overrides@ == Map::<MethodRef, PublicMethodRef>::empty(),
            r.overridden_by@ == Map::<PublicMethodRef, Vec<MethodRef>>::empty(),
    {
        OverrideIndex {
            effective_public_methods: AssocMap::new(),
            overrides: AssocMap::new(),
            overridden_by: AssocMap::new(),
        }
    }
}

/// The part of a class that override resolution reads, as mathematical values.
pub struct ClassShape {
    pub parents: Seq<ClassId>,
    pub right: bool,
    pub public_methods: Seq<(String, PublicMethodId)>,
    pub private_methods: Seq<(String, PrivateMethodId)>,
}

/// The shape of class `c`, whose parents take precedence from the right when `right`.
pub open spec fn class_shape(c: Class, right: bool) -> ClassShape {
    ClassShape {
        parents: c.inherited_classes@,
        right,
        public_methods: c.public_methods.pairs(),
        private_methods: c.private_methods.pairs(),
    }
}

pub open spec fn shapes(cs: Seq<Class>, rights: Seq<bool>) -> Seq<ClassShape> {
    Seq::new(cs.len(), |i: int| class_shape(cs[i], rights[i]))
}

/// A method table: method name -> implementation that a class sees.
pub type MethodTable = Map<Seq<char>, MethodRef>;

/// The id of the class at position `i`.
pub open spec fn class_id(i: int) -> ClassId {
    ClassId(i as usize)
}

pub open spec fn public_ref(i: int, id: PublicMethodId) -> MethodRef {
    MethodRef { class: class_id(i), pub_id: Some(id), priv_id: None }
}

pub open spec fn private_ref(i: int, id: PrivateMethodId) -> MethodRef {
    MethodRef { class: class_id(i), pub_id: None, priv_id: Some(id) }
}

/// Parents in order of precedence: left to right, or right to left for `right` classes.
pub open spec fn ordered_parents(s: ClassShape) -> Seq<ClassId> {
    if s.right {
        s.parents.reverse()
    } else {
        s.parents
    }
}

/// `t` with the public declarations of class `i` laid over it (a declaration wins).
pub open spec fn overlay_publics(t: MethodTable, i: int, ds: Seq<(String, PublicMethodId)>) -> MethodTable
    decreases ds.len(),
{
    if ds.len() == 0 {
        t
    } else {
        overlay_publics(t, i, ds.drop_last()).insert(ds.last().0@, public_ref(i, ds.last().1))
    }
}

/// `t` with the private declarations of class `i` laid over it (a declaration wins).
pub open spec fn overlay_privates(t: MethodTable, i: int, ds: Seq<(String, PrivateMethodId)>) -> MethodTable
    decreases ds.len(),
{
    if ds.len() == 0 {
        t
    } else {
        overlay_privates(t, i, ds.drop_last()).insert(ds.last().0@, private_ref(i, ds.last().1))
    }
}

/// The table a class sees before its own private declarations: inherited methods with its
/// public declarations laid over them.
pub open spec fn table_before_privates(ss: Seq<ClassShape>, i: int, f: nat) -> MethodTable
    decreases f, 1int, 0int,
{
    overlay_publics(inherited_table(ss, ordered_parents(ss[i]), f), i, ss[i].public_methods)
}

/// The method table of class `i`: what it inherits, with its own declarations laid over it.
pub open spec fn class_table(ss: Seq<ClassShape>, i: int, f: nat) -> MethodTable
    decreases f, 2int, 0int,
{
    overlay_privates(table_before_privates(ss, i, f), i, ss[i].private_methods)
}

/// The union of the tables of the parents `ps`, an earlier parent winning on a shared name.
pub open spec fn inherited_table(ss: Seq<ClassShape>, ps: Seq<ClassId>, f: nat) -> MethodTable
    decreases f, 0int, ps.len(),
{
    if ps.len() == 0 || f == 0 {
        Map::empty()
    } else {
        class_table(ss, ps.last().0 as int, (f - 1) as nat).union_prefer_right(
            inherited_table(ss, ps.drop_last(), f),
        )
    }
}

/// Class `i` has a well-founded ancestry of depth below `f`: no inheritance cycle is reachable
/// from it.
pub open spec fn resolvable(ss: Seq<ClassShape>, i: int, f: nat) -> bool
    decreases f,
{
    &&& f > 0
    &&& 0 <= i < ss.len()
    &&& forall|k: int|
        0 <= k < ss[i].parents.len() ==> resolvable(
            ss,
            #[trigger] ss[i].parents[k].0 as int,
            (f - 1) as nat,
        )
}

/// The public part of a method table.
pub open spec fn public_part(t: MethodTable) -> Map<Seq<char>, PublicMethodRef> {
    Map::new(
        |k: Seq<char>| t.contains_key(k) && t[k].pub_id is Some,
        |k: Seq<char>| PublicMethodRef { class: t[k].class, id: t[k].pub_id->0 },
    )
}

/// Every recorded override is listed under the method it replaced, and every method with an
/// entry in `overridden_by` has at least one overrider listed.
pub open spec fn overrides_listed(idx: OverrideIndex) -> bool {
    &&& forall|c: MethodRef|
        #[trigger] idx.overrides@.contains_key(c) ==> idx.overridden_by@.contains_key(
            idx.overrides@[c],
        ) && idx.overridden_by@[idx.overrides@[c]]@.contains(c)
    &&& forall|b: PublicMethodRef| #[trigger] idx.overridden_by@.contains_key(b) ==> idx.overridden_by@[b]@.len() > 0
}

/// `c` is listed among the methods that replace `b`.
pub open spec fn listed_under(idx: OverrideIndex, b: PublicMethodRef, c: MethodRef) -> bool {
    idx.overridden_by@.contains_key(b) && idx.overridden_by@[b]@.contains(c)
}

/// The index records `c` as replacing `x`: as an override, or listed under `x`.
pub open spec fn holds_pair(idx: OverrideIndex, c: MethodRef, x: PublicMethodRef) -> bool {
    ||| idx.overrides@.contains_key(c) && idx.overrides@[c] == x
    ||| listed_under(idx, x, c)
}

/// One of the public declarations `ds` of class `i`, laid over `base` with the declarations
/// before it, is `c` and replaces the public method `x`.
pub open spec fn public_decl_replaces(
    i: int,
    base: MethodTable,
    ds: Seq<(String, PublicMethodId)>,
    c: MethodRef,
    x: PublicMethodRef,
) -> bool {
    exists|k: int|
        0 <= k < ds.len() && c == public_ref(i, ds[k].1) && #[trigger] replaced_public(
            overlay_publics(base, i, ds.take(k)),
            ds[k].0@,
        ) == Some(x)
}

/// One of the private declarations `ds` of class `i`, laid over `base` with the declarations
/// before it, is `c` and replaces the public method `x`.
pub open spec fn private_decl_replaces(
    i: int,
    base: MethodTable,
    ds: Seq<(String, PrivateMethodId)>,
    c: MethodRef,
    x: PublicMethodRef,
) -> bool {
    exists|k: int|
        0 <= k < ds.len() && c == private_ref(i, ds[k].1) && #[trigger] replaced_public(
            overlay_privates(base, i, ds.take(k)),
            ds[k].0@,
        ) == Some(x)
}

/// What `b` records beyond `a` comes from the public declarations `ds` of class `i` laid over
/// `base`.
pub open spec fn new_pairs_public(a: OverrideIndex, b: OverrideIndex, i: int, base: MethodTable, ds: Seq<(String, PublicMethodId)>) -> bool {
    forall|c: MethodRef, x: PublicMethodRef|
        #[trigger] holds_pair(b, c, x) && !holds_pair(a, c, x) ==> public_decl_replaces(i, base, ds, c, x)
}

/// What `b` records beyond `a` comes from the private declarations `ds` of class `i` laid over
/// `base`.
pub open spec fn new_pairs_private(a: OverrideIndex, b: OverrideIndex, i: int, base: MethodTable, ds: Seq<(String, PrivateMethodId)>) -> bool {
    forall|c: MethodRef, x: PublicMethodRef|
        #[trigger] holds_pair(b, c, x) && !holds_pair(a, c, x) ==> private_decl_replaces(i, base, ds, c, x)
}

/// Everything the index records is a declaration of a class of `ss` replacing a public
/// method; where that class resolves, the declaration replaces that method in the class's
/// method table (its public declarations over what it inherits, its private ones over those).
pub open spec fn pairs_explained(ss: Seq<ClassShape>, idx: OverrideIndex, f: nat) -> bool {
    forall|c: MethodRef, x: PublicMethodRef|
        #[trigger] holds_pair(idx, c, x) ==> {
            let i = c.class.0 as int;
            &&& i < ss.len()
            &&& resolvable(ss, i, f) ==> public_decl_replaces(
                i,
                inherited_table(ss, ordered_parents(ss[i]), f),
                ss[i].public_methods,
                c,
                x,
            ) || private_decl_replaces(i, table_before_privates(ss, i, f), ss[i].private_methods, c, x)
        }
}

/// Whatever `a` lists as replacing a method, `b` lists too, and every method that `a` records
/// as an override `b` records too.
pub open spec fn index_grows(a: OverrideIndex, b: OverrideIndex) -> bool {
    &&& forall|m: PublicMethodRef, c: MethodRef| #[trigger] listed_under(a, m, c) ==> listed_under(b, m, c)
    &&& forall|c: MethodRef| #[trigger] a.overrides@.contains_key(c) ==> b.overrides@.contains_key(c)
}

/// The public method that a declaration named `name` replaces in the method table `t`, if
/// the table maps the name to a public method.
pub open spec fn replaced_public(t: MethodTable, name: Seq<char>) -> Option<PublicMethodRef> {
    if t.contains_key(name) && t[name].pub_id is Some {
        Some(PublicMethodRef { class: t[name].class, id: t[name].pub_id->0 })
    } else {
        None
    }
}

/// Each of the first `m` public declarations `ds` of class `i` that replaces a public method
/// of the table it is laid over (`base`, with the declarations before it) is listed under it.
pub open spec fn public_decls_recorded(idx: OverrideIndex, i: int, base: MethodTable, ds: Seq<(String, PublicMethodId)>, m: int) -> bool {
    forall|k: int|
        0 <= k < m ==> match replaced_public(overlay_publics(base, i, ds.take(k)), (#[trigger] ds[k]).0@) {
            Some(b) => listed_under(idx, b, public_ref(i, ds[k].1)) && idx.overrides@.contains_key(public_ref(i, ds[k].1)),
            None => true,
        }
}

/// Each of the first `m` private declarations `ds` of class `i` that replaces a public method
/// of the table it is laid over is listed under it.
pub open spec fn private_decls_recorded(idx: OverrideIndex, i: int, base: MethodTable, ds: Seq<(String, PrivateMethodId)>, m: int) -> bool {
    forall|k: int|
        0 <= k < m ==> match replaced_public(overlay_privates(base, i, ds.take(k)), (#[trigger] ds[k]).0@) {
            Some(b) => listed_under(idx, b, private_ref(i, ds[k].1)) && idx.overrides@.contains_key(private_ref(i, ds[k].1)),
            None => true,
        }
}

/// Each public declaration of class `i` that replaces a public method of the table it is laid
/// over (what the class inherits, with the declarations before it), is listed under it.
pub open spec fn publics_recorded(ss: Seq<ClassShape>, idx: OverrideIndex, i: int, base: MethodTable) -> bool {
    public_decls_recorded(idx, i, base, ss[i].public_methods, ss[i].public_methods.len() as int)
}

/// Each private declaration of class `i` that replaces a public method of the table it is
/// laid over is listed under it.
pub open spec fn privates_recorded(ss: Seq<ClassShape>, idx: OverrideIndex, i: int, base: MethodTable) -> bool {
    private_decls_recorded(idx, i, base, ss[i].private_methods, ss[i].private_methods.len() as int)
}

proof fn lemma_public_decls_step(a: OverrideIndex, b: OverrideIndex, i: int, base: MethodTable, ds: Seq<(String, PublicMethodId)>, m: int)
    requires
        0 <= m < ds.len(),
        public_decls_recorded(a, i, base, ds, m),
        index_grows(a, b),
        match replaced_public(overlay_publics(base, i, ds.take(m)), ds[m].0@) {
            Some(x) => listed_under(b, x, public_ref(i, ds[m].1)) && b.overrides@.contains_key(public_ref(i, ds[m].1)),
            None => true,
        },
    ensures
        public_decls_recorded(b, i, base, ds, m + 1),
{
    assert forall|k: int| 0 <= k < m + 1 implies match replaced_public(overlay_publics(base, i, ds.take(k)), (#[trigger] ds[k]).0@) {
        Some(x) => listed_under(b, x, public_ref(i, ds[k].1)) && b.overrides@.contains_key(public_ref(i, ds[k].1)),
        None => true,
    } by {
        if k < m {
            match replaced_public(overlay_publics(base, i, ds.take(k)), ds[k].0@) {
                Some(x) => {
                    assert(listed_under(a, x, public_ref(i, ds[k].1)));
                    assert(a.overrides@.contains_key(public_ref(i, ds[k].1)));
                },
                None => {},
            }
        }
    }
}

proof fn lemma_private_decls_step(a: OverrideIndex, b: OverrideIndex, i: int, base: MethodTable, ds: Seq<(String, PrivateMethodId)>, m: int)
    requires
        0 <= m < ds.len(),
        private_decls_recorded(a, i, base, ds, m),
        index_grows(a, b),
        match replaced_public(overlay_privates(base, i, ds.take(m)), ds[m].0@) {
            Some(x) => listed_under(b, x, private_ref(i, ds[m].1)) && b.overrides@.contains_key(private_ref(i, ds[m].1)),
            None => true,
        },
    ensures
        private_decls_recorded(b, i, base, ds, m + 1),
{
    assert forall|k: int| 0 <= k < m + 1 implies match replaced_public(overlay_privates(base, i, ds.take(k)), (#[trigger] ds[k]).0@) {
        Some(x) => listed_under(b, x, private_ref(i, ds[k].1)) && b.overrides@.contains_key(private_ref(i, ds[k].1)),
        None => true,
    } by {
        if k < m {
            match replaced_public(overlay_privates(base, i, ds.take(k)), ds[k].0@) {
                Some(x) => {
                    assert(listed_under(a, x, private_ref(i, ds[k].1)));
                    assert(a.overrides@.contains_key(private_ref(i, ds[k].1)));
                },
                None => {},
            }
        }
    }
}

/// Every declaration of class `i` that replaces a public method (one it inherits, or one of
/// its own public declarations for a private one of the same name) is listed under that
/// method.
pub open spec fn overriders_recorded(ss: Seq<ClassShape>, idx: OverrideIndex, i: int, f: nat) -> bool {
    &&& publics_recorded(ss, idx, i, inherited_table(ss, ordered_parents(ss[i]), f))
    &&& privates_recorded(ss, idx, i, table_before_privates(ss, i, f))
}

proof fn lemma_publics_grows(ss: Seq<ClassShape>, a: OverrideIndex, b: OverrideIndex, i: int, base: MethodTable)
    requires
        publics_recorded(ss, a, i, base),
        index_grows(a, b),
    ensures
        publics_recorded(ss, b, i, base),
{
    let ds = ss[i].public_methods;
    assert forall|k: int| 0 <= k < ds.len() implies match replaced_public(overlay_publics(base, i, ds.take(k)), (#[trigger] ds[k]).0@) {
        Some(x) => listed_under(b, x, public_ref(i, ds[k].1)) && b.overrides@.contains_key(public_ref(i, ds[k].1)),
        None => true,
    } by {
        match replaced_public(overlay_publics(base, i, ds.take(k)), ds[k].0@) {
            Some(x) => {
                assert(listed_under(a, x, public_ref(i, ds[k].1)));
                    assert(a.overrides@.contains_key(public_ref(i, ds[k].1)));
            },
            None => {},
        }
    }
}

proof fn lemma_privates_grows(ss: Seq<ClassShape>, a: OverrideIndex, b: OverrideIndex, i: int, base: MethodTable)
    requires
        privates_recorded(ss, a, i, base),
        index_grows(a, b),
    ensures
        privates_recorded(ss, b, i, base),
{
    let ds = ss[i].private_methods;
    assert forall|k: int| 0 <= k < ds.len() implies match replaced_public(overlay_privates(base, i, ds.take(k)), (#[trigger] ds[k]).0@) {
        Some(x) => listed_under(b, x, private_ref(i, ds[k].1)) && b.overrides@.contains_key(private_ref(i, ds[k].1)),
        None => true,
    } by {
        match replaced_public(overlay_privates(base, i, ds.take(k)), ds[k].0@) {
            Some(x) => {
                assert(listed_under(a, x, private_ref(i, ds[k].1)));
                    assert(a.overrides@.contains_key(private_ref(i, ds[k].1)));
            },
            None => {},
        }
    }
}

proof fn lemma_recorded_grows(ss: Seq<ClassShape>, a: OverrideIndex, b: OverrideIndex, i: int, f: nat)
    requires
        overriders_recorded(ss, a, i, f),
        index_grows(a, b),
    ensures
        overriders_recorded(ss, b, i, f),
{
    lemma_publics_grows(ss, a, b, i, inherited_table(ss, ordered_parents(ss[i]), f));
    lemma_privates_grows(ss, a, b, i, table_before_privates(ss, i, f));
}

/// `e` is the public part of a method table in which the declarations of class `i` lie over
/// what it inherits: its public declarations over the inherited table `t`, its private ones
/// over those.
pub open spec fn own_decls_on_top(ss: Seq<ClassShape>, i: int, t: MethodTable, e: Map<Seq<char>, PublicMethodRef>) -> bool {
    e == public_part(overlay_privates(overlay_publics(t, i, ss[i].public_methods), i, ss[i].private_methods))
}

/// `p` is a chain of classes from `p[0]` to its last element, each followed by one of its
/// parents.
pub open spec fn parent_chain(ss: Seq<ClassShape>, p: Seq<int>) -> bool {
    &&& p.len() > 0
    &&& forall|j: int|
        0 <= j < p.len() - 1 ==> 0 <= #[trigger] p[j] < ss.len() && ss[p[j]].parents.contains(ClassId(p[j + 1] as usize))
}

/// Class `a` is class `i` or one of its ancestors.
pub open spec fn is_ancestor(ss: Seq<ClassShape>, i: int, a: int) -> bool {
    exists|p: Seq<int>| #[trigger] parent_chain(ss, p) && p[0] == i && p.last() == a
}

/// `m` is one of the declarations named `name` of a class of `ss`.
pub open spec fn declares(ss: Seq<ClassShape>, m: MethodRef, name: Seq<char>) -> bool {
    let c = m.class.0 as int;
    &&& 0 <= c < ss.len()
    &&& {
        ||| exists|k: int|
            0 <= k < ss[c].public_methods.len() && (#[trigger] ss[c].public_methods[k]).0@ == name && m == public_ref(
                c,
                ss[c].public_methods[k].1,
            )
        ||| exists|k: int|
            0 <= k < ss[c].private_methods.len() && (#[trigger] ss[c].private_methods[k]).0@ == name && m == private_ref(
                c,
                ss[c].private_methods[k].1,
            )
    }
}

/// Every entry of the method table `t` is a declaration, under its own name, of class `i` or
/// of one of its ancestors.
pub open spec fn table_from_ancestors(ss: Seq<ClassShape>, i: int, t: MethodTable) -> bool {
    forall|name: Seq<char>|
        #[trigger] t.contains_key(name) ==> declares(ss, t[name], name) && is_ancestor(ss, i, t[name].class.0 as int)
}

/// Every entry of the public method table `e` is a public declaration, under its own name, of
/// class `i` or of one of its ancestors.
pub open spec fn entries_from_ancestors(ss: Seq<ClassShape>, i: int, e: Map<Seq<char>, PublicMethodRef>) -> bool {
    forall|name: Seq<char>|
        #[trigger] e.contains_key(name) ==> declares(
            ss,
            MethodRef { class: e[name].class, pub_id: Some(e[name].id), priv_id: None },
            name,
        ) && is_ancestor(ss, i, e[name].class.0 as int)
}

proof fn lemma_ancestor_step(ss: Seq<ClassShape>, i: int, k: int, a: int)
    requires
        0 <= i < ss.len() <= usize::MAX,
        0 <= k < ss[i].parents.len(),
        is_ancestor(ss, ss[i].parents[k].0 as int, a),
    ensures
        is_ancestor(ss, i, a),
{
    let p = choose|p: Seq<int>| #[trigger] parent_chain(ss, p) && p[0] == ss[i].parents[k].0 as int && p.last() == a;
    let q = seq![i] + p;
    assert(q[0] == i);
    assert(q.last() == p.last());
    assert forall|j: int| 0 <= j < q.len() - 1 implies 0 <= #[trigger] q[j] < ss.len() && ss[q[j]].parents.contains(
        ClassId(q[j + 1] as usize),
    ) by {
        if j == 0 {
            assert(q[1] == p[0]);
            assert(ss[i].parents[k] == ClassId(p[0] as usize));
        } else {
            assert(q[j] == p[j - 1] && q[j + 1] == p[j]);
        }
    }
    assert(parent_chain(ss, q));
}

proof fn lemma_union_from_ancestors(ss: Seq<ClassShape>, i: int, k: int, pt: MethodTable, t: MethodTable)
    requires
        0 <= i < ss.len() <= usize::MAX,
        0 <= k < ss[i].parents.len(),
        table_from_ancestors(ss, ss[i].parents[k].0 as int, pt),
        table_from_ancestors(ss, i, t),
    ensures
        table_from_ancestors(ss, i, pt.union_prefer_right(t)),
{
    let u = pt.union_prefer_right(t);
    assert forall|name: Seq<char>| #[trigger] u.contains_key(name) implies declares(ss, u[name], name) && is_ancestor(
        ss,
        i,
        u[name].class.0 as int,
    ) by {
        if !t.contains_key(name) {
            assert(pt.contains_key(name));
            lemma_ancestor_step(ss, i, k, pt[name].class.0 as int);
        }
    }
}

proof fn lemma_overlay_publics_from_ancestors(ss: Seq<ClassShape>, i: int, t: MethodTable, ds: Seq<(String, PublicMethodId)>)
    requires
        0 <= i < ss.len() <= usize::MAX,
        table_from_ancestors(ss, i, t),
        ds.len() <= ss[i].public_methods.len(),
        forall|k: int| 0 <= k < ds.len() ==> #[trigger] ds[k] == ss[i].public_methods[k],
    ensures
        table_from_ancestors(ss, i, overlay_publics(t, i, ds)),
    decreases ds.len(),
{
    if ds.len() > 0 {
        lemma_overlay_publics_from_ancestors(ss, i, t, ds.drop_last());
        let k = ds.len() - 1;
        assert(ds[k] == ss[i].public_methods[k]);
        assert(parent_chain(ss, seq![i]) && seq![i][0] == i && seq![i].last() == i);
        assert(public_ref(i, ds.last().1).class.0 as int == i);
    }
}

proof fn lemma_overlay_privates_from_ancestors(ss: Seq<ClassShape>, i: int, t: MethodTable, ds: Seq<(String, PrivateMethodId)>)
    requires
        0 <= i < ss.len() <= usize::MAX,
        table_from_ancestors(ss, i, t),
        ds.len() <= ss[i].private_methods.len(),
        forall|k: int| 0 <= k < ds.len() ==> #[trigger] ds[k] == ss[i].private_methods[k],
    ensures
        table_from_ancestors(ss, i, overlay_privates(t, i, ds)),
    decreases ds.len(),
{
    if ds.len() > 0 {
        lemma_overlay_privates_from_ancestors(ss, i, t, ds.drop_last());
        let k = ds.len() - 1;
        assert(ds[k] == ss[i].private_methods[k]);
        assert(parent_chain(ss, seq![i]) && seq![i][0] == i && seq![i].last() == i);
        assert(private_ref(i, ds.last().1).class.0 as int == i);
    }
}

proof fn lemma_public_part_from_ancestors(ss: Seq<ClassShape>, i: int, t: MethodTable)
    requires
        table_from_ancestors(ss, i, t),
    ensures
        entries_from_ancestors(ss, i, public_part(t)),
{
    let e = public_part(t);
    assert forall|name: Seq<char>| #[trigger] e.contains_key(name) implies declares(
        ss,
        MethodRef { class: e[name].class, pub_id: Some(e[name].id), priv_id: None },
        name,
    ) && is_ancestor(ss, i, e[name].class.0 as int) by {
        assert(t.contains_key(name));
        assert(MethodRef { class: e[name].class, pub_id: Some(e[name].id), priv_id: None } == t[name]);
    }
}

/// Class `i` has an entry in the index: the public part of a table in which the class's own
/// declarations lie over some inherited table, every entry a public declaration of the class
/// or of one of its ancestors.
pub open spec fn has_entry(ss: Seq<ClassShape>, idx: OverrideIndex, i: int) -> bool {
    &&& idx.effective_public_methods@.contains_key(class_id(i))
    &&& exists|t: MethodTable| #[trigger] own_decls_on_top(ss, i, t, idx.effective_public_methods@[class_id(i)]@)
    &&& entries_from_ancestors(ss, i, idx.effective_public_methods@[class_id(i)]@)
}

/// Every method is recorded as replacing at most one public method, and no method is listed
/// twice among the methods that replace the same one.
pub open spec fn records_single(idx: OverrideIndex) -> bool {
    &&& forall|c: MethodRef, x: PublicMethodRef|
        #[trigger] holds_pair(idx, c, x) ==> idx.overrides@.contains_key(c) && idx.overrides@[c] == x
    &&& forall|b: PublicMethodRef|
        #[trigger] idx.overridden_by@.contains_key(b) ==> idx.overridden_by@[b]@.no_duplicates()
}

/// The declarations of every class of `ss` carry distinct ids.
pub open spec fn all_decl_ids_distinct(ss: Seq<ClassShape>) -> bool {
    forall|i: int| 0 <= i < ss.len() ==> #[trigger] distinct_decl_ids(ss[i])
}

/// Every method that the index records as replacing another belongs to a finished class.
spec fn pairs_done(state: Seq<DfsState>, idx: OverrideIndex) -> bool {
    forall|c: MethodRef, x: PublicMethodRef|
        #[trigger] holds_pair(idx, c, x) ==> 0 <= c.class.0 < state.len() && state[c.class.0 as int] == DfsState::Done
}

/// `c` replaces no method in the index.
pub open spec fn unrecorded(idx: OverrideIndex, c: MethodRef) -> bool {
    forall|x: PublicMethodRef| !#[trigger] holds_pair(idx, c, x)
}

/// None of the public declarations `ds` of class `i` from position `from` on replaces a method
/// in the index yet.
spec fn publics_fresh(idx: OverrideIndex, i: int, ds: Seq<(String, PublicMethodId)>, from: int) -> bool {
    forall|k: int| from <= k < ds.len() ==> unrecorded(idx, public_ref(i, (#[trigger] ds[k]).1))
}

/// None of the private declarations `ds` of class `i` from position `from` on replaces a
/// method in the index yet.
spec fn privates_fresh(idx: OverrideIndex, i: int, ds: Seq<(String, PrivateMethodId)>, from: int) -> bool {
    forall|k: int| from <= k < ds.len() ==> unrecorded(idx, private_ref(i, (#[trigger] ds[k]).1))
}

proof fn lemma_still_unrecorded(a: OverrideIndex, b: OverrideIndex, child: MethodRef, base: PublicMethodRef, d: MethodRef)
    requires
        forall|c: MethodRef, x: PublicMethodRef|
            #[trigger] holds_pair(b, c, x) ==> holds_pair(a, c, x) || (c == child && x == base),
        unrecorded(a, d),
        d != child,
    ensures
        unrecorded(b, d),
{
    assert forall|x: PublicMethodRef| !#[trigger] holds_pair(b, d, x) by {
        assert(!holds_pair(a, d, x));
    }
}

proof fn lemma_pairs_done_mark(state: Seq<DfsState>, idx: OverrideIndex, i: int)
    requires
        pairs_done(state, idx),
        0 <= i < state.len(),
        state[i] != DfsState::Done,
    ensures
        pairs_done(state.update(i, DfsState::Visiting), idx),
{
    assert forall|c: MethodRef, x: PublicMethodRef| #[trigger] holds_pair(idx, c, x) implies 0 <= c.class.0 < state.len()
        && state.update(i, DfsState::Visiting)[c.class.0 as int] == DfsState::Done by {
        assert(state[c.class.0 as int] == DfsState::Done);
    }
}

proof fn lemma_fresh_class(
    state: Seq<DfsState>,
    idx: OverrideIndex,
    i: int,
    pubs: Seq<(String, PublicMethodId)>,
    privs: Seq<(String, PrivateMethodId)>,
)
    requires
        pairs_done(state, idx),
        0 <= i < state.len() <= usize::MAX,
        state[i] == DfsState::Visiting,
    ensures
        publics_fresh(idx, i, pubs, 0),
        privates_fresh(idx, i, privs, 0),
{
    assert forall|k: int| 0 <= k < pubs.len() implies unrecorded(idx, public_ref(i, (#[trigger] pubs[k]).1)) by {
        assert forall|x: PublicMethodRef| !#[trigger] holds_pair(idx, public_ref(i, pubs[k].1), x) by {
            if holds_pair(idx, public_ref(i, pubs[k].1), x) {
                assert(state[public_ref(i, pubs[k].1).class.0 as int] == DfsState::Done);
            }
        }
    }
    assert forall|k: int| 0 <= k < privs.len() implies unrecorded(idx, private_ref(i, (#[trigger] privs[k]).1)) by {
        assert forall|x: PublicMethodRef| !#[trigger] holds_pair(idx, private_ref(i, privs[k].1), x) by {
            if holds_pair(idx, private_ref(i, privs[k].1), x) {
                assert(state[private_ref(i, privs[k].1).class.0 as int] == DfsState::Done);
            }
        }
    }
}

proof fn lemma_privates_fresh_after_publics(
    a: OverrideIndex,
    b: OverrideIndex,
    i: int,
    base: MethodTable,
    pubs: Seq<(String, PublicMethodId)>,
    privs: Seq<(String, PrivateMethodId)>,
)
    requires
        privates_fresh(a, i, privs, 0),
        new_pairs_public(a, b, i, base, pubs),
    ensures
        privates_fresh(b, i, privs, 0),
{
    assert forall|k: int| 0 <= k < privs.len() implies unrecorded(b, private_ref(i, (#[trigger] privs[k]).1)) by {
        let d = private_ref(i, privs[k].1);
        assert forall|x: PublicMethodRef| !#[trigger] holds_pair(b, d, x) by {
            if holds_pair(b, d, x) {
                assert(!holds_pair(a, d, x));
                assert(public_decl_replaces(i, base, pubs, d, x));
                let j = choose|j: int|
                    0 <= j < pubs.len() && d == public_ref(i, pubs[j].1) && #[trigger] replaced_public(
                        overlay_publics(base, i, pubs.take(j)),
                        pubs[j].0@,
                    ) == Some(x);
            }
        }
    }
}

proof fn lemma_pairs_done_finish(
    state: Seq<DfsState>,
    a: OverrideIndex,
    b: OverrideIndex,
    c2: OverrideIndex,
    i: int,
    base1: MethodTable,
    base2: MethodTable,
    pubs: Seq<(String, PublicMethodId)>,
    privs: Seq<(String, PrivateMethodId)>,
)
    requires
        pairs_done(state, a),
        new_pairs_public(a, b, i, base1, pubs),
        new_pairs_private(b, c2, i, base2, privs),
        0 <= i < state.len() <= usize::MAX,
    ensures
        pairs_done(state.update(i, DfsState::Done), c2),
{
    let st = state.update(i, DfsState::Done);
    assert forall|c: MethodRef, x: PublicMethodRef| #[trigger] holds_pair(c2, c, x) implies 0 <= c.class.0 < st.len()
        && st[c.class.0 as int] == DfsState::Done by {
        if holds_pair(a, c, x) {
            assert(state[c.class.0 as int] == DfsState::Done);
        } else if holds_pair(b, c, x) {
            assert(public_decl_replaces(i, base1, pubs, c, x));
            let j = choose|j: int|
                0 <= j < pubs.len() && c == public_ref(i, pubs[j].1) && #[trigger] replaced_public(
                    overlay_publics(base1, i, pubs.take(j)),
                    pubs[j].0@,
                ) == Some(x);
        } else {
            assert(private_decl_replaces(i, base2, privs, c, x));
            let j = choose|j: int|
                0 <= j < privs.len() && c == private_ref(i, privs[j].1) && #[trigger] replaced_public(
                    overlay_privates(base2, i, privs.take(j)),
                    privs[j].0@,
                ) == Some(x);
        }
    }
}

/// Every parent names a class of the snapshot.
pub open spec fn snaps_wf(ss: Seq<ClassShape>) -> bool {
    &&& ss.len() <= usize::MAX
    &&& forall|i: int, k: int|
        0 <= i < ss.len() && 0 <= k < ss[i].parents.len() ==> (#[trigger] ss[i].parents[k]).0
            < ss.len()
}

// ---- stability of tables in the fuel ----

proof fn lemma_table_stable(ss: Seq<ClassShape>, i: int, f: nat, g: nat)
    requires
        resolvable(ss, i, f),
        f <= g,
    ensures
        resolvable(ss, i, g),
        class_table(ss, i, f) == class_table(ss, i, g),
        table_before_privates(ss, i, f) == table_before_privates(ss, i, g),
    decreases f, 1int, 0int,
{
    let ps = ordered_parents(ss[i]);
    assert forall|k: int| 0 <= k < ps.len() implies resolvable(
        ss,
        #[trigger] ps[k].0 as int,
        (f - 1) as nat,
    ) by {
        if ss[i].right {
            assert(ps[k] == ss[i].parents[ss[i].parents.len() - 1 - k]);
        }
    }
    lemma_inherited_stable(ss, ps, f, g);
    assert forall|k: int|
        0 <= k < ss[i].parents.len() implies resolvable(
        ss,
        #[trigger] ss[i].parents[k].0 as int,
        (g - 1) as nat,
    ) by {
        lemma_table_stable(ss, ss[i].parents[k].0 as int, (f - 1) as nat, (g - 1) as nat);
    }
}

proof fn lemma_inherited_stable(ss: Seq<ClassShape>, ps: Seq<ClassId>, f: nat, g: nat)
    requires
        f > 0,
        f <= g,
        forall|k: int| 0 <= k < ps.len() ==> resolvable(ss, #[trigger] ps[k].0 as int, (f - 1) as nat),
    ensures
        inherited_table(ss, ps, f) == inherited_table(ss, ps, g),
    decreases f, 0int, ps.len(),
{
    if ps.len() > 0 {
        lemma_table_stable(ss, ps.last().0 as int, (f - 1) as nat, (g - 1) as nat);
        assert forall|k: int| 0 <= k < ps.drop_last().len() implies resolvable(
            ss,
            #[trigger] ps.drop_last()[k].0 as int,
            (f - 1) as nat,
        ) by {
            assert(ps.drop_last()[k] == ps[k]);
        }
        lemma_inherited_stable(ss, ps.drop_last(), f, g);
    }
}

proof fn lemma_inherited_step(ss: Seq<ClassShape>, ps: Seq<ClassId>, k: int, f: nat)
    requires
        f > 0,
        0 <= k < ps.len(),
    ensures
        inherited_table(ss, ps.take(k + 1), f) == class_table(ss, ps[k].0 as int, (f - 1) as nat).union_prefer_right(
            inherited_table(ss, ps.take(k), f),
        ),
{
    assert(ps.take(k + 1).drop_last() =~= ps.take(k));
}

// ---- the search ----

spec fn count_unvisited(state: Seq<DfsState>) -> nat
    decreases state.len(),
{
    if state.len() == 0 {
        0
    } else {
        count_unvisited(state.drop_last()) + if state.last() == DfsState::Unvisited {
            1nat
        } else {
            0nat
        }
    }
}

proof fn lemma_count_unvisited_update(state: Seq<DfsState>, i: int, v: DfsState)
    requires
        0 <= i < state.len(),
        state[i] == DfsState::Unvisited,
        v != DfsState::Unvisited,
    ensures
        count_unvisited(state.update(i, v)) + 1 == count_unvisited(state),
    decreases state.len(),
{
    let t = state.update(i, v);
    if i == state.len() - 1 {
        assert(t.drop_last() =~= state.drop_last());
    } else {
        assert(t.drop_last() =~= state.drop_last().update(i, v));
        lemma_count_unvisited_update(state.drop_last(), i, v);
    }
}

spec fn memo_ok(
    ss: Seq<ClassShape>,
    memo: Seq<Option<AssocMap<String, MethodRef>>>,
    state: Seq<DfsState>,
    idx: OverrideIndex,
) -> bool {
    &&& memo.len() == ss.len()
    &&& state.len() == ss.len()
    &&& ss.len() <= usize::MAX
    &&& forall|j: int| 0 <= j < ss.len() ==> (#[trigger] memo[j] is Some <==> state[j] == DfsState::Done)
    &&& forall|j: int|
        0 <= j < ss.len() && #[trigger] memo[j] is Some && resolvable(ss, j, ss.len() as nat)
            ==> memo[j]->0@ == class_table(ss, j, ss.len() as nat)
    &&& forall|j: int|
        #![trigger idx.effective_public_methods@.dom().contains(class_id(j))]
        #![trigger idx.effective_public_methods@[class_id(j)]]
        0 <= j < ss.len() && state[j] == DfsState::Done && resolvable(ss, j, ss.len() as nat)
            ==> idx.effective_public_methods@.contains_key(class_id(j))
            && idx.effective_public_methods@[class_id(j)]@ == public_part(
            class_table(ss, j, ss.len() as nat),
        )
    &&& forall|j: int|
        0 <= j < ss.len() && #[trigger] state[j] == DfsState::Done && resolvable(ss, j, ss.len() as nat)
            ==> overriders_recorded(ss, idx, j, ss.len() as nat)
    &&& forall|j: int| 0 <= j < ss.len() && state[j] == DfsState::Done ==> #[trigger] has_entry(ss, idx, j)
    &&& forall|j: int| 0 <= j < ss.len() && #[trigger] memo[j] is Some ==> table_from_ancestors(ss, j, memo[j]->0@)
    &&& overrides_listed(idx)
    &&& pairs_explained(ss, idx, ss.len() as nat)
}

proof fn lemma_memo_ok_grows(
    ss: Seq<ClassShape>,
    memo: Seq<Option<AssocMap<String, MethodRef>>>,
    state: Seq<DfsState>,
    a: OverrideIndex,
    b: OverrideIndex,
)
    requires
        memo_ok(ss, memo, state, a),
        index_grows(a, b),
        b.effective_public_methods == a.effective_public_methods,
        overrides_listed(b),
        pairs_explained(ss, b, ss.len() as nat),
    ensures
        memo_ok(ss, memo, state, b),
{
    assert forall|j: int|
        0 <= j < ss.len() && #[trigger] state[j] == DfsState::Done && resolvable(ss, j, ss.len() as nat)
            implies overriders_recorded(ss, b, j, ss.len() as nat) by {
        lemma_recorded_grows(ss, a, b, j, ss.len() as nat);
    }
    assert forall|j: int| 0 <= j < ss.len() && state[j] == DfsState::Done implies #[trigger] has_entry(ss, b, j) by {
        assert(has_entry(ss, a, j));
    }
}

/// The nodes on `path` are being visited, each a child of the next; a node that is visited
/// off the path is not resolvable.
spec fn path_ok(ss: Seq<ClassShape>, state: Seq<DfsState>, path: Seq<int>) -> bool {
    &&& forall|k: int| 0 <= k < path.len() ==> 0 <= #[trigger] path[k] < ss.len()
    &&& forall|k: int| 0 <= k < path.len() ==> state[#[trigger] path[k]] == DfsState::Visiting
    &&& forall|j: int|
        0 <= j < ss.len() && state[j] == DfsState::Visiting && !path.contains(j) ==> !resolvable(
            ss,
            j,
            ss.len() as nat,
        )
    &&& forall|k: int|
        0 <= k < path.len() - 1 ==> ss[#[trigger] path[k]].parents.contains(
            ClassId(path[k + 1] as usize),
        )
}

/// Search states only move forward: a visited or finished node never becomes unvisited, and
/// a finished one stays finished.
spec fn state_progress(a: Seq<DfsState>, b: Seq<DfsState>) -> bool {
    &&& a.len() == b.len()
    &&& forall|j: int| 0 <= j < a.len() && a[j] != DfsState::Unvisited ==> #[trigger] b[j] != DfsState::Unvisited
    &&& forall|j: int| 0 <= j < a.len() && a[j] == DfsState::Done ==> #[trigger] b[j] == DfsState::Done
    &&& forall|j: int| 0 <= j < a.len() && a[j] == DfsState::Visiting ==> #[trigger] b[j] == DfsState::Visiting
}

proof fn lemma_count_progress(a: Seq<DfsState>, b: Seq<DfsState>)
    requires
        state_progress(a, b),
    ensures
        count_unvisited(b) <= count_unvisited(a),
    decreases a.len(),
{
    if a.len() > 0 {
        assert forall|j: int| 0 <= j < a.drop_last().len() && a.drop_last()[j] != DfsState::Unvisited implies #[trigger] b.drop_last()[j]
            != DfsState::Unvisited by {
            assert(a.drop_last()[j] == a[j] && b.drop_last()[j] == b[j]);
        }
        assert forall|j: int| 0 <= j < a.drop_last().len() && a.drop_last()[j] == DfsState::Done implies #[trigger] b.drop_last()[j]
            == DfsState::Done by {
            assert(a.drop_last()[j] == a[j] && b.drop_last()[j] == b[j]);
        }
        assert forall|j: int| 0 <= j < a.drop_last().len() && a.drop_last()[j] == DfsState::Visiting implies #[trigger] b.drop_last()[j]
            == DfsState::Visiting by {
            assert(a.drop_last()[j] == a[j] && b.drop_last()[j] == b[j]);
        }
        lemma_count_progress(a.drop_last(), b.drop_last());
        assert(a.last() == a[a.len() - 1]);
    }
}

/// A path of visits that returns to one of its own nodes is a cycle: nothing on it resolves.
proof fn lemma_path_cycle(ss: Seq<ClassShape>, path: Seq<int>, k: int, f: nat)
    requires
        ss.len() <= usize::MAX,
        0 <= k < path.len(),
        forall|m: int| 0 <= m < path.len() ==> 0 <= #[trigger] path[m] < ss.len(),
        forall|m: int|
            0 <= m < path.len() - 1 ==> ss[#[trigger] path[m]].parents.contains(
                ClassId(path[m + 1] as usize),
            ),
        ss[path.last()].parents.contains(ClassId(path[k] as usize)),
    ensures
        forall|j: int| k <= j < path.len() ==> !resolvable(ss, #[trigger] path[j], f),
    decreases f,
{
    if f > 0 {
        lemma_path_cycle(ss, path, k, (f - 1) as nat);
    }
    assert forall|j: int| k <= j < path.len() implies !resolvable(ss, #[trigger] path[j], f) by {
        let next = if j < path.len() - 1 {
            path[j + 1]
        } else {
            path[k]
        };
        assert(ss[path[j]].parents.contains(ClassId(next as usize)));
        let m = choose|m: int|
            0 <= m < ss[path[j]].parents.len() && ss[path[j]].parents[m] == ClassId(
                next as usize,
            );
        if resolvable(ss, path[j], f) {
            assert(resolvable(ss, ss[path[j]].parents[m].0 as int, (f - 1) as nat));
            assert(ss[path[j]].parents[m].0 as int == next);
            if j < path.len() - 1 {
                assert(!resolvable(ss, path[j + 1], (f - 1) as nat));
            } else {
                assert(!resolvable(ss, path[k], (f - 1) as nat));
            }
        }
    }
}

/// The result of the search for class `idx` is its table whenever it is resolvable.
spec fn result_ok(ss: Seq<ClassShape>, i: int, r: AssocMap<String, MethodRef>) -> bool {
    resolvable(ss, i, ss.len() as nat) ==> r@ == class_table(ss, i, ss.len() as nat)
}

/// Lays `ptable` under `table`: names already in `table` keep their entry.
fn merge_under(table: &mut AssocMap<String, MethodRef>, ptable: &AssocMap<String, MethodRef>)
    ensures
        final(table)@ == ptable@.union_prefer_right(old(table)@),
{
    let plen = ptable.len();
    let mut t: usize = 0;
    let ghost before = table@;
    proof {
        lemma_entries_map_take_none(ptable.pairs());
        assert(table@ =~= entries_map(ptable.pairs().take(0)).union_prefer_right(before));
    }
    while t < plen
        invariant
            plen == ptable.pairs().len(),
            unique_keys(ptable.pairs()),
            t <= plen,
            table@ == entries_map(ptable.pairs().take(t as int)).union_prefer_right(before),
        decreases plen - t,
    {
        let (name, mref) = ptable.entry_at(t);
        proof {
            lemma_entries_map_take_step(ptable.pairs(), t as int);
        }
        if !table.contains_key(name) {
            table.insert(name.clone(), *mref);
        }
        assert(table@ =~= entries_map(ptable.pairs().take(t + 1)).union_prefer_right(before));
        t = t + 1;
    }
    proof {
        lemma_entries_map_take_all(ptable.pairs());
        ptable.lemma_view_pairs();
    }
}

/// Lays the public declarations of class `idx` over `table`, recording each inherited public
/// method that a declaration replaces.
#[verifier::rlimit(60)]
#[verifier::spinoff_prover]
fn overlay_public_decls(
    table: &mut AssocMap<String, MethodRef>,
    index: &mut OverrideIndex,
    idx: usize,
    decls: &AssocMap<String, PublicMethodId>,
)
    requires
        overrides_listed(*old(index)),
    ensures
        overrides_listed(*final(index)),
        final(index).effective_public_methods == old(index).effective_public_methods,
        final(table)@ == overlay_publics(old(table)@, idx as int, decls.pairs()),
        index_grows(*old(index), *final(index)),
        public_decls_recorded(*final(index), idx as int, old(table)@, decls.pairs(), decls.pairs().len() as int),
        new_pairs_public(*old(index), *final(index), idx as int, old(table)@, decls.pairs()),
        records_single(*old(index)) && pub_ids_distinct(decls.pairs()) && publics_fresh(*old(index), idx as int, decls.pairs(), 0)
            ==> records_single(*final(index)),
{
    let ghost start = table@;
    let ghost fresh_start = records_single(*old(index)) && pub_ids_distinct(decls.pairs()) && publics_fresh(*old(index), idx as int, decls.pairs(), 0);
    let n = decls.len();
    let mut m: usize = 0;
    while m < n
        invariant
            n == decls.pairs().len(),
            m <= n,
            start == old(table)@,
            overrides_listed(*index),
            index.effective_public_methods == old(index).effective_public_methods,
            table@ == overlay_publics(start, idx as int, decls.pairs().take(m as int)),
            index_grows(*old(index), *index),
            public_decls_recorded(*index, idx as int, start, decls.pairs(), m as int),
            new_pairs_public(*old(index), *index, idx as int, start, decls.pairs()),
            fresh_start == (records_single(*old(index)) && pub_ids_distinct(decls.pairs()) && publics_fresh(*old(index), idx as int, decls.pairs(), 0)),
            fresh_start ==> records_single(*index) && publics_fresh(*index, idx as int, decls.pairs(), m as int),
        decreases n - m,
    {
        let (name, decl_id) = decls.entry_at(m);
        let child_ref = MethodRef { class: ClassId(idx), pub_id: Some(*decl_id), priv_id: None };
        let ghost before_index = *index;
        proof {
            if fresh_start {
                assert(child_ref == public_ref(idx as int, decls.pairs()[m as int].1));
                assert(unrecorded(*index, child_ref));
            }
        }
        if let Some(base_ref) = table.get(name) {
            if let Some(base_pid) = base_ref.pub_id {
                let base_pub = PublicMethodRef { class: base_ref.class, id: base_pid };
                record_override(index, child_ref, base_pub);
                proof {
                    if fresh_start {
                        assert forall|k: int| m + 1 <= k < decls.pairs().len() implies unrecorded(*index, public_ref(idx as int, (#[trigger] decls.pairs()[k]).1)) by {
                            assert(decls.pairs()[k].1 != decls.pairs()[m as int].1);
                            lemma_still_unrecorded(before_index, *index, child_ref, base_pub, public_ref(idx as int, decls.pairs()[k].1));
                        }
                    }
                }
                proof {
                    assert(replaced_public(overlay_publics(start, idx as int, decls.pairs().take(m as int)), decls.pairs()[m as int].0@) == Some(base_pub));
                    assert(child_ref == public_ref(idx as int, decls.pairs()[m as int].1));
                    assert(public_decl_replaces(idx as int, start, decls.pairs(), child_ref, base_pub));
                    assert forall|c: MethodRef, x: PublicMethodRef|
                        #[trigger] holds_pair(*index, c, x) && !holds_pair(*old(index), c, x) implies public_decl_replaces(idx as int, start, decls.pairs(), c, x) by {
                        if !(c == child_ref && x == base_pub) {
                            assert(holds_pair(before_index, c, x));
                        }
                    }
                }
            }
        }
        proof {
            lemma_public_decls_step(before_index, *index, idx as int, start, decls.pairs(), m as int);
            lemma_grows_trans(*old(index), before_index, *index);
        }
        table.insert(name.clone(), child_ref);
        proof {
            assert(decls.pairs().take(m + 1).drop_last() =~= decls.pairs().take(m as int));
        }
        m = m + 1;
    }
    proof {
        assert(decls.pairs().take(n as int) =~= decls.pairs());
    }
}

/// Lays the private declarations of class `idx` over `table`, recording each inherited public
/// method that a declaration replaces. A declaration whose name the table maps to a private
/// method replaces nothing: only public methods are overridden.
#[verifier::rlimit(60)]
#[verifier::spinoff_prover]
fn overlay_private_decls(
    table: &mut AssocMap<String, MethodRef>,
    index: &mut OverrideIndex,
    idx: usize,
    decls: &AssocMap<String, PrivateMethodId>,
)
    requires
        overrides_listed(*old(index)),
    ensures
        overrides_listed(*final(index)),
        final(index).effective_public_methods == old(index).effective_public_methods,
        index_grows(*old(index), *final(index)),
        private_decls_recorded(*final(index), idx as int, old(table)@, decls.pairs(), decls.pairs().len() as int),
        new_pairs_private(*old(index), *final(index), idx as int, old(table)@, decls.pairs()),
        final(table)@ == overlay_privates(old(table)@, idx as int, decls.pairs()),
        records_single(*old(index)) && priv_ids_distinct(decls.pairs()) && privates_fresh(*old(index), idx as int, decls.pairs(), 0)
            ==> records_single(*final(index)),
{
    let ghost start = table@;
    let ghost fresh_start = records_single(*old(index)) && priv_ids_distinct(decls.pairs()) && privates_fresh(*old(index), idx as int, decls.pairs(), 0);
    let n = decls.len();
    let mut m: usize = 0;
    while m < n
        invariant
            n == decls.pairs().len(),
            m <= n,
            unique_keys(decls.pairs()),
            start == old(table)@,
            overrides_listed(*index),
            index.effective_public_methods == old(index).effective_public_methods,
            table@ == overlay_privates(start, idx as int, decls.pairs().take(m as int)),
            index_grows(*old(index), *index),
            private_decls_recorded(*index, idx as int, start, decls.pairs(), m as int),
            new_pairs_private(*old(index), *index, idx as int, start, decls.pairs()),
            fresh_start == (records_single(*old(index)) && priv_ids_distinct(decls.pairs()) && privates_fresh(*old(index), idx as int, decls.pairs(), 0)),
            fresh_start ==> records_single(*index) && privates_fresh(*index, idx as int, decls.pairs(), m as int),
        decreases n - m,
    {
        let (name, decl_id) = decls.entry_at(m);
        let child_ref = MethodRef { class: ClassId(idx), pub_id: None, priv_id: Some(*decl_id) };
        let ghost before_index = *index;
        proof {
            lemma_overlay_privates_fresh(start, idx as int, decls.pairs(), m as int, m as int);
            if fresh_start {
                assert(child_ref == private_ref(idx as int, decls.pairs()[m as int].1));
                assert(unrecorded(*index, child_ref));
            }
        }
        if let Some(base_ref) = table.get(name) {
            let base_class = base_ref.class;
            match base_ref.pub_id {
                None => {
                    assert(replaced_public(table@, decls.pairs()[m as int].0@) is None);
                },
                Some(id) => {
                    let base_pub = PublicMethodRef { class: base_class, id };
                    assert(replaced_public(table@, decls.pairs()[m as int].0@) == Some(base_pub));
                    record_override(index, child_ref, base_pub);
                    proof {
                        if fresh_start {
                            assert forall|k: int| m + 1 <= k < decls.pairs().len() implies unrecorded(*index, private_ref(idx as int, (#[trigger] decls.pairs()[k]).1)) by {
                                assert(decls.pairs()[k].1 != decls.pairs()[m as int].1);
                                lemma_still_unrecorded(before_index, *index, child_ref, base_pub, private_ref(idx as int, decls.pairs()[k].1));
                            }
                        }
                    }
                    assert(child_ref == private_ref(idx as int, decls.pairs()[m as int].1));
                    assert(listed_under(*index, base_pub, private_ref(idx as int, decls.pairs()[m as int].1)));
                    proof {
                        assert(private_decl_replaces(idx as int, start, decls.pairs(), child_ref, base_pub));
                        assert forall|c: MethodRef, x: PublicMethodRef|
                            #[trigger] holds_pair(*index, c, x) && !holds_pair(*old(index), c, x) implies private_decl_replaces(idx as int, start, decls.pairs(), c, x) by {
                            if !(c == child_ref && x == base_pub) {
                                assert(holds_pair(before_index, c, x));
                            }
                        }
                    }
                },
            }
        } else {
            assert(replaced_public(table@, decls.pairs()[m as int].0@) is None);
        }
        proof {
            assert(index_grows(before_index, *index));
            lemma_private_decls_step(before_index, *index, idx as int, start, decls.pairs(), m as int);
            lemma_grows_trans(*old(index), before_index, *index);
        }
        table.insert(name.clone(), child_ref);
        proof {
            assert(decls.pairs().take(m + 1).drop_last() =~= decls.pairs().take(m as int));
        }
        m = m + 1;
    }
    proof {
        assert(decls.pairs().take(n as int) =~= decls.pairs());
    }
}

/// The public entries of a method table.
fn public_entries(table: &AssocMap<String, MethodRef>) -> (r: AssocMap<String, PublicMethodRef>)
    ensures
        r@ == public_part(table@),
{
    let tlen = table.len();
    let mut effective: AssocMap<String, PublicMethodRef> = AssocMap::new();
    let mut t: usize = 0;
    proof {
        lemma_entries_map_take_none(table.pairs());
        assert(effective@ =~= public_part(entries_map(table.pairs().take(0))));
    }
    while t < tlen
        invariant
            tlen == table.pairs().len(),
            unique_keys(table.pairs()),
            t <= tlen,
            effective@ == public_part(entries_map(table.pairs().take(t as int))),
        decreases tlen - t,
    {
        let (name, mref) = table.entry_at(t);
        proof {
            lemma_entries_map_take_step(table.pairs(), t as int);
        }
        if let Some(pid) = mref.pub_id {
            effective.insert(name.clone(), PublicMethodRef { class: mref.class, id: pid });
        }
        assert(effective@ =~= public_part(entries_map(table.pairs().take(t + 1))));
        t = t + 1;
    }
    proof {
        lemma_entries_map_take_all(table.pairs());
        table.lemma_view_pairs();
    }
    effective
}

proof fn lemma_path_extend(
    ss: Seq<ClassShape>,
    state: Seq<DfsState>,
    path: Seq<int>,
    idx: int,
)
    requires
        0 <= idx < ss.len(),
        state.len() == ss.len(),
        path_ok(ss, state, path),
        path.len() > 0 ==> ss[path.last()].parents.contains(ClassId(idx as usize)),
        state[idx] != DfsState::Visiting,
    ensures
        path_ok(ss, state.update(idx, DfsState::Visiting), path.push(idx)),
        !path.contains(idx),
{
    let st = state.update(idx, DfsState::Visiting);
    let np = path.push(idx);
    assert(np[path.len() as int] == idx);
    assert forall|m: int| 0 <= m < np.len() implies 0 <= #[trigger] np[m] < ss.len() && st[np[m]]
        == DfsState::Visiting by {
        if m < path.len() {
            assert(np[m] == path[m]);
        }
    }
    assert forall|m: int| 0 <= m < np.len() - 1 implies ss[#[trigger] np[m]].parents.contains(
        ClassId(np[m + 1] as usize),
    ) by {
        if m < path.len() - 1 {
            assert(np[m] == path[m] && np[m + 1] == path[m + 1]);
        } else {
            assert(np[m] == path.last());
        }
    }
    assert forall|j: int|
        0 <= j < ss.len() && st[j] == DfsState::Visiting && !np.contains(j) implies !resolvable(
        ss,
        j,
        ss.len() as nat,
    ) by {
        if path.contains(j) {
            let m = choose|m: int| 0 <= m < path.len() && path[m] == j;
            assert(np[m] == j);
        }
    }
    if path.contains(idx) {
        let m = choose|m: int| 0 <= m < path.len() && path[m] == idx;
        assert(state[path[m]] == DfsState::Visiting);
    }
}

proof fn lemma_memo_ok_mark(
    ss: Seq<ClassShape>,
    memo: Seq<Option<AssocMap<String, MethodRef>>>,
    state: Seq<DfsState>,
    idx: OverrideIndex,
    i: int,
)
    requires
        memo_ok(ss, memo, state, idx),
        0 <= i < ss.len(),
        memo[i] is None,
    ensures
        memo_ok(ss, memo, state.update(i, DfsState::Visiting), idx),
{
    let st = state.update(i, DfsState::Visiting);
    assert forall|j: int| 0 <= j < ss.len() implies (#[trigger] memo[j] is Some <==> st[j]
        == DfsState::Done) by {
        if j != i {
            assert(st[j] == state[j]);
        }
    }
    assert forall|j: int|
        #![trigger idx.effective_public_methods@.dom().contains(class_id(j))]
        #![trigger idx.effective_public_methods@[class_id(j)]]
        0 <= j < ss.len() && st[j] == DfsState::Done && resolvable(ss, j, ss.len() as nat)
            implies idx.effective_public_methods@.contains_key(class_id(j))
            && idx.effective_public_methods@[class_id(j)]@ == public_part(
            class_table(ss, j, ss.len() as nat),
        ) by {
        if j != i {
            assert(st[j] == state[j]);
        }
    }
    assert forall|j: int|
        0 <= j < ss.len() && #[trigger] st[j] == DfsState::Done && resolvable(ss, j, ss.len() as nat)
            implies overriders_recorded(ss, idx, j, ss.len() as nat) by {
        if j != i {
            assert(st[j] == state[j]);
        }
    }
    assert forall|j: int| 0 <= j < ss.len() && st[j] == DfsState::Done implies #[trigger] has_entry(ss, idx, j) by {
        if j != i {
            assert(st[j] == state[j]);
        }
    }
}

#[verifier::rlimit(60)]
#[verifier::spinoff_prover]
fn override_dfs(
    idx: usize,
    classes: &Vec<Class>,
    rights: &Vec<bool>,
    memo: &mut Vec<Option<AssocMap<String, MethodRef>>>,
    state: &mut Vec<DfsState>,
    index: &mut OverrideIndex,
    Ghost(path): Ghost<Seq<int>>,
) -> (r: AssocMap<String, MethodRef>)
    requires
        idx < classes@.len(),
        rights@.len() == classes@.len(),
        snaps_wf(shapes(classes@, rights@)),
        memo_ok(shapes(classes@, rights@), old(memo)@, old(state)@, *old(index)),
        path_ok(shapes(classes@, rights@), old(state)@, path),
        path.len() > 0 ==> shapes(classes@, rights@)[path.last()].parents.contains(ClassId(idx)),
        pairs_done(old(state)@, *old(index)),
        all_decl_ids_distinct(shapes(classes@, rights@)) ==> records_single(*old(index)),
    ensures
        pairs_done(final(state)@, *final(index)),
        all_decl_ids_distinct(shapes(classes@, rights@)) ==> records_single(*final(index)),
        memo_ok(shapes(classes@, rights@), final(memo)@, final(state)@, *final(index)),
        path_ok(shapes(classes@, rights@), final(state)@, path),
        state_progress(old(state)@, final(state)@),
        resolvable(shapes(classes@, rights@), idx as int, classes@.len() as nat) ==> final(state)@[idx as int]
            == DfsState::Done,
        old(state)@[idx as int] != DfsState::Visiting ==> final(state)@[idx as int] == DfsState::Done,
        forall|j: int| 0 <= j < classes@.len() ==> (#[trigger] final(state)@[j] == DfsState::Visiting <==> old(state)@[j] == DfsState::Visiting),
        result_ok(shapes(classes@, rights@), idx as int, r),
        table_from_ancestors(shapes(classes@, rights@), idx as int, r@),
        index_grows(*old(index), *final(index)),
    decreases count_unvisited(old(state)@),
{
    let ghost n = classes@.len() as nat;
    let ghost ss = shapes(classes@, rights@);
    match &memo[idx] {
        Some(cached) => {
            proof {
                assert(memo@[idx as int] is Some);
            }
            return cached.duplicate();
        },
        None => {},
    }
    if state[idx] == DfsState::Visiting {
        proof {
            if path.contains(idx as int) {
                let k = choose|k: int| 0 <= k < path.len() && path[k] == idx as int;
                lemma_path_cycle(ss, path, k, n);
            }
        }
        return AssocMap::new();
    }
    proof {
        lemma_count_unvisited_update(state@, idx as int, DfsState::Visiting);
        lemma_path_extend(ss, state@, path, idx as int);
        lemma_memo_ok_mark(ss, memo@, state@, *index, idx as int);
        lemma_pairs_done_mark(state@, *index, idx as int);
    }
    state.set(idx, DfsState::Visiting);
    let ghost new_path = path.push(idx as int);
    let snap = &classes[idx];
    let right = rights[idx];
    let ghost ps = ordered_parents(shapes(classes@, rights@)[idx as int]);
    let mut table: AssocMap<String, MethodRef> = AssocMap::new();
    let np = snap.inherited_classes.len();
    let mut k: usize = 0;
    assert(new_path.last() == idx as int);
    assert(memo@[idx as int] is None);
    while k < np
        invariant
            idx < classes@.len(),
            ss == shapes(classes@, rights@),
            rights@.len() == classes@.len(),
            n == ss.len(),
            snaps_wf(ss),
            snap == &classes@[idx as int],
            right == rights@[idx as int],
            ss[idx as int] == class_shape(*snap, right),
            np == snap.inherited_classes@.len(),
            ps == ordered_parents(ss[idx as int]),
            ps.len() == np,
            k <= np,
            new_path == path.push(idx as int),
            new_path.last() == idx as int,
            memo_ok(ss, memo@, state@, *index),
            memo@[idx as int] is None,
            path_ok(ss, state@, new_path),
            state_progress(old(state)@.update(idx as int, DfsState::Visiting), state@),
            forall|j: int| 0 <= j < n ==> (#[trigger] state@[j] == DfsState::Visiting <==> old(state)@.update(idx as int, DfsState::Visiting)[j] == DfsState::Visiting),
            count_unvisited(state@) < count_unvisited(old(state)@),
            pairs_done(state@, *index),
            all_decl_ids_distinct(ss) ==> records_single(*index),
            resolvable(ss, idx as int, n) ==> table@ == inherited_table(ss, ps.take(k as int), n),
            table_from_ancestors(ss, idx as int, table@),
            index_grows(*old(index), *index),
        decreases np - k,
    {
        let pi = if right {
            np - 1 - k
        } else {
            k
        };
        let parent = snap.inherited_classes[pi];
        proof {
            if right {
                assert(ps[k as int] == snap.inherited_classes@[pi as int]);
            }
            assert(ss[idx as int].parents[pi as int] == parent);
            assert(ss[idx as int].parents.contains(parent));
        }
        let ghost st_before = state@;
        let ghost index_before = *index;
        let ptable = override_dfs(parent.0, classes, rights, memo, state, index, Ghost(new_path));
        proof {
            lemma_grows_trans(*old(index), index_before, *index);
            lemma_count_progress(st_before, state@);
            if resolvable(ss, idx as int, n) {
                let pp = parent.0 as int;
                assert(resolvable(ss, pp, (n - 1) as nat));
                lemma_table_stable(ss, pp, (n - 1) as nat, n);
                lemma_inherited_step(ss, ps, k as int, n);
            }
        }
        let ghost table_before = table@;
        merge_under(&mut table, &ptable);
        proof {
            lemma_union_from_ancestors(ss, idx as int, pi as int, ptable@, table_before);
        }
        k = k + 1;
    }
    proof {
        assert(ps.take(np as int) =~= ps);
    }
    let ghost before_pub = table@;
    let ghost index0 = *index;
    proof {
        lemma_fresh_class(state@, index0, idx as int, snap.public_methods.pairs(), snap.private_methods.pairs());
        if all_decl_ids_distinct(ss) {
            assert(distinct_decl_ids(ss[idx as int]));
        }
    }
    overlay_public_decls(&mut table, index, idx, &snap.public_methods);
    let ghost before_priv = table@;
    let ghost index1 = *index;
    proof {
        assert(ss[idx as int].private_methods == snap.private_methods.pairs());
        assert(ss[idx as int].public_methods == snap.public_methods.pairs());
        assert forall|c: MethodRef, x: PublicMethodRef| #[trigger] holds_pair(index1, c, x) implies {
            let i = c.class.0 as int;
            &&& i < ss.len()
            &&& resolvable(ss, i, n) ==> public_decl_replaces(
                i,
                inherited_table(ss, ordered_parents(ss[i]), n),
                ss[i].public_methods,
                c,
                x,
            ) || private_decl_replaces(i, table_before_privates(ss, i, n), ss[i].private_methods, c, x)
        } by {
            if !holds_pair(index0, c, x) {
                assert(public_decl_replaces(idx as int, before_pub, snap.public_methods.pairs(), c, x));
                let k = choose|k: int|
                    0 <= k < snap.public_methods.pairs().len() && c == public_ref(idx as int, snap.public_methods.pairs()[k].1) && #[trigger] replaced_public(
                        overlay_publics(before_pub, idx as int, snap.public_methods.pairs().take(k)),
                        snap.public_methods.pairs()[k].0@,
                    ) == Some(x);
                assert(c.class.0 as int == idx as int);
                if resolvable(ss, idx as int, n) {
                    assert(before_pub == inherited_table(ss, ordered_parents(ss[idx as int]), n));
                }
            }
        }
        lemma_memo_ok_grows(ss, memo@, state@, index0, index1);
        lemma_grows_trans(*old(index), index0, index1);
    }
    proof {
        lemma_privates_fresh_after_publics(index0, index1, idx as int, before_pub, snap.public_methods.pairs(), snap.private_methods.pairs());
    }
    overlay_private_decls(&mut table, index, idx, &snap.private_methods);
    proof {
        assert forall|c: MethodRef, x: PublicMethodRef| #[trigger] holds_pair(*index, c, x) implies {
            let i = c.class.0 as int;
            &&& i < ss.len()
            &&& resolvable(ss, i, n) ==> public_decl_replaces(
                i,
                inherited_table(ss, ordered_parents(ss[i]), n),
                ss[i].public_methods,
                c,
                x,
            ) || private_decl_replaces(i, table_before_privates(ss, i, n), ss[i].private_methods, c, x)
        } by {
            if !holds_pair(index1, c, x) {
                assert(private_decl_replaces(idx as int, before_priv, snap.private_methods.pairs(), c, x));
                let k = choose|k: int|
                    0 <= k < snap.private_methods.pairs().len() && c == private_ref(idx as int, snap.private_methods.pairs()[k].1) && #[trigger] replaced_public(
                        overlay_privates(before_priv, idx as int, snap.private_methods.pairs().take(k)),
                        snap.private_methods.pairs()[k].0@,
                    ) == Some(x);
                assert(c.class.0 as int == idx as int);
                if resolvable(ss, idx as int, n) {
                    assert(before_pub == inherited_table(ss, ordered_parents(ss[idx as int]), n));
                    assert(before_priv == table_before_privates(ss, idx as int, n));
                }
            }
        }
        lemma_memo_ok_grows(ss, memo@, state@, index1, *index);
        lemma_grows_trans(*old(index), index1, *index);
    }
    let ghost index2 = *index;
    let ghost state2 = state@;
    proof {
        assert(ss[idx as int].public_methods == snap.public_methods.pairs());
        assert(ss[idx as int].private_methods == snap.private_methods.pairs());
        lemma_overlay_publics_from_ancestors(ss, idx as int, before_pub, snap.public_methods.pairs());
        lemma_overlay_privates_from_ancestors(ss, idx as int, before_priv, snap.private_methods.pairs());
        lemma_public_part_from_ancestors(ss, idx as int, table@);
        lemma_pairs_done_finish(state@, index0, index1, index2, idx as int, before_pub, before_priv, snap.public_methods.pairs(), snap.private_methods.pairs());
        if resolvable(ss, idx as int, n) {
            assert(before_pub == inherited_table(ss, ordered_parents(ss[idx as int]), n));
            assert(before_priv == table_before_privates(ss, idx as int, n));
            lemma_publics_grows(ss, index1, index2, idx as int, before_pub);
        }
    }
    let effective = public_entries(&table);
    index.effective_public_methods.insert(ClassId(idx), effective);
    proof {
        assert(index.overridden_by == index2.overridden_by);
        assert forall|m: PublicMethodRef, c: MethodRef| #[trigger] listed_under(index2, m, c) implies listed_under(*index, m, c) by {}
        lemma_grows_trans(*old(index), index2, *index);
        assert(pairs_explained(ss, index2, n));
        assert forall|c: MethodRef, x: PublicMethodRef| #[trigger] holds_pair(*index, c, x) implies holds_pair(index2, c, x) by {}
        assert(index.overrides == index2.overrides);
        assert(records_single(index2) ==> records_single(*index));
    }
    proof {
        assert(own_decls_on_top(ss, idx as int, before_pub, index.effective_public_methods@[class_id(idx as int)]@));
        assert forall|j: int| 0 <= j < n && state@[j] == DfsState::Done implies #[trigger] has_entry(ss, *index, j) by {
            assert(has_entry(ss, index2, j));
            assert(class_id(j) != ClassId(idx));
            let t = choose|t: MethodTable| #[trigger] own_decls_on_top(ss, j, t, index2.effective_public_methods@[class_id(j)]@);
            assert(own_decls_on_top(ss, j, t, index.effective_public_methods@[class_id(j)]@));
        }
    }
    state.set(idx, DfsState::Done);
    memo.set(idx, Some(table.duplicate()));
    proof {
        assert(has_entry(ss, *index, idx as int));
        assert(state@ == state2.update(idx as int, DfsState::Done));
        assert forall|c: MethodRef, x: PublicMethodRef| #[trigger] holds_pair(*index, c, x) implies 0 <= c.class.0 < state@.len()
            && state@[c.class.0 as int] == DfsState::Done by {
            assert(holds_pair(index2, c, x));
        }
    }
    table
}

proof fn lemma_grows_trans(a: OverrideIndex, b: OverrideIndex, c: OverrideIndex)
    requires
        index_grows(a, b),
        index_grows(b, c),
    ensures
        index_grows(a, c),
{
    assert forall|m: PublicMethodRef, x: MethodRef| #[trigger] listed_under(a, m, x) implies listed_under(c, m, x) by {
        assert(listed_under(b, m, x));
    }
}

/// A private declaration's name is untouched by the private declarations before it, which
/// carry other names.
proof fn lemma_overlay_privates_fresh(
    t: MethodTable,
    i: int,
    ds: Seq<(String, PrivateMethodId)>,
    m: int,
    p: int,
)
    requires
        unique_keys(ds),
        0 <= p <= m < ds.len(),
    ensures
        overlay_privates(t, i, ds.take(p)).contains_key(ds[m].0@) == t.contains_key(ds[m].0@),
        t.contains_key(ds[m].0@) ==> overlay_privates(t, i, ds.take(p))[ds[m].0@] == t[ds[m].0@],
    decreases p,
{
    if p > 0 {
        let d = ds.take(p);
        let e = ds.take(p - 1);
        assert(d.drop_last() =~= e);
        assert(d.last() == ds[p - 1]);
        assert(ds[p - 1].0.key_view() != ds[m].0.key_view());
        lemma_overlay_privates_fresh(t, i, ds, m, p - 1);
        assert(overlay_privates(t, i, d) == overlay_privates(t, i, e).insert(
            ds[p - 1].0@,
            private_ref(i, ds[p - 1].1),
        ));
    } else {
        assert(ds.take(0).len() == 0);
        assert(overlay_privates(t, i, ds.take(0)) == t);
    }
}

/// Records that `child` replaced `base`, keeping every override listed under its base.
fn record_override(index: &mut OverrideIndex, child: MethodRef, base: PublicMethodRef)
    requires
        overrides_listed(*old(index)),
    ensures
        overrides_listed(*final(index)),
        final(index).effective_public_methods == old(index).effective_public_methods,
        final(index).overrides@ == old(index).overrides@.insert(child, base),
        index_grows(*old(index), *final(index)),
        listed_under(*final(index), base, child),
        forall|c: MethodRef, x: PublicMethodRef|
            #[trigger] holds_pair(*final(index), c, x) ==> holds_pair(*old(index), c, x) || (c == child && x == base),
        records_single(*old(index)) && unrecorded(*old(index), child) ==> records_single(*final(index)),
{
    index.overrides.insert(child, base);
    let mut children = match index.overridden_by.remove(&base) {
        Some(v) => v,
        None => Vec::new(),
    };
    let ghost prev = children@;
    children.push(child);
    index.overridden_by.insert(base, children);
    proof {
        assert(children@.last() == child);
        assert forall|c: MethodRef| #[trigger] index.overrides@.contains_key(c) implies index.overridden_by@.contains_key(
            index.overrides@[c],
        ) && index.overridden_by@[index.overrides@[c]]@.contains(c) by {
            if c != child {
                let b = index.overrides@[c];
                if b == base {
                    let j = choose|j: int| 0 <= j < prev.len() && prev[j] == c;
                    assert(children@[j] == c);
                }
            } else {
                assert(children@[children@.len() - 1] == child);
            }
        }
        assert forall|m: PublicMethodRef, c: MethodRef| #[trigger] listed_under(*old(index), m, c) implies listed_under(*index, m, c) by {
            let j = choose|j: int| 0 <= j < old(index).overridden_by@[m]@.len() && old(index).overridden_by@[m]@[j] == c;
            if m == base {
                assert(children@[j] == c);
            }
        }
        assert(children@[children@.len() - 1] == child);
        assert forall|c: MethodRef, x: PublicMethodRef|
            #[trigger] holds_pair(*index, c, x) implies holds_pair(*old(index), c, x) || (c == child && x == base) by {
            if listed_under(*index, x, c) && !(c == child && x == base) {
                if x == base {
                    let j = choose|j: int| 0 <= j < children@.len() && children@[j] == c;
                    if j < prev.len() {
                        assert(prev[j] == c);
                        assert(listed_under(*old(index), x, c));
                    }
                } else {
                    assert(index.overridden_by@[x] == old(index).overridden_by@[x]);
                }
            }
        }
        if records_single(*old(index)) && unrecorded(*old(index), child) {
            assert forall|c: MethodRef, x: PublicMethodRef|
                #[trigger] holds_pair(*index, c, x) implies index.overrides@.contains_key(c) && index.overrides@[c] == x by {
                if !(c == child && x == base) {
                    assert(holds_pair(*old(index), c, x));
                    assert(c != child);
                }
            }
            if old(index).overridden_by@.contains_key(base) {
                assert(prev == old(index).overridden_by@[base]@);
                assert(!prev.contains(child)) by {
                    if prev.contains(child) {
                        let j = choose|j: int| 0 <= j < prev.len() && prev[j] == child;
                        assert(listed_under(*old(index), base, child));
                        assert(holds_pair(*old(index), child, base));
                    }
                }
            } else {
                assert(prev.len() == 0);
            }
            assert(children@.no_duplicates()) by {
                assert forall|a: int, b: int| 0 <= a < b < children@.len() implies children@[a] != children@[b] by {
                    if b == prev.len() {
                        assert(prev[a] == children@[a]);
                    } else {
                        assert(prev[a] == children@[a] && prev[b] == children@[b]);
                    }
                }
            }
            assert forall|b: PublicMethodRef|
                #[trigger] index.overridden_by@.contains_key(b) implies index.overridden_by@[b]@.no_duplicates() by {
                if b != base {
                    assert(index.overridden_by@[b] == old(index).overridden_by@[b]);
                }
            }
        }
    }
}

/// Builds the override index of `classes`; `rights[i]` tells whether the rightmost parent of
/// class `i` takes precedence.
pub fn build_index(classes: &Vec<Class>, rights: &Vec<bool>) -> (index: OverrideIndex)
    requires
        rights@.len() == classes@.len(),
        snaps_wf(shapes(classes@, rights@)),
    ensures
        forall|i: int|
            #![trigger index.effective_public_methods@.dom().contains(class_id(i))]
            #![trigger index.effective_public_methods@[class_id(i)]]
            0 <= i < classes@.len() && resolvable(shapes(classes@, rights@), i, classes@.len() as nat)
                ==> index.effective_public_methods@.contains_key(class_id(i))
                && index.effective_public_methods@[class_id(i)]@ == public_part(
                class_table(shapes(classes@, rights@), i, classes@.len() as nat),
            ),
        forall|i: int|
            0 <= i < classes@.len() && #[trigger] resolvable(shapes(classes@, rights@), i, classes@.len() as nat)
                ==> overriders_recorded(shapes(classes@, rights@), index, i, classes@.len() as nat),
        forall|i: int| 0 <= i < classes@.len() ==> #[trigger] has_entry(shapes(classes@, rights@), index, i),
        all_decl_ids_distinct(shapes(classes@, rights@)) ==> records_single(index),
        overrides_listed(index),
        pairs_explained(shapes(classes@, rights@), index, classes@.len() as nat),
{
    let n = classes.len();
    let mut memo: Vec<Option<AssocMap<String, MethodRef>>> = Vec::new();
    let mut state: Vec<DfsState> = Vec::new();
    let mut index = OverrideIndex::new();
    let mut k: usize = 0;
    while k < n
        invariant
            k <= n,
            n == classes@.len(),
            memo@.len() == k,
            state@.len() == k,
            forall|j: int| 0 <= j < k ==> memo@[j] is None && state@[j] == DfsState::Unvisited,
        decreases n - k,
    {
        memo.push(None);
        state.push(DfsState::Unvisited);
        k = k + 1;
    }
    assert forall|j: int| 0 <= j < n implies (#[trigger] memo@[j] is Some <==> state@[j]
        == DfsState::Done) by {}
    let mut i: usize = 0;
    while i < n
        invariant
            i <= n,
            n == classes@.len(),
            rights@.len() == classes@.len(),
            snaps_wf(shapes(classes@, rights@)),
            memo_ok(shapes(classes@, rights@), memo@, state@, index),
            path_ok(shapes(classes@, rights@), state@, Seq::empty()),
            forall|j: int| 0 <= j < n ==> #[trigger] state@[j] != DfsState::Visiting,
            forall|j: int| 0 <= j < i ==> #[trigger] state@[j] == DfsState::Done,
            pairs_done(state@, index),
            all_decl_ids_distinct(shapes(classes@, rights@)) ==> records_single(index),
        decreases n - i,
    {
        let ghost before = state@;
        let _ = override_dfs(i, classes, rights, &mut memo, &mut state, &mut index, Ghost(Seq::empty()));
        proof {
            assert forall|j: int| 0 <= j < i + 1 implies #[trigger] state@[j] == DfsState::Done by {
                if j < i {
                    assert(before[j] == DfsState::Done);
                }
            }
            assert forall|j: int| 0 <= j < n implies #[trigger] state@[j] != DfsState::Visiting by {
                assert(before[j] != DfsState::Visiting);
            }
        }
        i = i + 1;
    }
    assert forall|i: int|
        #![trigger index.effective_public_methods@.dom().contains(class_id(i))]
        #![trigger index.effective_public_methods@[class_id(i)]]
        0 <= i < classes@.len() && resolvable(shapes(classes@, rights@), i, classes@.len() as nat)
            implies index.effective_public_methods@.contains_key(class_id(i))
            && index.effective_public_methods@[class_id(i)]@ == public_part(
            class_table(shapes(classes@, rights@), i, classes@.len() as nat),
        ) by {
        assert(state@[i] == DfsState::Done);
    }
    assert forall|i: int|
        0 <= i < classes@.len() && #[trigger] resolvable(shapes(classes@, rights@), i, classes@.len() as nat)
            implies overriders_recorded(shapes(classes@, rights@), index, i, classes@.len() as nat) by {
        assert(state@[i] == DfsState::Done);
    }
    assert forall|i: int| 0 <= i < classes@.len() implies #[trigger] has_entry(shapes(classes@, rights@), index, i) by {
        assert(state@[i] == DfsState::Done);
    }
    index
}

/// The public declarations `ds` carry distinct ids.
pub open spec fn pub_ids_distinct(ds: Seq<(String, PublicMethodId)>) -> bool {
    forall|a: int, b: int| 0 <= a < ds.len() && 0 <= b < ds.len() && a != b ==> #[trigger] ds[a].1 != #[trigger] ds[b].1
}

/// The private declarations `ds` carry distinct ids.
pub open spec fn priv_ids_distinct(ds: Seq<(String, PrivateMethodId)>) -> bool {
    forall|a: int, b: int| 0 <= a < ds.len() && 0 <= b < ds.len() && a != b ==> #[trigger] ds[a].1 != #[trigger] ds[b].1
}

/// The declarations of class `s` carry distinct ids, public and private alike.
pub open spec fn distinct_decl_ids(s: ClassShape) -> bool {
    &&& pub_ids_distinct(s.public_methods)
    &&& priv_ids_distinct(s.private_methods)
}

/// In an index that records each method as replacing at most one public method, a method
/// is listed among those that replace a public method exactly when it is recorded as
/// overriding that method.
pub proof fn law_overridden_by_matches_overrides(idx: OverrideIndex, c: MethodRef, x: PublicMethodRef)
    requires
        overrides_listed(idx),
        records_single(idx),
    ensures
        listed_under(idx, x, c) <==> (idx.overrides@.contains_key(c) && idx.overrides@[c] == x),
{
    if listed_under(idx, x, c) {
        assert(holds_pair(idx, c, x));
    }
}

/// An index whose every entry is explained, in a snapshot where every class resolves and no
/// declaration replaces a public method, records no override and lists no overrider.
pub proof fn law_no_replacement_no_entries(ss: Seq<ClassShape>, idx: OverrideIndex, f: nat)
    requires
        overrides_listed(idx),
        pairs_explained(ss, idx, f),
        forall|i: int| 0 <= i < ss.len() ==> #[trigger] resolvable(ss, i, f),
        forall|i: int, c: MethodRef, x: PublicMethodRef|
            0 <= i < ss.len() ==> !#[trigger] public_decl_replaces(
                i,
                inherited_table(ss, ordered_parents(ss[i]), f),
                ss[i].public_methods,
                c,
                x,
            ),
        forall|i: int, c: MethodRef, x: PublicMethodRef|
            0 <= i < ss.len() ==> !#[trigger] private_decl_replaces(
                i,
                table_before_privates(ss, i, f),
                ss[i].private_methods,
                c,
                x,
            ),
    ensures
        idx.overrides@ == Map::<MethodRef, PublicMethodRef>::empty(),
        idx.overridden_by@ == Map::<PublicMethodRef, Vec<MethodRef>>::empty(),
{
    assert forall|c: MethodRef| !idx.overrides@.contains_key(c) by {
        if idx.overrides@.contains_key(c) {
            let x = idx.overrides@[c];
            assert(holds_pair(idx, c, x));
            assert(resolvable(ss, c.class.0 as int, f));
        }
    }
    assert forall|b: PublicMethodRef| !idx.overridden_by@.contains_key(b) by {
        if idx.overridden_by@.contains_key(b) {
            let c = idx.overridden_by@[b]@[0];
            assert(listed_under(idx, b, c));
            assert(holds_pair(idx, c, b));
            assert(resolvable(ss, c.class.0 as int, f));
        }
    }
    assert(idx.overrides@ =~= Map::<MethodRef, PublicMethodRef>::empty());
    assert(idx.overridden_by@ =~= Map::<PublicMethodRef, Vec<MethodRef>>::empty());
}

} // verus!
