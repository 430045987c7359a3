use crate::class::is_blank_class;
use crate::local_semantic::LocalSemanticModel;
use crate::maps::{AssocMap, MapKey};
use crate::method::{keywords_after_update, method_edited, MethodEdit};
use crate::override_index::{
    all_decl_ids_distinct, build_index, class_table, has_entry, overriders_recorded, records_single, overrides_listed, pairs_explained, public_part, resolvable, shapes,
    snaps_wf,
    ClassShape, OverrideIndex,
};
use crate::parse_structures::{
    Class, ClassId, DfsState, Language, LocalSemanticModelId, Method, MethodCallSite,
    PrivateMethodId, PrivateVarId, PublicMethodId, PublicVarId, TextRange, Variable,
};
use crate::scope_structures::{
    ClassGlobalSymbol, ClassGlobalSymbolId, MethodGlobalSymbol, MethodGlobalSymbolId,
    VariableGlobalSymbol, VariableGlobalSymbolId,
};
use vstd::prelude::*;

verus! {

/// Holds the semantic information and symbols for classes, public methods, and public variables.
#[derive(Debug)]
pub struct GlobalSemanticModel {
    /// Stores public variables per class.
    pub variables: AssocMap<ClassId, Vec<Variable>>,
    /// Stores all classes in a workspace.
    pub classes: Vec<Class>,
    /// Stores public methods per class.
    pub methods: AssocMap<ClassId, Vec<Method>>,
    /// Stores all local semantic models in a workspace.
    pub private: Vec<LocalSemanticModel>,
    /// Stores all class symbols in a workspace.
    pub class_defs: Vec<ClassGlobalSymbol>,
    /// Stores Method Global Symbols per Class Global Symbol
    pub method_defs: AssocMap<ClassGlobalSymbolId, Vec<MethodGlobalSymbol>>,
    /// Stores Variable Global Symbols per Class Global Symbol
    pub variable_defs: AssocMap<ClassGlobalSymbolId, Vec<VariableGlobalSymbol>>,
}

/// What keyword inheritance reads of a class: its own ProcedureBlock and Language keywords
/// and its leftmost parent.
#[derive(Clone, Copy, Debug, PartialEq, Eq, Structural)]
pub struct KeywordSnap {
    pub declared_pb: Option<bool>,
    pub declared_lang: Option<Language>,
    pub primary_parent: Option<usize>,
}

pub open spec fn keyword_snap(c: Class) -> KeywordSnap {
    KeywordSnap {
        declared_pb: c.is_procedure_block,
        declared_lang: c.default_language,
        primary_parent: if c.inherited_classes@.len() > 0 {
            Some(c.inherited_classes@[0].0)
        } else {
            None
        },
    }
}

pub open spec fn keyword_snaps(cls: Seq<Class>) -> Seq<KeywordSnap> {
    cls.map_values(|c: Class| keyword_snap(c))
}

/// The leftmost parent of class `i`, when it names a class of the model.
pub open spec fn primary_parent(s: Seq<KeywordSnap>, i: int) -> Option<int> {
    match s[i].primary_parent {
        Some(p) => if p < s.len() {
            Some(p as int)
        } else {
            None
        },
        None => None,
    }
}

/// Following leftmost parents from `i` reaches, within `fuel` steps, a class without one.
pub open spec fn chain_ends(s: Seq<KeywordSnap>, i: int, fuel: nat) -> bool
    decreases fuel,
{
    match primary_parent(s, i) {
        None => true,
        Some(p) => fuel > 0 && chain_ends(s, p, (fuel - 1) as nat),
    }
}

/// The first ProcedureBlock keyword declared along the leftmost-parent chain from `i`.
pub open spec fn inherited_pb(s: Seq<KeywordSnap>, i: int, fuel: nat) -> Option<bool>
    decreases fuel,
{
    if s[i].declared_pb is Some {
        s[i].declared_pb
    } else {
        match primary_parent(s, i) {
            Some(p) => if fuel > 0 {
                inherited_pb(s, p, (fuel - 1) as nat)
            } else {
                None
            },
            None => None,
        }
    }
}

/// The first Language keyword declared along the leftmost-parent chain from `i`.
pub open spec fn inherited_lang(s: Seq<KeywordSnap>, i: int, fuel: nat) -> Option<Language>
    decreases fuel,
{
    if s[i].declared_lang is Some {
        s[i].declared_lang
    } else {
        match primary_parent(s, i) {
            Some(p) => if fuel > 0 {
                inherited_lang(s, p, (fuel - 1) as nat)
            } else {
                None
            },
            None => None,
        }
    }
}

/// What the keyword search owes for class `i`: declared keywords are kept, and where the
/// leftmost-parent chain ends, the first declared keywords along it.
pub open spec fn keyword_result_ok(
    s: Seq<KeywordSnap>,
    i: int,
    r: (Option<bool>, Option<Language>),
) -> bool {
    &&& s[i].declared_pb is Some ==> r.0 == s[i].declared_pb
    &&& s[i].declared_lang is Some ==> r.1 == s[i].declared_lang
    &&& chain_ends(s, i, s.len()) ==> r.0 == inherited_pb(s, i, s.len()) && r.1 == inherited_lang(
        s,
        i,
        s.len(),
    )
}

spec fn keyword_memo_ok(
    s: Seq<KeywordSnap>,
    memo: Seq<Option<(Option<bool>, Option<Language>)>>,
    state: Seq<DfsState>,
) -> bool {
    &&& memo.len() == s.len()
    &&& state.len() == s.len()
    &&& forall|j: int| 0 <= j < s.len() ==> (#[trigger] memo[j] is Some <==> state[j] == DfsState::Done)
    &&& forall|j: int| 0 <= j < s.len() && #[trigger] memo[j] is Some ==> keyword_result_ok(s, j, memo[j]->0)
}

/// The nodes being visited form the leftmost-parent path that leads to `idx`.
spec fn keyword_path_ok(s: Seq<KeywordSnap>, state: Seq<DfsState>, path: Seq<int>, idx: int) -> bool {
    &&& forall|k: int| 0 <= k < path.len() ==> 0 <= #[trigger] path[k] < s.len()
    &&& forall|j: int| 0 <= j < s.len() ==> (state[j] == DfsState::Visiting <==> path.contains(j))
    &&& forall|k: int| 0 <= k < path.len() - 1 ==> primary_parent(s, #[trigger] path[k]) == Some(path[k + 1])
    &&& path.len() > 0 ==> primary_parent(s, path.last()) == Some(idx)
}

spec fn count_unvisited(state: Seq<DfsState>) -> nat
    decreases state.len(),
{
    if state.len() == 0 {
        0
    } else {
        count_unvisited(state.drop_last()) + if state.last() == DfsState::Unvisited {
            1nat
        } else {
            0nat
        }
    }
}

proof fn lemma_count_unvisited_update(state: Seq<DfsState>, i: int, v: DfsState)
    requires
        0 <= i < state.len(),
        state[i] == DfsState::Unvisited,
        v != DfsState::Unvisited,
    ensures
        count_unvisited(state.update(i, v)) + 1 == count_unvisited(state),
    decreases state.len(),
{
    let t = state.update(i, v);
    if i == state.len() - 1 {
        assert(t.drop_last() =~= state.drop_last());
    } else {
        assert(t.drop_last() =~= state.drop_last().update(i, v));
        lemma_count_unvisited_update(state.drop_last(), i, v);
    }
}

proof fn lemma_chain_ends_mono(s: Seq<KeywordSnap>, i: int, f: nat, g: nat)
    requires
        0 <= i < s.len(),
        f <= g,
        chain_ends(s, i, f),
    ensures
        chain_ends(s, i, g),
        inherited_pb(s, i, f) == inherited_pb(s, i, g),
        inherited_lang(s, i, f) == inherited_lang(s, i, g),
    decreases f,
{
    match primary_parent(s, i) {
        None => {},
        Some(p) => {
            lemma_chain_ends_mono(s, p, (f - 1) as nat, (g - 1) as nat);
        },
    }
}

/// A visiting path that returns to one of its own nodes is a cycle, whose chains never end.
proof fn lemma_path_cycle(s: Seq<KeywordSnap>, path: Seq<int>, k: int, f: nat)
    requires
        0 <= k < path.len(),
        forall|m: int| 0 <= m < path.len() - 1 ==> primary_parent(s, #[trigger] path[m]) == Some(
            path[m + 1],
        ),
        primary_parent(s, path.last()) == Some(path[k]),
    ensures
        forall|j: int| k <= j < path.len() ==> !chain_ends(s, #[trigger] path[j], f),
    decreases f,
{
    if f > 0 {
        lemma_path_cycle(s, path, k, (f - 1) as nat);
    }
    assert forall|j: int| k <= j < path.len() implies !chain_ends(s, #[trigger] path[j], f) by {
        if j < path.len() - 1 {
            assert(primary_parent(s, path[j]) == Some(path[j + 1]));
        }
    }
}

fn keyword_dfs(
    idx: usize,
    snaps: &Vec<KeywordSnap>,
    memo: &mut Vec<Option<(Option<bool>, Option<Language>)>>,
    state: &mut Vec<DfsState>,
    Ghost(path): Ghost<Seq<int>>,
) -> (r: (Option<bool>, Option<Language>))
    requires
        idx < snaps@.len(),
        keyword_memo_ok(snaps@, old(memo)@, old(state)@),
        keyword_path_ok(snaps@, old(state)@, path, idx as int),
    ensures
        keyword_memo_ok(snaps@, final(memo)@, final(state)@),
        forall|j: int|
            0 <= j < snaps@.len() ==> (final(state)@[j] == DfsState::Visiting <==> old(state)@[j]
                == DfsState::Visiting),
        keyword_result_ok(snaps@, idx as int, r),
    decreases count_unvisited(old(state)@),
{
    if let Some(v) = memo[idx] {
        return v;
    }
    if state[idx] == DfsState::Visiting {
        proof {
            let k = choose|k: int| 0 <= k < path.len() && path[k] == idx as int;
            lemma_path_cycle(snaps@, path, k, snaps@.len() as nat);
            assert(!chain_ends(snaps@, path[k], snaps@.len() as nat));
        }
        let s = snaps[idx];
        return (s.declared_pb, s.declared_lang);
    }
    proof {
        lemma_count_unvisited_update(state@, idx as int, DfsState::Visiting);
    }
    state.set(idx, DfsState::Visiting);
    let s = snaps[idx];
    let mut pb = s.declared_pb;
    let mut lang = s.declared_lang;
    if pb.is_none() || lang.is_none() {
        if let Some(parent) = s.primary_parent {
            if parent < snaps.len() {
                let ghost new_path = path.push(idx as int);
                proof {
                    assert forall|j: int|
                        0 <= j < snaps@.len() implies (state@[j] == DfsState::Visiting
                        <==> new_path.contains(j)) by {
                        if j == idx {
                            assert(new_path[path.len() as int] == j);
                        } else if path.contains(j) {
                            let k = choose|k: int| 0 <= k < path.len() && path[k] == j;
                            assert(new_path[k] == j);
                        } else if new_path.contains(j) {
                            let k = choose|k: int| 0 <= k < new_path.len() && new_path[k] == j;
                            assert(k < path.len());
                            assert(path[k] == j);
                        }
                    }
                    assert forall|k: int| 0 <= k < new_path.len() - 1 implies primary_parent(
                        snaps@,
                        #[trigger] new_path[k],
                    ) == Some(new_path[k + 1]) by {
                        if k < path.len() - 1 {
                            assert(new_path[k] == path[k] && new_path[k + 1] == path[k + 1]);
                        } else {
                            assert(new_path[k] == path.last());
                        }
                    }
                }
                let (ppb, plang) = keyword_dfs(parent, snaps, memo, state, Ghost(new_path));
                proof {
                    if chain_ends(snaps@, idx as int, snaps@.len() as nat) {
                        lemma_chain_ends_mono(
                            snaps@,
                            parent as int,
                            (snaps@.len() - 1) as nat,
                            snaps@.len() as nat,
                        );
                    }
                }
                if pb.is_none() {
                    pb = ppb;
                }
                if lang.is_none() {
                    lang = plang;
                }
            }
        }
    }
    state.set(idx, DfsState::Done);
    memo.set(idx, Some((pb, lang)));
    (pb, lang)
}

impl GlobalSemanticModel {
    /// Computes effective class keyword values (ProcedureBlock and default Language) from
    /// inheritance.
    ///
    /// Fills only missing (`None`) values using the primary (leftmost) parent transitively;
    /// a cycle of leftmost parents stops the search where it closes.
    pub fn class_keyword_inheritance(&mut self)
        ensures
            final(self).classes@.len() == old(self).classes@.len(),
            forall|i: int|
                0 <= i < old(self).classes@.len() ==> {
                    let c = old(self).classes@[i];
                    let d = #[trigger] final(self).classes@[i];
                    &&& d == Class {
                        is_procedure_block: d.is_procedure_block,
                        default_language: d.default_language,
                        ..c
                    }
                    &&& keyword_result_ok(
                        keyword_snaps(old(self).classes@),
                        i,
                        (d.is_procedure_block, d.default_language),
                    )
                },
            final(self).variables == old(self).variables,
            final(self).methods == old(self).methods,
            final(self).private == old(self).private,
            final(self).class_defs == old(self).class_defs,
            final(self).method_defs == old(self).method_defs,
            final(self).variable_defs == old(self).variable_defs,
    {
        let ghost old_classes = self.classes@;
        let mut snaps: Vec<KeywordSnap> = Vec::new();
        let mut i: usize = 0;
        while i < self.classes.len()
            invariant
                i <= self.classes@.len(),
                self.classes@ == old_classes,
                snaps@ == keyword_snaps(old_classes).take(i as int),
            decreases self.classes@.len() - i,
        {
            let c = &self.classes[i];
            let parent = if c.inherited_classes.len() > 0 {
                Some(c.inherited_classes[0].0)
            } else {
                None
            };
            snaps.push(
                KeywordSnap {
                    declared_pb: c.is_procedure_block,
                    declared_lang: c.default_language,
                    primary_parent: parent,
                },
            );
            proof {
                assert(snaps@ =~= keyword_snaps(old_classes).take(i + 1));
            }
            i = i + 1;
        }
        proof {
            assert(snaps@ =~= keyword_snaps(old_classes));
        }
        let n = snaps.len();
        let mut memo: Vec<Option<(Option<bool>, Option<Language>)>> = Vec::new();
        let mut state: Vec<DfsState> = Vec::new();
        let mut k: usize = 0;
        while k < n
            invariant
                k <= n,
                n == snaps@.len(),
                memo@.len() == k,
                state@.len() == k,
                forall|j: int| 0 <= j < k ==> memo@[j] is None && state@[j] == DfsState::Unvisited,
            decreases n - k,
        {
            memo.push(None);
            state.push(DfsState::Unvisited);
            k = k + 1;
        }
        assert forall|j: int| 0 <= j < n implies (#[trigger] memo@[j] is Some <==> state@[j]
            == DfsState::Done) by {}
        let mut i: usize = 0;
        while i < n
            invariant
                i <= n,
                n == snaps@.len(),
                snaps@ == keyword_snaps(old_classes),
                keyword_memo_ok(snaps@, memo@, state@),
                forall|j: int| 0 <= j < n ==> state@[j] != DfsState::Visiting,
                self.classes@.len() == n,
                forall|j: int|
                    i <= j < n ==> #[trigger] self.classes@[j] == old_classes[j],
                forall|j: int|
                    0 <= j < i ==> {
                        let c = old_classes[j];
                        let d = #[trigger] self.classes@[j];
                        &&& d == Class {
                            is_procedure_block: d.is_procedure_block,
                            default_language: d.default_language,
                            ..c
                        }
                        &&& keyword_result_ok(
                            snaps@,
                            j,
                            (d.is_procedure_block, d.default_language),
                        )
                    },
                self.variables == old(self).variables,
                self.methods == old(self).methods,
                self.private == old(self).private,
                self.class_defs == old(self).class_defs,
                self.method_defs == old(self).method_defs,
                self.variable_defs == old(self).variable_defs,
            decreases n - i,
        {
            let (eff_pb, eff_lang) = keyword_dfs(i, &snaps, &mut memo, &mut state, Ghost(Seq::empty()));
            let mut cls = self.classes.remove(i);
            if cls.is_procedure_block.is_none() {
                cls.is_procedure_block = eff_pb;
            }
            if cls.default_language.is_none() {
                cls.default_language = eff_lang;
            }
            self.classes.insert(i, cls);
            i = i + 1;
        }
    }
}


/// The entries listed under `k`, or none.
pub open spec fn listed<K, T>(m: Map<K, Vec<T>>, k: K) -> Seq<T> {
    if m.contains_key(k) {
        m[k]@
    } else {
        Seq::empty()
    }
}

/// Whether each class resolves inherited methods from its rightmost parent first.
pub open spec fn right_inheritance(cs: Seq<Class>) -> Seq<bool> {
    Seq::new(cs.len(), |i: int| cs[i].inheritance_direction@ == "right"@)
}

/// What override resolution reads of the classes `cs`.
pub open spec fn class_shapes(cs: Seq<Class>) -> Seq<ClassShape> {
    shapes(cs, right_inheritance(cs))
}

/// Every parent of every class names a class of `cs`.
pub open spec fn parents_in_range(cs: Seq<Class>) -> bool {
    forall|i: int, k: int|
        0 <= i < cs.len() && 0 <= k < cs[i].inherited_classes@.len()
            ==> (#[trigger] cs[i].inherited_classes@[k]).0 < cs.len()
}

/// Appends `x` to the list stored under `k`, creating the list when absent; returns the
/// position of `x` in it.
fn push_listed<K: MapKey, T>(m: &mut AssocMap<K, Vec<T>>, k: K, x: T) -> (pos: usize)
    ensures
        pos == listed(old(m)@, k.key_view()).len(),
        final(m)@.contains_key(k.key_view()),
        final(m)@[k.key_view()]@ == listed(old(m)@, k.key_view()).push(x),
        final(m)@.remove(k.key_view()) == old(m)@.remove(k.key_view()),
{
    let mut list = match m.remove(&k) {
        Some(v) => v,
        None => Vec::new(),
    };
    let pos = list.len();
    list.push(x);
    let ghost kv = k.key_view();
    m.insert(k, list);
    assert(final(m)@.remove(kv) =~= old(m)@.remove(kv));
    pos
}

impl GlobalSemanticModel {
    /// Creates an empty `GlobalSemanticModel` with all tables initialized.
    pub fn new() -> (r: Self)
        ensures
            r.variables@ == Map::<ClassId, Vec<Variable>>::empty(),
            r.classes@.len() == 0,
            r.methods@ == Map::<ClassId, Vec<Method>>::empty(),
            r.private@.len() == 0,
            r.class_defs@.len() == 0,
            r.method_defs@ == Map::<ClassGlobalSymbolId, Vec<MethodGlobalSymbol>>::empty(),
            r.variable_defs@ == Map::<ClassGlobalSymbolId, Vec<VariableGlobalSymbol>>::empty(),
    {
        GlobalSemanticModel {
            variables: AssocMap::new(),
            classes: Vec::new(),
            methods: AssocMap::new(),
            private: Vec::new(),
            class_defs: Vec::new(),
            method_defs: AssocMap::new(),
            variable_defs: AssocMap::new(),
        }
    }

    /// Adds `variable` to the list of the class it is defined in and returns its index there.
    pub fn new_variable(&mut self, variable: Variable, class_id: &ClassId) -> (id: PublicVarId)
        ensures
            id.0 == listed(old(self).variables@, *class_id).len(),
            final(self).variables@.contains_key(*class_id),
            final(self).variables@[*class_id]@ == listed(old(self).variables@, *class_id).push(
                variable,
            ),
            final(self).variables@.remove(*class_id) == old(self).variables@.remove(*class_id),
            final(self).classes == old(self).classes,
            final(self).methods == old(self).methods,
            final(self).private == old(self).private,
            final(self).class_defs == old(self).class_defs,
            final(self).method_defs == old(self).method_defs,
            final(self).variable_defs == old(self).variable_defs,
    {
        let pos = push_listed(&mut self.variables, *class_id, variable);
        PublicVarId(pos)
    }

    /// Adds `class` to the classes table and returns its index there.
    pub fn new_class(&mut self, class: Class) -> (id: ClassId)
        ensures
            id.0 == old(self).classes@.len(),
            final(self).classes@ == old(self).classes@.push(class),
            final(self).variables == old(self).variables,
            final(self).methods == old(self).methods,
            final(self).private == old(self).private,
            final(self).class_defs == old(self).class_defs,
            final(self).method_defs == old(self).method_defs,
            final(self).variable_defs == old(self).variable_defs,
    {
        let id = ClassId(self.classes.len());
        self.classes.push(class);
        id
    }

    /// Adds `method` to the list of public methods of the class it is defined in.
    pub fn new_method(&mut self, method: Method, class_id: ClassId)
        ensures
            final(self).methods@.contains_key(class_id),
            final(self).methods@[class_id]@ == listed(old(self).methods@, class_id).push(method),
            final(self).methods@.remove(class_id) == old(self).methods@.remove(class_id),
            final(self).classes == old(self).classes,
            final(self).variables == old(self).variables,
            final(self).private == old(self).private,
            final(self).class_defs == old(self).class_defs,
            final(self).method_defs == old(self).method_defs,
            final(self).variable_defs == old(self).variable_defs,
    {
        let _ = push_listed(&mut self.methods, class_id, method);
    }

    /// Appends a new local semantic model and returns its index.
    pub fn new_local_semantic(&mut self, local_semantic: LocalSemanticModel) -> (id:
        LocalSemanticModelId)
        ensures
            id.0 == old(self).private@.len(),
            final(self).private@ == old(self).private@.push(local_semantic),
            final(self).classes == old(self).classes,
            final(self).variables == old(self).variables,
            final(self).methods == old(self).methods,
            final(self).class_defs == old(self).class_defs,
            final(self).method_defs == old(self).method_defs,
            final(self).variable_defs == old(self).variable_defs,
    {
        let id = LocalSemanticModelId(self.private.len());
        self.private.push(local_semantic);
        id
    }

    /// The local semantic model with the given id, or `None` when it is out of bounds.
    pub fn get_local_semantic(&self, lsm_id: LocalSemanticModelId) -> (r: Option<
        &LocalSemanticModel,
    >)
        ensures
            match r {
                Some(m) => lsm_id.0 < self.private@.len() && *m == self.private@[lsm_id.0 as int],
                None => lsm_id.0 >= self.private@.len(),
            },
    {
        if lsm_id.0 < self.private.len() {
            Some(&self.private[lsm_id.0])
        } else {
            None
        }
    }

    /// The public method at `index` of class `class_id`, or `None` when the class has no
    /// recorded methods or `index` is out of bounds.
    pub fn get_method(&self, class_id: ClassId, class_name: &str, index: usize) -> (r: Option<
        &Method,
    >)
        ensures
            match r {
                Some(m) => index < listed(self.methods@, class_id).len() && *m == listed(
                    self.methods@,
                    class_id,
                )[index as int],
                None => index >= listed(self.methods@, class_id).len(),
            },
    {
        match self.methods.get(&class_id) {
            Some(methods) => {
                if index < methods.len() {
                    Some(&methods[index])
                } else {
                    None
                }
            },
            None => None,
        }
    }

    /// The class at `index`, or `None` when it is out of bounds.
    pub fn get_class(&self, index: usize) -> (r: Option<&Class>)
        ensures
            match r {
                Some(c) => index < self.classes@.len() && *c == self.classes@[index as int],
                None => index >= self.classes@.len(),
            },
    {
        if index < self.classes.len() {
            Some(&self.classes[index])
        } else {
            None
        }
    }

    /// The class symbol at `index`, or `None` when it is out of bounds.
    pub fn get_class_symbol(&self, index: usize, class_name: &str) -> (r: Option<
        &ClassGlobalSymbol,
    >)
        ensures
            match r {
                Some(c) => index < self.class_defs@.len() && *c == self.class_defs@[index as int],
                None => index >= self.class_defs@.len(),
            },
    {
        if index < self.class_defs.len() {
            Some(&self.class_defs[index])
        } else {
            None
        }
    }

    /// The method symbol at `method_symbol_id` of a class symbol, or `None` when the class
    /// has no method symbols recorded or the index is out of bounds.
    pub fn get_method_symbol(
        &self,
        class_symbol_id: ClassGlobalSymbolId,
        class_name: &str,
        method_symbol_id: usize,
    ) -> (r: Option<&MethodGlobalSymbol>)
        ensures
            match r {
                Some(m) => method_symbol_id < listed(self.method_defs@, class_symbol_id).len()
                    && *m == listed(self.method_defs@, class_symbol_id)[method_symbol_id as int],
                None => method_symbol_id >= listed(self.method_defs@, class_symbol_id).len(),
            },
    {
        match self.method_defs.get(&class_symbol_id) {
            Some(syms) => {
                if method_symbol_id < syms.len() {
                    Some(&syms[method_symbol_id])
                } else {
                    None
                }
            },
            None => None,
        }
    }

    /// The variable symbol at `index` of a class symbol, or `None` when the class has no
    /// variable symbols recorded or the index is out of bounds.
    pub fn get_variable_symbol(
        &self,
        class_symbol_id: &ClassGlobalSymbolId,
        index: usize,
        class_name: &str,
    ) -> (r: Option<&VariableGlobalSymbol>)
        ensures
            match r {
                Some(v) => index < listed(self.variable_defs@, *class_symbol_id).len() && *v
                    == listed(self.variable_defs@, *class_symbol_id)[index as int],
                None => index >= listed(self.variable_defs@, *class_symbol_id).len(),
            },
    {
        match self.variable_defs.get(class_symbol_id) {
            Some(syms) => {
                if index < syms.len() {
                    Some(&syms[index])
                } else {
                    None
                }
            },
            None => None,
        }
    }
}


impl GlobalSemanticModel {
    /// Clears the semantic state of a re-parsed document: resets the class entry (keeping
    /// it active, under `class_name`), removes its method and variable tables and clears its
    /// local semantic model. Nothing changes when `class_id` is out of bounds; the local model
    /// is left alone when `local_semantic_model_id` is.
    pub fn reset_doc_semantics(
        &mut self,
        class_id: ClassId,
        class_name: String,
        local_semantic_model_id: LocalSemanticModelId,
    )
        ensures
            class_id.0 >= old(self).classes@.len() ==> *final(self) == *old(self),
            class_id.0 < old(self).classes@.len() ==> {
                &&& final(self).classes@.len() == old(self).classes@.len()
                &&& is_blank_class(final(self).classes@[class_id.0 as int], class_name@, true)
                &&& forall|j: int|
                    0 <= j < old(self).classes@.len() && j != class_id.0 ==> #[trigger] final(self).classes@[j] == old(self).classes@[j]
                &&& final(self).methods@ == old(self).methods@.remove(class_id)
                &&& final(self).variables@ == old(self).variables@.remove(class_id)
                &&& final(self).private@.len() == old(self).private@.len()
                &&& forall|j: int|
                    0 <= j < old(self).private@.len() && j != local_semantic_model_id.0
                        ==> #[trigger] final(self).private@[j] == old(self).private@[j]
                &&& local_semantic_model_id.0 < old(self).private@.len() ==> {
                    let l = final(self).private@[local_semantic_model_id.0 as int];
                    &&& l.methods@.len() == 0
                    &&& l.properties@.len() == 0
                    &&& l.variables@.len() == 0
                    &&& !l.active
                }
            },
            final(self).class_defs == old(self).class_defs,
            final(self).method_defs == old(self).method_defs,
            final(self).variable_defs == old(self).variable_defs,
    {
        if class_id.0 >= self.classes.len() {
            return;
        }
        let mut class = self.classes.remove(class_id.0);
        class.clear(class_name, true);
        self.classes.insert(class_id.0, class);
        let _ = self.methods.remove(&class_id);
        let _ = self.variables.remove(&class_id);
        if local_semantic_model_id.0 >= self.private.len() {
            return;
        }
        let mut lsm = self.private.remove(local_semantic_model_id.0);
        lsm.clear();
        self.private.insert(local_semantic_model_id.0, lsm);
    }

    /// Marks the class symbol as not alive and removes all method and variable symbols of its
    /// document. Nothing changes when the id is out of bounds.
    pub fn remove_document_symbols(&mut self, class_symbol_id: ClassGlobalSymbolId)
        ensures
            class_symbol_id.0 >= old(self).class_defs@.len() ==> *final(self) == *old(self),
            class_symbol_id.0 < old(self).class_defs@.len() ==> {
                &&& final(self).class_defs@ == old(self).class_defs@.update(
                    class_symbol_id.0 as int,
                    ClassGlobalSymbol {
                        alive: false,
                        ..old(self).class_defs@[class_symbol_id.0 as int]
                    },
                )
                &&& final(self).method_defs@ == old(self).method_defs@.remove(class_symbol_id)
                &&& final(self).variable_defs@ == old(self).variable_defs@.remove(class_symbol_id)
                &&& final(self).classes == old(self).classes
                &&& final(self).methods == old(self).methods
                &&& final(self).variables == old(self).variables
                &&& final(self).private == old(self).private
            },
    {
        if class_symbol_id.0 >= self.class_defs.len() {
            return;
        }
        let mut sym = self.class_defs.remove(class_symbol_id.0);
        sym.alive = false;
        self.class_defs.insert(class_symbol_id.0, sym);
        let _ = self.method_defs.remove(&class_symbol_id);
        let _ = self.variable_defs.remove(&class_symbol_id);
    }

    /// Sets the name, location and URL of an existing class symbol and marks it alive.
    /// Nothing changes when the id is out of bounds.
    pub fn update_class_symbol(
        &mut self,
        name: String,
        range: TextRange,
        url: String,
        symbol_id: ClassGlobalSymbolId,
    )
        ensures
            symbol_id.0 >= old(self).class_defs@.len() ==> *final(self) == *old(self),
            symbol_id.0 < old(self).class_defs@.len() ==> final(self).class_defs@ == old(self).class_defs@.update(
                symbol_id.0 as int,
                ClassGlobalSymbol { name, url, location: range, alive: true },
            ),
            final(self).classes == old(self).classes,
            final(self).methods == old(self).methods,
            final(self).variables == old(self).variables,
            final(self).private == old(self).private,
            final(self).method_defs == old(self).method_defs,
            final(self).variable_defs == old(self).variable_defs,
    {
        if symbol_id.0 >= self.class_defs.len() {
            return;
        }
        let _ = self.class_defs.remove(symbol_id.0);
        self.class_defs.insert(
            symbol_id.0,
            ClassGlobalSymbol { name, url, location: range, alive: true },
        );
    }

    /// Creates a new, alive class symbol and returns its id.
    pub fn new_class_symbol(&mut self, name: String, range: TextRange, url: String) -> (id:
        ClassGlobalSymbolId)
        ensures
            id.0 == old(self).class_defs@.len(),
            final(self).class_defs@ == old(self).class_defs@.push(
                ClassGlobalSymbol { name, url, location: range, alive: true },
            ),
            final(self).classes == old(self).classes,
            final(self).methods == old(self).methods,
            final(self).variables == old(self).variables,
            final(self).private == old(self).private,
            final(self).method_defs == old(self).method_defs,
            final(self).variable_defs == old(self).variable_defs,
    {
        let id = ClassGlobalSymbolId(self.class_defs.len());
        self.class_defs.push(ClassGlobalSymbol { name, url, location: range, alive: true });
        id
    }

    /// Adds a method symbol under `class_symbol_id` and returns its index in that class's list.
    pub fn new_method_symbol(
        &mut self,
        name: String,
        range: TextRange,
        url: String,
        class_symbol_id: ClassGlobalSymbolId,
    ) -> (r: Option<MethodGlobalSymbolId>)
        ensures
            r == Some(MethodGlobalSymbolId(listed(old(self).method_defs@, class_symbol_id).len() as usize)),
            final(self).method_defs@.contains_key(class_symbol_id),
            final(self).method_defs@[class_symbol_id]@ == listed(
                old(self).method_defs@,
                class_symbol_id,
            ).push(MethodGlobalSymbol { name, url, location: range }),
            final(self).method_defs@.remove(class_symbol_id) == old(self).method_defs@.remove(
                class_symbol_id,
            ),
            final(self).classes == old(self).classes,
            final(self).methods == old(self).methods,
            final(self).variables == old(self).variables,
            final(self).private == old(self).private,
            final(self).class_defs == old(self).class_defs,
            final(self).variable_defs == old(self).variable_defs,
    {
        let pos = push_listed(
            &mut self.method_defs,
            class_symbol_id,
            MethodGlobalSymbol { name, url, location: range },
        );
        Some(MethodGlobalSymbolId(pos))
    }

    /// Adds a variable symbol under `class_symbol_id` and returns its index in that class's
    /// list.
    pub fn new_variable_symbol(
        &mut self,
        name: String,
        range: TextRange,
        url: String,
        var_dependencies: Vec<String>,
        property_dependencies: Vec<String>,
        class_symbol_id: ClassGlobalSymbolId,
    ) -> (r: Option<VariableGlobalSymbolId>)
        ensures
            r == Some(VariableGlobalSymbolId(listed(old(self).variable_defs@, class_symbol_id).len() as usize)),
            r is Some && (r->0).0 == listed(old(self).variable_defs@, class_symbol_id).len(),
            final(self).variable_defs@.contains_key(class_symbol_id),
            final(self).variable_defs@[class_symbol_id]@ == listed(
                old(self).variable_defs@,
                class_symbol_id,
            ).push(
                VariableGlobalSymbol {
                    name,
                    url,
                    location: range,
                    var_dependencies,
                    property_dependencies,
                },
            ),
            final(self).variable_defs@.remove(class_symbol_id) == old(self).variable_defs@.remove(class_symbol_id),
            final(self).classes == old(self).classes,
            final(self).methods == old(self).methods,
            final(self).variables == old(self).variables,
            final(self).private == old(self).private,
            final(self).class_defs == old(self).class_defs,
            final(self).method_defs == old(self).method_defs,
    {
        let pos = push_listed(
            &mut self.variable_defs,
            class_symbol_id,
            VariableGlobalSymbol {
                name,
                url,
                location: range,
                var_dependencies,
                property_dependencies,
            },
        );
        Some(VariableGlobalSymbolId(pos))
    }
}


impl GlobalSemanticModel {
    /// Builds an override/dispatch index for methods across the inheritance graph.
    ///
    /// Produces each class's effective public method table (what it inherits, its parents
    /// taken left to right, or right to left for `Inheritance = right`, with its own
    /// declarations laid over them), and the override relations between the declarations
    /// and the public methods they replace. Every class gets a table; a parent whose search is
    /// still under way when an inheritance cycle closes contributes nothing to it. Only public
    /// methods are overridden: a declaration whose name is inherited from a private method
    /// replaces nothing. `inherited_classes` must hold direct parents.
    pub fn build_override_index(&self) -> (index: OverrideIndex)
        requires
            parents_in_range(self.classes@),
        ensures
            forall|i: int|
                #![trigger index.effective_public_methods@.dom().contains(ClassId(i as usize))]
                #![trigger index.effective_public_methods@[ClassId(i as usize)]]
                0 <= i < self.classes@.len() && resolvable(
                    class_shapes(self.classes@),
                    i,
                    self.classes@.len() as nat,
                ) ==> index.effective_public_methods@.contains_key(ClassId(i as usize))
                    && index.effective_public_methods@[ClassId(i as usize)]@ == public_part(
                    class_table(class_shapes(self.classes@), i, self.classes@.len() as nat),
                ),
            forall|i: int|
                0 <= i < self.classes@.len() && #[trigger] resolvable(class_shapes(self.classes@), i, self.classes@.len() as nat)
                    ==> overriders_recorded(class_shapes(self.classes@), index, i, self.classes@.len() as nat),
            forall|i: int| 0 <= i < self.classes@.len() ==> #[trigger] has_entry(class_shapes(self.classes@), index, i),
            all_decl_ids_distinct(class_shapes(self.classes@)) ==> records_single(index),
            overrides_listed(index),
            pairs_explained(class_shapes(self.classes@), index, self.classes@.len() as nat),
    {
        let right_str = "right".to_owned();
        let mut rights: Vec<bool> = Vec::new();
        let mut i: usize = 0;
        while i < self.classes.len()
            invariant
                i <= self.classes@.len(),
                right_str@ == "right"@,
                rights@ == right_inheritance(self.classes@).take(i as int),
            decreases self.classes@.len() - i,
        {
            let r = self.classes[i].inheritance_direction == right_str;
            rights.push(r);
            assert(rights@ =~= right_inheritance(self.classes@).take(i + 1));
            i = i + 1;
        }
        assert(rights@ =~= right_inheritance(self.classes@));
        assert(snaps_wf(class_shapes(self.classes@)));
        build_index(&self.classes, &rights)
    }
}


impl GlobalSemanticModel {
    /// Applies `e` to the public method at `index` of class `class_id`; returns `false`,
    /// changing nothing, when the class has no such method.
    pub fn edit_method(&mut self, class_id: ClassId, index: usize, e: MethodEdit) -> (done: bool)
        ensures
            done == (index < listed(old(self).methods@, class_id).len()),
            !done ==> *final(self) == *old(self),
            done ==> {
                let before = listed(old(self).methods@, class_id);
                let after = listed(final(self).methods@, class_id);
                &&& final(self).methods@.dom() == old(self).methods@.dom()
                &&& final(self).methods@.remove(class_id) == old(self).methods@.remove(class_id)
                &&& after.len() == before.len()
                &&& method_edited(before[index as int], after[index as int], e)
                &&& forall|j: int|
                    0 <= j < before.len() && j != index ==> #[trigger] after[j] == before[j]
            },
            final(self).classes == old(self).classes,
            final(self).variables == old(self).variables,
            final(self).private == old(self).private,
            final(self).class_defs == old(self).class_defs,
            final(self).method_defs == old(self).method_defs,
            final(self).variable_defs == old(self).variable_defs,
    {
        let present = match self.methods.get(&class_id) {
            Some(list) => index < list.len(),
            None => false,
        };
        if !present {
            return false;
        }
        let mut list = match self.methods.remove(&class_id) {
            Some(l) => l,
            None => Vec::new(),
        };
        let mut m = list.remove(index);
        m.apply_edit(e);
        list.insert(index, m);
        self.methods.insert(class_id, list);
        assert(self.methods@.remove(class_id) =~= old(self).methods@.remove(class_id));
        assert(self.methods@.dom() =~= old(self).methods@.dom());
        true
    }

    /// Applies `e` to the method at `index` of the local semantic model `lsm_id`; returns
    /// `false`, changing nothing, when either is out of bounds.
    pub fn edit_local_method(&mut self, lsm_id: LocalSemanticModelId, index: usize, e: MethodEdit) -> (done: bool)
        ensures
            done == (lsm_id.0 < old(self).private@.len() && index < old(self).private@[lsm_id.0 as int].methods@.len()),
            !done ==> *final(self) == *old(self),
            done ==> {
                let before = old(self).private@[lsm_id.0 as int];
                let after = final(self).private@[lsm_id.0 as int];
                &&& final(self).private@.len() == old(self).private@.len()
                &&& forall|j: int|
                    0 <= j < old(self).private@.len() && j != lsm_id.0 ==> #[trigger] final(self).private@[j]
                        == old(self).private@[j]
                &&& after.methods@.len() == before.methods@.len()
                &&& method_edited(before.methods@[index as int], after.methods@[index as int], e)
                &&& forall|j: int|
                    0 <= j < before.methods@.len() && j != index ==> #[trigger] after.methods@[j]
                        == before.methods@[j]
                &&& after.variables == before.variables
                &&& after.properties == before.properties
                &&& after.active == before.active
            },
            final(self).classes == old(self).classes,
            final(self).variables == old(self).variables,
            final(self).methods == old(self).methods,
            final(self).class_defs == old(self).class_defs,
            final(self).method_defs == old(self).method_defs,
            final(self).variable_defs == old(self).variable_defs,
    {
        if lsm_id.0 >= self.private.len() || index >= self.private[lsm_id.0].methods.len() {
            return false;
        }
        let mut lsm = self.private.remove(lsm_id.0);
        let _ = lsm.edit_method(index, e);
        self.private.insert(lsm_id.0, lsm);
        true
    }

    /// Adds `variable` to the local semantic model `lsm_id` and returns its index there, or
    /// `None`, changing nothing, when the model is out of bounds.
    pub fn new_local_variable(&mut self, lsm_id: LocalSemanticModelId, variable: Variable) -> (r: Option<PrivateVarId>)
        ensures
            lsm_id.0 >= old(self).private@.len() ==> r is None && *final(self) == *old(self),
            lsm_id.0 < old(self).private@.len() ==> {
                let before = old(self).private@[lsm_id.0 as int];
                let after = final(self).private@[lsm_id.0 as int];
                &&& r == Some(PrivateVarId(before.variables@.len() as usize))
                &&& final(self).private@.len() == old(self).private@.len()
                &&& forall|j: int|
                    0 <= j < old(self).private@.len() && j != lsm_id.0 ==> #[trigger] final(self).private@[j]
                        == old(self).private@[j]
                &&& after.variables@ == before.variables@.push(variable)
                &&& after.methods@ == before.methods@
                &&& after.properties@ == before.properties@
                &&& after.active == before.active
            },
            final(self).classes == old(self).classes,
            final(self).variables == old(self).variables,
            final(self).methods == old(self).methods,
            final(self).class_defs == old(self).class_defs,
            final(self).method_defs == old(self).method_defs,
            final(self).variable_defs == old(self).variable_defs,
    {
        if lsm_id.0 >= self.private.len() {
            return None;
        }
        let mut lsm = self.private.remove(lsm_id.0);
        let id = lsm.new_variable(variable);
        self.private.insert(lsm_id.0, lsm);
        Some(id)
    }

    /// Adds `method` to the local semantic model `lsm_id` and returns its index there, or
    /// `None`, changing nothing, when the model is out of bounds.
    pub fn new_local_method(&mut self, lsm_id: LocalSemanticModelId, method: Method) -> (r: Option<PrivateMethodId>)
        ensures
            lsm_id.0 >= old(self).private@.len() ==> r is None && *final(self) == *old(self),
            lsm_id.0 < old(self).private@.len() ==> {
                let before = old(self).private@[lsm_id.0 as int];
                let after = final(self).private@[lsm_id.0 as int];
                &&& r == Some(PrivateMethodId(before.methods@.len() as usize))
                &&& final(self).private@.len() == old(self).private@.len()
                &&& forall|j: int|
                    0 <= j < old(self).private@.len() && j != lsm_id.0 ==> #[trigger] final(self).private@[j]
                        == old(self).private@[j]
                &&& after.methods@ == before.methods@.push(method)
                &&& after.variables@ == before.variables@
                &&& after.properties@ == before.properties@
                &&& after.active == before.active
            },
            final(self).classes == old(self).classes,
            final(self).variables == old(self).variables,
            final(self).methods == old(self).methods,
            final(self).class_defs == old(self).class_defs,
            final(self).method_defs == old(self).method_defs,
            final(self).variable_defs == old(self).variable_defs,
    {
        if lsm_id.0 >= self.private.len() {
            return None;
        }
        let mut lsm = self.private.remove(lsm_id.0);
        let id = lsm.new_method(method);
        self.private.insert(lsm_id.0, lsm);
        Some(id)
    }

    /// Marks the local semantic model `lsm_id` active; nothing changes when it is out of
    /// bounds.
    pub fn activate_local_semantic(&mut self, lsm_id: LocalSemanticModelId)
        ensures
            lsm_id.0 >= old(self).private@.len() ==> *final(self) == *old(self),
            lsm_id.0 < old(self).private@.len() ==> final(self).private@ == old(self).private@.update(
                lsm_id.0 as int,
                LocalSemanticModel { active: true, ..old(self).private@[lsm_id.0 as int] },
            ),
            final(self).classes == old(self).classes,
            final(self).variables == old(self).variables,
            final(self).methods == old(self).methods,
            final(self).class_defs == old(self).class_defs,
            final(self).method_defs == old(self).method_defs,
            final(self).variable_defs == old(self).variable_defs,
    {
        if lsm_id.0 >= self.private.len() {
            return;
        }
        let mut lsm = self.private.remove(lsm_id.0);
        lsm.active = true;
        self.private.insert(lsm_id.0, lsm);
    }
}


/// `b` is `a` with at most the recorded method calls of its classes changed.
pub open spec fn same_but_calls(a: Seq<Class>, b: Seq<Class>) -> bool {
    &&& a.len() == b.len()
    &&& forall|j: int| 0 <= j < a.len() ==> #[trigger] b[j] == (Class { method_calls: b[j].method_calls, ..a[j] })
}

impl GlobalSemanticModel {
    /// Whether every parent of every class names a class of the model.
    pub fn parents_valid(&self) -> (r: bool)
        ensures
            r == parents_in_range(self.classes@),
    {
        let n = self.classes.len();
        let mut i: usize = 0;
        while i < n
            invariant
                n == self.classes@.len(),
                i <= n,
                forall|a: int, k: int|
                    0 <= a < i && 0 <= k < self.classes@[a].inherited_classes@.len()
                        ==> (#[trigger] self.classes@[a].inherited_classes@[k]).0 < n,
            decreases n - i,
        {
            let parents = &self.classes[i].inherited_classes;
            let mut k: usize = 0;
            while k < parents.len()
                invariant
                    n == self.classes@.len(),
                    i < n,
                    parents@ == self.classes@[i as int].inherited_classes@,
                    k <= parents@.len(),
                    forall|m: int| 0 <= m < k ==> (#[trigger] parents@[m]).0 < n,
                decreases parents@.len() - k,
            {
                if parents[k].0 >= n {
                    assert(!parents_in_range(self.classes@));
                    return false;
                }
                k = k + 1;
            }
            i = i + 1;
        }
        true
    }

    /// Sets the imports of class `class_id`; nothing changes when it is out of bounds.
    pub fn set_imports(&mut self, class_id: ClassId, imports: Vec<ClassId>)
        ensures
            class_id.0 < old(self).classes@.len() ==> final(self).classes@ == old(self).classes@.update(
                class_id.0 as int,
                Class { imports, ..old(self).classes@[class_id.0 as int] },
            ),
            class_id.0 >= old(self).classes@.len() ==> final(self).classes == old(self).classes,
            final(self).variables == old(self).variables,
            final(self).methods == old(self).methods,
            final(self).private == old(self).private,
            final(self).class_defs == old(self).class_defs,
            final(self).method_defs == old(self).method_defs,
            final(self).variable_defs == old(self).variable_defs,
    {
        if class_id.0 < self.classes.len() {
            let mut c = self.classes.remove(class_id.0);
            c.imports = imports;
            self.classes.insert(class_id.0, c);
        }
    }

    /// Sets the direct parents of class `class_id`; nothing changes when it is out of bounds.
    pub fn set_inherited_classes(&mut self, class_id: ClassId, parents: Vec<ClassId>)
        ensures
            class_id.0 < old(self).classes@.len() ==> final(self).classes@ == old(self).classes@.update(
                class_id.0 as int,
                Class { inherited_classes: parents, ..old(self).classes@[class_id.0 as int] },
            ),
            class_id.0 >= old(self).classes@.len() ==> final(self).classes == old(self).classes,
            final(self).variables == old(self).variables,
            final(self).methods == old(self).methods,
            final(self).private == old(self).private,
            final(self).class_defs == old(self).class_defs,
            final(self).method_defs == old(self).method_defs,
            final(self).variable_defs == old(self).variable_defs,
    {
        if class_id.0 < self.classes.len() {
            let mut c = self.classes.remove(class_id.0);
            c.inherited_classes = parents;
            self.classes.insert(class_id.0, c);
        }
    }

    /// Replaces the class at `class_id`; returns `false`, changing nothing, when it is out of
    /// bounds.
    pub fn replace_class(&mut self, class_id: ClassId, class: Class) -> (done: bool)
        ensures
            done == (class_id.0 < old(self).classes@.len()),
            done ==> final(self).classes@ == old(self).classes@.update(class_id.0 as int, class),
            !done ==> final(self).classes == old(self).classes,
            final(self).variables == old(self).variables,
            final(self).methods == old(self).methods,
            final(self).private == old(self).private,
            final(self).class_defs == old(self).class_defs,
            final(self).method_defs == old(self).method_defs,
            final(self).variable_defs == old(self).variable_defs,
    {
        if class_id.0 < self.classes.len() {
            let _ = self.classes.remove(class_id.0);
            self.classes.insert(class_id.0, class);
            true
        } else {
            false
        }
    }

    /// Forgets the recorded method calls of every class.
    pub fn clear_method_calls(&mut self)
        ensures
            same_but_calls(old(self).classes@, final(self).classes@),
            forall|j: int| 0 <= j < final(self).classes@.len() ==> (#[trigger] final(self).classes@[j]).method_calls@.len() == 0,
            final(self).variables == old(self).variables,
            final(self).methods == old(self).methods,
            final(self).private == old(self).private,
            final(self).class_defs == old(self).class_defs,
            final(self).method_defs == old(self).method_defs,
            final(self).variable_defs == old(self).variable_defs,
    {
        let n = self.classes.len();
        let mut i: usize = 0;
        while i < n
            invariant
                n == self.classes@.len(),
                n == old(self).classes@.len(),
                i <= n,
                forall|j: int| 0 <= j < n ==> #[trigger] self.classes@[j] == (Class { method_calls: self.classes@[j].method_calls, ..old(self).classes@[j] }),
                forall|j: int| 0 <= j < i ==> (#[trigger] self.classes@[j]).method_calls@.len() == 0,
                self.variables == old(self).variables,
                self.methods == old(self).methods,
                self.private == old(self).private,
                self.class_defs == old(self).class_defs,
                self.method_defs == old(self).method_defs,
                self.variable_defs == old(self).variable_defs,
            decreases n - i,
        {
            let mut c = self.classes.remove(i);
            c.method_calls = Vec::new();
            self.classes.insert(i, c);
            i = i + 1;
        }
    }

    /// Appends `sites` to the recorded method calls of class `i`; nothing changes when it is
    /// out of bounds.
    pub fn extend_method_calls(&mut self, i: usize, sites: Vec<MethodCallSite>)
        ensures
            same_but_calls(old(self).classes@, final(self).classes@),
            i < old(self).classes@.len() ==> final(self).classes@[i as int].method_calls@
                == old(self).classes@[i as int].method_calls@ + sites@,
            forall|j: int| 0 <= j < old(self).classes@.len() && j != i ==> #[trigger] final(self).classes@[j] == old(self).classes@[j],
            final(self).variables == old(self).variables,
            final(self).methods == old(self).methods,
            final(self).private == old(self).private,
            final(self).class_defs == old(self).class_defs,
            final(self).method_defs == old(self).method_defs,
            final(self).variable_defs == old(self).variable_defs,
    {
        if i < self.classes.len() {
            let mut c = self.classes.remove(i);
            let mut more = sites;
            c.method_calls.append(&mut more);
            self.classes.insert(i, c);
        }
    }
}

} // verus!
