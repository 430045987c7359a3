use crate::maps::AssocMap;
use crate::parse_structures::{point_le, point_lt, Point, TextRange};
use crate::scope_structures::{
    ClassGlobalSymbolId, MethodSymbol, ScopeId, VariableGlobalSymbolId, VariableSymbol,
    VariableSymbolId,
};
use crate::syntax::{child_of, tree_wf, SyntaxTree};
use vstd::prelude::*;

verus! {

/// A lexical scope within a document.
#[derive(Debug)]
pub struct Scope {
    /// Start point of the scope.
    pub start: Point,
    /// End point of the scope (not included).
    pub end: Point,
    /// The enclosing scope, if any.
    pub parent: Option<ScopeId>,
    /// The scopes nested directly in this one.
    pub children: Vec<ScopeId>,
    /// The private variable symbols defined in this scope.
    pub variable_symbols: Vec<VariableSymbol>,
    /// Variable name -> global symbol, for public variables defined in this scope.
    pub public_var_defs: AssocMap<String, VariableGlobalSymbolId>,
    /// Variable name -> index into `variable_symbols`, for private variables.
    pub private_variable_defs: AssocMap<String, VariableSymbolId>,
}

/// `pos` lies in the half-open range `[start, end)`.
pub open spec fn in_range(pos: Point, start: Point, end: Point) -> bool {
    point_le(start, pos) && point_lt(pos, end)
}

/// Returns `true` if `pos` lies in the half-open range `[start, end)`.
pub fn point_in_range(pos: Point, start: Point, end: Point) -> (r: bool)
    ensures
        r == in_range(pos, start, end),
{
    let after_start = start.row < pos.row || (start.row == pos.row && start.column <= pos.column);
    let before_end = pos.row < end.row || (pos.row == end.row && pos.column < end.column);
    after_start && before_end
}

impl Scope {
    /// A scope with the given bounds and parent and no symbols.
    fn new(start: Point, end: Point, parent: Option<ScopeId>) -> (r: Self)
        ensures
            r.start == start,
            r.end == end,
            r.parent == parent,
            r.children@.len() == 0,
            r.variable_symbols@.len() == 0,
            r.public_var_defs@.len() == 0,
            r.private_variable_defs@.len() == 0,
    {
        let r = Scope {
            start,
            end,
            parent,
            children: Vec::new(),
            variable_symbols: Vec::new(),
            public_var_defs: AssocMap::new(),
            private_variable_defs: AssocMap::new(),
        };
        assert(r.public_var_defs@ =~= Map::empty());
        r
    }

    /// The definition range of the private variable `variable_name` of this scope.
    fn get_variable_symbol(&self, variable_name: &str) -> (r: Option<TextRange>)
        ensures
            r is Some <==> self.private_variable_defs@.contains_key(variable_name@)
                && self.private_variable_defs@[variable_name@].0 < self.variable_symbols@.len(),
            r is Some ==> r->0 == self.variable_symbols@[self.private_variable_defs@[variable_name@].0 as int].location,
    {
        let key = variable_name.to_owned();
        let id = match self.private_variable_defs.get(&key) {
            Some(id) => *id,
            None => return None,
        };
        if id.0 < self.variable_symbols.len() {
            Some(self.variable_symbols[id.0].location)
        } else {
            None
        }
    }

    /// Defines a private variable symbol in this scope and returns its id.
    fn new_variable_symbol(
        &mut self,
        name: String,
        location: TextRange,
        var_dependencies: Vec<String>,
        property_dependencies: Vec<String>,
    ) -> (id: VariableSymbolId)
        ensures
            id.0 == old(self).variable_symbols@.len(),
            final(self).variable_symbols@.len() == old(self).variable_symbols@.len() + 1,
            final(self).variable_symbols@.last().name@ == name@,
            final(self).variable_symbols@.last().location == location,
            final(self).variable_symbols@.drop_last() == old(self).variable_symbols@,
            final(self).private_variable_defs@ == old(self).private_variable_defs@.insert(name@, id),
            final(self).public_var_defs == old(self).public_var_defs,
            final(self).start == old(self).start,
            final(self).end == old(self).end,
            final(self).parent == old(self).parent,
            final(self).children == old(self).children,
    {
        let sym_id = VariableSymbolId(self.variable_symbols.len());
        self.private_variable_defs.insert(name.clone(), sym_id);
        self.variable_symbols.push(
            VariableSymbol {
                name,
                location,
                references: Vec::new(),
                var_dependencies,
                property_dependencies,
            },
        );
        sym_id
    }

    /// Records that the public variable `name` is defined in this scope.
    pub fn new_symbol_pub_variable(&mut self, name: String, id: VariableGlobalSymbolId)
        ensures
            final(self).public_var_defs@ == old(self).public_var_defs@.insert(name@, id),
            final(self).private_variable_defs == old(self).private_variable_defs,
            final(self).variable_symbols == old(self).variable_symbols,
            final(self).start == old(self).start,
            final(self).end == old(self).end,
            final(self).parent == old(self).parent,
            final(self).children == old(self).children,
    {
        self.public_var_defs.insert(name, id);
    }

    /// The global symbol of the public variable `name` defined in this scope.
    pub fn get_pub_variable_symbol(&self, name: &str) -> (r: Option<VariableGlobalSymbolId>)
        ensures
            match r {
                Some(id) => self.public_var_defs@.contains_key(name@) && id == self.public_var_defs@[name@],
                None => !self.public_var_defs@.contains_key(name@),
            },
    {
        let key = name.to_owned();
        match self.public_var_defs.get(&key) {
            Some(id) => Some(*id),
            None => None,
        }
    }
}

/// Per-document scope index used for symbol lookup and resolution.
#[derive(Debug)]
pub struct ScopeTree {
    /// The scopes of the document; a scope's id is its index.
    pub(crate) scopes: Vec<Scope>,
    /// The root scope, which spans the whole document.
    pub(crate) root: ScopeId,
    /// The id that the next scope gets.
    pub(crate) next_scope_id: usize,
    /// Method name -> symbol, for the private methods of the document.
    pub(crate) private_method_defs: AssocMap<String, MethodSymbol>,
    /// The class definition symbol of this document.
    pub(crate) class_def: ClassGlobalSymbolId,
}

/// A nested scope always comes after the scope that holds it.
pub open spec fn scopes_ordered(scopes: Seq<Scope>) -> bool {
    forall|i: int, k: int|
        0 <= i < scopes.len() && 0 <= k < scopes[i].children@.len() ==> i < (
        #[trigger] scopes[i].children@[k]).0 < scopes.len()
}

/// The scope that the search for `pos` ends on, descending from scope `cur`: into the first
/// child whose range holds `pos`.
pub open spec fn scope_descent(scopes: Seq<Scope>, cur: int, pos: Point) -> int
    decreases scopes.len() - cur, 1int,
{
    if 0 <= cur < scopes.len() {
        match first_holding_child(scopes, cur, pos, 0) {
            Some(c) => if cur < c < scopes.len() {
                scope_descent(scopes, c, pos)
            } else {
                cur
            },
            None => cur,
        }
    } else {
        cur
    }
}

/// The first child of scope `cur`, from position `k` on, whose range holds `pos`.
pub open spec fn first_holding_child(scopes: Seq<Scope>, cur: int, pos: Point, k: int) -> Option<int>
    decreases scopes[cur].children@.len() - k,
{
    if k < 0 || k >= scopes[cur].children@.len() {
        None
    } else {
        let c = scopes[cur].children@[k].0 as int;
        if 0 <= c < scopes.len() && in_range(pos, scopes[c].start, scopes[c].end) {
            Some(c)
        } else {
            first_holding_child(scopes, cur, pos, k + 1)
        }
    }
}

impl ScopeTree {
    #[verifier::type_invariant]
    spec fn inv(self) -> bool {
        &&& scopes_ordered(self.scopes@)
        &&& (self.next_scope_id == self.scopes@.len() || self.scopes@.len() == 0)
    }

    /// The id that the next scope added gets.
    pub closed spec fn next_scope(self) -> usize {
        self.next_scope_id
    }

    /// The scopes, by id.
    pub closed spec fn scope_seq(self) -> Seq<Scope> {
        self.scopes@
    }

    /// The private method symbols, by name.
    pub closed spec fn method_defs(self) -> Map<Seq<char>, MethodSymbol> {
        self.private_method_defs@
    }

    /// The root scope's id.
    pub closed spec fn root_id(self) -> ScopeId {
        self.root
    }

    /// The class definition symbol of the document.
    pub closed spec fn class_symbol(self) -> ClassGlobalSymbolId {
        self.class_def
    }

    /// A scope tree with a single root scope that spans the whole document.
    pub fn new(class_symbol_id: ClassGlobalSymbolId) -> (r: Self)
        ensures
            r.scope_seq().len() == 1,
            r.next_scope() == 1,
            r.scope_seq()[0].start == (Point { row: 0, column: 0 }),
            r.scope_seq()[0].end == (Point { row: usize::MAX, column: usize::MAX }),
            r.scope_seq()[0].parent is None,
            r.scope_seq()[0].children@.len() == 0,
            r.scope_seq()[0].variable_symbols@.len() == 0,
            r.scope_seq()[0].public_var_defs@.len() == 0,
            r.scope_seq()[0].private_variable_defs@.len() == 0,
            r.root_id() == ScopeId(0),
            r.method_defs() == Map::<Seq<char>, MethodSymbol>::empty(),
            r.class_symbol() == class_symbol_id,
    {
        let root_scope = Scope::new(
            Point { row: 0, column: 0 },
            Point { row: usize::MAX, column: usize::MAX },
            None,
        );
        let mut scopes = Vec::new();
        scopes.push(root_scope);
        ScopeTree {
            scopes,
            root: ScopeId(0),
            next_scope_id: 1,
            private_method_defs: AssocMap::new(),
            class_def: class_symbol_id,
        }
    }

    /// The class definition symbol of the document.
    pub fn class_def(&self) -> (r: ClassGlobalSymbolId)
        ensures
            r == self.class_symbol(),
    {
        self.class_def
    }

    /// The innermost scope that holds `pos`, found by descending from the root into the first
    /// child that holds it; `None` when the root scope does not exist.
    pub fn find_current_scope(&self, pos: Point) -> (r: Option<ScopeId>)
        ensures
            self.root_id().0 >= self.scope_seq().len() ==> r is None,
            self.root_id().0 < self.scope_seq().len() ==> r == Some(
                ScopeId(scope_descent(self.scope_seq(), self.root_id().0 as int, pos) as usize),
            ),
    {
        proof {
            use_type_invariant(self);
        }
        let n = self.scopes.len();
        let mut current = self.root.0;
        if current >= n {
            return None;
        }
        loop
            invariant
                n == self.scopes@.len(),
                scopes_ordered(self.scopes@),
                current < n,
                scope_descent(self.scopes@, self.root.0 as int, pos) == scope_descent(
                    self.scopes@,
                    current as int,
                    pos,
                ),
            decreases n - current,
        {
            let children = &self.scopes[current].children;
            let mut k: usize = 0;
            let mut found: Option<usize> = None;
            while k < children.len() && found.is_none()
                invariant
                    n == self.scopes@.len(),
                    scopes_ordered(self.scopes@),
                    current < n,
                    children@ == self.scopes@[current as int].children@,
                    k <= children@.len(),
                    found is Some ==> current < found->0 < n,
                    found is None ==> first_holding_child(self.scopes@, current as int, pos, 0)
                        == first_holding_child(self.scopes@, current as int, pos, k as int),
                    found is Some ==> first_holding_child(self.scopes@, current as int, pos, 0)
                        == Some(found->0 as int),
                decreases children@.len() - k + (if found is None { 1int } else { 0int }),
            {
                let c = children[k].0;
                assert(current < c < n);
                let s = &self.scopes[c];
                if point_in_range(pos, s.start, s.end) {
                    found = Some(c);
                } else {
                    k = k + 1;
                }
            }
            proof {
                if found is None {
                    assert(first_holding_child(self.scopes@, current as int, pos, k as int) is None);
                }
            }
            match found {
                Some(c) => {
                    current = c;
                },
                None => {
                    return Some(ScopeId(current));
                },
            }
        }
    }

    /// The scope that holds `point`, if any.
    fn get_scope(&self, point: Point) -> (r: Option<&Scope>)
        ensures
            match r {
                Some(s) => self.root_id().0 < self.scope_seq().len() && *s == self.scope_seq()[scope_descent(
                    self.scope_seq(),
                    self.root_id().0 as int,
                    point,
                )],
                None => self.root_id().0 >= self.scope_seq().len(),
            },
    {
        proof {
            use_type_invariant(self);
            if self.root.0 < self.scopes@.len() {
                lemma_descent_in_bounds(self.scopes@, self.root.0 as int, point);
            }
        }
        let _n = self.scopes.len();
        match self.find_current_scope(point) {
            Some(id) => Some(&self.scopes[id.0]),
            None => None,
        }
    }

    /// If `var_name` is a public variable defined in the scope that holds `pos`, the class
    /// symbol of the document and the variable's global symbol.
    pub fn pub_variable_in_scope(&self, pos: Point, var_name: &str) -> (r: Option<(ClassGlobalSymbolId, VariableGlobalSymbolId)>)
        ensures
            match r {
                Some((c, v)) => c == self.class_symbol() && self.root_id().0 < self.scope_seq().len() && {
                    let s = self.scope_seq()[scope_descent(self.scope_seq(), self.root_id().0 as int, pos)];
                    s.public_var_defs@.contains_key(var_name@) && v == s.public_var_defs@[var_name@]
                },
                None => self.root_id().0 >= self.scope_seq().len() || !self.scope_seq()[scope_descent(
                    self.scope_seq(),
                    self.root_id().0 as int,
                    pos,
                )].public_var_defs@.contains_key(var_name@),
            },
    {
        let scope = match self.get_scope(pos) {
            Some(s) => s,
            None => return None,
        };
        match scope.get_pub_variable_symbol(var_name) {
            Some(v) => Some((self.class_def, v)),
            None => None,
        }
    }

    /// The symbol of the private method `name`.
    pub fn get_private_method_symbol(&self, name: &str) -> (r: Option<&MethodSymbol>)
        ensures
            match r {
                Some(m) => self.method_defs().contains_key(name@) && *m == self.method_defs()[name@],
                None => !self.method_defs().contains_key(name@),
            },
    {
        let key = name.to_owned();
        self.private_method_defs.get(&key)
    }

    /// Adds a scope with the given bounds under `parent` and returns its id.
    pub fn add_scope(&mut self, start: Point, end: Point, parent: ScopeId, is_new_scope: bool) -> (id: ScopeId)
        ensures
            old(self).scope_seq().len() > 0 ==> id == ScopeId(old(self).next_scope())
                && final(self).next_scope() == old(self).next_scope() + 1,
            final(self).next_scope() == final(self).scope_seq().len(),
            id.0 == old(self).scope_seq().len(),
            final(self).scope_seq().len() == old(self).scope_seq().len() + 1,
            final(self).scope_seq().last().start == start,
            final(self).scope_seq().last().end == end,
            final(self).scope_seq().last().parent == Some(parent),
            final(self).scope_seq().last().children@.len() == 0,
            final(self).scope_seq().last().variable_symbols@.len() == 0,
            final(self).scope_seq().last().public_var_defs@.len() == 0,
            final(self).scope_seq().last().private_variable_defs@.len() == 0,
            forall|j: int| 0 <= j < old(self).scope_seq().len() && j != parent.0 ==> #[trigger] final(self).scope_seq()[j] == old(self).scope_seq()[j],
            parent.0 < old(self).scope_seq().len() ==> {
                let before = old(self).scope_seq()[parent.0 as int];
                let after = final(self).scope_seq()[parent.0 as int];
                &&& after.children@ == before.children@.push(id)
                &&& after.public_var_defs == before.public_var_defs
                &&& after.private_variable_defs == before.private_variable_defs
                &&& after.variable_symbols == before.variable_symbols
                &&& after.start == before.start
                &&& after.end == before.end
                &&& after.parent == before.parent
            },
            final(self).root_id() == old(self).root_id(),
            final(self).method_defs() == old(self).method_defs(),
            final(self).class_symbol() == old(self).class_symbol(),
    {
        proof {
            use_type_invariant(&*self);
        }
        let mut scopes: Vec<Scope> = Vec::new();
        std::mem::swap(&mut scopes, &mut self.scopes);
        let ghost before = scopes@;
        let id = ScopeId(scopes.len());
        if parent.0 < scopes.len() {
            let mut p = scopes.remove(parent.0);
            p.children.push(id);
            scopes.insert(parent.0, p);
        }
        scopes.push(Scope::new(start, end, Some(parent)));
        proof {
            assert forall|i: int, k: int|
                0 <= i < scopes@.len() && 0 <= k < scopes@[i].children@.len() implies i < (
                #[trigger] scopes@[i].children@[k]).0 < scopes@.len() by {
                if i < before.len() && i != parent.0 {
                    assert(scopes@[i] == before[i]);
                } else if i == parent.0 && i < before.len() {
                    if k < before[i].children@.len() {
                        assert(scopes@[i].children@[k] == before[i].children@[k]);
                    }
                }
            }
        }
        let next = scopes.len();
        self.next_scope_id = next;
        self.scopes = scopes;
        id
    }

    /// Registers the symbol of the private method `name`.
    pub fn new_method_symbol(&mut self, name: String, range: TextRange)
        ensures
            final(self).method_defs() == old(self).method_defs().insert(
                name@,
                MethodSymbol { name, location: range },
            ),
            final(self).scope_seq() == old(self).scope_seq(),
            final(self).root_id() == old(self).root_id(),
            final(self).class_symbol() == old(self).class_symbol(),
    {
        proof {
            use_type_invariant(&*self);
        }
        let key = name.clone();
        let mut defs: AssocMap<String, MethodSymbol> = AssocMap::new();
        std::mem::swap(&mut defs, &mut self.private_method_defs);
        defs.insert(key, MethodSymbol { name, location: range });
        self.private_method_defs = defs;
    }

    /// Applies `f` to the scope that holds `point`; returns `None`, changing nothing, when there
    /// is no such scope.
    fn scope_index(&self, point: Point) -> (r: Option<usize>)
        ensures
            match r {
                Some(i) => self.root_id().0 < self.scope_seq().len() && i == scope_descent(
                    self.scope_seq(),
                    self.root_id().0 as int,
                    point,
                ) && i < self.scope_seq().len(),
                None => self.root_id().0 >= self.scope_seq().len(),
            },
    {
        proof {
            use_type_invariant(self);
            if self.root.0 < self.scopes@.len() {
                lemma_descent_in_bounds(self.scopes@, self.root.0 as int, point);
            }
        }
        let _n = self.scopes.len();
        match self.find_current_scope(point) {
            Some(id) => Some(id.0),
            None => None,
        }
    }

    /// Defines a private variable in the scope that holds `range.start_point` and returns its
    /// id, or `None` when no scope holds it.
    pub fn new_variable_symbol(
        &mut self,
        name: String,
        range: TextRange,
        var_deps: Vec<String>,
        prop_deps: Vec<String>,
    ) -> (r: Option<VariableSymbolId>)
        ensures
            old(self).root_id().0 >= old(self).scope_seq().len() ==> r is None && final(self).scope_seq() == old(self).scope_seq(),
            old(self).root_id().0 < old(self).scope_seq().len() ==> variable_added(
                old(self).scope_seq(),
                final(self).scope_seq(),
                old(self).root_id().0 as int,
                name@,
                range,
                r,
            ),
            final(self).root_id() == old(self).root_id(),
            final(self).method_defs() == old(self).method_defs(),
            final(self).class_symbol() == old(self).class_symbol(),
    {
        proof {
            use_type_invariant(&*self);
        }
        let i = match self.scope_index(range.start_point) {
            Some(i) => i,
            None => return None,
        };
        let mut scopes: Vec<Scope> = Vec::new();
        std::mem::swap(&mut scopes, &mut self.scopes);
        let ghost before = scopes@;
        let mut s = scopes.remove(i);
        let id = s.new_variable_symbol(name, range, var_deps, prop_deps);
        scopes.insert(i, s);
        proof {
            assert forall|a: int, k: int|
                0 <= a < scopes@.len() && 0 <= k < scopes@[a].children@.len() implies a < (
                #[trigger] scopes@[a].children@[k]).0 < scopes@.len() by {
                if a != i {
                    assert(scopes@[a] == before[a]);
                } else {
                    assert(scopes@[a].children == before[a].children);
                }
            }
        }
        self.scopes = scopes;
        Some(id)
    }

    /// Records the public variable `name` in the scope that holds `range.start_point`;
    /// nothing changes when no scope holds it.
    pub fn new_public_var_symbol(&mut self, name: String, range: TextRange, symbol_id: VariableGlobalSymbolId)
        ensures
            old(self).root_id().0 >= old(self).scope_seq().len() ==> final(self).scope_seq() == old(self).scope_seq(),
            old(self).root_id().0 < old(self).scope_seq().len() ==> {
                let i = scope_descent(old(self).scope_seq(), old(self).root_id().0 as int, range.start_point);
                let before = old(self).scope_seq()[i];
                let after = final(self).scope_seq()[i];
                &&& final(self).scope_seq().len() == old(self).scope_seq().len()
                &&& forall|j: int| 0 <= j < old(self).scope_seq().len() && j != i ==> #[trigger] final(self).scope_seq()[j] == old(self).scope_seq()[j]
                &&& after.public_var_defs@ == before.public_var_defs@.insert(name@, symbol_id)
                &&& after.private_variable_defs == before.private_variable_defs
                &&& after.variable_symbols == before.variable_symbols
            },
            final(self).root_id() == old(self).root_id(),
            final(self).method_defs() == old(self).method_defs(),
            final(self).class_symbol() == old(self).class_symbol(),
    {
        proof {
            use_type_invariant(&*self);
        }
        let i = match self.scope_index(range.start_point) {
            Some(i) => i,
            None => return,
        };
        let mut scopes: Vec<Scope> = Vec::new();
        std::mem::swap(&mut scopes, &mut self.scopes);
        let ghost before = scopes@;
        let mut s = scopes.remove(i);
        s.new_symbol_pub_variable(name, symbol_id);
        scopes.insert(i, s);
        proof {
            assert forall|a: int, k: int|
                0 <= a < scopes@.len() && 0 <= k < scopes@[a].children@.len() implies a < (
                #[trigger] scopes@[a].children@[k]).0 < scopes@.len() by {
                if a != i {
                    assert(scopes@[a] == before[a]);
                } else {
                    assert(scopes@[a].children == before[a].children);
                }
            }
        }
        self.scopes = scopes;
    }

    /// The definition range of the private variable `variable_name` visible at `pos`: the one
    /// defined in the scope that holds `pos`.
    pub fn get_variable_definition(&self, pos: Point, variable_name: &str) -> (r: Option<TextRange>)
        ensures
            r is Some ==> self.root_id().0 < self.scope_seq().len() && {
                let s = self.scope_seq()[scope_descent(self.scope_seq(), self.root_id().0 as int, pos)];
                &&& s.private_variable_defs@.contains_key(variable_name@)
                &&& s.private_variable_defs@[variable_name@].0 < s.variable_symbols@.len()
                &&& r->0 == s.variable_symbols@[s.private_variable_defs@[variable_name@].0 as int].location
            },
            r is None ==> self.root_id().0 >= self.scope_seq().len() || {
                let s = self.scope_seq()[scope_descent(self.scope_seq(), self.root_id().0 as int, pos)];
                !(s.private_variable_defs@.contains_key(variable_name@) && s.private_variable_defs@[variable_name@].0 < s.variable_symbols@.len())
            },
            r == variable_defined_at(self.scope_seq(), self.root_id().0 as int, pos, variable_name@),
    {
        let scope = match self.get_scope(pos) {
            Some(s) => s,
            None => return None,
        };
        scope.get_variable_symbol(variable_name)
    }
}

/// `after` is `before` with a private variable `name`, defined at `range`, added to the scope
/// that holds `range.start_point` (searching from scope `root`) under the id `r`; that scope
/// keeps its bounds, parent and children, and every other scope is unchanged.
pub open spec fn variable_added(
    before: Seq<Scope>,
    after: Seq<Scope>,
    root: int,
    name: Seq<char>,
    range: TextRange,
    r: Option<VariableSymbolId>,
) -> bool {
    let i = scope_descent(before, root, range.start_point);
    let b = before[i];
    let a = after[i];
    &&& r == Some(VariableSymbolId(b.variable_symbols@.len() as usize))
    &&& after.len() == before.len()
    &&& forall|j: int| 0 <= j < before.len() && j != i ==> #[trigger] after[j] == before[j]
    &&& a.private_variable_defs@ == b.private_variable_defs@.insert(name, r->0)
    &&& a.variable_symbols@.len() == b.variable_symbols@.len() + 1
    &&& a.variable_symbols@.last().location == range
    &&& a.public_var_defs == b.public_var_defs
    &&& a.start == b.start
    &&& a.end == b.end
    &&& a.parent == b.parent
    &&& a.children == b.children
}

/// The definition range of the private variable `name` in the scope that holds `p`, searching
/// from scope `root`.
pub open spec fn variable_defined_at(scopes: Seq<Scope>, root: int, p: Point, name: Seq<char>) -> Option<TextRange> {
    let s = scopes[scope_descent(scopes, root, p)];
    if 0 <= root < scopes.len() && s.private_variable_defs@.contains_key(name)
        && s.private_variable_defs@[name].0 < s.variable_symbols@.len() {
        Some(s.variable_symbols@[s.private_variable_defs@[name].0 as int].location)
    } else {
        None
    }
}

proof fn lemma_first_child_same(a: Seq<Scope>, b: Seq<Scope>, cur: int, pos: Point, k: int)
    requires
        a.len() == b.len(),
        0 <= cur < a.len(),
        forall|j: int| #![trigger a[j]] 0 <= j < a.len() ==> a[j].start == b[j].start && a[j].end == b[j].end && a[j].children == b[j].children,
    ensures
        first_holding_child(a, cur, pos, k) == first_holding_child(b, cur, pos, k),
    decreases a[cur].children@.len() - k,
{
    assert(a[cur].children == b[cur].children);
    if 0 <= k < a[cur].children@.len() {
        let c = a[cur].children@[k].0 as int;
        if 0 <= c < a.len() {
            assert(a[c].start == b[c].start && a[c].end == b[c].end);
        }
        lemma_first_child_same(a, b, cur, pos, k + 1);
    }
}

proof fn lemma_descent_same(a: Seq<Scope>, b: Seq<Scope>, cur: int, pos: Point)
    requires
        a.len() == b.len(),
        forall|j: int| #![trigger a[j]] 0 <= j < a.len() ==> a[j].start == b[j].start && a[j].end == b[j].end && a[j].children == b[j].children,
    ensures
        scope_descent(a, cur, pos) == scope_descent(b, cur, pos),
    decreases a.len() - cur,
{
    if 0 <= cur < a.len() {
        lemma_first_child_same(a, b, cur, pos, 0);
        match first_holding_child(a, cur, pos, 0) {
            Some(c) => if cur < c < a.len() {
                lemma_descent_same(a, b, c, pos);
            },
            None => {},
        }
    }
}

/// A private variable added to a scope is found again, at its definition range, from every
/// point whose search ends on that scope, its own start point among them.
pub proof fn law_new_variable_read_back(
    before: Seq<Scope>,
    after: Seq<Scope>,
    root: int,
    name: Seq<char>,
    range: TextRange,
    r: Option<VariableSymbolId>,
    p: Point,
)
    requires
        0 <= root < before.len(),
        variable_added(before, after, root, name, range, r),
        scope_descent(after, root, p) == scope_descent(after, root, range.start_point),
    ensures
        variable_defined_at(after, root, p, name) == Some(range),
{
    let i = scope_descent(before, root, range.start_point);
    lemma_descent_in_bounds(before, root, range.start_point);
    assert forall|j: int| #![trigger after[j]] 0 <= j < after.len() implies after[j].start == before[j].start && after[j].end
        == before[j].end && after[j].children == before[j].children by {
        if j != i {
            assert(after[j] == before[j]);
        }
    }
    lemma_descent_same(after, before, root, range.start_point);
    lemma_descent_same(after, before, root, p);
    assert(scope_descent(after, root, p) == i);
    let s = after[i];
    let n = before[i].variable_symbols@.len();
    assert(s.variable_symbols.len() == s.variable_symbols@.len());
    assert(n < s.variable_symbols@.len() <= usize::MAX);
    assert(s.private_variable_defs@[name] == VariableSymbolId(n as usize));
    assert(s.variable_symbols@.last() == s.variable_symbols@[n as int]);
}

proof fn lemma_descent_in_bounds(scopes: Seq<Scope>, cur: int, pos: Point)
    requires
        0 <= cur < scopes.len(),
    ensures
        0 <= scope_descent(scopes, cur, pos) < scopes.len(),
    decreases scopes.len() - cur,
{
    match first_holding_child(scopes, cur, pos, 0) {
        Some(c) => if cur < c < scopes.len() {
            lemma_descent_in_bounds(scopes, c, pos);
        },
        None => {},
    }
}

/// Scopes open at methods and class methods.
pub fn cls_is_scope_node(tree: &SyntaxTree, node: usize) -> (r: bool)
    requires
        node < tree.nodes@.len(),
    ensures
        r == (tree.nodes@[node as int].kind@ == "classmethod"@ || tree.nodes@[node as int].kind@ == "method"@),
{
    tree.is_kind(node, "classmethod") || tree.is_kind(node, "method")
}

/// What the skeleton fixes of a scope: its bounds, its parent and its nested scopes.
pub type ScopeShape = (Point, Point, Option<ScopeId>, Seq<ScopeId>);

pub open spec fn scope_shape(s: Scope) -> ScopeShape {
    (s.start, s.end, s.parent, s.children@)
}

pub open spec fn scope_shapes(ss: Seq<Scope>) -> Seq<ScopeShape> {
    ss.map_values(|s: Scope| scope_shape(s))
}

/// A scope holds no symbols.
pub open spec fn scope_is_empty(s: Scope) -> bool {
    &&& s.variable_symbols@.len() == 0
    &&& s.public_var_defs@.len() == 0
    &&& s.private_variable_defs@.len() == 0
}

/// The shapes after adding a scope for node `e.0` of `t` under scope `e.1`: the new scope
/// spans the node and gets the next id, which its parent lists among its nested scopes.
pub open spec fn add_entry(s: Seq<ScopeShape>, e: (int, int), t: SyntaxTree) -> Seq<ScopeShape> {
    let (n, p) = e;
    let id = ScopeId(s.len() as usize);
    let s1 = if 0 <= p < s.len() {
        s.update(p, (s[p].0, s[p].1, s[p].2, s[p].3.push(id)))
    } else {
        s
    };
    s1.push((t.nodes@[n].range.start_point, t.nodes@[n].range.end_point, Some(ScopeId(p as usize)), Seq::empty()))
}

/// The shapes after adding the scopes `es` in order.
pub open spec fn add_entries(s: Seq<ScopeShape>, es: Seq<(int, int)>, t: SyntaxTree) -> Seq<ScopeShape>
    decreases es.len(),
{
    if es.len() == 0 {
        s
    } else {
        add_entry(add_entries(s, es.drop_last(), t), es.last(), t)
    }
}

/// Node `n` opens a scope: a method or a class method.
pub open spec fn opens_scope(t: SyntaxTree, n: int) -> bool {
    t.nodes@[n].kind@ == "classmethod"@ || t.nodes@[n].kind@ == "method"@
}

/// The scopes that the subtree at node `n` opens, in preorder, each with the id of the scope
/// it is nested in: `parent` for the outermost ones; ids are handed out from `base` on.
pub open spec fn subtree_scopes(t: SyntaxTree, n: int, parent: int, base: int) -> Seq<(int, int)>
    decreases t.nodes@.len() - n, 1int, 0int,
{
    if !(0 <= n < t.nodes@.len()) {
        Seq::empty()
    } else if opens_scope(t, n) {
        seq![(n, parent)] + children_scopes(t, n, t.nodes@[n].child_count as int, base, base + 1)
    } else {
        children_scopes(t, n, t.nodes@[n].child_count as int, parent, base)
    }
}

/// The scopes that the subtrees of the first `k` named children of node `n` open, in order.
pub open spec fn children_scopes(t: SyntaxTree, n: int, k: int, parent: int, base: int) -> Seq<(int, int)>
    decreases t.nodes@.len() - n, 0int, k,
{
    if k <= 0 {
        Seq::empty()
    } else {
        let before = children_scopes(t, n, k - 1, parent, base);
        let c = child_of(t, n, k - 1);
        if n < c < t.nodes@.len() {
            before + subtree_scopes(t, c, parent, base + before.len())
        } else {
            before
        }
    }
}

proof fn lemma_add_entries_len(s: Seq<ScopeShape>, es: Seq<(int, int)>, t: SyntaxTree)
    ensures
        add_entries(s, es, t).len() == s.len() + es.len(),
    decreases es.len(),
{
    if es.len() > 0 {
        lemma_add_entries_len(s, es.drop_last(), t);
    }
}

proof fn lemma_add_entries_concat(s: Seq<ScopeShape>, a: Seq<(int, int)>, b: Seq<(int, int)>, t: SyntaxTree)
    ensures
        add_entries(s, a + b, t) == add_entries(add_entries(s, a, t), b, t),
    decreases b.len(),
{
    if b.len() == 0 {
        assert(a + b =~= a);
    } else {
        lemma_add_entries_concat(s, a, b.drop_last(), t);
        assert((a + b).drop_last() =~= a + b.drop_last());
        assert((a + b).last() == b.last());
    }
}

/// Builds the scope skeleton of a document: a root scope for the class symbol
/// `class_symbol_id`, and one nested scope for each method or class method node, placed
/// under the scope of its closest enclosing method node.
pub fn initial_build_scope_tree(tree: &SyntaxTree, class_symbol_id: ClassGlobalSymbolId) -> (r: ScopeTree)
    requires
        tree_wf(*tree),
    ensures
        r.class_symbol() == class_symbol_id,
        r.root_id() == ScopeId(0),
        r.method_defs() == Map::<Seq<char>, MethodSymbol>::empty(),
        scope_shapes(r.scope_seq()) == add_entries(
            seq![(Point { row: 0, column: 0 }, Point { row: usize::MAX, column: usize::MAX }, None, Seq::empty())],
            subtree_scopes(*tree, 0, 0, 1),
            *tree,
        ),
        forall|i: int| 0 <= i < r.scope_seq().len() ==> scope_is_empty(#[trigger] r.scope_seq()[i]),
{
    let mut scope_tree = ScopeTree::new(class_symbol_id);
    let mut scope_stack: Vec<ScopeId> = Vec::new();
    scope_stack.push(ScopeId(0));
    proof {
        assert(scope_tree.scope_seq()[0].children@ =~= Seq::<ScopeId>::empty());
        assert(scope_shapes(scope_tree.scope_seq()) =~= seq![(Point { row: 0, column: 0 }, Point { row: usize::MAX, column: usize::MAX }, None, Seq::<ScopeId>::empty())]);
    }
    let ghost t0 = scope_tree;
    build_scope_skeleton(tree, 0, &mut scope_tree, &mut scope_stack);
    proof {
        assert forall|i: int| 0 <= i < scope_tree.scope_seq().len() implies scope_is_empty(#[trigger] scope_tree.scope_seq()[i]) by {
            if i < 1 {
                assert(scope_is_empty(t0.scope_seq()[i]));
            }
        }
    }
    scope_tree
}

/// Walks the subtree at `node`, adding a scope for each scope node under the scope on top of
/// `scope_stack`.
fn build_scope_skeleton(tree: &SyntaxTree, node: usize, scope_tree: &mut ScopeTree, scope_stack: &mut Vec<ScopeId>)
    requires
        tree_wf(*tree),
        node < tree.nodes@.len(),
        old(scope_stack)@.len() > 0,
    ensures
        final(scope_tree).class_symbol() == old(scope_tree).class_symbol(),
        final(scope_tree).root_id() == old(scope_tree).root_id(),
        final(scope_tree).method_defs() == old(scope_tree).method_defs(),
        scope_shapes(final(scope_tree).scope_seq()) == add_entries(
            scope_shapes(old(scope_tree).scope_seq()),
            subtree_scopes(*tree, node as int, old(scope_stack)@.last().0 as int, old(scope_tree).scope_seq().len() as int),
            *tree,
        ),
        forall|i: int| 0 <= i < old(scope_tree).scope_seq().len() ==> scope_is_empty(#[trigger] old(scope_tree).scope_seq()[i])
            ==> scope_is_empty(final(scope_tree).scope_seq()[i]),
        forall|i: int| old(scope_tree).scope_seq().len() <= i < final(scope_tree).scope_seq().len() ==> scope_is_empty(#[trigger] final(scope_tree).scope_seq()[i]),
        final(scope_stack)@ == old(scope_stack)@,
    decreases tree.nodes@.len() - node,
{
    let ghost t = *tree;
    let ghost shapes0 = scope_shapes(scope_tree.scope_seq());
    let ghost len0 = scope_tree.scope_seq().len() as int;
    let ghost p0 = scope_stack@.last().0 as int;
    let is_scope = cls_is_scope_node(tree, node);
    let mut pushed = false;
    if is_scope {
        if scope_stack.len() > 0 {
            let parent = scope_stack[scope_stack.len() - 1];
            let r = tree.range(node);
            let ghost before = scope_tree.scope_seq();
            let id = scope_tree.add_scope(r.start_point, r.end_point, parent, false);
            proof {
                let after = scope_tree.scope_seq();
                assert(scope_shapes(after) =~= add_entry(scope_shapes(before), (node as int, p0), t)) by {
                    assert forall|j: int| 0 <= j < after.len() implies #[trigger] scope_shapes(after)[j] == add_entry(scope_shapes(before), (node as int, p0), t)[j] by {
                        if j < before.len() && j != parent.0 {
                            assert(after[j] == before[j]);
                        } else if j == before.len() {
                            assert(after[j].children@ =~= Seq::<ScopeId>::empty());
                        }
                    }
                }
                assert(add_entries(shapes0, seq![(node as int, p0)], t) == add_entry(add_entries(shapes0, Seq::<(int, int)>::empty(), t), (node as int, p0), t)) by {
                    assert(seq![(node as int, p0)].drop_last() =~= Seq::<(int, int)>::empty());
                }
                assert forall|i: int| 0 <= i < before.len() && scope_is_empty(#[trigger] before[i]) implies scope_is_empty(after[i]) by {
                    if i != parent.0 {
                        assert(after[i] == before[i]);
                    }
                }
            }
            scope_stack.push(id);
            pushed = true;
        } else {
            return;
        }
    }
    let ghost stack_in = scope_stack@;
    let ghost cparent: int = if is_scope { len0 } else { p0 };
    let ghost cbase: int = if is_scope { len0 + 1 } else { len0 };
    let ghost start_shapes = if is_scope { add_entries(shapes0, seq![(node as int, p0)], t) } else { shapes0 };
    let ghost tree_in = *scope_tree;
    let children = tree.named_children(node);
    let mut k: usize = 0;
    proof {
        assert(children_scopes(t, node as int, 0, cparent, cbase) =~= Seq::<(int, int)>::empty());
        lemma_add_entries_len(shapes0, if is_scope { seq![(node as int, p0)] } else { Seq::empty() }, t);
    }
    while k < children.len()
        invariant
            t == *tree,
            tree_wf(*tree),
            node < tree.nodes@.len(),
            children@.len() == tree.nodes@[node as int].child_count,
            forall|m: int| 0 <= m < children@.len() ==> #[trigger] children@[m] == child_of(t, node as int, m),
            forall|m: int| 0 <= m < children@.len() ==> node < #[trigger] children@[m] < tree.nodes@.len(),
            k <= children@.len(),
            scope_stack@ == stack_in,
            stack_in.len() > 0,
            stack_in.last().0 as int == cparent,
            start_shapes.len() == cbase,
            scope_shapes(scope_tree.scope_seq()) == add_entries(start_shapes, children_scopes(t, node as int, k as int, cparent, cbase), t),
            scope_tree.class_symbol() == old(scope_tree).class_symbol(),
            scope_tree.root_id() == old(scope_tree).root_id(),
            scope_tree.method_defs() == old(scope_tree).method_defs(),
            scope_tree.scope_seq().len() >= tree_in.scope_seq().len(),
            forall|i: int| 0 <= i < tree_in.scope_seq().len() ==> scope_is_empty(#[trigger] tree_in.scope_seq()[i])
                ==> scope_is_empty(scope_tree.scope_seq()[i]),
            forall|i: int| tree_in.scope_seq().len() <= i < scope_tree.scope_seq().len() ==> scope_is_empty(#[trigger] scope_tree.scope_seq()[i]),
        decreases children@.len() - k,
    {
        let ghost before_entries = children_scopes(t, node as int, k as int, cparent, cbase);
        let ghost mid = *scope_tree;
        proof {
            lemma_add_entries_len(start_shapes, before_entries, t);
        }
        build_scope_skeleton(tree, children[k], scope_tree, scope_stack);
        proof {
            assert forall|i: int| 0 <= i < tree_in.scope_seq().len() && scope_is_empty(#[trigger] tree_in.scope_seq()[i])
                implies scope_is_empty(scope_tree.scope_seq()[i]) by {
                assert(scope_is_empty(mid.scope_seq()[i]));
            }
            assert forall|i: int| tree_in.scope_seq().len() <= i < scope_tree.scope_seq().len() implies scope_is_empty(#[trigger] scope_tree.scope_seq()[i]) by {
                if i < mid.scope_seq().len() {
                    assert(scope_is_empty(mid.scope_seq()[i]));
                }
            }
            let c = children@[k as int] as int;
            let sub = subtree_scopes(t, c, cparent, cbase + before_entries.len());
            lemma_add_entries_len(scope_shapes(mid.scope_seq()), sub, t);
            assert(scope_shapes(scope_tree.scope_seq()).len() == scope_tree.scope_seq().len());
            assert(scope_shapes(mid.scope_seq()).len() == mid.scope_seq().len());
            lemma_add_entries_concat(start_shapes, before_entries, sub, t);
            assert(children_scopes(t, node as int, k + 1, cparent, cbase) == before_entries + sub);
        }
        k = k + 1;
    }
    if pushed {
        let _ = scope_stack.pop();
        proof {
            assert(scope_stack@ =~= old(scope_stack)@);
        }
    }
    proof {
        if is_scope {
            lemma_add_entries_concat(shapes0, seq![(node as int, p0)], children_scopes(t, node as int, children@.len() as int, cparent, cbase), t);
        }
    }
}

} // verus!
