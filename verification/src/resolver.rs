//! The resolver: a static pass over the syntax tree that assigns every
//! variable read and assignment the depth of the scope its name lives in,
//! so the evaluator can walk exactly that many parent links at runtime.
use vstd::prelude::*;
use crate::ast::{Expr, Stmt};
use crate::location::SourceLocation;

verus! {

broadcast use vstd::std_specs::vec::group_vec_axioms, vstd::seq::group_seq_axioms;

/// A resolution failure, with the name and place involved.
#[derive(Debug)]
pub enum Error {
    AccessInInitializer { name: String, location: SourceLocation },
    AccessUndefined { name: String, location: SourceLocation },
    DuplicateVariable { name: String, location: SourceLocation },
}

/// The mathematical picture of a resolution failure.
pub enum ResErrM {
    InInit { name: Seq<char>, location: SourceLocation },
    Undefined { name: Seq<char>, location: SourceLocation },
    Duplicate { name: Seq<char>, location: SourceLocation },
}

/// What a resolution failure stands for.
pub open spec fn res_err_view(e: Error) -> ResErrM {
    match e {
        Error::AccessInInitializer { name, location } => ResErrM::InInit {
            name: name@,
            location,
        },
        Error::AccessUndefined { name, location } => ResErrM::Undefined { name: name@, location },
        Error::DuplicateVariable { name, location } => ResErrM::Duplicate {
            name: name@,
            location,
        },
    }
}

/// One lexical scope: each name with its defined flag, held at most once.
pub struct Scope {
    pub entries: Vec<(String, bool)>,
}

/// The map a scope stands for; a later entry for a name wins.
pub open spec fn scope_map(es: Seq<(String, bool)>) -> Map<Seq<char>, bool>
    decreases es.len(),
{
    if es.len() == 0 {
        Map::empty()
    } else {
        scope_map(es.drop_last()).insert(es.last().0@, es.last().1)
    }
}

/// Whether a scope holds each name at most once.
pub open spec fn scope_unique(es: Seq<(String, bool)>) -> bool {
    forall|i: int, j: int| 0 <= i < j < es.len() ==> es[i].0@ != es[j].0@
}

proof fn lemma_scope_contains(es: Seq<(String, bool)>, name: Seq<char>)
    ensures
        scope_map(es).contains_key(name) <==> exists|i: int| 0 <= i < es.len() && es[i].0@ == name,
    decreases es.len(),
{
    if es.len() > 0 {
        lemma_scope_contains(es.drop_last(), name);
        if scope_map(es).contains_key(name) {
            if es.last().0@ != name {
                let i = choose|i: int| 0 <= i < es.drop_last().len() && es.drop_last()[i].0@ == name;
                assert(es[i].0@ == name);
            }
        }
        if exists|i: int| 0 <= i < es.len() && es[i].0@ == name {
            let i = choose|i: int| 0 <= i < es.len() && es[i].0@ == name;
            if i < es.len() - 1 {
                assert(es.drop_last()[i].0@ == name);
            }
        }
    }
}

proof fn lemma_scope_at(es: Seq<(String, bool)>, i: int)
    requires
        scope_unique(es),
        0 <= i < es.len(),
    ensures
        scope_map(es).contains_key(es[i].0@),
        scope_map(es)[es[i].0@] == es[i].1,
    decreases es.len(),
{
    if i == es.len() - 1 {
        lemma_scope_contains(es, es[i].0@);
    } else {
        assert(scope_unique(es.drop_last())) by {
            assert(forall|a: int, b: int|
                0 <= a < b < es.drop_last().len() ==> es.drop_last()[a].0@ != es.drop_last()[b].0@);
        }
        assert(es.drop_last()[i] == es[i]);
        lemma_scope_at(es.drop_last(), i);
        assert(es[i].0@ != es.last().0@);
    }
}

proof fn lemma_scope_update(es: Seq<(String, bool)>, i: int, v: bool)
    requires
        scope_unique(es),
        0 <= i < es.len(),
    ensures
        scope_map(es.update(i, (es[i].0, v))) == scope_map(es).insert(es[i].0@, v),
    decreases es.len(),
{
    let es2 = es.update(i, (es[i].0, v));
    if i == es.len() - 1 {
        assert(es2.drop_last() =~= es.drop_last());
        assert(scope_map(es2) =~= scope_map(es).insert(es[i].0@, v));
    } else {
        assert(scope_unique(es.drop_last())) by {
            assert(forall|a: int, b: int|
                0 <= a < b < es.drop_last().len() ==> es.drop_last()[a].0@ != es.drop_last()[b].0@);
        }
        assert(es2.drop_last() =~= es.drop_last().update(i, (es[i].0, v)));
        assert(es.drop_last()[i] == es[i]);
        lemma_scope_update(es.drop_last(), i, v);
        assert(es2.last() == es.last());
        assert(es[i].0@ != es.last().0@);
        assert(scope_map(es2) =~= scope_map(es).insert(es[i].0@, v));
    }
}

impl Scope {
    /// What the scope stands for.
    pub open spec fn view(&self) -> Map<Seq<char>, bool> {
        scope_map(self.entries@)
    }

    pub open spec fn inv(&self) -> bool {
        scope_unique(self.entries@)
    }

    fn new() -> (r: Self)
        ensures
            r.inv(),
            r@ =~= Map::<Seq<char>, bool>::empty(),
    {
        let r = Scope { entries: Vec::new() };
        proof {
            assert(r@ =~= scope_map(Seq::empty()));
        }
        r
    }

    fn find(&self, name: &str) -> (r: Option<usize>)
        requires
            self.inv(),
        ensures
            match r {
                Some(i) => i < self.entries@.len() && self.entries@[i as int].0@ == name@
                    && self@.contains_key(name@) && self@[name@] == self.entries@[i as int].1,
                None => !self@.contains_key(name@),
            },
    {
        let mut i: usize = 0;
        while i < self.entries.len()
            invariant
                self.inv(),
                i <= self.entries@.len(),
                forall|j: int| 0 <= j < i ==> self.entries@[j].0@ != name@,
            decreases self.entries@.len() - i,
        {
            if crate::text::str_eq(self.entries[i].0.as_str(), name) {
                proof {
                    lemma_scope_at(self.entries@, i as int);
                }
                return Some(i);
            }
            i = i + 1;
        }
        proof {
            lemma_scope_contains(self.entries@, name@);
        }
        None
    }

    fn set(&mut self, name: &str, flag: bool)
        requires
            old(self).inv(),
        ensures
            final(self).inv(),
            final(self)@ == old(self)@.insert(name@, flag),
    {
        let found = self.find(name);
        let ghost es = self.entries@;
        match found {
            Some(i) => {
                let entry_name = self.entries[i].0.clone();
                self.entries.set(i, (entry_name, flag));
                proof {
                    let es2 = self.entries@;
                    assert(es2 =~= es.update(i as int, (es[i as int].0, flag)));
                    lemma_scope_update(es, i as int, flag);
                    assert(scope_map(es2) == scope_map(es).insert(name@, flag));
                }
            },
            None => {
                let owned = <String as vstd::string::StringExecFns>::from_str(name);
                self.entries.push((owned, flag));
                proof {
                    let es2 = self.entries@;
                    assert(es2.drop_last() =~= es);
                    lemma_scope_contains(es, name@);
                    assert(scope_unique(es2));
                    assert(scope_map(es2) == scope_map(es).insert(name@, flag));
                }
            },
        }
    }
}

/// The resolved map: each variable or assignment location, with the scope
/// depth its name was found at; held as entries with a later write winning.
pub struct Locals {
    pub entries: Vec<(SourceLocation, usize)>,
}

/// The map the entries stand for.
pub open spec fn locals_map(es: Seq<(SourceLocation, usize)>) -> Map<SourceLocation, usize>
    decreases es.len(),
{
    if es.len() == 0 {
        Map::empty()
    } else {
        locals_map(es.drop_last()).insert(es.last().0, es.last().1)
    }
}

proof fn lemma_locals_contains(es: Seq<(SourceLocation, usize)>, k: SourceLocation)
    ensures
        locals_map(es).contains_key(k) <==> exists|i: int| 0 <= i < es.len() && es[i].0 == k,
    decreases es.len(),
{
    if es.len() > 0 {
        lemma_locals_contains(es.drop_last(), k);
        if locals_map(es).contains_key(k) {
            if es.last().0 != k {
                let i = choose|i: int| 0 <= i < es.drop_last().len() && es.drop_last()[i].0 == k;
                assert(es[i].0 == k);
            }
        }
        if exists|i: int| 0 <= i < es.len() && es[i].0 == k {
            let i = choose|i: int| 0 <= i < es.len() && es[i].0 == k;
            if i < es.len() - 1 {
                assert(es.drop_last()[i].0 == k);
            }
        }
    }
}

/// With distinct keys, the entry holding a key gives its mapped depth; the
/// resolver looks keys up from the latest entry back, so a later write wins
/// even without that.
proof fn lemma_locals_last(es: Seq<(SourceLocation, usize)>, i: int)
    requires
        0 <= i < es.len(),
        es[i].0 == es.last().0 ==> i == es.len() - 1,
        forall|j: int| i < j < es.len() ==> es[j].0 != es[i].0,
    ensures
        locals_map(es).contains_key(es[i].0),
        locals_map(es)[es[i].0] == es[i].1,
    decreases es.len(),
{
    if i == es.len() - 1 {
        lemma_locals_contains(es, es[i].0);
    } else {
        assert(es.drop_last()[i] == es[i]);
        assert(forall|j: int|
            i < j < es.drop_last().len() ==> es.drop_last()[j].0 != es.drop_last()[i].0);
        lemma_locals_last(es.drop_last(), i);
        assert(es[i].0 != es.last().0);
    }
}

impl Locals {
    /// What the resolved entries stand for.
    pub open spec fn view(&self) -> Map<SourceLocation, usize> {
        locals_map(self.entries@)
    }

    pub fn new() -> (r: Self)
        ensures
            r@ =~= Map::<SourceLocation, usize>::empty(),
    {
        let r = Locals { entries: Vec::new() };
        proof {
            assert(r@ =~= locals_map(Seq::empty()));
        }
        r
    }

    /// Records a depth for a location; a later record wins.
    pub fn insert(&mut self, k: SourceLocation, d: usize)
        ensures
            final(self)@ == old(self)@.insert(k, d),
    {
        self.entries.push((k, d));
        proof {
            assert(self.entries@.drop_last() =~= old(self).entries@);
        }
    }

    /// Looks a location up, scanning from the latest record back.
    pub fn get(&self, k: SourceLocation) -> (r: Option<usize>)
        ensures
            match r {
                Some(d) => self@.contains_key(k) && self@[k] == d,
                None => !self@.contains_key(k),
            },
    {
        let mut i: usize = self.entries.len();
        while i > 0
            invariant
                i <= self.entries@.len(),
                forall|j: int| i <= j < self.entries@.len() ==> self.entries@[j].0 != k,
            decreases i,
        {
            i = i - 1;
            if self.entries[i].0 == k {
                proof {
                    lemma_locals_last(self.entries@, i as int);
                }
                return Some(self.entries[i].1);
            }
        }
        proof {
            lemma_locals_contains(self.entries@, k);
        }
        None
    }
}


/// The resolver's state: the stack of scopes (innermost last) and the map
/// built so far.
pub struct ResState {
    pub scopes: Seq<Map<Seq<char>, bool>>,
    pub locals: Map<SourceLocation, usize>,
}

/// The outcome of resolving one piece: the new state, or a failure with the
/// state as the failed walk left it.
pub enum ResR {
    ROk(ResState),
    RFail(ResErrM, ResState),
}

/// The depth of the innermost scope holding a name: zero for the innermost
/// scope of all, counting outward.
pub open spec fn find_depth(scopes: Seq<Map<Seq<char>, bool>>, name: Seq<char>) -> Option<int>
    decreases scopes.len(),
{
    if scopes.len() == 0 {
        None
    } else if scopes.last().contains_key(name) {
        Some(0)
    } else {
        match find_depth(scopes.drop_last(), name) {
            Some(d) => Some(d + 1),
            None => None,
        }
    }
}

/// RESOLVED DEPTHS NAME THEIR SCOPE. Whenever the resolver assigns a depth,
/// walking exactly that many scopes out from the innermost lands on a scope
/// that holds the name. With the environment law `law_depth_reaches`, a
/// lookup that walks the assigned depth of parent frames finds the name.
pub proof fn law_resolved_depth(scopes: Seq<Map<Seq<char>, bool>>, name: Seq<char>)
    requires
        find_depth(scopes, name) is Some,
    ensures
        ({
            let d = find_depth(scopes, name)->0;
            0 <= d < scopes.len() && scopes[scopes.len() - 1 - d].contains_key(name)
        }),
    decreases scopes.len(),
{
    if scopes.len() > 0 && !scopes.last().contains_key(name) {
        law_resolved_depth(scopes.drop_last(), name);
        let d = find_depth(scopes.drop_last(), name)->0;
        assert(scopes.drop_last()[scopes.len() - 2 - d] == scopes[scopes.len() - 2 - d]);
    }
}

/// Resolving a variable read or write: the innermost scope holding the name
/// gives the recorded depth; in a read, a name declared but not yet defined
/// in the innermost scope is a use inside its own initializer.
pub open spec fn spec_resolve_var(
    name: Seq<char>,
    location: SourceLocation,
    st: ResState,
    check_init: bool,
) -> ResR {
    let last = st.scopes[st.scopes.len() - 1];
    if check_init && last.contains_key(name) && last[name] == false {
        ResR::RFail(ResErrM::InInit { name, location }, st)
    } else {
        match find_depth(st.scopes, name) {
            Some(d) => ResR::ROk(
                ResState { scopes: st.scopes, locals: st.locals.insert(location, d as usize) },
            ),
            None => ResR::RFail(ResErrM::Undefined { name, location }, st),
        }
    }
}

/// Resolving an expression.
pub open spec fn spec_resolve_expr(e: Expr, st: ResState) -> ResR
    decreases e,
{
    match e {
        Expr::Binary { left, right, .. } => match spec_resolve_expr(*left, st) {
            ResR::ROk(st1) => spec_resolve_expr(*right, st1),
            f => f,
        },
        Expr::Unary { right, .. } => spec_resolve_expr(*right, st),
        Expr::Literal { .. } => ResR::ROk(st),
        Expr::Variable { location, name } => spec_resolve_var(name@, location, st, true),
        Expr::Assignment { location, name, value } => match spec_resolve_expr(*value, st) {
            ResR::ROk(st1) => spec_resolve_var(name@, location, st1, false),
            f => f,
        },
        Expr::Call { callee, arguments, .. } => match spec_resolve_expr(*callee, st) {
            ResR::ROk(st1) => spec_resolve_exprs(arguments@, st1),
            f => f,
        },
    }
}

/// Resolving expressions in order.
pub open spec fn spec_resolve_exprs(es: Seq<Expr>, st: ResState) -> ResR
    decreases es,
{
    if es.len() == 0 {
        ResR::ROk(st)
    } else {
        match spec_resolve_expr(es[0], st) {
            ResR::ROk(st1) => spec_resolve_exprs(es.subrange(1, es.len() as int), st1),
            f => f,
        }
    }
}

/// Inserting a name into the innermost scope.
pub open spec fn st_set(st: ResState, name: Seq<char>, flag: bool) -> ResState {
    ResState {
        scopes: st.scopes.update(
            st.scopes.len() - 1,
            st.scopes[st.scopes.len() - 1].insert(name, flag),
        ),
        locals: st.locals,
    }
}

/// Marking every parameter defined in the innermost scope.
pub open spec fn st_params(st: ResState, ps: Seq<Seq<char>>) -> ResState
    decreases ps.len(),
{
    if ps.len() == 0 {
        st
    } else {
        st_params(st_set(st, ps[0], true), ps.subrange(1, ps.len() as int))
    }
}

/// Resolving a statement: declarations write the innermost scope, blocks and
/// function bodies push a scope and pop it on the way out (a failure leaves
/// the walk exactly where it stopped).
pub open spec fn spec_resolve_stmt(s: Stmt, st: ResState) -> ResR
    decreases s,
{
    match s {
        Stmt::Expression(e) => spec_resolve_expr(e, st),
        Stmt::Print(e) => spec_resolve_expr(e, st),
        Stmt::Return(e) => spec_resolve_expr(e, st),
        Stmt::VarDecl { name, location, initializer } => {
            if st.scopes.len() > 1 && st.scopes[st.scopes.len() - 1].contains_key(name@) {
                ResR::RFail(ResErrM::Duplicate { name: name@, location }, st)
            } else {
                let st1 = st_set(st, name@, false);
                match initializer {
                    Some(e) => match spec_resolve_expr(e, st1) {
                        ResR::ROk(st2) => ResR::ROk(st_set(st2, name@, true)),
                        f => f,
                    },
                    None => ResR::ROk(st_set(st1, name@, true)),
                }
            }
        },
        Stmt::If { condition, then_branch, else_branch } => match spec_resolve_expr(
            condition,
            st,
        ) {
            ResR::ROk(st1) => match spec_resolve_stmt(*then_branch, st1) {
                ResR::ROk(st2) => match else_branch {
                    Some(el) => spec_resolve_stmt(*el, st2),
                    None => ResR::ROk(st2),
                },
                f => f,
            },
            f => f,
        },
        Stmt::While { condition, body } => match spec_resolve_expr(condition, st) {
            ResR::ROk(st1) => spec_resolve_stmt(*body, st1),
            f => f,
        },
        Stmt::Block(v) => {
            let st1 = ResState { scopes: st.scopes.push(Map::empty()), locals: st.locals };
            match spec_resolve_stmts(v@, st1) {
                ResR::ROk(st2) => ResR::ROk(
                    ResState { scopes: st2.scopes.drop_last(), locals: st2.locals },
                ),
                f => f,
            }
        },
        Stmt::FunDecl { name, params, body } => {
            let st1 = st_set(st, name@, true);
            let st2 = ResState { scopes: st1.scopes.push(Map::empty()), locals: st1.locals };
            let st3 = st_params(st2, params.deep_view());
            match spec_resolve_stmt(*body, st3) {
                ResR::ROk(st4) => ResR::ROk(
                    ResState { scopes: st4.scopes.drop_last(), locals: st4.locals },
                ),
                f => f,
            }
        },
    }
}

/// Resolving statements in order.
pub open spec fn spec_resolve_stmts(ss: Seq<Stmt>, st: ResState) -> ResR
    decreases ss,
{
    if ss.len() == 0 {
        ResR::ROk(st)
    } else {
        match spec_resolve_stmt(ss[0], st) {
            ResR::ROk(st1) => spec_resolve_stmts(ss.subrange(1, ss.len() as int), st1),
            f => f,
        }
    }
}

/// Resolving a program: every statement is walked; a failed statement is
/// recorded and the walk goes on from the state it left.
pub open spec fn spec_resolve_program(ss: Seq<Stmt>, st: ResState) -> (ResState, Seq<ResErrM>)
    decreases ss.len(),
{
    if ss.len() == 0 {
        (st, Seq::empty())
    } else {
        match spec_resolve_stmt(ss[0], st) {
            ResR::ROk(st1) => spec_resolve_program(ss.subrange(1, ss.len() as int), st1),
            ResR::RFail(e, st1) => {
                let (st2, errs) = spec_resolve_program(ss.subrange(1, ss.len() as int), st1);
                (st2, seq![e] + errs)
            },
        }
    }
}

/// The state the resolver starts from: one global scope that pre-defines
/// the `clock` built-in, and an empty map.
pub open spec fn spec_initial_state() -> ResState {
    ResState {
        scopes: seq![Map::<Seq<char>, bool>::empty().insert("clock"@, true)],
        locals: Map::empty(),
    }
}

/// The scopes a list of scope frames stands for.
pub open spec fn scopes_view(sc: Seq<Scope>) -> Seq<Map<Seq<char>, bool>> {
    sc.map_values(|s: Scope| s@)
}

/// The exec scope stack is sound: never empty, each frame's names unique.
pub open spec fn scopes_ok(sc: Seq<Scope>) -> bool {
    sc.len() >= 1 && forall|i: int| 0 <= i < sc.len() ==> (#[trigger] sc[i]).inv()
}


/// The current views as one state.
pub open spec fn cur_state(scopes: Seq<Scope>, locals: Locals) -> ResState {
    ResState { scopes: scopes_view(scopes), locals: locals@ }
}

/// Resolves a variable read or write against the scope stack.
fn resolve_var(
    scopes: &mut Vec<Scope>,
    locals: &mut Locals,
    name: &String,
    location: SourceLocation,
    check_init: bool,
) -> (r: Result<(), Error>)
    requires
        scopes_ok(old(scopes)@),
    ensures
        scopes_ok(final(scopes)@),
        final(scopes)@ == old(scopes)@,
        match spec_resolve_var(name@, location, cur_state(old(scopes)@, *old(locals)), check_init) {
            ResR::ROk(st2) => r is Ok && cur_state(final(scopes)@, *final(locals)) == st2,
            ResR::RFail(em, st2) => r is Err && res_err_view(r->Err_0) == em && cur_state(
                final(scopes)@,
                *final(locals),
            ) == st2,
        },
{
    let n = scopes.len();
    let last = n - 1;
    proof {
        assert(scopes_view(scopes@)[last as int] == scopes@[last as int]@);
    }
    if check_init {
        match scopes[last].find(name.as_str()) {
            Some(i) => {
                if !scopes[last].entries[i].1 {
                    proof {
                        assert(spec_resolve_var(
                            name@,
                            location,
                            cur_state(scopes@, *locals),
                            check_init,
                        ) is RFail);
                    }
                    return Err(
                        Error::AccessInInitializer { name: name.clone(), location },
                    );
                }
            },
            None => {},
        }
    }
    let ghost no_init_err = true;
    // search the scopes innermost first
    let mut k: usize = n;
    while k > 0
        invariant
            scopes_ok(scopes@),
            scopes@ == old(scopes)@,
            *locals == *old(locals),
            n == scopes@.len(),
            k <= n,
            !(check_init && scopes_view(scopes@)[n - 1].contains_key(name@) && scopes_view(
                scopes@,
            )[n - 1][name@] == false),
            forall|j: int| k <= j < n ==> !(#[trigger] scopes_view(scopes@)[j]).contains_key(name@),
        decreases k,
    {
        k = k - 1;
        match scopes[k].find(name.as_str()) {
            Some(_) => {
                let depth = n - 1 - k;
                proof {
                    lemma_find_depth_at(scopes_view(scopes@), name@, k as int);
                }
                locals.insert(location, depth);
                return Ok(());
            },
            None => {
                proof {
                    assert(scopes_view(scopes@)[k as int] == scopes@[k as int]@);
                }
            },
        }
    }
    proof {
        lemma_find_depth_none(scopes_view(scopes@), name@);
    }
    Err(Error::AccessUndefined { name: name.clone(), location })
}

/// When every scope above `k` lacks the name and scope `k` holds it, the
/// found depth is the distance from the innermost scope.
proof fn lemma_find_depth_at(sc: Seq<Map<Seq<char>, bool>>, name: Seq<char>, k: int)
    requires
        0 <= k < sc.len(),
        sc[k].contains_key(name),
        forall|j: int| k < j < sc.len() ==> !(#[trigger] sc[j]).contains_key(name),
    ensures
        find_depth(sc, name) == Some(sc.len() - 1 - k),
    decreases sc.len(),
{
    if k == sc.len() - 1 {
    } else {
        assert(sc.drop_last()[k] == sc[k]);
        assert(forall|j: int|
            k < j < sc.drop_last().len() ==> !(#[trigger] sc.drop_last()[j]).contains_key(name));
        lemma_find_depth_at(sc.drop_last(), name, k);
        assert(!sc.last().contains_key(name));
    }
}

/// When no scope holds the name, no depth is found.
proof fn lemma_find_depth_none(sc: Seq<Map<Seq<char>, bool>>, name: Seq<char>)
    requires
        forall|j: int| 0 <= j < sc.len() ==> !(#[trigger] sc[j]).contains_key(name),
    ensures
        find_depth(sc, name) is None,
    decreases sc.len(),
{
    if sc.len() > 0 {
        assert(forall|j: int|
            0 <= j < sc.drop_last().len() ==> !(#[trigger] sc.drop_last()[j]).contains_key(name));
        lemma_find_depth_none(sc.drop_last(), name);
    }
}

/// Resolves one expression.
fn resolve_expr(
    e: &Expr,
    scopes: &mut Vec<Scope>,
    locals: &mut Locals,
) -> (r: Result<(), Error>)
    requires
        scopes_ok(old(scopes)@),
    ensures
        scopes_ok(final(scopes)@),
        final(scopes)@ == old(scopes)@,
        match spec_resolve_expr(*e, cur_state(old(scopes)@, *old(locals))) {
            ResR::ROk(st2) => r is Ok && cur_state(final(scopes)@, *final(locals)) == st2,
            ResR::RFail(em, st2) => r is Err && res_err_view(r->Err_0) == em && cur_state(
                final(scopes)@,
                *final(locals),
            ) == st2,
        },
    decreases *e,
{
    let ghost st0 = cur_state(scopes@, *locals);
    match e {
        Expr::Binary { left, right, .. } => {
            let res = resolve_expr(left, scopes, locals);
            match res {
                Ok(_) => resolve_expr(right, scopes, locals),
                Err(er) => Err(er),
            }
        },
        Expr::Unary { right, .. } => resolve_expr(right, scopes, locals),
        Expr::Literal { .. } => Ok(()),
        Expr::Variable { location, name } => resolve_var(scopes, locals, name, *location, true),
        Expr::Assignment { location, name, value } => {
            let res = resolve_expr(value, scopes, locals);
            match res {
                Ok(_) => resolve_var(scopes, locals, name, *location, false),
                Err(er) => Err(er),
            }
        },
        Expr::Call { callee, arguments, .. } => {
            let res = resolve_expr(callee, scopes, locals);
            match res {
                Ok(_) => {
                    let ghost st_entry = cur_state(scopes@, *locals);
                    proof {
                        assert(arguments@.subrange(0, arguments@.len() as int) =~= arguments@);
                    }
                    let mut i: usize = 0;
                    while i < arguments.len()
                        invariant
                            scopes_ok(scopes@),
                            scopes@ == old(scopes)@,
                            st0 == cur_state(old(scopes)@, *old(locals)),
                            *e is Call,
                            e->arguments == *arguments,
                            i <= arguments@.len(),
                            spec_resolve_expr(*e, st0) == spec_resolve_exprs(
                                arguments@.subrange(i as int, arguments@.len() as int),
                                cur_state(scopes@, *locals),
                            ),
                        decreases arguments@.len() - i,
                    {
                        let ghost pre = arguments@.subrange(i as int, arguments@.len() as int);
                        let ghost st_before = cur_state(scopes@, *locals);
                        let res2 = resolve_expr(&arguments[i], scopes, locals);
                        proof {
                            assert(pre[0] == arguments@[i as int]);
                            assert(pre.subrange(1, pre.len() as int) =~= arguments@.subrange(
                                i + 1,
                                arguments@.len() as int,
                            ));
                        }
                        match res2 {
                            Ok(_) => {
                                i = i + 1;
                            },
                            Err(er) => {
                                proof {
                                    assert(spec_resolve_exprs(pre, st_before) == ResR::RFail(
                                        res_err_view(er),
                                        cur_state(scopes@, *locals),
                                    ));
                                }
                                return Err(er);
                            },
                        }
                    }
                    proof {
                        assert(arguments@.subrange(
                            arguments@.len() as int,
                            arguments@.len() as int,
                        ) =~= Seq::<Expr>::empty());
                    }
                    Ok(())
                },
                Err(er) => Err(er),
            }
        },
    }
}


/// Resolves one statement.
#[verifier::rlimit(100)]
fn resolve_stmt(s: &Stmt, scopes: &mut Vec<Scope>, locals: &mut Locals) -> (r: Result<(), Error>)
    requires
        scopes_ok(old(scopes)@),
    ensures
        scopes_ok(final(scopes)@),
        r is Ok ==> final(scopes)@.len() == old(scopes)@.len(),
        r is Err ==> final(scopes)@.len() >= old(scopes)@.len(),
        match spec_resolve_stmt(*s, cur_state(old(scopes)@, *old(locals))) {
            ResR::ROk(st2) => r is Ok && cur_state(final(scopes)@, *final(locals)) == st2,
            ResR::RFail(em, st2) => r is Err && res_err_view(r->Err_0) == em && cur_state(
                final(scopes)@,
                *final(locals),
            ) == st2,
        },
    decreases *s, 0int,
{
    let ghost st0 = cur_state(scopes@, *locals);
    match s {
        Stmt::Expression(e) => resolve_expr(e, scopes, locals),
        Stmt::Print(e) => resolve_expr(e, scopes, locals),
        Stmt::Return(e) => resolve_expr(e, scopes, locals),
        Stmt::VarDecl { name, location, initializer } => {
            let n = scopes.len();
            let last = n - 1;
            proof {
                assert(scopes_view(scopes@)[last as int] == scopes@[last as int]@);
            }
            // a name may be declared again in the global scope; only inner
            // scopes refuse duplicates
            let duplicate = if n > 1 {
                matches!(scopes[last].find(name.as_str()), Some(_))
            } else {
                false
            };
            if duplicate {
                Err(Error::DuplicateVariable { name: name.clone(), location: *location })
            } else {
                set_last(scopes, name, false);
                let res = match initializer {
                    Some(e) => resolve_expr(e, scopes, locals),
                    None => Ok(()),
                };
                match res {
                    Ok(_) => {
                        set_last(scopes, name, true);
                        Ok(())
                    },
                    Err(er) => Err(er),
                }
            }
        },
        Stmt::If { condition, then_branch, else_branch } => {
            let res = resolve_expr(condition, scopes, locals);
            match res {
                Ok(_) => {
                    let res2 = resolve_stmt(then_branch, scopes, locals);
                    match res2 {
                        Ok(_) => match else_branch {
                            Some(el) => resolve_stmt(el, scopes, locals),
                            None => Ok(()),
                        },
                        Err(er) => Err(er),
                    }
                },
                Err(er) => Err(er),
            }
        },
        Stmt::While { condition, body } => {
            let res = resolve_expr(condition, scopes, locals);
            match res {
                Ok(_) => resolve_stmt(body, scopes, locals),
                Err(er) => Err(er),
            }
        },
        Stmt::Block(v) => {
            scopes.push(Scope::new());
            proof {
                assert(scopes_view(scopes@) =~= scopes_view(old(scopes)@).push(
                    Map::<Seq<char>, bool>::empty(),
                ));
                assert(v@.subrange(0, v@.len() as int) =~= v@);
            }
            let ghost st1 = cur_state(scopes@, *locals);
            let mut i: usize = 0;
            while i < v.len()
                invariant
                    scopes_ok(scopes@),
                    scopes@.len() == old(scopes)@.len() + 1,
                    st1 == (ResState {
                        scopes: scopes_view(old(scopes)@).push(Map::<Seq<char>, bool>::empty()),
                        locals: old(locals)@,
                    }),
                    *s is Block,
                    s->Block_0 == *v,
                    i <= v@.len(),
                    spec_resolve_stmts(v@.subrange(i as int, v@.len() as int), cur_state(
                        scopes@,
                        *locals,
                    )) == spec_resolve_stmts(v@, st1),
                decreases v@.len() - i,
            {
                let ghost pre = v@.subrange(i as int, v@.len() as int);
                let ghost st_before = cur_state(scopes@, *locals);
                let res2 = resolve_stmt(&v[i], scopes, locals);
                proof {
                    assert(pre[0] == v@[i as int]);
                    assert(pre.subrange(1, pre.len() as int) =~= v@.subrange(
                        i + 1,
                        v@.len() as int,
                    ));
                }
                match res2 {
                    Ok(_) => {
                        i = i + 1;
                    },
                    Err(er) => {
                        proof {
                            assert(spec_resolve_stmts(pre, st_before) == ResR::RFail(
                                res_err_view(er),
                                cur_state(scopes@, *locals),
                            ));
                        }
                        return Err(er);
                    },
                }
            }
            proof {
                assert(v@.subrange(v@.len() as int, v@.len() as int) =~= Seq::<Stmt>::empty());
            }
            let ghost pre_pop = scopes@;
            let popped = scopes.pop();
            proof {
                assert(scopes@ =~= pre_pop.drop_last());
                assert(scopes_view(scopes@) =~= scopes_view(pre_pop).drop_last());
            }
            match popped {
                Some(_) => Ok(()),
                None => Ok(()),
            }
        },
        Stmt::FunDecl { name, params, body } => {
            set_last(scopes, name, true);
            let ghost pre_push = scopes@;
            scopes.push(Scope::new());
            proof {
                assert(scopes_view(scopes@) =~= scopes_view(pre_push).push(
                    Map::<Seq<char>, bool>::empty(),
                ));
                assert(params.deep_view().subrange(0, params.deep_view().len() as int)
                    =~= params.deep_view());
            }
            let ghost st2 = cur_state(scopes@, *locals);
            let mut i: usize = 0;
            while i < params.len()
                invariant
                    scopes_ok(scopes@),
                    *locals == *old(locals),
                    scopes@.len() == old(scopes)@.len() + 1,
                    scopes@.len() >= 2,
                    *s is FunDecl,
                    s->FunDecl_params == *params,
                    i <= params@.len(),
                    st_params(cur_state(scopes@, *locals), params.deep_view().subrange(
                        i as int,
                        params.deep_view().len() as int,
                    )) == st_params(st2, params.deep_view()),
                decreases params@.len() - i,
            {
                let ghost pre = params.deep_view().subrange(
                    i as int,
                    params.deep_view().len() as int,
                );
                set_last(scopes, &params[i], true);
                proof {
                    assert(pre[0] == params.deep_view()[i as int]);
                    assert(params.deep_view()[i as int] == params@[i as int]@);
                    assert(pre.subrange(1, pre.len() as int) =~= params.deep_view().subrange(
                        i + 1,
                        params.deep_view().len() as int,
                    ));
                }
                i = i + 1;
            }
            proof {
                assert(params.deep_view().subrange(
                    params.deep_view().len() as int,
                    params.deep_view().len() as int,
                ) =~= Seq::<Seq<char>>::empty());
            }
            proof {
                assert(cur_state(scopes@, *locals) == st_params(st2, params.deep_view()));
            }
            let res = resolve_stmt_rc(body, scopes, locals);
            match res {
                Ok(_) => {
                    let ghost pre_pop = scopes@;
                    let popped = scopes.pop();
                    proof {
                        assert(scopes@ =~= pre_pop.drop_last());
                        assert(scopes_view(scopes@) =~= scopes_view(pre_pop).drop_last());
                    }
                    Ok(())
                },
                Err(er) => Err(er),
            }
        },
    }
}

/// Resolves a shared function body.
fn resolve_stmt_rc(
    body: &std::rc::Rc<Stmt>,
    scopes: &mut Vec<Scope>,
    locals: &mut Locals,
) -> (r: Result<(), Error>)
    requires
        scopes_ok(old(scopes)@),
    ensures
        scopes_ok(final(scopes)@),
        r is Ok ==> final(scopes)@.len() == old(scopes)@.len(),
        r is Err ==> final(scopes)@.len() >= old(scopes)@.len(),
        match spec_resolve_stmt(**body, cur_state(old(scopes)@, *old(locals))) {
            ResR::ROk(st2) => r is Ok && cur_state(final(scopes)@, *final(locals)) == st2,
            ResR::RFail(em, st2) => r is Err && res_err_view(r->Err_0) == em && cur_state(
                final(scopes)@,
                *final(locals),
            ) == st2,
        },
    decreases **body, 1int,
{
    resolve_stmt(&**body, scopes, locals)
}

/// Marks a name in the innermost scope.
fn set_last(scopes: &mut Vec<Scope>, name: &String, flag: bool)
    requires
        scopes_ok(old(scopes)@),
    ensures
        scopes_ok(final(scopes)@),
        scopes_view(final(scopes)@) == st_set(
            ResState { scopes: scopes_view(old(scopes)@), locals: Map::empty() },
            name@,
            flag,
        ).scopes,
        final(scopes)@.len() == old(scopes)@.len(),
{
    let n = scopes.len();
    let last = n - 1;
    let ghost pre = scopes@;
    let mut frame = scopes.remove(last);
    frame.set(name.as_str(), flag);
    scopes.insert(last, frame);
    proof {
        assert(scopes_view(scopes@) =~= scopes_view(pre).update(
            last as int,
            scopes_view(pre)[last as int].insert(name@, flag),
        ));
    }
}


/// The errors a whole resolution produced, as their mathematical pictures.
pub open spec fn res_errs_view(es: Seq<Error>) -> Seq<ResErrM> {
    es.map_values(|e: Error| res_err_view(e))
}

/// The resolver; one use resolves one program.
pub struct Resolver {}

impl Resolver {
    pub fn new() -> (r: Self)
        ensures
            true,
    {
        Resolver {  }
    }

    /// Pre-defines the `clock` built-in in the innermost scope.
    fn builtin_clock(&self, scopes: &mut Vec<Scope>)
        requires
            scopes_ok(old(scopes)@),
        ensures
            scopes_ok(final(scopes)@),
            scopes_view(final(scopes)@) == st_set(
                ResState { scopes: scopes_view(old(scopes)@), locals: Map::empty() },
                "clock"@,
                true,
            ).scopes,
    {
        let name = <String as vstd::string::StringExecFns>::from_str("clock");
        set_last(scopes, &name, true);
    }

    /// Resolves a whole program from one fresh global scope that pre-defines
    /// `clock`. Every statement is walked; failures are collected and the
    /// walk goes on, exactly as `spec_resolve_program` says.
    pub fn resolve(&self, stmts: &Vec<Stmt>) -> (r: (Locals, Vec<Error>))
        ensures
            ({
                let (st2, errs) = spec_resolve_program(stmts@, spec_initial_state());
                r.0@ == st2.locals && res_errs_view(r.1@) == errs
            }),
    {
        let mut locals = Locals::new();
        let mut errors: Vec<Error> = Vec::new();
        let mut scopes: Vec<Scope> = Vec::new();
        scopes.push(Scope::new());
        proof {
            assert(scopes_view(scopes@) =~= seq![Map::<Seq<char>, bool>::empty()]);
        }
        self.builtin_clock(&mut scopes);
        proof {
            assert(scopes_view(scopes@) =~= spec_initial_state().scopes);
            assert(cur_state(scopes@, locals) == spec_initial_state());
            assert(stmts@.subrange(0, stmts@.len() as int) =~= stmts@);
        }
        let ghost st_init = spec_initial_state();
        let mut i: usize = 0;
        while i < stmts.len()
            invariant
                scopes_ok(scopes@),
                i <= stmts@.len(),
                ({
                    let (st2, errs) = spec_resolve_program(stmts@, st_init);
                    let (stc, errsc) = spec_resolve_program(
                        stmts@.subrange(i as int, stmts@.len() as int),
                        cur_state(scopes@, locals),
                    );
                    st2 == stc && errs =~= res_errs_view(errors@) + errsc
                }),
            decreases stmts@.len() - i,
        {
            let ghost pre = stmts@.subrange(i as int, stmts@.len() as int);
            let ghost st_before = cur_state(scopes@, locals);
            let ghost errs_before = errors@;
            let res = resolve_stmt(&stmts[i], &mut scopes, &mut locals);
            proof {
                assert(pre[0] == stmts@[i as int]);
                assert(pre.subrange(1, pre.len() as int) =~= stmts@.subrange(
                    i + 1,
                    stmts@.len() as int,
                ));
            }
            match res {
                Ok(_) => {},
                Err(er) => {
                    errors.push(er);
                    proof {
                        assert(res_errs_view(errors@) =~= res_errs_view(errs_before).push(
                            res_err_view(er),
                        ));
                        let (stc2, errsc2) = spec_resolve_program(
                            stmts@.subrange(i + 1, stmts@.len() as int),
                            cur_state(scopes@, locals),
                        );
                        assert(res_errs_view(errs_before) + (seq![res_err_view(er)] + errsc2)
                            =~= res_errs_view(errors@) + errsc2);
                    }
                },
            }
            i = i + 1;
        }
        proof {
            assert(stmts@.subrange(stmts@.len() as int, stmts@.len() as int)
                =~= Seq::<Stmt>::empty());
            let (st2, errs) = spec_resolve_program(stmts@, st_init);
            assert(errs =~= res_errs_view(errors@));
        }
        (locals, errors)
    }
}

} // verus!
