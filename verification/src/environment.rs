//! Environments: frames of name-to-binding pairs linked parent-ward, held in
//! one arena so that every closure made in a scope shares that scope's frame.
//! A binding is optional, telling a declaration without initializer apart
//! from an assigned `nil`.
use vstd::prelude::*;
use crate::ast::{lit_opt_view, lit_view, ValueM};
use crate::token::Literal;

verus! {

/// An environment failure: a variable was not where the resolver's depth
/// said it would be.
#[derive(Debug)]
pub enum Error {
    ResolverError { name: String },
}

impl Error {
    /// The name the failed access was after.
    pub fn name(&self) -> (r: &String)
        ensures
            r@ == spec_error_name(*self),
    {
        match self {
            Error::ResolverError { name } => name,
        }
    }
}

/// The name inside an environment failure.
pub open spec fn spec_error_name(e: Error) -> Seq<char> {
    match e {
        Error::ResolverError { name } => name@,
    }
}

/// One scope's frame: its parent (if any) and its bindings, with each name
/// held at most once.
pub struct Frame {
    pub parent: Option<usize>,
    pub entries: Vec<(String, Option<Literal>)>,
}

/// The mathematical picture of a frame: the parent link and a map from names
/// to optional values.
pub struct FrameM {
    pub parent: Option<usize>,
    pub vals: Map<Seq<char>, Option<ValueM>>,
}

/// The map a list of bindings stands for; a later entry for a name wins.
pub open spec fn entries_map(es: Seq<(String, Option<Literal>)>) -> Map<
    Seq<char>,
    Option<ValueM>,
>
    decreases es.len(),
{
    if es.len() == 0 {
        Map::empty()
    } else {
        entries_map(es.drop_last()).insert(es.last().0@, lit_opt_view(es.last().1))
    }
}

/// What a frame stands for.
pub open spec fn frame_view(f: Frame) -> FrameM {
    FrameM { parent: f.parent, vals: entries_map(f.entries@) }
}

/// Whether a list of bindings holds each name at most once.
pub open spec fn entries_unique(es: Seq<(String, Option<Literal>)>) -> bool {
    forall|i: int, j: int| 0 <= i < j < es.len() ==> es[i].0@ != es[j].0@
}

/// A name occurs in the map exactly when some entry carries it.
proof fn lemma_entries_contains(es: Seq<(String, Option<Literal>)>, name: Seq<char>)
    ensures
        entries_map(es).contains_key(name) <==> exists|i: int| 0 <= i < es.len() && es[i].0@ == name,
    decreases es.len(),
{
    if es.len() > 0 {
        lemma_entries_contains(es.drop_last(), name);
        if entries_map(es).contains_key(name) {
            if es.last().0@ != name {
                let i = choose|i: int| 0 <= i < es.drop_last().len() && es.drop_last()[i].0@ == name;
                assert(es[i].0@ == name);
            }
        }
        if exists|i: int| 0 <= i < es.len() && es[i].0@ == name {
            let i = choose|i: int| 0 <= i < es.len() && es[i].0@ == name;
            if i < es.len() - 1 {
                assert(es.drop_last()[i].0@ == name);
            }
        }
    }
}

/// With unique names, the entry holding a name gives its mapped value.
proof fn lemma_entries_at(es: Seq<(String, Option<Literal>)>, i: int)
    requires
        entries_unique(es),
        0 <= i < es.len(),
    ensures
        entries_map(es).contains_key(es[i].0@),
        entries_map(es)[es[i].0@] == lit_opt_view(es[i].1),
    decreases es.len(),
{
    if i == es.len() - 1 {
        lemma_entries_contains(es, es[i].0@);
    } else {
        assert(entries_unique(es.drop_last())) by {
            assert(forall|a: int, b: int|
                0 <= a < b < es.drop_last().len() ==> es.drop_last()[a].0@ != es.drop_last()[b].0@);
        }
        assert(es.drop_last()[i] == es[i]);
        lemma_entries_at(es.drop_last(), i);
        assert(es[i].0@ != es.last().0@);
    }
}

/// With unique names, replacing the entry that holds a name updates exactly
/// that name in the map.
proof fn lemma_entries_update(es: Seq<(String, Option<Literal>)>, i: int, v: Option<Literal>)
    requires
        entries_unique(es),
        0 <= i < es.len(),
    ensures
        entries_map(es.update(i, (es[i].0, v))) == entries_map(es).insert(
            es[i].0@,
            lit_opt_view(v),
        ),
    decreases es.len(),
{
    let es2 = es.update(i, (es[i].0, v));
    if i == es.len() - 1 {
        assert(es2.drop_last() =~= es.drop_last());
        assert(entries_map(es2) =~= entries_map(es).insert(es[i].0@, lit_opt_view(v)));
    } else {
        assert(entries_unique(es.drop_last())) by {
            assert(forall|a: int, b: int|
                0 <= a < b < es.drop_last().len() ==> es.drop_last()[a].0@ != es.drop_last()[b].0@);
        }
        assert(es2.drop_last() =~= es.drop_last().update(i, (es[i].0, v)));
        assert(es.drop_last()[i] == es[i]);
        lemma_entries_update(es.drop_last(), i, v);
        assert(es2.last() == es.last());
        assert(es[i].0@ != es.last().0@);
        assert(entries_map(es2) =~= entries_map(es).insert(es[i].0@, lit_opt_view(v)));
    }
}

/// Whether the frames only ever link to earlier frames.
pub open spec fn parents_ok(env: Seq<FrameM>) -> bool {
    forall|i: int|
        0 <= i < env.len() ==> (#[trigger] env[i].parent is Some ==> env[i].parent->0 < i)
}

/// The arena of every frame made during one run. Frame handles are indices;
/// a frame never changes its parent, so all links point at earlier frames.
pub struct Environment {
    pub frames: Vec<Frame>,
}

impl Environment {
    /// What the arena stands for: the frames' mathematical pictures, in order.
    pub open spec fn view(&self) -> Seq<FrameM> {
        self.frames@.map_values(|f: Frame| frame_view(f))
    }

    /// The arena's own invariant: parent links go to earlier frames and each
    /// frame's names are unique.
    pub open spec fn inv(&self) -> bool {
        &&& parents_ok(self@)
        &&& forall|i: int| 0 <= i < self.frames@.len() ==> entries_unique(
            #[trigger] self.frames@[i].entries@,
        )
    }

    /// A fresh root environment with one empty global frame.
    pub fn new() -> (r: Self)
        ensures
            r.inv(),
            r@ =~= seq![FrameM { parent: None, vals: Map::empty() }],
    {
        let mut frames: Vec<Frame> = Vec::new();
        frames.push(Frame { parent: None, entries: Vec::new() });
        let r = Environment { frames };
        proof {
            assert(r@ =~= seq![FrameM { parent: None, vals: entries_map(Seq::empty()) }]);
        }
        r
    }

    /// Opens a new frame whose parent is `parent`, returning its handle.
    pub fn new_with_parent(&mut self, parent: usize) -> (child: usize)
        requires
            old(self).inv(),
            parent < old(self)@.len(),
        ensures
            final(self).inv(),
            child == old(self)@.len(),
            final(self)@ =~= old(self)@ + seq![FrameM { parent: Some(parent), vals: Map::empty() }],
    {
        let child = self.frames.len();
        self.frames.push(Frame { parent: Some(parent), entries: Vec::new() });
        proof {
            assert(self@ =~= old(self)@ + seq![
                FrameM { parent: Some(parent), vals: entries_map(Seq::empty()) },
            ]);
        }
        child
    }

    /// Finds the position of `name` in the frame's bindings, if it is there.
    fn find_entry(&self, frame: usize, name: &str) -> (r: Option<usize>)
        requires
            self.inv(),
            frame < self@.len(),
        ensures
            match r {
                Some(i) => i < self.frames@[frame as int].entries@.len()
                    && self.frames@[frame as int].entries@[i as int].0@ == name@,
                None => !self@[frame as int].vals.contains_key(name@),
            },
    {
        let entries = &self.frames[frame].entries;
        let mut i: usize = 0;
        while i < entries.len()
            invariant
                i <= entries@.len(),
                entries@ == self.frames@[frame as int].entries@,
                forall|j: int| 0 <= j < i ==> entries@[j].0@ != name@,
            decreases entries@.len() - i,
        {
            if crate::text::str_eq(entries[i].0.as_str(), name) {
                return Some(i);
            }
            i = i + 1;
        }
        proof {
            lemma_entries_contains(entries@, name@);
        }
        None
    }

    /// Binds `name` in the given frame, replacing any existing binding.
    pub fn define(&mut self, frame: usize, name: &str, value: Option<Literal>)
        requires
            old(self).inv(),
            frame < old(self)@.len(),
        ensures
            final(self).inv(),
            final(self)@ =~= old(self)@.update(
                frame as int,
                FrameM {
                    parent: old(self)@[frame as int].parent,
                    vals: old(self)@[frame as int].vals.insert(name@, lit_opt_view(value)),
                },
            ),
    {
        let found = self.find_entry(frame, name);
        let ghost es = self.frames@[frame as int].entries@;
        match found {
            Some(i) => {
                proof {
                    lemma_entries_update(es, i as int, value);
                }
                let entry_name = self.frames[frame].entries[i].0.clone();
                self.frames[frame].entries.set(i, (entry_name, value));
                proof {
                    let es2 = self.frames@[frame as int].entries@;
                    assert(es2 =~= es.update(i as int, (es[i as int].0, es2[i as int].1)));
                    assert(entries_map(es2) == entries_map(es).insert(name@, lit_opt_view(
                        es2[i as int].1,
                    )));
                    assert(self@ =~= old(self)@.update(
                        frame as int,
                        FrameM {
                            parent: old(self)@[frame as int].parent,
                            vals: old(self)@[frame as int].vals.insert(
                                name@,
                                lit_opt_view(es2[i as int].1),
                            ),
                        },
                    ));
                }
            },
            None => {
                let owned = <String as vstd::string::StringExecFns>::from_str(name);
                self.frames[frame].entries.push((owned, value));
                proof {
                    let es2 = self.frames@[frame as int].entries@;
                    assert(es2 =~= es.push((es2.last().0, es2.last().1)));
                    assert(es2.drop_last() =~= es);
                    lemma_entries_contains(es, name@);
                    assert(entries_unique(es2));
                    assert(entries_map(es2) == entries_map(es).insert(name@, lit_opt_view(value)));
                    assert(self@ =~= old(self)@.update(
                        frame as int,
                        FrameM {
                            parent: old(self)@[frame as int].parent,
                            vals: old(self)@[frame as int].vals.insert(name@, lit_opt_view(value)),
                        },
                    ));
                }
            },
        }
    }
    /// Reads `name` through the frame and its parents: the binding of the
    /// nearest frame holding the name, or nothing when no frame does.
    pub fn get(&self, frame: usize, name: &str) -> (r: Option<Option<Literal>>)
        requires
            self.inv(),
            frame < self@.len(),
        ensures
            opt_binding_view(r) == spec_get(self@, frame as int, name@),
        decreases frame,
    {
        let found = self.find_entry(frame, name);
        match found {
            Some(i) => {
                proof {
                    lemma_entries_at(self.frames@[frame as int].entries@, i as int);
                }
                match &self.frames[frame].entries[i].1 {
                    Some(v) => Some(Some(v.dup())),
                    None => Some(None),
                }
            },
            None => {
                let parent = self.frames[frame].parent;
                match parent {
                    Some(p) => self.get(p, name),
                    None => None,
                }
            },
        }
    }

    /// Walks exactly `depth` parents, then reads that frame alone; an error
    /// if the chain is shorter or the name is not bound there.
    pub fn get_at(&self, frame: usize, name: &str, depth: usize) -> (r: Result<
        Option<Literal>,
        Error,
    >)
        requires
            self.inv(),
            frame < self@.len(),
        ensures
            match spec_get_at(self@, frame as int, name@, depth as nat) {
                Some(b) => r is Ok && lit_opt_view(r->Ok_0) == b,
                None => r is Err && spec_error_name(r->Err_0) == name@,
            },
        decreases depth,
    {
        if depth > 0 {
            let parent = self.frames[frame].parent;
            match parent {
                Some(p) => self.get_at(p, name, depth - 1),
                None => Err(
                    Error::ResolverError {
                        name: <String as vstd::string::StringExecFns>::from_str(name),
                    },
                ),
            }
        } else {
            match self.find_entry(frame, name) {
                Some(i) => {
                    proof {
                        lemma_entries_at(self.frames@[frame as int].entries@, i as int);
                    }
                    match &self.frames[frame].entries[i].1 {
                        Some(v) => Ok(Some(v.dup())),
                        None => Ok(None),
                    }
                },
                None => Err(
                    Error::ResolverError {
                        name: <String as vstd::string::StringExecFns>::from_str(name),
                    },
                ),
            }
        }
    }

    /// Writes `name` in the nearest frame of the chain that holds it,
    /// handing the value back; nothing if no frame holds the name.
    pub fn update(&mut self, frame: usize, name: &str, value: Literal) -> (r: Option<Literal>)
        requires
            old(self).inv(),
            frame < old(self)@.len(),
        ensures
            final(self).inv(),
            final(self)@.len() == old(self)@.len(),
            match spec_update(old(self)@, frame as int, name@, lit_view(value)) {
                Some(env2) => r is Some && lit_view(r->0) == lit_view(value) && final(self)@
                    =~= env2,
                None => r is None && final(self)@ =~= old(self)@,
            },
        decreases frame,
    {
        let found = self.find_entry(frame, name);
        let ghost es = self.frames@[frame as int].entries@;
        match found {
            Some(i) => {
                proof {
                    lemma_entries_at(es, i as int);
                }
                let entry_name = self.frames[frame].entries[i].0.clone();
                let stored = value.dup();
                self.frames[frame].entries.set(i, (entry_name, Some(stored)));
                proof {
                    let es2 = self.frames@[frame as int].entries@;
                    assert(es2 =~= es.update(i as int, (es[i as int].0, es2[i as int].1)));
                    lemma_entries_update(es, i as int, es2[i as int].1);
                    assert(self@ =~= old(self)@.update(
                        frame as int,
                        FrameM {
                            parent: old(self)@[frame as int].parent,
                            vals: old(self)@[frame as int].vals.insert(
                                name@,
                                Some(lit_view(value)),
                            ),
                        },
                    ));
                }
                Some(value)
            },
            None => {
                let parent = self.frames[frame].parent;
                match parent {
                    Some(p) => self.update(p, name, value),
                    None => None,
                }
            },
        }
    }

    /// Walks exactly `depth` parents, then writes that frame alone; an error
    /// if the chain is shorter or the name is not bound there (then nothing
    /// changes).
    pub fn update_at(&mut self, frame: usize, name: &str, value: Literal, depth: usize) -> (r:
        Result<Literal, Error>)
        requires
            old(self).inv(),
            frame < old(self)@.len(),
        ensures
            final(self).inv(),
            final(self)@.len() == old(self)@.len(),
            match spec_update_at(old(self)@, frame as int, name@, lit_view(value), depth as nat) {
                Some(env2) => r is Ok && lit_view(r->Ok_0) == lit_view(value) && final(self)@
                    =~= env2,
                None => r is Err && spec_error_name(r->Err_0) == name@ && final(self)@ =~= old(
                    self,
                )@,
            },
        decreases depth,
    {
        if depth > 0 {
            let parent = self.frames[frame].parent;
            match parent {
                Some(p) => self.update_at(p, name, value, depth - 1),
                None => Err(
                    Error::ResolverError {
                        name: <String as vstd::string::StringExecFns>::from_str(name),
                    },
                ),
            }
        } else {
            let found = self.find_entry(frame, name);
            let ghost es = self.frames@[frame as int].entries@;
            match found {
                Some(i) => {
                    proof {
                        lemma_entries_at(es, i as int);
                    }
                    let entry_name = self.frames[frame].entries[i].0.clone();
                    let stored = value.dup();
                    self.frames[frame].entries.set(i, (entry_name, Some(stored)));
                    proof {
                        let es2 = self.frames@[frame as int].entries@;
                        assert(es2 =~= es.update(i as int, (es[i as int].0, es2[i as int].1)));
                        lemma_entries_update(es, i as int, es2[i as int].1);
                        assert(self@ =~= old(self)@.update(
                            frame as int,
                            FrameM {
                                parent: old(self)@[frame as int].parent,
                                vals: old(self)@[frame as int].vals.insert(
                                    name@,
                                    Some(lit_view(value)),
                                ),
                            },
                        ));
                    }
                    Ok(value)
                },
                None => Err(
                    Error::ResolverError {
                        name: <String as vstd::string::StringExecFns>::from_str(name),
                    },
                ),
            }
        }
    }
}

/// What an optional lookup result stands for.
pub open spec fn opt_binding_view(r: Option<Option<Literal>>) -> Option<Option<ValueM>> {
    match r {
        Some(b) => Some(lit_opt_view(b)),
        None => None,
    }
}

/// Reading a name through a frame and its parents: the binding of the
/// nearest frame holding the name.
pub open spec fn spec_get(env: Seq<FrameM>, f: int, name: Seq<char>) -> Option<Option<ValueM>>
    decreases f,
        when 0 <= f < env.len() && parents_ok(env)
{
    if env[f].vals.contains_key(name) {
        Some(env[f].vals[name])
    } else {
        match env[f].parent {
            Some(p) => spec_get(env, p as int, name),
            None => None,
        }
    }
}

/// Reading a name in one frame alone, without following its parent.
pub open spec fn spec_get_local(env: Seq<FrameM>, f: int, name: Seq<char>) -> Option<
    Option<ValueM>,
> {
    if env[f].vals.contains_key(name) {
        Some(env[f].vals[name])
    } else {
        None
    }
}

/// Reading a name after walking exactly `depth` parents: the lookup at the
/// reached frame is local; nothing when the chain is shorter or that frame
/// does not hold the name.
pub open spec fn spec_get_at(env: Seq<FrameM>, f: int, name: Seq<char>, depth: nat) -> Option<
    Option<ValueM>,
>
    decreases depth,
        when 0 <= f < env.len() && parents_ok(env)
{
    if depth > 0 {
        match env[f].parent {
            Some(p) => spec_get_at(env, p as int, name, (depth - 1) as nat),
            None => None,
        }
    } else {
        spec_get_local(env, f, name)
    }
}

/// Writing a name in the nearest frame of the chain that holds it: the new
/// arena, or nothing if no frame holds the name.
pub open spec fn spec_update(env: Seq<FrameM>, f: int, name: Seq<char>, v: ValueM) -> Option<
    Seq<FrameM>,
>
    decreases f,
        when 0 <= f < env.len() && parents_ok(env)
{
    if env[f].vals.contains_key(name) {
        Some(
            env.update(f, FrameM { parent: env[f].parent, vals: env[f].vals.insert(name, Some(v)) }),
        )
    } else {
        match env[f].parent {
            Some(p) => spec_update(env, p as int, name, v),
            None => None,
        }
    }
}

/// Writing a name in one frame alone, without following its parent: the new
/// arena, or nothing if that frame does not hold the name.
pub open spec fn spec_update_local(env: Seq<FrameM>, f: int, name: Seq<char>, v: ValueM) -> Option<
    Seq<FrameM>,
> {
    if env[f].vals.contains_key(name) {
        Some(
            env.update(f, FrameM { parent: env[f].parent, vals: env[f].vals.insert(name, Some(v)) }),
        )
    } else {
        None
    }
}

/// Writing a name after walking exactly `depth` parents: the write at the
/// reached frame is local; nothing when the chain is shorter or that frame
/// does not hold the name.
pub open spec fn spec_update_at(
    env: Seq<FrameM>,
    f: int,
    name: Seq<char>,
    v: ValueM,
    depth: nat,
) -> Option<Seq<FrameM>>
    decreases depth,
        when 0 <= f < env.len() && parents_ok(env)
{
    if depth > 0 {
        match env[f].parent {
            Some(p) => spec_update_at(env, p as int, name, v, (depth - 1) as nat),
            None => None,
        }
    } else {
        spec_update_local(env, f, name, v)
    }
}

/// A successful `update` rewrites exactly one frame: the nearest one of the
/// chain that holds the name. Everything else, parents included, stays.
proof fn lemma_update_shape(env: Seq<FrameM>, f: int, name: Seq<char>, v: ValueM)
    requires
        parents_ok(env),
        0 <= f < env.len(),
        spec_update(env, f, name, v) is Some,
    ensures
        ({
            let env2 = spec_update(env, f, name, v)->0;
            exists|g: int|
                0 <= g <= f && #[trigger] env[g].vals.contains_key(name) && env2 =~= env.update(
                    g,
                    FrameM { parent: env[g].parent, vals: env[g].vals.insert(name, Some(v)) },
                )
        }),
    decreases f,
{
    if env[f].vals.contains_key(name) {
    } else {
        let p = env[f].parent->0;
        lemma_update_shape(env, p as int, name, v);
    }
}

/// After a successful `update`, reading the same name along the same chain
/// yields the written value.
proof fn lemma_get_after_update(env: Seq<FrameM>, f: int, name: Seq<char>, v: ValueM)
    requires
        parents_ok(env),
        0 <= f < env.len(),
        spec_update(env, f, name, v) is Some,
    ensures
        spec_get(spec_update(env, f, name, v)->0, f, name) == Some(Some(v)),
    decreases f,
{
    let env2 = spec_update(env, f, name, v)->0;
    assert(parents_ok(env2)) by {
        lemma_update_shape(env, f, name, v);
    }
    if env[f].vals.contains_key(name) {
        assert(env2[f].vals == env[f].vals.insert(name, Some(v)));
    } else {
        let p = env[f].parent->0;
        lemma_update_shape(env, p as int, name, v);
        let g = choose|g: int|
            0 <= g <= p && #[trigger] env[g].vals.contains_key(name) && env2 =~= env.update(
                g,
                FrameM { parent: env[g].parent, vals: env[g].vals.insert(name, Some(v)) },
            );
        assert(g != f);
        assert(env2[f] == env[f]);
        lemma_get_after_update(env, p as int, name, v);
    }
}

/// CLOSURE SHARING. Two function values created in the same scope capture the
/// same frame handle. When an update of a shared variable made through that
/// frame succeeds (at the depth the resolver assigned), a read of the same
/// variable through the same frame and depth sees the written value — so each
/// closure observes the other's updates.
pub proof fn law_closure_sharing(
    env: Seq<FrameM>,
    closure: int,
    name: Seq<char>,
    v: ValueM,
    depth: nat,
)
    requires
        parents_ok(env),
        0 <= closure < env.len(),
        spec_update_at(env, closure, name, v, depth) is Some,
    ensures
        spec_get_at(spec_update_at(env, closure, name, v, depth)->0, closure, name, depth) == Some(
            Some(v),
        ),
    decreases depth,
{
    let env2 = spec_update_at(env, closure, name, v, depth)->0;
    lemma_update_at_shape(env, closure, name, v, depth);
    if depth > 0 {
        let p = env[closure].parent->0;
        law_closure_sharing(env, p as int, name, v, (depth - 1) as nat);
        assert(spec_update_at(env, p as int, name, v, (depth - 1) as nat) is Some);
        let env3 = spec_update_at(env, p as int, name, v, (depth - 1) as nat)->0;
        assert(env3 == env2);
        assert(parents_ok(env2) && env2.len() == env.len()
            && env2[closure].parent == env[closure].parent) by {
            lemma_update_at_shape(env, p as int, name, v, (depth - 1) as nat);
        }
        assert(spec_get_at(env2, closure, name, depth) == spec_get_at(
            env2,
            p as int,
            name,
            (depth - 1) as nat,
        ));
    } else {
        lemma_get_after_update(env, closure, name, v);
    }
}

/// A successful `update_at` keeps the arena's length and every parent link.
proof fn lemma_update_at_shape(env: Seq<FrameM>, f: int, name: Seq<char>, v: ValueM, depth: nat)
    requires
        parents_ok(env),
        0 <= f < env.len(),
        spec_update_at(env, f, name, v, depth) is Some,
    ensures
        ({
            let env2 = spec_update_at(env, f, name, v, depth)->0;
            env2.len() == env.len() && parents_ok(env2) && forall|i: int|
                0 <= i < env.len() ==> #[trigger] env2[i].parent == env[i].parent
        }),
    decreases depth,
{
    if depth > 0 {
        let p = env[f].parent->0;
        lemma_update_at_shape(env, p as int, name, v, (depth - 1) as nat);
    } else {
        lemma_update_shape(env, f, name, v);
    }
}


/// The frame reached by walking exactly `d` parent links from `f`.
pub open spec fn spec_ancestor(env: Seq<FrameM>, f: int, d: nat) -> Option<int>
    decreases d,
        when 0 <= f < env.len() && parents_ok(env)
{
    if d == 0 {
        Some(f)
    } else {
        match env[f].parent {
            Some(p) => spec_ancestor(env, p as int, (d - 1) as nat),
            None => None,
        }
    }
}

/// RESOLVED DEPTHS REACH THEIR FRAME. When walking `d` parent links from a
/// frame lands on a frame that holds the name — as the resolver's law
/// `law_resolved_depth` promises of the scopes the frames mirror — a lookup
/// at that depth finds a binding.
pub proof fn law_depth_reaches(env: Seq<FrameM>, f: int, name: Seq<char>, d: nat)
    requires
        parents_ok(env),
        0 <= f < env.len(),
        spec_ancestor(env, f, d) is Some,
        env[spec_ancestor(env, f, d)->0].vals.contains_key(name),
    ensures
        spec_get_at(env, f, name, d) is Some,
    decreases d,
{
    if d > 0 {
        let p = env[f].parent->0;
        law_depth_reaches(env, p as int, name, (d - 1) as nat);
    }
}

} // verus!
