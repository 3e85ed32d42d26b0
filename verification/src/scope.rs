//! The scope and function registry: a stack of active naming scopes,
//! a flat map from function name to its entry label, and the record of
//! which functions were declared at the root scope.
//!
//! Scope identity is used only to disambiguate generated names for
//! anonymous control blocks, never for variable binding; the scope
//! stack is an explicit stack of frames, each with its own counter for
//! anonymous blocks, so no name concatenation is needed for uniqueness.

use vstd::prelude::*;

verus! {

/// The name of one scope frame.
pub enum ScopeName {
    /// The root scope, always present at the bottom of the stack.
    Root,
    /// A scope named after a declared function.
    Named(String),
    /// An anonymous control-block scope, identified by the counter value
    /// that the enclosing scope handed out for it.
    Anon(u64),
}

/// One active scope: its name and the counter from which anonymous
/// child blocks draw their identifiers.
pub struct ScopeFrame {
    pub name: ScopeName,
    pub anon_counter: u64,
}

/// Looks a function name up in a registration sequence, newest entry
/// first, so that a re-registered name shadows an older entry.
pub open spec fn lookup_fn(fns: Seq<(Seq<char>, nat)>, name: Seq<char>) -> Option<nat>
    decreases fns.len(),
{
    if fns.len() == 0 {
        None
    } else if fns.last().0 == name {
        Some(fns.last().1)
    } else {
        lookup_fn(fns.drop_last(), name)
    }
}

/// The scope and function registry of one compile request.
pub struct ScopeManager {
    fns: Vec<(String, usize)>,
    globals: Vec<(String, usize)>,
    scopes: Vec<ScopeFrame>,
}

impl ScopeManager {
    /// All registered functions, in registration order, as
    /// (name, entry label) pairs.
    pub closed spec fn fns_view(&self) -> Seq<(Seq<char>, nat)> {
        self.fns@.map_values(|p: (String, usize)| (p.0@, p.1 as nat))
    }

    /// The functions registered while the root scope was the innermost
    /// one, in registration order.
    pub closed spec fn globals_view(&self) -> Seq<(Seq<char>, nat)> {
        self.globals@.map_values(|p: (String, usize)| (p.0@, p.1 as nat))
    }

    /// How many scopes are active above the root.
    pub closed spec fn depth(&self) -> nat {
        (self.scopes@.len() - 1) as nat
    }

    /// The root frame is always present.
    pub closed spec fn wf(&self) -> bool {
        self.scopes@.len() >= 1
    }

    /// The name of the innermost active scope.
    pub closed spec fn current_scope(&self) -> ScopeName {
        self.scopes@.last().name
    }

    /// A fresh registry: no functions, and only the root scope active.
    pub fn new() -> (r: ScopeManager)
        ensures
            r.wf(),
            r.fns_view() == Seq::<(Seq<char>, nat)>::empty(),
            r.globals_view() == Seq::<(Seq<char>, nat)>::empty(),
            r.depth() == 0,
    {
        let mut scopes: Vec<ScopeFrame> = Vec::new();
        scopes.push(ScopeFrame { name: ScopeName::Root, anon_counter: 0 });
        let r = ScopeManager { fns: Vec::new(), globals: Vec::new(), scopes };
        proof {
            assert(r.fns_view() =~= Seq::<(Seq<char>, nat)>::empty());
            assert(r.globals_view() =~= Seq::<(Seq<char>, nat)>::empty());
        }
        r
    }

    /// Registers `name -> label`. Called the moment a function's
    /// translation begins, before its body, so that the body can call
    /// the function recursively. A function registered while the root
    /// scope is innermost is also recorded as a global.
    pub fn push_fn(&mut self, entry: (String, usize))
        requires
            old(self).wf(),
        ensures
            final(self).wf(),
            final(self).fns_view() == old(self).fns_view().push((entry.0@, entry.1 as nat)),
            final(self).globals_view() == if old(self).depth() == 0 {
                old(self).globals_view().push((entry.0@, entry.1 as nat))
            } else {
                old(self).globals_view()
            },
            final(self).depth() == old(self).depth(),
    {
        if self.scopes.len() == 1 {
            self.globals.push((clone_string(&entry.0), entry.1));
        }
        self.fns.push(entry);
        proof {
            assert(self.fns_view() =~= old(self).fns_view().push(
                (self.fns@.last().0@, self.fns@.last().1 as nat),
            ));
            if old(self).depth() == 0 {
                assert(self.globals_view() =~= old(self).globals_view().push(
                    (self.globals@.last().0@, self.globals@.last().1 as nat),
                ));
            } else {
                assert(self.globals_view() =~= old(self).globals_view());
            }
        }
    }

    /// Enters a new innermost scope.
    pub fn push_scope(&mut self, name: ScopeName)
        requires
            old(self).wf(),
        ensures
            final(self).wf(),
            final(self).fns_view() == old(self).fns_view(),
            final(self).globals_view() == old(self).globals_view(),
            final(self).depth() == old(self).depth() + 1,
            final(self).current_scope() == name,
    {
        self.scopes.push(ScopeFrame { name, anon_counter: 0 });
    }

    /// Leaves the innermost scope. The traversal keeps pushes and pops
    /// balanced, so the root frame is never popped.
    pub fn pop_scope(&mut self)
        requires
            old(self).wf(),
            old(self).depth() > 0,
        ensures
            final(self).wf(),
            final(self).fns_view() == old(self).fns_view(),
            final(self).globals_view() == old(self).globals_view(),
            final(self).depth() == old(self).depth() - 1,
    {
        let _ = self.scopes.pop();
    }

    /// The name of the innermost active scope; `ScopeName::Root` when
    /// only the root is active.
    pub fn get_top_scope_name(&self) -> (r: &ScopeName)
        requires
            self.wf(),
        ensures
            *r == self.current_scope(),
    {
        &self.scopes[self.scopes.len() - 1].name
    }

    /// Hands out the next identifier for an anonymous control block of
    /// the innermost scope; each call returns a value not handed out
    /// before within that scope (until the counter wraps).
    pub fn next_unnamed_scope_number(&mut self) -> (r: u64)
        requires
            old(self).wf(),
        ensures
            final(self).wf(),
            final(self).fns_view() == old(self).fns_view(),
            final(self).globals_view() == old(self).globals_view(),
            final(self).depth() == old(self).depth(),
    {
        let i = self.scopes.len() - 1;
        let n = self.scopes[i].anon_counter;
        let bumped = n.wrapping_add(1);
        self.scopes[i].anon_counter = bumped;
        n
    }

    /// Resolves a function name to its entry label; `None` signals the
    /// function-not-found condition to the caller.
    pub fn get_fn(&self, name: &String) -> (r: Option<usize>)
        ensures
            match r {
                Some(id) => lookup_fn(self.fns_view(), name@) == Some(id as nat),
                None => lookup_fn(self.fns_view(), name@) is None,
            },
    {
        let mut i: usize = self.fns.len();
        proof {
            assert(self.fns_view().take(i as int) =~= self.fns_view());
        }
        while i > 0
            invariant
                i <= self.fns@.len(),
                lookup_fn(self.fns_view(), name@) == lookup_fn(
                    self.fns_view().take(i as int),
                    name@,
                ),
            decreases i,
        {
            i = i - 1;
            if self.fns[i].0 == *name {
                proof {
                    assert(self.fns_view().take(i + 1).last() == (self.fns@[i as int].0@, self.fns@[i as int].1 as nat));
                }
                return Some(self.fns[i].1);
            }
            proof {
                assert(self.fns_view().take(i + 1).drop_last() =~= self.fns_view().take(i as int));
                assert(self.fns_view().take(i + 1).last() == (self.fns@[i as int].0@, self.fns@[i as int].1 as nat));
            }
        }
        proof {
            assert(self.fns_view().take(0) =~= Seq::<(Seq<char>, nat)>::empty());
        }
        None
    }

    /// The top-level (root-scope) function entries, in registration
    /// order, used to build the object's public symbol table; nested
    /// functions are not exposed.
    pub fn get_global_functions(&self) -> (r: &Vec<(String, usize)>)
        ensures
            r@.len() == self.globals_view().len(),
            forall|i: int|
                0 <= i < r@.len() ==> #[trigger] self.globals_view()[i] == (
                    r@[i].0@,
                    r@[i].1 as nat,
                ),
    {
        &self.globals
    }
}

/// Clones a string, keeping its characters.
pub fn clone_string(s: &String) -> (r: String)
    ensures
        r@ == s@,
{
    s.clone()
}

} // verus!
