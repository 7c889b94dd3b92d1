//! Per-session global data and its execution-scoped registration.
//!
//! A session owns one symbol interner. At most one session is active per
//! execution scope; the scope is an explicit value, handed to the code
//! that runs under it, and installing a session over an active one is a
//! usage error that the contracts reject. A rendering thread therefore
//! owns its own scope, and two scopes never share a session.

use vstd::prelude::*;

verus! {

/// An arena of interned strings, addressed by index. An interned symbol
/// is a plain index into the arena, so it stays valid for as long as the
/// session that owns the interner.
pub struct Interner {
    pub strings: Vec<String>,
}

/// Index of the first interned string whose characters are `s`, or `-1`
/// if no such string was interned.
pub open spec fn find_interned(strings: Seq<String>, s: Seq<char>) -> int
    decreases strings.len(),
{
    if strings.len() == 0 {
        -1
    } else if strings[0]@ == s {
        0
    } else if find_interned(strings.drop_first(), s) < 0 {
        -1
    } else {
        find_interned(strings.drop_first(), s) + 1
    }
}

pub proof fn lemma_find_interned_props(strings: Seq<String>, s: Seq<char>)
    ensures
        find_interned(strings, s) < 0 ==> forall|k: int|
            0 <= k < strings.len() ==> (#[trigger] strings[k])@ != s,
        find_interned(strings, s) >= 0 ==> {
            let r = find_interned(strings, s);
            &&& r < strings.len()
            &&& strings[r]@ == s
            &&& forall|k: int| 0 <= k < r ==> (#[trigger] strings[k])@ != s
        },
    decreases strings.len(),
{
    if strings.len() > 0 {
        lemma_find_interned_props(strings.drop_first(), s);
        assert(forall|k: int|
            1 <= k < strings.len() ==> (#[trigger] strings[k]) == strings.drop_first()[k - 1]);
    }
}

impl Interner {
    /// A fresh interner holding no strings.
    pub fn fresh() -> (r: Interner)
        ensures
            r.strings@.len() == 0,
    {
        Interner { strings: Vec::new() }
    }

    /// Interns a string: an already-interned string keeps its first
    /// index and the arena is unchanged; a new string is appended.
    pub fn intern(&mut self, s: String) -> (r: usize)
        requires
            old(self).strings@.len() < usize::MAX,
        ensures
            r < final(self).strings@.len(),
            final(self).strings@[r as int]@ == s@,
            find_interned(old(self).strings@, s@) >= 0 ==> *final(self) == *old(self) && r
                == find_interned(old(self).strings@, s@),
            find_interned(old(self).strings@, s@) < 0 ==> final(self).strings@ == old(
                self,
            ).strings@.push(s) && r == old(self).strings@.len(),
    {
        let n = self.strings.len();
        let mut i: usize = 0;
        while i < n
            invariant
                i <= n,
                n == self.strings@.len(),
                *self == *old(self),
                forall|k: int| 0 <= k < i ==> (#[trigger] self.strings@[k])@ != s@,
            decreases n - i,
        {
            if self.strings[i] == s {
                proof {
                    lemma_find_interned_props(self.strings@, s@);
                }
                return i;
            }
            i = i + 1;
        }
        proof {
            lemma_find_interned_props(self.strings@, s@);
        }
        self.strings.push(s);
        n
    }

    /// Returns the string interned at `sym`.
    pub fn resolve(&self, sym: usize) -> (r: &String)
        requires
            sym < self.strings@.len(),
        ensures
            *r == self.strings@[sym as int],
    {
        &self.strings[sym]
    }
}

/// Per-session global data: the symbol interner that diagnostic labels
/// may be drawn from.
pub struct SessionGlobals {
    pub symbol_interner: Interner,
}

impl SessionGlobals {
    /// Freshly created globals: nothing interned yet.
    pub open spec fn is_fresh(self) -> bool {
        self.symbol_interner.strings@.len() == 0
    }

    pub fn new() -> (r: SessionGlobals)
        ensures
            r.is_fresh(),
    {
        SessionGlobals { symbol_interner: Interner::fresh() }
    }
}

/// One execution scope's session slot. The scope is the explicit
/// registration mechanism for session globals: code that needs the
/// current session receives the scope and reads it, and the `..._then`
/// functions install a session only for the duration of one call.
pub struct SessionScope {
    pub current: Option<SessionGlobals>,
}

impl SessionScope {
    /// A scope with no active session.
    pub fn new() -> (r: SessionScope)
        ensures
            !r.spec_is_set(),
    {
        SessionScope { current: None }
    }

    pub open spec fn spec_is_set(self) -> bool {
        self.current is Some
    }

    /// The active session's globals; meaningful only when one is set.
    pub open spec fn spec_globals(self) -> SessionGlobals {
        match self.current {
            Some(g) => g,
            None => arbitrary(),
        }
    }

    /// Whether a session is active in this scope.
    pub fn is_set(&self) -> (r: bool)
        ensures
            r == self.spec_is_set(),
    {
        match &self.current {
            Some(_) => true,
            None => false,
        }
    }
}

/// Creates fresh session globals, installs them in the scope for the
/// duration of the call, and runs `f` under that scope. Installing over
/// an already active session is a usage error, excluded by contract.
pub fn create_session_globals_then<R, F: FnOnce(&SessionScope) -> R>(
    scope: &mut SessionScope,
    f: F,
) -> (r: R)
    requires
        !old(scope).spec_is_set(),
        forall|s: SessionScope|
            s.spec_is_set() && s.spec_globals().is_fresh() ==> call_requires(f, (&s,)),
    ensures
        !final(scope).spec_is_set(),
        exists|s: SessionScope|
            s.spec_is_set() && s.spec_globals().is_fresh() && call_ensures(f, (&s,), r),
{
    let globals = SessionGlobals::new();
    scope.current = Some(globals);
    let ghost installed = *scope;
    proof {
        assert(installed.spec_is_set());
        assert(installed.spec_globals().is_fresh());
        assert(call_requires(f, (&installed,)));
    }
    let r = f(&*scope);
    proof {
        assert(call_ensures(f, (&installed,), r));
    }
    scope.current = None;
    r
}

/// Installs the given session globals in the scope for the duration of
/// the call and runs `f` under that scope. Installing over an already
/// active session is a usage error, excluded by contract.
pub fn set_session_globals_then<R, F: FnOnce(&SessionScope) -> R>(
    scope: &mut SessionScope,
    session_globals: SessionGlobals,
    f: F,
) -> (r: R)
    requires
        !old(scope).spec_is_set(),
        call_requires(f, (&SessionScope { current: Some(session_globals) },)),
    ensures
        !final(scope).spec_is_set(),
        call_ensures(f, (&SessionScope { current: Some(session_globals) },), r),
{
    scope.current = Some(session_globals);
    let ghost installed = *scope;
    proof {
        assert(installed == SessionScope { current: Some(installed.spec_globals()) });
    }
    let r = f(&*scope);
    scope.current = None;
    r
}

/// Runs `f` with the active session's globals. Calling without an active
/// session is a usage error, excluded by contract.
pub fn with_session_globals<R, F: FnOnce(&SessionGlobals) -> R>(scope: &SessionScope, f: F) -> (r:
    R)
    requires
        scope.spec_is_set(),
        call_requires(f, (&scope.spec_globals(),)),
    ensures
        call_ensures(f, (&scope.spec_globals(),), r),
{
    match &scope.current {
        Some(g) => f(g),
        None => unreached(),
    }
}

/// Runs `f` with the active session's globals, creating and installing
/// fresh ones for the duration of the call if none is active. The scope
/// is left as it was found.
pub fn create_session_if_not_set_then<R, F: FnOnce(&SessionGlobals) -> R>(
    scope: &mut SessionScope,
    f: F,
) -> (r: R)
    requires
        old(scope).spec_is_set() ==> call_requires(f, (&old(scope).spec_globals(),)),
        !old(scope).spec_is_set() ==> forall|g: SessionGlobals|
            g.is_fresh() ==> call_requires(f, (&g,)),
    ensures
        *final(scope) == *old(scope),
        old(scope).spec_is_set() ==> call_ensures(f, (&old(scope).spec_globals(),), r),
        !old(scope).spec_is_set() ==> exists|g: SessionGlobals|
            g.is_fresh() && call_ensures(f, (&g,), r),
{
    if scope.is_set() {
        match &scope.current {
            Some(g) => f(g),
            None => unreached(),
        }
    } else {
        let globals = SessionGlobals::new();
        let ghost fresh = globals;
        scope.current = Some(globals);
        proof {
            assert(fresh.is_fresh());
            assert(call_requires(f, (&fresh,)));
        }
        let r = match &scope.current {
            Some(g) => f(g),
            None => unreached(),
        };
        proof {
            assert(call_ensures(f, (&fresh,), r));
        }
        scope.current = None;
        r
    }
}

/// Same as [`create_session_if_not_set_then`]: runs `f` with the active
/// session's globals, creating default (fresh) ones if none is active.
pub fn create_default_session_if_not_set_then<R, F: FnOnce(&SessionGlobals) -> R>(
    scope: &mut SessionScope,
    f: F,
) -> (r: R)
    requires
        old(scope).spec_is_set() ==> call_requires(f, (&old(scope).spec_globals(),)),
        !old(scope).spec_is_set() ==> forall|g: SessionGlobals|
            g.is_fresh() ==> call_requires(f, (&g,)),
    ensures
        *final(scope) == *old(scope),
        old(scope).spec_is_set() ==> call_ensures(f, (&old(scope).spec_globals(),), r),
        !old(scope).spec_is_set() ==> exists|g: SessionGlobals|
            g.is_fresh() && call_ensures(f, (&g,), r),
{
    create_session_if_not_set_then(scope, f)
}

/// Same as [`create_session_globals_then`]: creates default (fresh)
/// session globals and runs `f` under the scope they are installed in.
pub fn create_default_session_globals_then<R, F: FnOnce(&SessionScope) -> R>(
    scope: &mut SessionScope,
    f: F,
) -> (r: R)
    requires
        !old(scope).spec_is_set(),
        forall|s: SessionScope|
            s.spec_is_set() && s.spec_globals().is_fresh() ==> call_requires(f, (&s,)),
    ensures
        !final(scope).spec_is_set(),
        exists|s: SessionScope|
            s.spec_is_set() && s.spec_globals().is_fresh() && call_ensures(f, (&s,), r),
{
    create_session_globals_then(scope, f)
}

} // verus!
