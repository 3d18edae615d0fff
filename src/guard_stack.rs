//! A value reached through a chain of held scopes (a table's lock, then a cell's), handed out
//! as one handle that keeps every scope for as long as the value is in use.
//!
//! The handle owns what it gives access to: the scopes are kept beside the value, not
//! borrowed through it, so that no address has to stay put while the handle lives.
use vstd::prelude::*;

verus! {

/// The scopes `G` held to reach a value of type `T`, and the value.
pub struct GuardStack<G, T> {
    guards: G,
    value: T,
}

impl<G, T> GuardStack<G, T> {
    /// The scopes the handle holds.
    pub closed spec fn guards_spec(&self) -> G {
        self.guards
    }

    /// The value the handle gives access to.
    pub closed spec fn value_spec(&self) -> T {
        self.value
    }

    /// A handle on `value`, reached through the scope `guard`.
    pub fn new(guard: G, value: T) -> (r: GuardStack<G, T>)
        ensures
            r.guards_spec() == guard,
            r.value_spec() == value,
    {
        GuardStack { guards: guard, value }
    }

    /// The value the handle gives access to.
    pub fn value(&self) -> (r: &T)
        ensures
            *r == self.value_spec(),
    {
        &self.value
    }

    /// A handle on what `f` makes of the value, through the same scopes.
    pub fn map<U, F: FnOnce(T) -> U>(self, f: F) -> (r: GuardStack<G, U>)
        requires
            f.requires((self.value_spec(),)),
        ensures
            r.guards_spec() == self.guards_spec(),
            f.ensures((self.value_spec(),), r.value_spec()),
    {
        let value = f(self.value);
        GuardStack { guards: self.guards, value }
    }

    /// A handle on what `f` makes of the value, or `f`'s error; the scopes are released with
    /// the error.
    pub fn try_map<U, E, F: FnOnce(T) -> Result<U, E>>(self, f: F) -> (r: Result<
        GuardStack<G, U>,
        E,
    >)
        requires
            f.requires((self.value_spec(),)),
        ensures
            exists|out: Result<U, E>|
                f.ensures((self.value_spec(),), out) && match out {
                    Ok(u) => r matches Ok(h) && h.guards_spec() == self.guards_spec()
                        && h.value_spec() == u,
                    Err(e) => r == Err::<GuardStack<G, U>, E>(e),
                },
    {
        match f(self.value) {
            Ok(value) => Ok(GuardStack { guards: self.guards, value }),
            Err(e) => Err(e),
        }
    }

    /// A handle on `value`, reached through one more scope `guard` held on top of this
    /// handle's scopes.
    pub fn push_guard<H, U>(self, guard: H, value: U) -> (r: GuardStack<(G, H), U>)
        ensures
            r.guards_spec() == (self.guards_spec(), guard),
            r.value_spec() == value,
    {
        GuardStack { guards: (self.guards, guard), value }
    }

    /// The scopes and the value, taken apart.
    pub fn into_parts(self) -> (r: (G, T))
        ensures
            r == (self.guards_spec(), self.value_spec()),
    {
        (self.guards, self.value)
    }
}

} // verus!
