//! A snapshot of the process environment, handed in by the caller so that
//! every decision that depends on an environment variable is a plain,
//! verified function of that snapshot.
use vstd::prelude::*;

use crate::text::str_eq;

verus! {

/// Environment variables as `(name, value)` pairs, in the order the
/// process reported them.
pub struct EnvVars {
    pub vars: Vec<(String, String)>,
}

/// The value of the first variable named `key`.
pub open spec fn env_lookup(vars: Seq<(String, String)>, key: Seq<char>) -> Option<Seq<char>>
    decreases vars.len(),
{
    if vars.len() == 0 {
        None
    } else if vars[0].0@ == key {
        Some(vars[0].1@)
    } else {
        env_lookup(vars.drop_first(), key)
    }
}

/// The characters of an optional string.
pub open spec fn opt_view(o: Option<String>) -> Option<Seq<char>> {
    match o {
        Some(s) => Some(s@),
        None => None,
    }
}

impl EnvVars {
    /// An empty environment.
    pub fn empty() -> (e: EnvVars)
        ensures
            e.vars@.len() == 0,
    {
        EnvVars { vars: Vec::new() }
    }

    pub open spec fn lookup(&self, key: Seq<char>) -> Option<Seq<char>> {
        env_lookup(self.vars@, key)
    }

    /// Value of the variable `key`, if it is set.
    pub fn get(&self, key: &str) -> (r: Option<String>)
        ensures
            opt_view(r) == self.lookup(key@),
    {
        let mut i: usize = 0;
        assert(self.vars@.skip(0) == self.vars@);
        while i < self.vars.len()
            invariant
                i <= self.vars@.len(),
                env_lookup(self.vars@, key@) == env_lookup(self.vars@.skip(i as int), key@),
            decreases self.vars.len() - i,
        {
            assert(self.vars@.skip(i as int)[0] == self.vars@[i as int]);
            if str_eq(self.vars[i].0.as_str(), key) {
                let v = self.vars[i].1.clone();
                return Some(v);
            }
            assert(self.vars@.skip(i as int).drop_first() == self.vars@.skip(i + 1));
            i += 1;
        }
        None
    }
}

} // verus!
