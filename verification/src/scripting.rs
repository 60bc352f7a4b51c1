//! Scripting bridges: native Rust, Python and Java scripts registered with
//! the engine.

use vstd::prelude::*;

verus! {

#[derive(Debug, Clone, Copy, PartialEq, Eq, Structural)]
pub enum ScriptLang {
    Rust,
    Python,
    Java,
}

/// Scripts loaded into the engine, in load order.
pub struct ScriptHost {
    pub loaded: Vec<(ScriptLang, String)>,
}

impl Default for ScriptHost {
    fn default() -> (r: Self)
        ensures
            r.loaded@.len() == 0,
    {
        Self::new()
    }
}

impl ScriptHost {
    pub fn new() -> (r: Self)
        ensures
            r.loaded@.len() == 0,
    {
        ScriptHost { loaded: Vec::new() }
    }

    /// Register a script; it is appended after those already loaded.
    pub fn load(&mut self, lang: ScriptLang, path: String)
        ensures
            final(self).loaded@ == old(self).loaded@.push((lang, path)),
    {
        self.loaded.push((lang, path));
    }
}

} // verus!
