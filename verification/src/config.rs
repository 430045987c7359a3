use vstd::prelude::*;

verus! {

/// The user settings of a workspace.
#[derive(Debug, Clone, Copy)]
pub struct Config {
    pub enable_snippets: bool,
    pub enable_formatting: bool,
    pub enable_lint: bool,
    pub enable_strict_mode: bool,
}

impl Default for Config {
    /// Every feature is on by default.
    fn default() -> (r: Self)
        ensures
            r.enable_snippets && r.enable_formatting && r.enable_lint && r.enable_strict_mode,
    {
        Config {
            enable_strict_mode: true,
            enable_formatting: true,
            enable_lint: true,
            enable_snippets: true,
        }
    }
}

/// Snippets are used when the negotiated settings enable them and the client's text-document
/// capabilities report completion-item snippet support (`snippet_support`, `None` when the
/// client did not say).
pub fn are_snippets_enabled(enable_snippets: bool, snippet_support: Option<bool>) -> (r: bool)
    ensures
        r == (enable_snippets && snippet_support == Some(true)),
{
    if !enable_snippets {
        return false;
    }
    match snippet_support {
        Some(b) => b,
        None => false,
    }
}

} // verus!
