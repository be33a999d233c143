//! The two rewrite targets.
use vstd::prelude::*;
use crate::text::str_eq;

verus! {

/// The target of a rewrite: the synchronous or the asynchronous form.
#[derive(Debug, Clone, Copy, PartialEq, Eq, Structural)]
pub enum ConvertMode {
    IntoSync,
    IntoAsync,
}

/// The keyword of a mode: `sync` or `async`.
pub open spec fn mode_keyword(mode: ConvertMode) -> Seq<char> {
    match mode {
        ConvertMode::IntoSync => "sync"@,
        ConvertMode::IntoAsync => "async"@,
    }
}

/// The mode that a keyword names, if it names one.
pub open spec fn keyword_mode(word: Seq<char>) -> Option<ConvertMode> {
    if word == "sync"@ {
        Some(ConvertMode::IntoSync)
    } else if word == "async"@ {
        Some(ConvertMode::IntoAsync)
    } else {
        None
    }
}

/// The two keywords differ, so each mode is found again from its keyword.
pub proof fn lemma_keyword_round_trip(mode: ConvertMode)
    ensures
        keyword_mode(mode_keyword(mode)) == Some(mode),
{
    reveal_strlit("sync");
    reveal_strlit("async");
    assert("sync"@.len() != "async"@.len());
}

impl ConvertMode {
    /// Reads a mode keyword; any other word names no mode.
    pub fn from_str(s: &str) -> (mode: Option<ConvertMode>)
        ensures
            mode == keyword_mode(s@),
    {
        if str_eq(s, "sync") {
            Some(ConvertMode::IntoSync)
        } else if str_eq(s, "async") {
            Some(ConvertMode::IntoAsync)
        } else {
            None
        }
    }

    /// The keyword of this mode, which is also the default key of a variant.
    pub fn to_str(&self) -> (word: &'static str)
        ensures
            word@ == mode_keyword(*self),
    {
        match self {
            ConvertMode::IntoSync => "sync",
            ConvertMode::IntoAsync => "async",
        }
    }
}

} // verus!
