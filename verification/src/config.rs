//! The engine's configuration: an immutable value carrying a fixed,
//! enumerated set of recognized options, shared unchanged across every
//! forked sub-engine. The core only carries it; grammar rules consult it.

use vstd::prelude::*;

verus! {

/// Options recognized by the parsing engine.
#[derive(Clone, Copy, PartialEq, Eq, Structural, Debug)]
pub struct MarkdownConfig {
    /// Recognize table extensions.
    pub tables: bool,
    /// Recognize strikethrough extensions.
    pub strikethrough: bool,
}

impl Default for MarkdownConfig {
    /// Every option switched off.
    fn default() -> (c: MarkdownConfig)
        ensures
            !c.tables,
            !c.strikethrough,
    {
        MarkdownConfig { tables: false, strikethrough: false }
    }
}

} // verus!
