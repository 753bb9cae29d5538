use vstd::prelude::*;
use super::indent::IndentType;

verus! {

/// The settings of a buffer: how it indents, and where its snippets are.
pub struct Config {
    pub indent_type: IndentType,
    pub snippet: Option<String>,
}

} // verus!
