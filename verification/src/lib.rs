use vstd::prelude::*;

pub mod backend;
pub mod matcher;
pub mod parser;
pub mod store;

verus! {

/// Configuration handed to the service at startup: where the valid names come
/// from, the legacy completion-trigger substring, and whether the transport
/// runs over standard streams.
pub struct CliArgs {
    /// Directory whose entries are the valid names.
    pub suggestionsdir: String,
    /// Substring whose first line of occurrence triggers legacy completion.
    pub prefix: String,
    /// Whether the transport runs over standard input and output.
    pub stdio: bool,
}

} // verus!
