//! The command-line command model: what the batch interface can be asked
//! to do. Argument parsing lives outside the library; these types carry
//! the parsed request.

use vstd::prelude::*;

verus! {

/// A parsed invocation: the subcommand, or none for the interactive UI.
pub struct Cli {
    pub command: Option<Commands>,
}

/// The batch subcommands of the scratchpad.
pub enum Commands {
    /// Add a new block with a name and optional content.
    Add { name: String, content: Option<String> },
    /// List the names of all blocks.
    List,
    /// Delete a block by name.
    Delete { name: String },
    /// Print the content of a block by name.
    View { name: String },
    /// Copy the content of a block to the system clipboard.
    Copy { name: String },
}

} // verus!
