//! What the subcommands work out, from what was read to what is written.

pub mod increment;
pub mod next;
