//! Verified core of a hosts-file utility: the rules for names, host names,
//! domains and URLs, the edits made to a hosts file, the backup file format,
//! and the decisions of the preset preprocessor and of the prompts.
use vstd::prelude::*;

pub mod chars;
pub mod text;
pub mod sysfiles;
pub mod error;
pub mod utils;
pub mod backup;
pub mod preset;
pub mod preproccesor;
pub mod cli;

verus! {

} // verus!
