//! Mailing-list harvesting: archiving list e-mails from NNTP servers and
//! public-inbox repositories, and parsing archived e-mails into records.
use vstd::prelude::*;

pub mod archiver;
pub mod parser;
pub mod platform;
pub mod text;
pub mod tools;

verus! {

} // verus!
