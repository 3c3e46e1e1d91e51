// Exact seat apportionment among electoral lists.
use vstd::prelude::*;

pub mod accounts;
pub mod apportionment;
pub mod fraction;
pub mod laws;
pub mod reference;

verus! {

} // verus!
