use vstd::prelude::*;

pub mod completable;
pub mod date;
pub mod error;
pub mod ledger;
pub mod materialize;
pub mod repeatable;

verus! {

} // verus!
