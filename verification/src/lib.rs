pub mod aggregate;
pub mod amount;
pub mod paginate;

use vstd::prelude::*;

verus! {

/// One transaction record as reported by the upstream account-history API.
/// The numeric fields arrive as decimal strings because they may exceed
/// the range of native 64-bit integers.
#[allow(non_snake_case)]
pub struct Transaction {
    pub from: String,
    pub gasUsed: String,
    pub gasPrice: String,
}

} // verus!
