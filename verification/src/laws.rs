//! What holds of the orders, of the check and of the sort, proved from their
//! definitions.

pub mod again;
pub mod agreement;
pub mod orders;
pub mod total;
