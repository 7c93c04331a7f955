//! What the ledger offers to whoever decodes requests and runs it: the
//! operations that change it or move coins, and the queries.

pub mod execute;
pub mod query;
