//! A verified meal-planning core: a unit-conversion algebra, a calendar of
//! planned meals with its mutation operations, shopping-list generation, a
//! snapshot differ for remote reloads, and the decision logic of the
//! reconnecting synchronization client.

pub mod amount;
pub mod diff;
pub mod flavor;
pub mod scraper;
pub mod server;
pub mod shopping;
pub mod storage_server;
pub mod storage_status;
pub mod store;
pub mod sync;
pub mod text;
pub mod todos;
pub mod types;
pub mod units;
pub mod weather;
