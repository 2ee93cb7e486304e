//! Consistency engine for a bot-account manager: accounts, reply
//! relationships with encoded multi-value fields, rotating content
//! schedules, an orphan-reclamation sweep, a legacy-layout migrator,
//! and the cascade that runs when an account is deleted.

pub mod digits;
pub mod trusted;
pub mod codec;
pub mod strcodec;
pub mod models;
pub mod store;
pub mod replies;
pub mod entries;
pub mod schedules;
pub mod registry;
pub mod logs_users;
pub mod migrate;
pub mod laws;
pub mod util;
pub mod oauth;
pub mod posting;
