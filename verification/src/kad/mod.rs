//! The Kademlia distributed hash table.

pub mod address_laws;
pub mod addresses;
pub mod answers;
pub mod background_laws;
pub mod behaviour;
pub mod bootstrap;
pub mod cache;
pub mod config;
pub mod connections;
pub mod contact_laws;
pub mod errors;
pub mod events;
pub mod finish;
pub mod finish_laws;
pub mod handles;
pub mod inbound;
pub mod jobs;
pub mod kbucket;
pub mod key;
pub mod laws;
pub mod lookups;
pub mod mode;
pub mod operations;
pub mod order;
pub mod poll;
pub mod poll_laws;
pub mod pool;
pub mod protocol;
pub mod provider_laws;
pub mod query;
pub mod record;
pub mod record_laws;
pub mod replies;
pub mod routing;
pub mod search_laws;
pub mod store_laws;
pub mod table;
pub mod table_laws;
