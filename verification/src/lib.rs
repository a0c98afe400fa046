pub mod client;
pub mod error;
pub mod message;
pub mod net;
pub mod options;
pub mod pkid;
pub mod protocol;
pub mod state;
pub mod token;
pub mod topic_table;
pub mod topic_trie;
pub mod transport;
pub mod v5;
