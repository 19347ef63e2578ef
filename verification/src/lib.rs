//! Verified core of a local-first game library manager: launcher file parsers,
//! library merging rules, tag classification and recommendation filters.
pub mod text;
pub mod protobuf;
pub mod steam_library;
pub mod steam_merge;
pub mod tag_service;
pub mod tags;
pub mod pcgw;
pub mod pcgw_data;
pub mod gamebrain;
pub mod cache;
pub mod metadata_cache;
pub mod sources;
pub mod amazon;
pub mod epic;
pub mod ea;
pub mod launchers;
pub mod ubisoft;
pub mod scanner;
pub mod steam_store;
pub mod recommendation;
pub mod metadata;
pub mod legacy;
pub mod battle_net;
pub mod giveaways;
pub mod indiegala;
pub mod gog;
pub mod gamebrain_lookup;
pub mod gemini;
pub mod wishlist;
pub mod tag_key;
