//! Persistence core of a marketplace favorites manager: favorites, collections,
//! tags, search history, popular avatars, a translation cache, and the
//! statistics computed over them, modelled as an in-memory relational store.
pub mod error;
pub mod text;
pub mod order;
pub mod model;
pub mod store;
pub mod favorites;
pub mod collections;
pub mod grouping;
pub mod calendar;
pub mod stats;
pub mod avatars;
pub mod schema;
pub mod cache;
pub mod history;
pub mod tags;
pub mod translations;
pub mod load;
pub mod startup;
