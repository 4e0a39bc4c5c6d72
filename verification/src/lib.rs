//! Work dispatch for a pool of crawl engines.
//!
//! A [`shed::Sheduler`] hands out URLs to engines that ask for work, keeps
//! every URL from being handed out twice, and tells the engines when the
//! crawl is over: when every engine that has asked for work is idle and no
//! URL is waiting.

pub mod outside;
pub mod model;
pub mod shed;
pub mod lemmas;
pub mod laws;
