//! A gateway that puts one byte-stable context block, built from the live
//! posts of a trending topic, in front of every chat request about that topic.

pub mod text;
pub mod prefix;
pub mod x;
pub mod allocator;
pub mod json;
pub mod proxy;
pub mod state;
pub mod grok;
pub mod measure;
