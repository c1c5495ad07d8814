//! A document acquisition pipeline: a URL resolver, the decisions of a
//! scheme-dispatched transport with bounded redirect following, a tolerant
//! HTML tokenizer and an arena-based tree builder.

pub mod chars;
pub mod dict;
pub mod html;
pub mod layout;
pub mod roundtrip;
pub mod url;
