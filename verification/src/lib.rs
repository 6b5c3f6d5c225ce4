//! The web view of a ticket store.
#![allow(unused_imports)]

pub mod detail;
pub mod edit;
pub mod flow;
pub mod html;
pub mod kanban;
pub mod lifecycle;
pub mod list;
pub mod moment;
pub mod navigation;
pub mod nesting;
pub mod number;
pub mod page;
pub mod percent;
pub mod query;
pub mod request;
pub mod reset;
pub mod response;
pub mod roundtrip;
pub mod serve;
pub mod text;
pub mod ticket;
pub mod update;
pub mod version;
