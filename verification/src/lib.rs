//! The supplement source of a feed archive: how deep to scan it, how to ask for its pages, and
//! how to turn what comes back into feed records.

pub mod activity;
pub mod calendar;
pub mod checkpoint;
pub mod clock;
pub mod cn_time;
pub mod collapse;
pub mod depth;
pub mod fetch;
pub mod items;
pub mod numbers;
pub mod page;
pub mod patterns;
pub mod response;
pub mod text;
pub mod value;
