//! What a guest meets first: being seated and being served.

pub mod hosting;
pub mod serving;
