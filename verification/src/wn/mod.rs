pub mod multi;
pub mod pos;
pub mod princeton;
