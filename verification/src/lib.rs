//! Inventory of block storage devices: device records, attribute
//! classification, filtering, sorting and rendering, with the behaviour of
//! each step stated in its contract.

pub mod attr;
pub mod device;
pub mod listing;
pub mod render;
pub mod text;
