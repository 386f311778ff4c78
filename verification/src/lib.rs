//! The rules of an operations board: typed objects placed in the lanes of two
//! boards, their tags and tag colours, and the tables that keep them.
pub mod text;
pub mod json;
pub mod model;
pub mod order;
pub mod seed;
pub mod table;
pub mod rows;
pub mod store;
pub mod change;
pub mod laws;
