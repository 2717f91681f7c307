//! A two-sided limit order book kept on integer price ticks, with two
//! interchangeable storage engines behind one verified contract.

pub mod btree_ob;
pub mod decimal;
mod key_order;
pub mod laws;
pub mod level_slots;
pub mod ob;
pub mod scaling;
pub mod stable_ob;
