//! The entity families as types of their own, over the rows of the store.

pub mod network;
