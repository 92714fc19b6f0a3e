//! A small entity-component storage kernel: per-kind columns of optional
//! component values, kept in lockstep with the number of entities, with a
//! runtime borrow discipline on each column and an inner-join query.
pub mod column;
pub mod dynamic_components;
pub mod laws;
pub mod world;
