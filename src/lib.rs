//! An alien invasion on a map of named cities joined by two-way roads:
//! loading the map, spawning aliens, moving them day by day, and destroying
//! every city where they meet.

pub mod alien;
pub mod city;
pub mod direction;
pub mod error;
pub mod laws;
pub mod naming;
pub mod registry;
pub mod text;
pub mod world;
