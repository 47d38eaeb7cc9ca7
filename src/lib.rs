//! Flocking simulation of boids on a bounded integer plane.

pub mod boid;
pub mod motion;
pub mod rules;
pub mod settings;
pub mod simulation;
pub mod vector;
pub mod view;
