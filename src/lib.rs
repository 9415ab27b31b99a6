pub mod geometry;
pub mod visibility;
pub mod pursuit;
pub mod effects;
pub mod combat;
pub mod placement;
pub mod spawner;
pub mod simulation;
pub mod trail;
pub mod scenery;
pub mod control;
