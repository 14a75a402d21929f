//! Fire spreading through a physical world of flammable things, the chains
//! that burning cuts apart, and the player's own state.
pub mod chain;
pub mod fire;
pub mod interactables;
pub mod player;
pub mod scene;
pub mod store;
