//! Run-time state and motion-safety core of a digital microfluidic controller:
//! droplet bookkeeping on a grid of electrodes, collision detection between
//! independently controlled droplets, and time-stepped execution of movement
//! plans.

pub mod location;
pub mod grid;
pub mod droplet;
pub mod ids;
pub mod collision;
pub mod paths;
pub mod architecture;
pub mod definition;

pub use location::Location;
pub use grid::Grid;
pub use droplet::{Droplet, DropletInfo};
pub use ids::DropletId;
pub use paths::Path;
pub use architecture::{Architecture, StepCollision};
pub use definition::DefinitionError;
