//! Integer core of a smoothed-particle fluid simulation: spatial hashing of
//! particles into grid cells, the sorted cell lookup used for neighbour
//! search, the compute-dispatch schedule of the GPU path, and the small
//! state machines that drive the simulation.

pub mod grid;
pub mod sort;
pub mod lookup;
pub mod state;
pub mod dispatch;
pub mod spawn;
pub mod overlay;
