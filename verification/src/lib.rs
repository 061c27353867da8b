//! A verified 2-D collision simulation of circular bodies.
//!
//! A fixed population of circles moves inside a rectangular viewport under a
//! constant downward pull. Each tick integrates velocities, reflects bodies at
//! the viewport edges, rebuilds a uniform broad-phase grid, and resolves the
//! overlapping pairs found in each grid cell with an impulse along the contact
//! normal. All coordinates, radii and velocities are integers in caller-chosen
//! viewport units, so every update rule is exact and fully specified.


pub mod collide;
pub mod geometry;
pub mod grid;
pub mod num;
pub mod placement;
pub mod state;
pub mod step;
pub mod types;

pub use geometry::detect_circle_collision;
pub use placement::init;
pub use state::get_circle_count;
pub use state::get_circle_data_offset;
pub use state::new_state;
pub use state::State;
pub use step::time_step;
pub use types::Candidate;
pub use types::Circle;
pub use types::CircleVelocity;
pub use types::SimError;
