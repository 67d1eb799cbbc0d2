//! Fixed-point elevator motion simulator: a Newtonian integrator, two motor
//! controllers, a tick-by-tick simulation driver, an offline log analyzer,
//! summary statistics and the reader of run descriptions.
//!
//! Physical quantities are integers in micro-units: micrometres, microseconds,
//! micrometres per second (squared, cubed) and microvolts. Masses are in
//! kilograms.
//!
//! Alongside sit the plain data types of a small web front end (`blog`,
//! `forms`, `edit_forms`, `session`).
pub mod fixed;
pub mod physics;
pub mod motor;
pub mod driver;
pub mod analyze;
pub mod stats;
pub mod input;
pub mod blog;
pub mod session;
pub mod forms;
pub mod edit_forms;
