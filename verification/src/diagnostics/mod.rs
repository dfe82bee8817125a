pub mod diagnostic;
pub mod location;
