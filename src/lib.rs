pub mod resource;
pub mod runtime;
