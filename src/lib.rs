pub mod ids;
pub mod json;
pub mod model;
pub mod node;
pub mod registry;
pub mod resource;
pub mod tai;
pub mod text;
