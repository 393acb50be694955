pub mod config;
pub mod error;
pub mod facade;
pub mod layout;
pub mod naming;
pub mod registry;
pub mod render_pass;
pub mod renderable;
pub mod shaders;
pub mod token;
