//! Planning and applying the parameter substitutions of a flake template.
pub mod apply;
pub mod flake_template;
pub mod param;
pub mod path;
pub mod registry;
pub mod replace;
pub mod text;
