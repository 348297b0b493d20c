pub mod apply;
pub mod cli;
pub mod component;
pub mod dynamic_module_resolver;
pub mod error;
pub mod paths;
pub mod profile;
pub mod relative_path;
pub mod render;
pub mod settings;
pub mod template_map;
