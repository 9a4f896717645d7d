pub mod array_checker;
pub mod diff_types;
pub mod dtfterminal_types;
pub mod engine;
pub mod file_handler;
pub mod html_renderer;
pub mod key_checker;
pub mod laws;
pub mod node;
pub mod render;
pub mod scalar;
pub mod text;
pub mod type_checker;
pub mod utils;
pub mod value_checker;
