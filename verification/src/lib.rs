pub mod core_syntax;
pub mod escape;
pub mod surface;
pub mod syntax;
pub mod tree;
pub mod type_context;
