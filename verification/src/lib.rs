pub mod compress;
pub mod document;
pub mod extract;
pub mod pipeline;
pub mod text;
