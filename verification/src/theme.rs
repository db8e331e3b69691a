pub mod base;
pub mod scale;
pub mod styled;
pub mod surface;
pub mod tokens;
