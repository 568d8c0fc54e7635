pub mod bands;
pub mod graphics;
pub mod palette;
pub mod text;
