pub mod character;
pub mod terminal;
