pub mod catalog;
pub mod document;
pub mod expand;
pub mod grammar;
pub mod params;
pub mod path;
pub mod text;
pub mod turtle;
