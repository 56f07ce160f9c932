pub mod attributes;
pub mod base;
pub mod document;
pub mod properties;
