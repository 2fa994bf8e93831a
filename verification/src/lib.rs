//! Rendering core of a documentation generator: turns the XML export of a
//! documentation extractor into linked HTML fragments.

pub mod text;
pub mod xml;
pub mod markup;
pub mod render;
pub mod signature;
pub mod model;
pub mod entity;
pub mod compound;
pub mod links;
pub mod resolve;
pub mod nav;
pub mod document;
pub mod images;
pub mod owner;
