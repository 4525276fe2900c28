//! Reading the layer and classpath indexes of a layered Spring Boot jar, and
//! planning the extraction of its layers.

pub mod archive;
pub mod classpath;
pub mod extract;
pub mod index;
pub mod layers;
pub mod manifest;
pub mod paths;
pub mod text;
pub mod tree;
