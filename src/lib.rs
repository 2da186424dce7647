pub mod codec;
pub mod header;
pub mod pattern;
pub mod laws;
pub mod table;
