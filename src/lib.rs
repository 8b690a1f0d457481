pub mod decoder;
pub mod dtm;
pub mod encoder;
pub mod error;
pub mod frame;
pub mod hex;
pub mod layout;
pub mod text;
