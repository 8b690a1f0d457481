pub mod dtm_encoder;
pub mod text_encoder;
