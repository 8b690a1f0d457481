pub mod dtm_decoder;
pub mod text_decoder;
