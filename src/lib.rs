pub mod gradients;
pub mod laws;
pub mod tape;
pub mod tensor;
pub mod upscale;
