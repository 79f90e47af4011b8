//! The parts of the native shader renderer that do not touch the GPU: the
//! wrapping of ShaderToy sources, error line mapping and the error types.

pub mod errors;
pub mod shader;
