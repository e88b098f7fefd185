pub mod sampler;
pub mod stats;
pub mod window;
