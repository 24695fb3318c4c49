pub mod decode;
pub mod gateway;
pub mod laws;
pub mod model;
pub mod plic;
