pub mod anim;
pub mod hierarchy;
pub mod memory;
pub mod records;
pub mod resolve;
pub mod scene;
pub mod string;
pub mod texel;
