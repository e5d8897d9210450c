pub mod chain;
pub mod digits;
pub mod encode;
pub mod errors;
pub mod facts;
pub mod rows;
pub mod trust;
