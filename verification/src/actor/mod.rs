pub mod job;
pub mod storage;
pub mod input;
pub mod json;
pub mod template;
