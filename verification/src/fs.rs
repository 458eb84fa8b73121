pub mod file;
pub mod pipe;
pub mod rootfs;
pub mod stdio;
