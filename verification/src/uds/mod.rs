//! UDS helpers: byte layout of PDUs and hex/SID text.
pub mod byte_pattern;
pub mod translator;
