//! Gcode normalization and flow-controlled, chunked delivery of a gcode
//! program to a consumer that acknowledges each chunk before the next one.
pub mod cursor;
pub mod normalize;
pub mod session;
pub mod text;
