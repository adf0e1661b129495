//! Verified passes of an instruction-set compiler: the JIB pretty printer and
//! the debundling pass over rudder blocks.
pub mod debundler;
pub mod jib_ast;
pub mod pretty_print;
pub mod rudder;
pub mod text;
