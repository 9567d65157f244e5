//! Generator of self-extracting archive headers: the option set, the
//! command-line grammar, the C text escaping, the byte-stream state
//! machines and the renderers that produce the generated C++ header.

pub mod opt;
pub mod sanitise;
pub mod text;
pub mod arg;
pub mod hash;
pub mod iter;
pub mod header;
pub mod program;
pub mod generate;
