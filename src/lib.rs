//! Compares the functions of two linked x86 executables and reports, per named
//! function, whether its machine code changed and how the instruction streams differ.
//!
//! - `eh_frame`: the `.eh_frame` unwind table, decoded into function ranges.
//! - `program`: a loaded executable, its functions by name and its symbols.
//! - `instruction_wrapper`: decoded instructions and their structural equivalence.
//! - `diff`: edit scripts between instruction streams.
//! - `matcher`: pairing functions across two programs, static initializers included.
//! - `compare`: the verdict on each pair and the sorted list of changed functions.
//! - `split_diff`: the side-by-side layout of an edit script.
//! - `util`: display names of C++ symbols.
pub mod eh_frame;
pub mod program;
pub mod instruction_wrapper;
pub mod diff;
pub mod matcher;
pub mod compare;
pub mod split_diff;
pub mod util;
pub mod name_index;
