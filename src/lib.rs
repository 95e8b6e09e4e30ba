//! A dungeon of named rooms joined in the four compass directions: building it room by room
//! or from a two-section text, and finding shortest paths through it. Beside it stand a few
//! small verified collections: stacks, matrices walked by rows and columns, DNA strands.

pub mod cell_matrix;
pub mod direction;
pub mod dungeon;
pub mod index_buffer;
pub mod matrix_iteration;
pub mod mutable_stack;
pub mod nucleotide;
pub mod persistent_stack;
pub mod reader;
pub mod text;
