//! What holds of the library as a whole.

pub mod alignment;
pub mod blanks;
pub mod carriage;
pub mod columns;
pub mod contexts;
pub mod course;
pub mod declarations;
pub mod frames;
pub mod gaps;
pub mod groups;
pub mod injection;
pub mod lexing;
pub mod lines;
pub mod marks;
pub mod moving;
pub mod notes;
pub mod operands;
pub mod placement;
pub mod reading;
pub mod rules;
pub mod settings;
pub mod signs;
pub mod spaces;
pub mod spelling;
pub mod stability;
pub mod statements;
pub mod styles;
pub mod walking;
pub mod weave;
pub mod whole;
