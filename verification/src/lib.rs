//! Species counterpoint: interval arithmetic, voice-leading rules,
//! constraint-based generation, Laman graphs and holonomy harmony.
pub mod arith;
pub mod exceptions;
pub mod generator;
pub mod harmony;
pub mod interval;
pub mod laman;
pub mod rules;
pub mod sorting;
pub mod tensor_output;
pub mod text;
pub mod voice_leading;
