/// The machine: state, fetch-decode-execute, timers, key wait.
pub mod chip;
/// Sprite drawing over the framebuffer, stated pixel by pixel.
pub mod draw;
/// The built-in hex digit glyphs.
pub mod glyphs;
/// Instruction words and their decoding.
pub mod instr;
/// The hex keypad and the physical key map.
pub mod keyboard;
/// Properties that hold across several instructions and operations.
pub mod laws;
/// The machine's semantics as spec functions over its state.
pub mod machine;
/// The 64x32 framebuffer and its scaled presentation.
pub mod renderer;
mod rng;
