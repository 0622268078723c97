use vstd::prelude::*;

use crate::draw::{collides, drawn};
use crate::glyphs::{glyphs, GLYPH_BYTES};
use crate::instr::{decode_spec, Instr};
use crate::keyboard::key_down;
use crate::keyboard::keymap_spec;
use crate::renderer::PIXELS;

verus! {

/// Bytes of addressable memory.
pub const MEMORY_SIZE: usize = 4096;

/// Address at which programs are loaded and execution starts.
pub const PROGRAM_START: u16 = 0x200;

/// Deepest nesting of subroutine calls.
pub const STACK_DEPTH: usize = 16;

/// Index of the flag register `VF`.
pub const FLAG: usize = 15;

/// Failures reported by the machine. None of them ends the process: the
/// driver decides what to do.
#[derive(PartialEq, Eq, Structural, Debug, Clone, Copy)]
pub enum ChipError {
    /// The word at the program counter encodes no instruction.
    UnknownOpcode(u16),
    /// A call was made with the return stack full; the call is rejected.
    StackOverflow,
    /// A return was made with no call pending; the return is rejected.
    StackUnderflow,
    /// An instruction, or the fetch itself, reached past the end of memory.
    OutOfBoundsMemoryAccess,
    /// A program image does not fit in memory above `PROGRAM_START`.
    RomTooLarge,
}

/// The whole observable state of the machine.
pub struct ChipState {
    pub memory: Seq<u8>,
    pub v: Seq<u8>,
    pub i: u16,
    pub pc: u16,
    pub delay_timer: u8,
    pub sound_timer: u8,
    pub stack: Seq<u16>,
    /// The register waiting for a key press, if the machine is waiting.
    pub wait_for_key: Option<u8>,
    pub keys: Seq<bool>,
    pub display: Seq<bool>,
}

/// Sizes and bounds that every reachable state keeps.
pub open spec fn state_wf(s: ChipState) -> bool {
    &&& s.memory.len() == MEMORY_SIZE
    &&& s.v.len() == 16
    &&& s.stack.len() <= STACK_DEPTH
    &&& s.keys.len() == 16
    &&& s.display.len() == PIXELS
    &&& s.wait_for_key matches Some(x) ==> x < 16
}

/// `s` with the program counter moved past one instruction.
pub open spec fn advanced(s: ChipState) -> ChipState {
    ChipState { pc: (s.pc + 2) as u16, ..s }
}

/// `s` with the program counter moved past one more instruction when `c` holds.
pub open spec fn skip_if(s: ChipState, c: bool) -> ChipState {
    if c {
        advanced(s)
    } else {
        s
    }
}

/// `s` with register `x` set to `val`.
pub open spec fn with_reg(s: ChipState, x: u8, val: u8) -> ChipState {
    ChipState { v: s.v.update(x as int, val), ..s }
}

/// `s` with `VF` set to `flag` and then register `x` set to `val`.
pub open spec fn with_flag_reg(s: ChipState, flag: bool, x: u8, val: u8) -> ChipState {
    ChipState { v: s.v.update(FLAG as int, if flag { 1u8 } else { 0u8 }).update(x as int, val), ..s }
}

/// Whether `len` bytes from address `start` all lie in memory.
pub open spec fn in_memory(start: int, len: int) -> bool {
    start + len <= MEMORY_SIZE
}

/// The effect of executing `ins`, fetched at `s.pc`, with `rnd` as the random
/// byte that `Cxkk` draws. Registers wrap modulo 256 and never fault. On an
/// error the instruction is rejected and the state is left as it was.
pub open spec fn step(s: ChipState, ins: Instr, rnd: u8) -> Result<ChipState, ChipError> {
    let a = advanced(s);
    match ins {
        Instr::Cls => Ok(ChipState { display: Seq::new(PIXELS as nat, |_p: int| false), ..a }),
        Instr::Ret => if s.stack.len() == 0 {
            Err(ChipError::StackUnderflow)
        } else {
            Ok(ChipState { pc: s.stack.last(), stack: s.stack.drop_last(), ..a })
        },
        Instr::Jp { nnn } => Ok(ChipState { pc: nnn, ..a }),
        Instr::Call { nnn } => if s.stack.len() >= STACK_DEPTH {
            Err(ChipError::StackOverflow)
        } else {
            Ok(ChipState { pc: nnn, stack: s.stack.push(a.pc), ..a })
        },
        Instr::SeVb { x, kk } => Ok(skip_if(a, s.v[x as int] == kk)),
        Instr::SneVb { x, kk } => Ok(skip_if(a, s.v[x as int] != kk)),
        Instr::SeVv { x, y } => Ok(skip_if(a, s.v[x as int] == s.v[y as int])),
        Instr::LdVb { x, kk } => Ok(with_reg(a, x, kk)),
        Instr::AddVb { x, kk } => Ok(with_reg(a, x, ((s.v[x as int] + kk) % 256) as u8)),
        Instr::LdVv { x, y } => Ok(with_reg(a, x, s.v[y as int])),
        Instr::Or { x, y } => Ok(with_reg(a, x, s.v[x as int] | s.v[y as int])),
        Instr::And { x, y } => Ok(with_reg(a, x, s.v[x as int] & s.v[y as int])),
        Instr::Xor { x, y } => Ok(with_reg(a, x, s.v[x as int] ^ s.v[y as int])),
        Instr::AddVv { x, y } => {
            let sum = s.v[x as int] + s.v[y as int];
            Ok(with_flag_reg(a, sum > 255, x, (sum % 256) as u8))
        },
        Instr::Sub { x, y } => Ok(
            with_flag_reg(
                a,
                s.v[x as int] > s.v[y as int],
                x,
                ((s.v[x as int] - s.v[y as int]) % 256) as u8,
            ),
        ),
        Instr::Shr { x } => Ok(with_flag_reg(a, s.v[x as int] % 2 == 1, x, s.v[x as int] / 2)),
        Instr::Subn { x, y } => Ok(
            with_flag_reg(
                a,
                s.v[y as int] > s.v[x as int],
                x,
                ((s.v[y as int] - s.v[x as int]) % 256) as u8,
            ),
        ),
        Instr::Shl { x } => Ok(
            with_flag_reg(a, s.v[x as int] >= 128, x, ((s.v[x as int] * 2) % 256) as u8),
        ),
        Instr::SneVv { x, y } => Ok(skip_if(a, s.v[x as int] != s.v[y as int])),
        Instr::LdI { nnn } => Ok(ChipState { i: nnn, ..a }),
        Instr::JpV0 { nnn } => Ok(ChipState { pc: (nnn + s.v[0]) as u16, ..a }),
        Instr::Rnd { x, kk } => Ok(with_reg(a, x, rnd & kk)),
        Instr::Drw { x, y, n } => if !in_memory(s.i as int, n as int) {
            Err(ChipError::OutOfBoundsMemoryAccess)
        } else {
            let vx = s.v[x as int] as int;
            let vy = s.v[y as int] as int;
            let hit = collides(s.display, s.memory, s.i as int, n as int, vx, vy);
            Ok(
                ChipState {
                    display: drawn(s.display, s.memory, s.i as int, n as int, vx, vy),
                    v: s.v.update(FLAG as int, if hit { 1u8 } else { 0u8 }),
                    ..a
                },
            )
        },
        Instr::Skp { x } => Ok(skip_if(a, key_down(s.keys, s.v[x as int] as int))),
        Instr::Sknp { x } => Ok(skip_if(a, !key_down(s.keys, s.v[x as int] as int))),
        Instr::LdVDt { x } => Ok(with_reg(a, x, s.delay_timer)),
        Instr::LdK { x } => Ok(ChipState { wait_for_key: Some(x), ..a }),
        Instr::LdDtV { x } => Ok(ChipState { delay_timer: s.v[x as int], ..a }),
        Instr::LdStV { x } => Ok(ChipState { sound_timer: s.v[x as int], ..a }),
        Instr::AddI { x } => Ok(ChipState { i: ((s.i + s.v[x as int]) % 0x10000) as u16, ..a }),
        Instr::LdF { x } => Ok(ChipState { i: (s.v[x as int] * 5) as u16, ..a }),
        Instr::LdB { x } => if !in_memory(s.i as int, 3) {
            Err(ChipError::OutOfBoundsMemoryAccess)
        } else {
            let vx = s.v[x as int];
            Ok(
                ChipState {
                    memory: s.memory.update(s.i as int, vx / 100).update(
                        s.i + 1,
                        (vx % 100) / 10,
                    ).update(s.i + 2, vx % 10),
                    ..a
                },
            )
        },
        Instr::LdVsToMem { x } => if !in_memory(s.i as int, x + 1) {
            Err(ChipError::OutOfBoundsMemoryAccess)
        } else {
            Ok(
                ChipState {
                    memory: Seq::new(
                        s.memory.len(),
                        |j: int|
                            if s.i <= j <= s.i + x {
                                s.v[j - s.i]
                            } else {
                                s.memory[j]
                            },
                    ),
                    ..a
                },
            )
        },
        Instr::LdVsFromMem { x } => if !in_memory(s.i as int, x + 1) {
            Err(ChipError::OutOfBoundsMemoryAccess)
        } else {
            Ok(
                ChipState {
                    v: Seq::new(
                        s.v.len(),
                        |j: int|
                            if j <= x {
                                s.memory[s.i + j]
                            } else {
                                s.v[j]
                            },
                    ),
                    ..a
                },
            )
        },
    }
}

/// The big-endian instruction word at the program counter.
pub open spec fn fetch(s: ChipState) -> u16 {
    (s.memory[s.pc as int] * 256 + s.memory[s.pc + 1]) as u16
}

/// One fetch-decode-execute step of a running machine.
pub open spec fn fetch_execute(s: ChipState, rnd: u8) -> Result<ChipState, ChipError> {
    if s.pc + 1 >= MEMORY_SIZE {
        Err(ChipError::OutOfBoundsMemoryAccess)
    } else {
        match decode_spec(fetch(s)) {
            None => Err(ChipError::UnknownOpcode(fetch(s))),
            Some(ins) => step(s, ins, rnd),
        }
    }
}

/// One tick: nothing while a key is awaited, else one fetch-decode-execute step.
pub open spec fn tick_spec(s: ChipState, rnd: u8) -> Result<ChipState, ChipError> {
    if s.wait_for_key is Some {
        Ok(s)
    } else {
        fetch_execute(s, rnd)
    }
}

/// Ticks with the random bytes `rnds` in turn, stopping at the first error:
/// the state reached and the error, if any.
pub open spec fn run_ticks(s: ChipState, rnds: Seq<u8>) -> (ChipState, Result<(), ChipError>)
    decreases rnds.len(),
{
    if rnds.len() == 0 {
        (s, Ok(()))
    } else {
        let (s1, r1) = run_ticks(s, rnds.drop_last());
        if r1 is Err {
            (s1, r1)
        } else {
            match tick_spec(s1, rnds.last()) {
                Ok(s2) => (s2, Ok(())),
                Err(e) => (s1, Err(e)),
            }
        }
    }
}

/// One 60 Hz frame of the timers: each nonzero timer counts down by one,
/// unless a key is awaited.
pub open spec fn timers_spec(s: ChipState) -> ChipState {
    if s.wait_for_key is Some {
        s
    } else {
        ChipState {
            delay_timer: if s.delay_timer > 0 { (s.delay_timer - 1) as u8 } else { 0 },
            sound_timer: if s.sound_timer > 0 { (s.sound_timer - 1) as u8 } else { 0 },
            ..s
        }
    }
}

/// One frame: the ticks, then the timers if no tick failed.
pub open spec fn cycle_spec(s: ChipState, rnds: Seq<u8>) -> (ChipState, Result<(), ChipError>) {
    let (s1, r) = run_ticks(s, rnds);
    if r is Ok {
        (timers_spec(s1), r)
    } else {
        (s1, r)
    }
}

/// Hex key `key` goes down: the key table records it, and a pending key wait
/// stores the key in its register and ends. Codes past `0xF` name no key.
pub open spec fn press_spec(s: ChipState, key: u8) -> ChipState {
    if key >= 16 {
        s
    } else {
        match s.wait_for_key {
            Some(x) => ChipState {
                keys: s.keys.update(key as int, true),
                v: s.v.update(x as int, key),
                wait_for_key: None,
                ..s
            },
            None => ChipState { keys: s.keys.update(key as int, true), ..s },
        }
    }
}

/// Hex key `key` goes up. Codes past `0xF` name no key.
pub open spec fn release_spec(s: ChipState, key: u8) -> ChipState {
    if key >= 16 {
        s
    } else {
        ChipState { keys: s.keys.update(key as int, false), ..s }
    }
}

/// Presses of the physical keys `codes` in turn; unmapped codes do nothing.
pub open spec fn press_all(s: ChipState, codes: Seq<u8>) -> ChipState
    decreases codes.len(),
{
    if codes.len() == 0 {
        s
    } else {
        let s1 = press_all(s, codes.drop_last());
        match keymap_spec(codes.last()) {
            Some(k) => press_spec(s1, k),
            None => s1,
        }
    }
}

/// Releases of the physical keys `codes` in turn; unmapped codes do nothing.
pub open spec fn release_all(s: ChipState, codes: Seq<u8>) -> ChipState
    decreases codes.len(),
{
    if codes.len() == 0 {
        s
    } else {
        let s1 = release_all(s, codes.drop_last());
        match keymap_spec(codes.last()) {
            Some(k) => release_spec(s1, k),
            None => s1,
        }
    }
}

/// Memory with the glyph table written at address 0.
pub open spec fn with_glyphs(mem: Seq<u8>) -> Seq<u8> {
    Seq::new(mem.len(), |j: int| if j < GLYPH_BYTES { glyphs()[j] } else { mem[j] })
}

/// Memory with `program` written from `PROGRAM_START` on.
pub open spec fn with_program(mem: Seq<u8>, program: Seq<u8>) -> Seq<u8> {
    Seq::new(
        mem.len(),
        |j: int|
            if PROGRAM_START <= j < PROGRAM_START + program.len() {
                program[j - PROGRAM_START]
            } else {
                mem[j]
            },
    )
}

/// Whether `program` fits in memory above `PROGRAM_START`.
pub open spec fn program_fits(program: Seq<u8>) -> bool {
    program.len() <= MEMORY_SIZE - PROGRAM_START
}

/// The state of a new machine: glyphs loaded, everything else zero or empty,
/// the program counter at `PROGRAM_START`, running.
pub open spec fn initial_state() -> ChipState {
    ChipState {
        memory: with_glyphs(Seq::new(MEMORY_SIZE as nat, |_j: int| 0u8)),
        v: Seq::new(16, |_j: int| 0u8),
        i: 0,
        pc: PROGRAM_START,
        delay_timer: 0,
        sound_timer: 0,
        stack: Seq::empty(),
        wait_for_key: None,
        keys: Seq::new(16, |_j: int| false),
        display: Seq::new(PIXELS as nat, |_p: int| false),
    }
}

} // verus!
