use vstd::prelude::*;

use crate::draw::{collides, covered_before, drawn, lemma_cell_pixel, sprite_covers};
use crate::glyphs::{glyph_table, glyphs, GLYPH_BYTES};
use crate::instr::{decode, operands_in_range, Instr};
use crate::keyboard::{keymap, Keyboard};
use crate::machine::{
    advanced, with_flag_reg, cycle_spec, fetch, initial_state, press_all, press_spec, program_fits, release_all,
    release_spec, run_ticks, state_wf, step, tick_spec, timers_spec, with_glyphs, with_program,
    ChipError, ChipState, FLAG, MEMORY_SIZE, PROGRAM_START, STACK_DEPTH,
};
use crate::rng::random_byte;
use crate::renderer::{pixel_index, scaled_color, Renderer, COLS, PIXELS, ROWS};

verus! {

/// Host pixels per grid pixel in the presented frame.
pub const DISPLAY_SCALE: usize = 10;

/// How an operation's result and the state after it follow from the
/// semantic result `res`: on success the new state is taken, on failure the
/// error is reported and the state is left as `before`.
pub open spec fn outcome(
    res: Result<ChipState, ChipError>,
    r: Result<(), ChipError>,
    before: ChipState,
    after: ChipState,
) -> bool {
    match res {
        Ok(s) => r == Ok::<(), ChipError>(()) && after == s,
        Err(e) => r == Err::<(), ChipError>(e) && after == before,
    }
}

/// The interpreter: memory, registers, timers, call stack, framebuffer and
/// keypad of one machine.
pub struct Chip {
    renderer: Renderer,
    keyboard: Keyboard,
    memory: Vec<u8>,
    v: [u8; 16],
    i: u16,
    delay_timer: u8,
    sound_timer: u8,
    pc: u16,
    stack: Vec<u16>,
    wait_for_key: Option<u8>,
    speed: u32,
}

impl View for Chip {
    type V = ChipState;

    closed spec fn view(&self) -> ChipState {
        ChipState {
            memory: self.memory@,
            v: self.v@,
            i: self.i,
            pc: self.pc,
            delay_timer: self.delay_timer,
            sound_timer: self.sound_timer,
            stack: self.stack@,
            wait_for_key: self.wait_for_key,
            keys: self.keyboard@,
            display: self.renderer@,
        }
    }
}

impl Chip {
    /// Instructions executed per frame.
    pub closed spec fn speed_spec(&self) -> u32 {
        self.speed
    }

    pub closed spec fn wf(&self) -> bool {
        &&& state_wf(self@)
        &&& self.renderer.wf()
        &&& self.renderer.scale_spec() == DISPLAY_SCALE
    }

    /// A well-formed machine has a well-formed state.
    pub proof fn lemma_wf(&self)
        requires
            self.wf(),
        ensures
            state_wf(self@),
    {
    }

    /// A new machine that runs `speed` instructions per frame, with the glyph
    /// table loaded and the program counter at `PROGRAM_START`.
    pub fn new(speed: u32) -> (r: Self)
        ensures
            r.wf(),
            r.speed_spec() == speed,
            r@ == initial_state(),
    {
        let mut chip = Chip {
            renderer: Renderer::new(DISPLAY_SCALE),
            keyboard: Keyboard::new(),
            memory: vec![0u8; MEMORY_SIZE],
            v: [0u8; 16],
            i: 0,
            delay_timer: 0,
            sound_timer: 0,
            pc: PROGRAM_START,
            stack: Vec::new(),
            wait_for_key: None,
            speed,
        };
        proof {
            assert(chip.v@ =~= Seq::new(16, |_j: int| 0u8));
            assert(chip.memory@ =~= Seq::new(MEMORY_SIZE as nat, |_j: int| 0u8));
        }
        chip.load_sprites();
        proof {
            assert(chip@.memory =~= initial_state().memory);
        }
        chip
    }

    /// Writes the glyph table at address 0.
    pub fn load_sprites(&mut self)
        requires
            old(self).wf(),
        ensures
            final(self).wf(),
            final(self).speed_spec() == old(self).speed_spec(),
            final(self)@ == (ChipState { memory: with_glyphs(old(self)@.memory), ..old(self)@ }),
    {
        let table = glyph_table();
        let mut j: usize = 0;
        proof {
            assert(self@.memory =~= Seq::new(
                MEMORY_SIZE as nat,
                |k: int|
                    if k < j {
                        glyphs()[k]
                    } else {
                        old(self)@.memory[k]
                    },
            ));
        }
        while j < GLYPH_BYTES
            invariant
                self.wf(),
                table@ == glyphs(),
                j <= GLYPH_BYTES,
                self.speed == old(self).speed,
                self@ == (ChipState {
                    memory: Seq::new(
                        MEMORY_SIZE as nat,
                        |k: int|
                            if k < j {
                                glyphs()[k]
                            } else {
                                old(self)@.memory[k]
                            },
                    ),
                    ..old(self)@
                }),
            decreases GLYPH_BYTES - j,
        {
            self.memory.set(j, table[j]);
            j = j + 1;
            proof {
                assert(self@.memory =~= Seq::new(
                    MEMORY_SIZE as nat,
                    |k: int|
                        if k < j {
                            glyphs()[k]
                        } else {
                            old(self)@.memory[k]
                        },
                ));
            }
        }
        proof {
            assert(self@.memory =~= with_glyphs(old(self)@.memory));
        }
    }

    /// Copies a program image into memory from `PROGRAM_START` on. An image
    /// too large for the memory above that address is refused whole.
    pub fn load_rom(&mut self, program: &Vec<u8>) -> (r: Result<(), ChipError>)
        requires
            old(self).wf(),
        ensures
            final(self).wf(),
            final(self).speed_spec() == old(self).speed_spec(),
            program_fits(program@) ==> r is Ok && final(self)@ == (ChipState {
                memory: with_program(old(self)@.memory, program@),
                ..old(self)@
            }),
            !program_fits(program@) ==> r == Err::<(), ChipError>(ChipError::RomTooLarge)
                && final(self)@ == old(self)@,
    {
        if program.len() > MEMORY_SIZE - PROGRAM_START as usize {
            return Err(ChipError::RomTooLarge);
        }
        let start = PROGRAM_START as usize;
        let mut j: usize = 0;
        proof {
            assert(self@.memory =~= Seq::new(
                MEMORY_SIZE as nat,
                |k: int|
                    if start <= k < start + j {
                        program@[k - start]
                    } else {
                        old(self)@.memory[k]
                    },
            ));
        }
        while j < program.len()
            invariant
                self.wf(),
                start == PROGRAM_START,
                start + program@.len() <= MEMORY_SIZE,
                j <= program@.len(),
                self.speed == old(self).speed,
                self@ == (ChipState {
                    memory: Seq::new(
                        MEMORY_SIZE as nat,
                        |k: int|
                            if start <= k < start + j {
                                program@[k - start]
                            } else {
                                old(self)@.memory[k]
                            },
                    ),
                    ..old(self)@
                }),
            decreases program@.len() - j,
        {
            self.memory.set(start + j, program[j]);
            j = j + 1;
            proof {
                assert(self@.memory =~= Seq::new(
                    MEMORY_SIZE as nat,
                    |k: int|
                        if start <= k < start + j {
                            program@[k - start]
                        } else {
                            old(self)@.memory[k]
                        },
                ));
            }
        }
        proof {
            assert(self@.memory =~= with_program(old(self)@.memory, program@));
        }
        Ok(())
    }

    /// One tick with `rnd` as the byte that a `Cxkk` instruction draws: does
    /// nothing while a key is awaited, else fetches the big-endian word at the
    /// program counter, decodes it and executes it.
    pub fn tick_with(&mut self, rnd: u8) -> (r: Result<(), ChipError>)
        requires
            old(self).wf(),
        ensures
            final(self).wf(),
            final(self).speed_spec() == old(self).speed_spec(),
            outcome(tick_spec(old(self)@, rnd), r, old(self)@, final(self)@),
    {
        if self.wait_for_key.is_some() {
            return Ok(());
        }
        if self.pc as usize + 1 >= MEMORY_SIZE {
            return Err(ChipError::OutOfBoundsMemoryAccess);
        }
        let hi = self.memory[self.pc as usize];
        let lo = self.memory[self.pc as usize + 1];
        let op = hi as u16 * 256 + lo as u16;
        proof {
            assert(op == fetch(self@));
        }
        match decode(op) {
            None => Err(ChipError::UnknownOpcode(op)),
            Some(ins) => self.execute(ins, rnd),
        }
    }

    /// One tick, drawing a random byte for a `Cxkk` instruction.
    pub fn tick(&mut self) -> (r: Result<(), ChipError>)
        requires
            old(self).wf(),
        ensures
            final(self).wf(),
            final(self).speed_spec() == old(self).speed_spec(),
            exists|b: u8| outcome(#[trigger] tick_spec(old(self)@, b), r, old(self)@, final(self)@),
    {
        let b = random_byte();
        let r = self.tick_with(b);
        assert(outcome(tick_spec(old(self)@, b), r, old(self)@, self@));
        r
    }

    /// One 60 Hz frame of the timers: each nonzero timer counts down by one,
    /// unless a key is awaited.
    pub fn advance_timers(&mut self)
        requires
            old(self).wf(),
        ensures
            final(self).wf(),
            final(self).speed_spec() == old(self).speed_spec(),
            final(self)@ == timers_spec(old(self)@),
    {
        if self.wait_for_key.is_none() {
            if self.delay_timer > 0 {
                self.delay_timer = self.delay_timer - 1;
            }
            if self.sound_timer > 0 {
                self.sound_timer = self.sound_timer - 1;
            }
        }
    }

    /// One frame: `speed` ticks, stopping at the first error, then the
    /// timers if no tick failed.
    pub fn cycle(&mut self) -> (r: Result<(), ChipError>)
        requires
            old(self).wf(),
        ensures
            final(self).wf(),
            final(self).speed_spec() == old(self).speed_spec(),
            exists|rnds: Seq<u8>|
                rnds.len() == old(self).speed_spec() && #[trigger] cycle_spec(old(self)@, rnds) == (
                final(self)@, r),
    {
        let ghost rnds: Seq<u8> = Seq::empty();
        let mut k: u32 = 0;
        while k < self.speed
            invariant
                self.wf(),
                self.speed == old(self).speed,
                k <= self.speed,
                rnds.len() == k,
                run_ticks(old(self)@, rnds) == (self@, Ok::<(), ChipError>(())),
            decreases self.speed - k,
        {
            let b = random_byte();
            let ghost before = self@;
            let res = self.tick_with(b);
            proof {
                let prev = rnds;
                rnds = rnds.push(b);
                assert(rnds.drop_last() =~= prev);
            }
            match res {
                Ok(()) => {},
                Err(e) => {
                    proof {
                        let full = rnds.add(Seq::new((self.speed - k - 1) as nat, |_j: int| 0u8));
                        lemma_run_ticks_stops(old(self)@, rnds, Seq::new((self.speed - k - 1) as nat, |_j: int| 0u8));
                        assert(cycle_spec(old(self)@, full) == (self@, res));
                    }
                    return Err(e);
                },
            }
            k = k + 1;
        }
        self.advance_timers();
        assert(cycle_spec(old(self)@, rnds) == (self@, Ok::<(), ChipError>(())));
        Ok(())
    }

    /// Hex key `key` goes down: the keypad records it, and if a key is awaited
    /// the key is stored in the waiting register and execution resumes.
    /// Codes past `0xF` name no key and change nothing.
    pub fn key_down(&mut self, key: u8)
        requires
            old(self).wf(),
        ensures
            final(self).wf(),
            final(self).speed_spec() == old(self).speed_spec(),
            final(self)@ == press_spec(old(self)@, key),
    {
        if key as usize >= 16 {
            return;
        }
        if let Some(x) = self.wait_for_key {
            self.v[x as usize] = key;
            self.wait_for_key = None;
        }
        self.keyboard.set_key(key, true);
        proof {
            assert(self@.v =~= press_spec(old(self)@, key).v);
        }
    }

    /// Hex key `key` goes up. Codes past `0xF` name no key and change nothing.
    pub fn key_up(&mut self, key: u8)
        requires
            old(self).wf(),
        ensures
            final(self).wf(),
            final(self).speed_spec() == old(self).speed_spec(),
            final(self)@ == release_spec(old(self)@, key),
    {
        self.keyboard.set_key(key, false);
    }

    /// Applies the presses, then the releases, of physical keys reported by
    /// the host since the last frame, each mapped onto the hex keypad.
    pub fn handle_input(&mut self, pressed: &Vec<u8>, released: &Vec<u8>)
        requires
            old(self).wf(),
        ensures
            final(self).wf(),
            final(self).speed_spec() == old(self).speed_spec(),
            final(self)@ == release_all(press_all(old(self)@, pressed@), released@),
    {
        let mut j: usize = 0;
        while j < pressed.len()
            invariant
                self.wf(),
                self.speed == old(self).speed,
                j <= pressed@.len(),
                self@ == press_all(old(self)@, pressed@.subrange(0, j as int)),
            decreases pressed@.len() - j,
        {
            if let Some(k) = keymap(pressed[j]) {
                self.key_down(k);
            }
            proof {
                assert(pressed@.subrange(0, j + 1).drop_last() =~= pressed@.subrange(0, j as int));
            }
            j = j + 1;
        }
        assert(pressed@.subrange(0, j as int) =~= pressed@);
        let ghost mid = self@;
        let mut j: usize = 0;
        while j < released.len()
            invariant
                self.wf(),
                self.speed == old(self).speed,
                j <= released@.len(),
                self@ == release_all(mid, released@.subrange(0, j as int)),
            decreases released@.len() - j,
        {
            if let Some(k) = keymap(released[j]) {
                self.key_up(k);
            }
            proof {
                assert(released@.subrange(0, j + 1).drop_last() =~= released@.subrange(0, j as int));
            }
            j = j + 1;
        }
        assert(released@.subrange(0, j as int) =~= released@);
    }

    /// Instructions executed per frame.
    pub fn speed(&self) -> (r: u32)
        ensures
            r == self.speed_spec(),
    {
        self.speed
    }

    /// The program counter.
    pub fn pc(&self) -> (r: u16)
        ensures
            r == self@.pc,
    {
        self.pc
    }

    /// Register `Vx`.
    pub fn register(&self, x: u8) -> (r: u8)
        requires
            self.wf(),
            x < 16,
        ensures
            r == self@.v[x as int],
    {
        self.v[x as usize]
    }

    /// The index register `I`.
    pub fn index(&self) -> (r: u16)
        ensures
            r == self@.i,
    {
        self.i
    }

    /// The delay timer.
    pub fn delay_timer(&self) -> (r: u8)
        ensures
            r == self@.delay_timer,
    {
        self.delay_timer
    }

    /// The sound timer.
    pub fn sound_timer(&self) -> (r: u8)
        ensures
            r == self@.sound_timer,
    {
        self.sound_timer
    }

    /// Whether the tone should sound: the sound timer is nonzero.
    pub fn sound_active(&self) -> (r: bool)
        ensures
            r == (self@.sound_timer != 0),
    {
        self.sound_timer != 0
    }

    /// The register awaiting a key press, or `None` while running.
    pub fn waiting_register(&self) -> (r: Option<u8>)
        ensures
            r == self@.wait_for_key,
    {
        self.wait_for_key
    }

    /// Number of pending subroutine returns.
    pub fn stack_depth(&self) -> (r: usize)
        ensures
            r == self@.stack.len(),
    {
        self.stack.len()
    }

    /// The byte at `addr`, or `None` past the end of memory.
    pub fn read_memory(&self, addr: usize) -> (r: Option<u8>)
        requires
            self.wf(),
        ensures
            addr < MEMORY_SIZE ==> r == Some(self@.memory[addr as int]),
            addr >= MEMORY_SIZE ==> r is None,
    {
        if addr < MEMORY_SIZE {
            Some(self.memory[addr])
        } else {
            None
        }
    }

    /// Whether the pixel at column `x`, row `y` (taken modulo the grid) is lit.
    pub fn pixel(&self, x: u8, y: u8) -> (r: bool)
        requires
            self.wf(),
        ensures
            r == self@.display[pixel_index(x as int, y as int)],
    {
        self.renderer.is_on(x, y)
    }

    /// Whether hex key `key` is down; codes past `0xF` name no key.
    pub fn is_key_pressed(&self, key: u8) -> (r: bool)
        ensures
            r == crate::keyboard::key_down(self@.keys, key as int),
    {
        self.keyboard.is_key_pressed(key)
    }

    /// The frame to present, `COLS * DISPLAY_SCALE` colours wide and
    /// `ROWS * DISPLAY_SCALE` high, row by row.
    pub fn render(&self) -> (buf: Vec<u32>)
        requires
            self.wf(),
        ensures
            buf@.len() == (COLS * DISPLAY_SCALE) * (ROWS * DISPLAY_SCALE),
            forall|j: int|
                0 <= j < buf@.len() ==> buf@[j] == #[trigger] scaled_color(
                    self@.display,
                    DISPLAY_SCALE as int,
                    j,
                ),
    {
        let buf = self.renderer.render();
        assert forall|j: int| 0 <= j < buf@.len() implies buf@[j] == #[trigger] scaled_color(
            self@.display,
            DISPLAY_SCALE as int,
            j,
        ) by {
            assert(buf@[j] == self.renderer.frame_color(j));
        }
        buf
    }

    /// Executes one decoded instruction that was fetched at the program
    /// counter, with `rnd` as the byte that `Cxkk` draws.
    pub fn execute(&mut self, ins: Instr, rnd: u8) -> (r: Result<(), ChipError>)
        requires
            old(self).wf(),
            operands_in_range(ins),
            old(self)@.pc + 4 <= u16::MAX,
        ensures
            final(self).wf(),
            final(self).speed_spec() == old(self).speed_spec(),
            outcome(step(old(self)@, ins, rnd), r, old(self)@, final(self)@),
    {
        match ins {
            Instr::Cls | Instr::Ret | Instr::Jp { .. } | Instr::Call { .. } | Instr::JpV0 {
                ..
            } => self.exec_flow(ins, rnd),
            Instr::SeVb { .. } | Instr::SneVb { .. } | Instr::SeVv { .. } | Instr::SneVv { .. }
            | Instr::Skp { .. } | Instr::Sknp { .. } => self.exec_skip(ins, rnd),
            Instr::Drw { x, y, n } => self.drw(x, y, n),
            Instr::LdI { .. } | Instr::LdVDt { .. } | Instr::LdK { .. } | Instr::LdDtV { .. }
            | Instr::LdStV { .. } | Instr::AddI { .. } | Instr::LdF { .. } => self.exec_misc(
                ins,
                rnd,
            ),
            Instr::LdB { .. } | Instr::LdVsToMem { .. } | Instr::LdVsFromMem { .. } => self.exec_memory(
                ins,
                rnd,
            ),
            Instr::AddVv { .. } | Instr::Sub { .. } | Instr::Subn { .. } => self.exec_add_sub(
                ins,
                rnd,
            ),
            Instr::Shr { .. } | Instr::Shl { .. } => self.exec_shift(ins, rnd),
            _ => self.exec_load(ins, rnd),
        }
    }

    /// Instructions that move the program counter elsewhere: `00E0` is kept here too as it touches neither registers nor memory.
    fn exec_flow(&mut self, ins: Instr, rnd: u8) -> (r: Result<(), ChipError>)
        requires
            old(self).wf(),
            operands_in_range(ins),
            old(self)@.pc + 4 <= u16::MAX,
            ins is Cls || ins is Ret || ins is Jp || ins is Call || ins is JpV0,
        ensures
            final(self).wf(),
            final(self).speed_spec() == old(self).speed_spec(),
            outcome(step(old(self)@, ins, rnd), r, old(self)@, final(self)@),
    {
        proof {
            self.keyboard.lemma_len();
            self.renderer.lemma_len();
        }
        let next = self.pc + 2;
        match ins {
            Instr::Cls => {
                self.renderer.clear();
                self.pc = next;
            },
            Instr::Ret => {
                match self.stack.pop() {
                    Some(addr) => {
                        self.pc = addr;
                    },
                    None => {
                        return Err(ChipError::StackUnderflow);
                    },
                }
            },
            Instr::Jp { nnn } => {
                self.pc = nnn;
            },
            Instr::Call { nnn } => {
                if self.stack.len() >= STACK_DEPTH {
                    return Err(ChipError::StackOverflow);
                }
                self.stack.push(next);
                self.pc = nnn;
            },
            Instr::JpV0 { nnn } => {
                self.pc = nnn + self.v[0] as u16;
            },
            _ => {},
        }
        proof {
            assert(self@.memory =~= step(old(self)@, ins, rnd)->Ok_0.memory);
            assert(self@.v =~= step(old(self)@, ins, rnd)->Ok_0.v);
            assert(self@.stack =~= step(old(self)@, ins, rnd)->Ok_0.stack);
            assert(self@.display =~= step(old(self)@, ins, rnd)->Ok_0.display);
        }
        Ok(())
    }

    /// Conditional skips.
    fn exec_skip(&mut self, ins: Instr, rnd: u8) -> (r: Result<(), ChipError>)
        requires
            old(self).wf(),
            operands_in_range(ins),
            old(self)@.pc + 4 <= u16::MAX,
            ins is SeVb || ins is SneVb || ins is SeVv || ins is SneVv || ins is Skp || ins is Sknp,
        ensures
            final(self).wf(),
            final(self).speed_spec() == old(self).speed_spec(),
            outcome(step(old(self)@, ins, rnd), r, old(self)@, final(self)@),
    {
        proof {
            self.keyboard.lemma_len();
            self.renderer.lemma_len();
        }
        let next = self.pc + 2;
        match ins {
            Instr::SeVb { x, kk } => {
                self.pc = if self.v[x as usize] == kk { next + 2 } else { next };
            },
            Instr::SneVb { x, kk } => {
                self.pc = if self.v[x as usize] != kk { next + 2 } else { next };
            },
            Instr::SeVv { x, y } => {
                self.pc = if self.v[x as usize] == self.v[y as usize] { next + 2 } else { next };
            },
            Instr::SneVv { x, y } => {
                self.pc = if self.v[x as usize] != self.v[y as usize] { next + 2 } else { next };
            },
            Instr::Skp { x } => {
                let down = self.keyboard.is_key_pressed(self.v[x as usize]);
                self.pc = if down { next + 2 } else { next };
            },
            Instr::Sknp { x } => {
                let down = self.keyboard.is_key_pressed(self.v[x as usize]);
                self.pc = if !down { next + 2 } else { next };
            },
            _ => {},
        }
        proof {
            assert(self@.memory =~= step(old(self)@, ins, rnd)->Ok_0.memory);
            assert(self@.v =~= step(old(self)@, ins, rnd)->Ok_0.v);
            assert(self@.stack =~= step(old(self)@, ins, rnd)->Ok_0.stack);
            assert(self@.display =~= step(old(self)@, ins, rnd)->Ok_0.display);
        }
        Ok(())
    }

    /// Register loads and bitwise operations.
    fn exec_load(&mut self, ins: Instr, rnd: u8) -> (r: Result<(), ChipError>)
        requires
            old(self).wf(),
            operands_in_range(ins),
            old(self)@.pc + 4 <= u16::MAX,
            ins is LdVb || ins is AddVb || ins is LdVv || ins is Or || ins is And || ins is Xor || ins is Rnd,
        ensures
            final(self).wf(),
            final(self).speed_spec() == old(self).speed_spec(),
            outcome(step(old(self)@, ins, rnd), r, old(self)@, final(self)@),
    {
        proof {
            self.keyboard.lemma_len();
            self.renderer.lemma_len();
        }
        let next = self.pc + 2;
        match ins {
            Instr::LdVb { x, kk } => {
                self.v[x as usize] = kk;
                self.pc = next;
            },
            Instr::AddVb { x, kk } => {
                self.v[x as usize] = ((self.v[x as usize] as u16 + kk as u16) % 256) as u8;
                self.pc = next;
            },
            Instr::LdVv { x, y } => {
                self.v[x as usize] = self.v[y as usize];
                self.pc = next;
            },
            Instr::Or { x, y } => {
                self.v[x as usize] = self.v[x as usize] | self.v[y as usize];
                self.pc = next;
            },
            Instr::And { x, y } => {
                self.v[x as usize] = self.v[x as usize] & self.v[y as usize];
                self.pc = next;
            },
            Instr::Xor { x, y } => {
                self.v[x as usize] = self.v[x as usize] ^ self.v[y as usize];
                self.pc = next;
            },
            Instr::Rnd { x, kk } => {
                self.v[x as usize] = rnd & kk;
                self.pc = next;
            },
            _ => {},
        }
        proof {
            assert(self@.memory =~= step(old(self)@, ins, rnd)->Ok_0.memory);
            assert(self@.v =~= step(old(self)@, ins, rnd)->Ok_0.v);
            assert(self@.stack =~= step(old(self)@, ins, rnd)->Ok_0.stack);
            assert(self@.display =~= step(old(self)@, ins, rnd)->Ok_0.display);
        }
        Ok(())
    }

    /// Sets `VF` to `flag`, then `Vx` to `val`, and moves past the instruction.
    fn write_flag_and_reg(&mut self, flag: bool, x: u8, val: u8)
        requires
            old(self).wf(),
            x < 16,
            old(self)@.pc + 2 <= u16::MAX,
        ensures
            final(self).wf(),
            final(self).speed_spec() == old(self).speed_spec(),
            final(self)@ == with_flag_reg(advanced(old(self)@), flag, x, val),
    {
        self.v[FLAG] = if flag { 1 } else { 0 };
        self.v[x as usize] = val;
        self.pc = self.pc + 2;
        proof {
            assert(self@.v =~= with_flag_reg(advanced(old(self)@), flag, x, val).v);
        }
    }

    /// Addition and subtraction, with the flag register as carry or no-borrow.
    fn exec_add_sub(&mut self, ins: Instr, rnd: u8) -> (r: Result<(), ChipError>)
        requires
            old(self).wf(),
            operands_in_range(ins),
            old(self)@.pc + 4 <= u16::MAX,
            ins is AddVv || ins is Sub || ins is Subn,
        ensures
            final(self).wf(),
            final(self).speed_spec() == old(self).speed_spec(),
            outcome(step(old(self)@, ins, rnd), r, old(self)@, final(self)@),
    {
        match ins {
            Instr::AddVv { x, y } => {
                let sum = self.v[x as usize] as u16 + self.v[y as usize] as u16;
                self.write_flag_and_reg(sum > 255, x, (sum % 256) as u8);
            },
            Instr::Sub { x, y } => {
                let vx = self.v[x as usize];
                let vy = self.v[y as usize];
                let diff = ((vx as u16 + 256 - vy as u16) % 256) as u8;
                proof {
                    lemma_wrapping_sub(vx, vy);
                }
                self.write_flag_and_reg(vx > vy, x, diff);
            },
            Instr::Subn { x, y } => {
                let vx = self.v[x as usize];
                let vy = self.v[y as usize];
                let diff = ((vy as u16 + 256 - vx as u16) % 256) as u8;
                proof {
                    lemma_wrapping_sub(vy, vx);
                }
                self.write_flag_and_reg(vy > vx, x, diff);
            },
            _ => {},
        }
        Ok(())
    }

    /// Shifts by one bit, with the flag register taking the bit shifted out.
    fn exec_shift(&mut self, ins: Instr, rnd: u8) -> (r: Result<(), ChipError>)
        requires
            old(self).wf(),
            operands_in_range(ins),
            old(self)@.pc + 4 <= u16::MAX,
            ins is Shr || ins is Shl,
        ensures
            final(self).wf(),
            final(self).speed_spec() == old(self).speed_spec(),
            outcome(step(old(self)@, ins, rnd), r, old(self)@, final(self)@),
    {
        match ins {
            Instr::Shr { x } => {
                let vx = self.v[x as usize];
                self.write_flag_and_reg(vx % 2 == 1, x, vx / 2);
            },
            Instr::Shl { x } => {
                let vx = self.v[x as usize];
                self.write_flag_and_reg(vx >= 128, x, ((vx as u16 * 2) % 256) as u8);
            },
            _ => {},
        }
        Ok(())
    }

    /// Index register, timers and key wait.
    fn exec_misc(&mut self, ins: Instr, rnd: u8) -> (r: Result<(), ChipError>)
        requires
            old(self).wf(),
            operands_in_range(ins),
            old(self)@.pc + 4 <= u16::MAX,
            ins is LdI || ins is LdVDt || ins is LdK || ins is LdDtV || ins is LdStV || ins is AddI || ins is LdF,
        ensures
            final(self).wf(),
            final(self).speed_spec() == old(self).speed_spec(),
            outcome(step(old(self)@, ins, rnd), r, old(self)@, final(self)@),
    {
        proof {
            self.keyboard.lemma_len();
            self.renderer.lemma_len();
        }
        let next = self.pc + 2;
        match ins {
            Instr::LdI { nnn } => {
                self.i = nnn;
                self.pc = next;
            },
            Instr::LdVDt { x } => {
                self.v[x as usize] = self.delay_timer;
                self.pc = next;
            },
            Instr::LdK { x } => {
                self.wait_for_key = Some(x);
                self.pc = next;
            },
            Instr::LdDtV { x } => {
                self.delay_timer = self.v[x as usize];
                self.pc = next;
            },
            Instr::LdStV { x } => {
                self.sound_timer = self.v[x as usize];
                self.pc = next;
            },
            Instr::AddI { x } => {
                self.i = ((self.i as u32 + self.v[x as usize] as u32) % 0x10000) as u16;
                self.pc = next;
            },
            Instr::LdF { x } => {
                self.i = self.v[x as usize] as u16 * 5;
                self.pc = next;
            },
            _ => {},
        }
        proof {
            assert(self@.memory =~= step(old(self)@, ins, rnd)->Ok_0.memory);
            assert(self@.v =~= step(old(self)@, ins, rnd)->Ok_0.v);
            assert(self@.stack =~= step(old(self)@, ins, rnd)->Ok_0.stack);
            assert(self@.display =~= step(old(self)@, ins, rnd)->Ok_0.display);
        }
        Ok(())
    }

    /// Transfers between registers and memory at `I`.
    fn exec_memory(&mut self, ins: Instr, rnd: u8) -> (r: Result<(), ChipError>)
        requires
            old(self).wf(),
            operands_in_range(ins),
            old(self)@.pc + 4 <= u16::MAX,
            ins is LdB || ins is LdVsToMem || ins is LdVsFromMem,
        ensures
            final(self).wf(),
            final(self).speed_spec() == old(self).speed_spec(),
            outcome(step(old(self)@, ins, rnd), r, old(self)@, final(self)@),
    {
        proof {
            self.keyboard.lemma_len();
            self.renderer.lemma_len();
        }
        let next = self.pc + 2;
        match ins {
            Instr::LdB { x } => {
                if self.i as usize + 3 > MEMORY_SIZE {
                    return Err(ChipError::OutOfBoundsMemoryAccess);
                }
                let vx = self.v[x as usize];
                let at = self.i as usize;
                self.memory.set(at, vx / 100);
                self.memory.set(at + 1, (vx % 100) / 10);
                self.memory.set(at + 2, vx % 10);
                self.pc = next;
            },
            Instr::LdVsToMem { x } => {
                if self.i as usize + x as usize + 1 > MEMORY_SIZE {
                    return Err(ChipError::OutOfBoundsMemoryAccess);
                }
                self.store_registers(x);
                self.pc = next;
            },
            Instr::LdVsFromMem { x } => {
                if self.i as usize + x as usize + 1 > MEMORY_SIZE {
                    return Err(ChipError::OutOfBoundsMemoryAccess);
                }
                self.load_registers(x);
                self.pc = next;
            },
            _ => {},
        }
        proof {
            assert(self@.memory =~= step(old(self)@, ins, rnd)->Ok_0.memory);
            assert(self@.v =~= step(old(self)@, ins, rnd)->Ok_0.v);
            assert(self@.stack =~= step(old(self)@, ins, rnd)->Ok_0.stack);
            assert(self@.display =~= step(old(self)@, ins, rnd)->Ok_0.display);
        }
        Ok(())
    }

    /// `Fx55`: copies `V0..=Vx` to memory from address `I` on.
    fn store_registers(&mut self, x: u8)
        requires
            old(self).wf(),
            x < 16,
            old(self).i + x + 1 <= MEMORY_SIZE,
        ensures
            final(self).wf(),
            final(self).speed_spec() == old(self).speed_spec(),
            final(self)@ == (ChipState {
                memory: Seq::new(
                    MEMORY_SIZE as nat,
                    |j: int|
                        if old(self).i <= j <= old(self).i + x {
                            old(self)@.v[j - old(self).i]
                        } else {
                            old(self)@.memory[j]
                        },
                ),
                ..old(self)@
            }),
    {
        let base = self.i as usize;
        let mut j: usize = 0;
        proof {
            assert(self@.memory =~= Seq::new(
                MEMORY_SIZE as nat,
                |k: int|
                    if base <= k < base + j {
                        old(self)@.v[k - base]
                    } else {
                        old(self)@.memory[k]
                    },
            ));
        }
        while j <= x as usize
            invariant
                self.wf(),
                x < 16,
                base == old(self).i,
                base + x + 1 <= MEMORY_SIZE,
                j <= x + 1,
                self@ == (ChipState {
                    memory: Seq::new(
                        MEMORY_SIZE as nat,
                        |k: int|
                            if base <= k < base + j {
                                old(self)@.v[k - base]
                            } else {
                                old(self)@.memory[k]
                            },
                    ),
                    ..old(self)@
                }),
                self.speed == old(self).speed,
                self.renderer == old(self).renderer,
            decreases x + 1 - j,
        {
            let b = self.v[j];
            self.memory.set(base + j, b);
            j = j + 1;
            proof {
                assert(self@.memory =~= Seq::new(
                    MEMORY_SIZE as nat,
                    |k: int|
                        if base <= k < base + j {
                            old(self)@.v[k - base]
                        } else {
                            old(self)@.memory[k]
                        },
                ));
            }
        }
        proof {
            assert(self@.memory =~= Seq::new(
                MEMORY_SIZE as nat,
                |k: int|
                    if old(self).i <= k <= old(self).i + x {
                        old(self)@.v[k - old(self).i]
                    } else {
                        old(self)@.memory[k]
                    },
            ));
        }
    }

    /// `Fx65`: fills `V0..=Vx` from memory at address `I` on.
    fn load_registers(&mut self, x: u8)
        requires
            old(self).wf(),
            x < 16,
            old(self).i + x + 1 <= MEMORY_SIZE,
        ensures
            final(self).wf(),
            final(self).speed_spec() == old(self).speed_spec(),
            final(self)@ == (ChipState {
                v: Seq::new(
                    16,
                    |j: int|
                        if j <= x {
                            old(self)@.memory[old(self).i + j]
                        } else {
                            old(self)@.v[j]
                        },
                ),
                ..old(self)@
            }),
    {
        let base = self.i as usize;
        let mut j: usize = 0;
        proof {
            assert(self@.v =~= Seq::new(
                16,
                |k: int|
                    if k < j {
                        old(self)@.memory[base + k]
                    } else {
                        old(self)@.v[k]
                    },
            ));
        }
        while j <= x as usize
            invariant
                self.wf(),
                x < 16,
                base == old(self).i,
                base + x + 1 <= MEMORY_SIZE,
                j <= x + 1,
                self@ == (ChipState {
                    v: Seq::new(
                        16,
                        |k: int|
                            if k < j {
                                old(self)@.memory[base + k]
                            } else {
                                old(self)@.v[k]
                            },
                    ),
                    ..old(self)@
                }),
                self.speed == old(self).speed,
                self.renderer == old(self).renderer,
            decreases x + 1 - j,
        {
            let b = self.memory[base + j];
            self.v[j] = b;
            j = j + 1;
            proof {
                assert(self@.v =~= Seq::new(
                    16,
                    |k: int|
                        if k < j {
                            old(self)@.memory[base + k]
                        } else {
                            old(self)@.v[k]
                        },
                ));
            }
        }
        proof {
            assert(self@.v =~= Seq::new(
                16,
                |k: int|
                    if k <= x {
                        old(self)@.memory[old(self).i + k]
                    } else {
                        old(self)@.v[k]
                    },
            ));
        }
    }

    /// `Dxyn`: XORs the `n`-row sprite at `I` onto the framebuffer with its
    /// corner at `(Vx, Vy)`; `VF` records whether any lit pixel went dark.
    fn drw(&mut self, x: u8, y: u8, n: u8) -> (r: Result<(), ChipError>)
        requires
            old(self).wf(),
            x < 16,
            y < 16,
            n < 16,
            old(self)@.pc + 2 <= u16::MAX,
        ensures
            final(self).wf(),
            final(self).speed_spec() == old(self).speed_spec(),
            outcome(step(old(self)@, Instr::Drw { x, y, n }, 0), r, old(self)@, final(self)@),
    {
        let base = self.i as usize;
        if base + n as usize > MEMORY_SIZE {
            return Err(ChipError::OutOfBoundsMemoryAccess);
        }
        proof {
            self.renderer.lemma_len();
        }
        let vx = self.v[x as usize];
        let vy = self.v[y as usize];
        let ghost d0 = self.renderer@;
        let ghost mem = self.memory@;
        let ghost (bi, bn, bx, by) = (base as int, n as int, vx as int, vy as int);
        let mut collided = false;
        let mut row: usize = 0;
        while row < n as usize
            invariant
                self.renderer.wf(),
                self.renderer@.len() == PIXELS,
                self.renderer.scale_spec() == DISPLAY_SCALE,
                self@ == (ChipState { display: self.renderer@, ..old(self)@ }),
                self.speed == old(self).speed,
                d0 == old(self)@.display,
                mem == old(self)@.memory,
                base == old(self).i,
                base + n <= MEMORY_SIZE,
                n < 16,
                bi == base,
                bn == n,
                bx == vx,
                by == vy,
                row <= n,
                state_wf(old(self)@),
                forall|p: int|
                    0 <= p < PIXELS ==> #[trigger] self.renderer@[p] == (d0[p] != covered_before(
                        mem,
                        bi,
                        bn,
                        bx,
                        by,
                        p,
                        row as int,
                        0,
                    )),
                collided == exists|p: int|
                    0 <= p < PIXELS && #[trigger] covered_before(mem, bi, bn, bx, by, p, row as int, 0)
                        && d0[p],
            decreases n - row,
        {
            let byte = self.memory[base + row];
            let mut col: u8 = 0;
            while col < 8
                invariant
                    self.renderer.wf(),
                    self.renderer@.len() == PIXELS,
                    self.renderer.scale_spec() == DISPLAY_SCALE,
                    self@ == (ChipState { display: self.renderer@, ..old(self)@ }),
                    self.speed == old(self).speed,
                    d0 == old(self)@.display,
                    mem == old(self)@.memory,
                    base + n <= MEMORY_SIZE,
                    bi == base,
                    bn == n,
                    bx == vx,
                    by == vy,
                    row < n,
                    n < 16,
                    col <= 8,
                    byte == mem[bi + row],
                    state_wf(old(self)@),
                    forall|p: int|
                        0 <= p < PIXELS ==> #[trigger] self.renderer@[p] == (d0[p] != covered_before(
                            mem,
                            bi,
                            bn,
                            bx,
                            by,
                            p,
                            row as int,
                            col as int,
                        )),
                    collided == exists|p: int|
                        0 <= p < PIXELS && #[trigger] covered_before(
                            mem,
                            bi,
                            bn,
                            bx,
                            by,
                            p,
                            row as int,
                            col as int,
                        ) && d0[p],
                decreases 8 - col,
            {
                let ghost t = pixel_index(bx + col, by + row);
                proof {
                    lemma_cell_pixel(bx, by, row as int, col as int);
                }
                let bit = (byte >> (7 - col)) & 1 == 1;
                let ghost prev = self.renderer@;
                let ghost was_collided = collided;
                if bit {
                    let px = ((vx as usize + col as usize) % 64) as u8;
                    let py = ((vy as usize + row) % 32) as u8;
                    proof {
                        assert(pixel_index(px as int, py as int) == t) by (nonlinear_arith)
                            requires
                                px == (bx + col) % 64,
                                py == (by + row) % 32,
                                t == pixel_index(bx + col, by + row),
                        ;
                    }
                    let was = self.renderer.xor_pixel(px, py);
                    if was {
                        collided = true;
                    }
                }
                proof {
                    assert(sprite_covers(mem, bi, bn, bx, by, t) == bit);
                    assert forall|p: int| 0 <= p < PIXELS implies #[trigger] covered_before(
                        mem,
                        bi,
                        bn,
                        bx,
                        by,
                        p,
                        row as int,
                        col + 1,
                    ) == (covered_before(mem, bi, bn, bx, by, p, row as int, col as int) || (p == t
                        && bit)) by {}
                    assert forall|p: int| 0 <= p < PIXELS implies #[trigger] self.renderer@[p] == (
                    d0[p] != covered_before(mem, bi, bn, bx, by, p, row as int, col + 1)) by {
                        if p == t {
                        } else {
                            assert(self.renderer@[p] == prev[p]);
                        }
                    }
                    if collided {
                        if !was_collided {
                            assert(covered_before(mem, bi, bn, bx, by, t, row as int, col + 1) && d0[t]);
                        } else {
                            let q = choose|q: int|
                                0 <= q < PIXELS && #[trigger] covered_before(
                                    mem,
                                    bi,
                                    bn,
                                    bx,
                                    by,
                                    q,
                                    row as int,
                                    col as int,
                                ) && d0[q];
                            assert(covered_before(mem, bi, bn, bx, by, q, row as int, col + 1));
                        }
                    } else {
                        assert forall|q: int|
                            0 <= q < PIXELS && #[trigger] covered_before(
                                mem,
                                bi,
                                bn,
                                bx,
                                by,
                                q,
                                row as int,
                                col + 1,
                            ) implies !d0[q] by {
                            if q != t {
                                assert(covered_before(mem, bi, bn, bx, by, q, row as int, col as int));
                            }
                        }
                    }
                }
                col = col + 1;
            }
            proof {
                assert forall|p: int| 0 <= p < PIXELS implies #[trigger] covered_before(
                    mem,
                    bi,
                    bn,
                    bx,
                    by,
                    p,
                    row as int,
                    8,
                ) == covered_before(mem, bi, bn, bx, by, p, row + 1, 0) by {}
                if collided {
                    let q = choose|q: int|
                        0 <= q < PIXELS && #[trigger] covered_before(
                            mem,
                            bi,
                            bn,
                            bx,
                            by,
                            q,
                            row as int,
                            8,
                        ) && d0[q];
                    assert(covered_before(mem, bi, bn, bx, by, q, row + 1, 0));
                } else {
                    assert forall|q: int|
                        0 <= q < PIXELS && #[trigger] covered_before(mem, bi, bn, bx, by, q, row + 1, 0)
                        implies !d0[q] by {
                        assert(covered_before(mem, bi, bn, bx, by, q, row as int, 8));
                    }
                }
            }
            row = row + 1;
        }
        proof {
            assert forall|p: int| 0 <= p < PIXELS implies #[trigger] covered_before(
                mem,
                bi,
                bn,
                bx,
                by,
                p,
                bn,
                0,
            ) == sprite_covers(mem, bi, bn, bx, by, p) by {}
            assert(self.renderer@ =~= drawn(d0, mem, bi, bn, bx, by));
            if collided {
                let q = choose|q: int|
                    0 <= q < PIXELS && #[trigger] covered_before(mem, bi, bn, bx, by, q, bn, 0)
                        && d0[q];
                assert(sprite_covers(mem, bi, bn, bx, by, q));
            } else {
                assert forall|q: int|
                    0 <= q < PIXELS && #[trigger] sprite_covers(mem, bi, bn, bx, by, q) implies !d0[q] by {
                    assert(covered_before(mem, bi, bn, bx, by, q, bn, 0));
                }
            }
            assert(collided == collides(d0, mem, bi, bn, bx, by));
        }
        self.v[FLAG] = if collided { 1 } else { 0 };
        self.pc = self.pc + 2;
        proof {
            assert(self@.v =~= step(old(self)@, Instr::Drw { x, y, n }, 0)->Ok_0.v);
        }
        Ok(())
    }
}

/// Once a tick fails, further random bytes change nothing.
proof fn lemma_run_ticks_stops(s: ChipState, rnds: Seq<u8>, more: Seq<u8>)
    requires
        run_ticks(s, rnds).1 is Err,
    ensures
        run_ticks(s, rnds + more) == run_ticks(s, rnds),
    decreases more.len(),
{
    if more.len() > 0 {
        lemma_run_ticks_stops(s, rnds, more.drop_last());
        assert((rnds + more).drop_last() =~= rnds + more.drop_last());
    } else {
        assert(rnds + more =~= rnds);
    }
}

/// Subtraction modulo 256 computed without going below zero.
proof fn lemma_wrapping_sub(a: u8, b: u8)
    ensures
        ((a + 256 - b) % 256) as u8 == ((a - b) % 256) as u8,
{
    assert((a + 256 - b) % 256 == (a - b) % 256) by (nonlinear_arith)
        requires
            0 <= a < 256,
            0 <= b < 256,
    ;
}

} // verus!
