use vstd::prelude::*;

use crate::draw::{collides, drawn, lemma_cell_pixel, sprite_covers};
use crate::glyphs::glyphs;
use crate::instr::{
    decode_spec, field_group, field_kk, field_n, field_nnn, field_x, field_y, Instr,
};
use crate::machine::{
    fetch, fetch_execute, press_spec, run_ticks, state_wf, step, tick_spec, timers_spec,
    ChipError, ChipState, FLAG, MEMORY_SIZE, STACK_DEPTH,
};
use crate::renderer::{pixel_index, PIXELS};

verus! {

/// The operand fields of the word made of bytes `hi` and `lo`.
pub proof fn lemma_word_fields(hi: u8, lo: u8)
    ensures
        ({
            let w = (hi * 256 + lo) as u16;
            &&& field_group(w) == (hi >> 4u8) as u16
            &&& field_x(w) == hi & 0xFu8
            &&& field_y(w) == lo >> 4u8
            &&& field_n(w) == lo & 0xFu8
            &&& field_kk(w) == lo
            &&& field_nnn(w) == ((hi & 0xFu8) as u16) * 256 + lo as u16
        }),
{
    let w = (hi * 256 + lo) as u16;
    assert(w == ((hi as u16) << 8u16) | (lo as u16)) by (bit_vector)
        requires
            w == (hi * 256 + lo) as u16,
    ;
    assert({
        &&& (w >> 12u16) == (hi >> 4u8) as u16
        &&& ((w >> 8u16) & 0xFu16) as u8 == hi & 0xFu8
        &&& ((w >> 4u16) & 0xFu16) as u8 == lo >> 4u8
        &&& (w & 0xFu16) as u8 == lo & 0xFu8
        &&& (w & 0xFFu16) as u8 == lo
        &&& w & 0xFFFu16 == ((hi & 0xFu8) as u16) * 256 + lo as u16
    }) by (bit_vector)
        requires
            w == ((hi as u16) << 8u16) | (lo as u16),
    ;
}

/// A running machine's tick executes the instruction at the program counter.
proof fn lemma_tick_is_step(s: ChipState, ins: Instr, rnd: u8)
    requires
        s.wait_for_key is None,
        s.pc + 1 < MEMORY_SIZE,
        decode_spec(fetch(s)) == Some(ins),
    ensures
        tick_spec(s, rnd) == step(s, ins, rnd),
{
}

/// Two ticks, one after the other.
proof fn lemma_run_two(s: ChipState, r1: u8, r2: u8)
    ensures
        run_ticks(s, seq![r1, r2]) == match tick_spec(s, r1) {
            Ok(t1) => match tick_spec(t1, r2) {
                Ok(t2) => (t2, Ok(())),
                Err(e) => (t1, Err(e)),
            },
            Err(e) => (s, Err(e)),
        },
{
    assert(seq![r1, r2].drop_last() =~= seq![r1]);
    assert(seq![r1].drop_last() =~= Seq::<u8>::empty());
    assert(run_ticks(s, Seq::<u8>::empty()) == (s, Ok::<(), ChipError>(())));
    assert(seq![r1].last() == r1);
    assert(seq![r1, r2].last() == r2);
    assert(run_ticks(s, seq![r1]) == match tick_spec(s, r1) {
        Ok(t1) => (t1, Ok::<(), ChipError>(())),
        Err(e) => (s, Err(e)),
    });
}

/// Executing `6xkk` leaves `kk` in register `x`.
pub proof fn lemma_load_then_read(s: ChipState, x: u8, kk: u8, rnd: u8)
    requires
        state_wf(s),
        s.wait_for_key is None,
        s.pc + 1 < MEMORY_SIZE,
        x < 16,
        s.memory[s.pc as int] == 0x60 + x,
        s.memory[s.pc + 1] == kk,
    ensures
        tick_spec(s, rnd) matches Ok(t) && t.v[x as int] == kk,
{
    let hi = s.memory[s.pc as int];
    lemma_word_fields(hi, kk);
    assert((hi >> 4u8) == 6 && hi & 0xFu8 == x) by (bit_vector)
        requires
            hi == 0x60 + x,
            x < 16,
    ;
    assert(fetch(s) != 0x00E0 && fetch(s) != 0x00EE);
}

/// Two `7xFF` instructions add `0x1FE` to `Vx` modulo 256 and change no other
/// register, the flag register included.
pub proof fn lemma_add_immediate_twice(s: ChipState, x: u8, r1: u8, r2: u8)
    requires
        state_wf(s),
        s.wait_for_key is None,
        s.pc + 3 < MEMORY_SIZE,
        x < 16,
        s.memory[s.pc as int] == 0x70 + x,
        s.memory[s.pc + 1] == 0xFF,
        s.memory[s.pc + 2] == 0x70 + x,
        s.memory[s.pc + 3] == 0xFF,
    ensures
        run_ticks(s, seq![r1, r2]) matches (t, Ok(())) && t.v == s.v.update(
            x as int,
            ((s.v[x as int] + 0x1FE) % 256) as u8,
        ) && t.pc == s.pc + 4,
{
    let hi = s.memory[s.pc as int];
    lemma_word_fields(hi, 0xFF);
    assert((hi >> 4u8) == 7 && hi & 0xFu8 == x) by (bit_vector)
        requires
            hi == 0x70 + x,
            x < 16,
    ;
    let ins = Instr::AddVb { x, kk: 0xFF };
    assert(fetch(s) != 0x00E0 && fetch(s) != 0x00EE);
    assert(decode_spec(fetch(s)) == Some(ins));
    lemma_tick_is_step(s, ins, r1);
    let t1 = step(s, ins, r1)->Ok_0;
    assert(t1.memory == s.memory && t1.pc == s.pc + 2 && t1.wait_for_key is None);
    assert(fetch(t1) == fetch(s));
    lemma_tick_is_step(t1, ins, r2);
    let t2 = step(t1, ins, r2)->Ok_0;
    lemma_run_two(s, r1, r2);
    let a0 = s.v[x as int] as int;
    assert(((a0 + 0xFF) % 256 + 0xFF) % 256 == (a0 + 0x1FE) % 256) by (nonlinear_arith);
    assert(t2.v =~= s.v.update(x as int, ((s.v[x as int] + 0x1FE) % 256) as u8));
}

/// Drawing the same sprite twice at the same place gives back the pixels
/// that were there before.
pub proof fn lemma_draw_twice_restores(
    disp: Seq<bool>,
    mem: Seq<u8>,
    i: int,
    n: int,
    vx: int,
    vy: int,
)
    ensures
        drawn(drawn(disp, mem, i, n, vx, vy), mem, i, n, vx, vy) == disp,
{
    assert(drawn(drawn(disp, mem, i, n, vx, vy), mem, i, n, vx, vy) =~= disp);
}

/// Drawing a sprite a second time at the same place collides exactly when the
/// sprite flips some pixel that was dark before the first draw.
pub proof fn lemma_redraw_collides(
    disp: Seq<bool>,
    mem: Seq<u8>,
    i: int,
    n: int,
    vx: int,
    vy: int,
)
    ensures
        collides(drawn(disp, mem, i, n, vx, vy), mem, i, n, vx, vy) == exists|q: int|
            0 <= q < disp.len() && #[trigger] sprite_covers(mem, i, n, vx, vy, q) && !disp[q],
{
}

/// Drawing the glyph of digit 0 twice at the same place on a dark screen
/// leaves the screen dark, and the second draw reports a collision.
pub proof fn lemma_glyph_zero_twice(s: ChipState, x: u8, y: u8, r1: u8, r2: u8)
    requires
        state_wf(s),
        x < 16,
        y < 16,
        x != FLAG,
        y != FLAG,
        s.i == 0,
        s.memory.subrange(0, 5) == glyphs().subrange(0, 5),
        s.display == Seq::new(PIXELS as nat, |_p: int| false),
    ensures
        step(s, Instr::Drw { x, y, n: 5 }, r1) matches Ok(s1) && step(
            s1,
            Instr::Drw { x, y, n: 5 },
            r2,
        ) matches Ok(s2) && s2.display == s.display && s2.v[FLAG as int] == 1,
{
    let vx = s.v[x as int] as int;
    let vy = s.v[y as int] as int;
    let s1 = step(s, Instr::Drw { x, y, n: 5 }, r1)->Ok_0;
    assert(s1.v[x as int] == s.v[x as int] && s1.v[y as int] == s.v[y as int]);
    lemma_draw_twice_restores(s.display, s.memory, 0, 5, vx, vy);
    lemma_cell_pixel(vx, vy, 0, 0);
    let p = pixel_index(vx, vy);
    assert(s.memory.subrange(0, 5)[0] == s.memory[0]);
    assert(glyphs().subrange(0, 5)[0] == glyphs()[0]);
    assert(glyphs()[0] == 0xF0u8);
    assert(s.memory[0] == 0xF0u8);
    assert((0xF0u8 >> 7u8) & 1u8 == 1u8) by (bit_vector);
    assert(sprite_covers(s.memory, 0, 5, vx, vy, p));
    assert(s1.display[p]);
    assert(collides(s1.display, s.memory, 0, 5, vx, vy));
}

/// A call followed by a return comes back to the instruction after the call,
/// with the call stack as it was.
pub proof fn lemma_call_then_return(s: ChipState, nnn: u16, r1: u8, r2: u8)
    requires
        state_wf(s),
        s.wait_for_key is None,
        s.stack.len() < STACK_DEPTH,
        s.pc + 3 < MEMORY_SIZE,
        nnn + 1 < MEMORY_SIZE,
        s.memory[s.pc as int] == 0x20 + nnn / 256,
        s.memory[s.pc + 1] == nnn % 256,
        s.memory[nnn as int] == 0x00,
        s.memory[nnn + 1] == 0xEE,
    ensures
        run_ticks(s, seq![r1, r2]) matches (t, Ok(())) && t.pc == s.pc + 2 && t.stack == s.stack,
{
    let hi = s.memory[s.pc as int];
    let lo = s.memory[s.pc + 1];
    lemma_word_fields(hi, lo);
    assert((hi >> 4u8) == 2 && ((hi & 0xFu8) as u16) * 256 + lo as u16 == nnn) by (bit_vector)
        requires
            hi == 0x20 + nnn / 256,
            lo == nnn % 256,
            nnn < 0x1000,
    ;
    let call = Instr::Call { nnn };
    assert(fetch(s) != 0x00E0 && fetch(s) != 0x00EE);
    assert(decode_spec(fetch(s)) == Some(call));
    lemma_tick_is_step(s, call, r1);
    let t1 = step(s, call, r1)->Ok_0;
    assert(t1.pc == nnn && t1.stack == s.stack.push((s.pc + 2) as u16) && t1.memory == s.memory);
    assert(fetch(t1) == 0x00EE);
    assert(decode_spec(0x00EE) == Some(Instr::Ret));
    lemma_tick_is_step(t1, Instr::Ret, r2);
    let t2 = step(t1, Instr::Ret, r2)->Ok_0;
    lemma_run_two(s, r1, r2);
    assert(t2.stack =~= s.stack);
}

/// `k` frames of the timers.
pub open spec fn timers_n(s: ChipState, k: nat) -> ChipState
    decreases k,
{
    if k == 0 {
        s
    } else {
        timers_spec(timers_n(s, (k - 1) as nat))
    }
}

/// While running, the delay timer counts down by one per frame and stops at 0.
pub proof fn lemma_timers_count_down(s: ChipState, k: nat)
    requires
        s.wait_for_key is None,
    ensures
        timers_n(s, k).wait_for_key is None,
        timers_n(s, k).delay_timer == if k >= s.delay_timer {
            0
        } else {
            s.delay_timer - k
        },
    decreases k,
{
    if k > 0 {
        lemma_timers_count_down(s, (k - 1) as nat);
    }
}

/// After `Fx15` sets the delay timer to `Vx`, `k` frames leave it at
/// `Vx - k`, and at 0 from frame `Vx` on: it never goes below 0.
pub proof fn lemma_delay_set_then_count(s: ChipState, x: u8, rnd: u8, k: nat)
    requires
        state_wf(s),
        s.wait_for_key is None,
        s.pc + 1 < MEMORY_SIZE,
        x < 16,
        s.memory[s.pc as int] == 0xF0 + x,
        s.memory[s.pc + 1] == 0x15,
    ensures
        tick_spec(s, rnd) matches Ok(t) && timers_n(t, k).delay_timer == if k >= s.v[x as int] {
            0
        } else {
            s.v[x as int] - k
        },
{
    let hi = s.memory[s.pc as int];
    lemma_word_fields(hi, 0x15);
    assert((hi >> 4u8) == 0xF && hi & 0xFu8 == x) by (bit_vector)
        requires
            hi == 0xF0 + x,
            x < 16,
    ;
    let t = tick_spec(s, rnd)->Ok_0;
    lemma_timers_count_down(t, k);
}

/// While a key is awaited, ticks and timer frames change nothing.
pub proof fn lemma_waiting_is_frozen(s: ChipState, rnds: Seq<u8>, k: nat)
    requires
        s.wait_for_key is Some,
    ensures
        run_ticks(s, rnds) == (s, Ok::<(), ChipError>(())),
        timers_n(s, k) == s,
    decreases rnds.len() + k,
{
    if rnds.len() > 0 {
        lemma_waiting_is_frozen(s, rnds.drop_last(), k);
    }
    if k > 0 {
        lemma_waiting_is_frozen(s, rnds, (k - 1) as nat);
    }
}

/// `Fx0A` enters the key wait on register `x`; from then on ticks and timer
/// frames change nothing until a key goes down. The key then lands in `Vx`,
/// the program counter is where the wait left it, and the next tick fetches
/// and executes again.
pub proof fn lemma_key_wait(s: ChipState, x: u8, rnd: u8, rnds: Seq<u8>, k: nat, key: u8, next: u8)
    requires
        state_wf(s),
        s.wait_for_key is None,
        s.pc + 1 < MEMORY_SIZE,
        x < 16,
        key < 16,
        s.memory[s.pc as int] == 0xF0 + x,
        s.memory[s.pc + 1] == 0x0A,
    ensures
        tick_spec(s, rnd) matches Ok(t) && {
            &&& t.wait_for_key == Some(x)
            &&& t.pc == s.pc + 2
            &&& run_ticks(t, rnds) == (t, Ok::<(), ChipError>(()))
            &&& timers_n(t, k) == t
            &&& press_spec(t, key).wait_for_key is None
            &&& press_spec(t, key).v[x as int] == key
            &&& press_spec(t, key).pc == t.pc
            &&& tick_spec(press_spec(t, key), next) == fetch_execute(press_spec(t, key), next)
        },
{
    let hi = s.memory[s.pc as int];
    lemma_word_fields(hi, 0x0A);
    assert((hi >> 4u8) == 0xF && hi & 0xFu8 == x) by (bit_vector)
        requires
            hi == 0xF0 + x,
            x < 16,
    ;
    let t = tick_spec(s, rnd)->Ok_0;
    lemma_waiting_is_frozen(t, rnds, k);
}

/// A group-5 word whose low nibble is not 0 encodes no instruction.
pub proof fn lemma_group5_needs_zero_nibble(op: u16)
    requires
        field_group(op) == 5,
        field_n(op) != 0,
    ensures
        decode_spec(op) is None,
{
    assert(op != 0x00E0 && op != 0x00EE) by (bit_vector)
        requires
            op >> 12u16 == 5,
    ;
}

/// The word `0x5001` is reported as unknown, and by the tick's contract the
/// state is left as it was.
pub proof fn lemma_5001_unknown(s: ChipState, rnd: u8)
    requires
        state_wf(s),
        s.wait_for_key is None,
        s.pc + 1 < MEMORY_SIZE,
        s.memory[s.pc as int] == 0x50,
        s.memory[s.pc + 1] == 0x01,
    ensures
        tick_spec(s, rnd) == Err::<ChipState, ChipError>(ChipError::UnknownOpcode(0x5001)),
{
    assert(fetch(s) == 0x5001);
    assert(0x5001u16 >> 12u16 == 5u16 && (0x5001u16 & 0xFu16) as u8 == 1u8) by (bit_vector);
    lemma_group5_needs_zero_nibble(0x5001);
}

} // verus!
