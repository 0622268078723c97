use vstd::prelude::*;

verus! {

/// A decoded instruction, with its operand fields.
///
/// `x` and `y` name registers, `kk` is an 8-bit immediate, `nnn` a 12-bit
/// address and `n` a 4-bit sprite height.
#[derive(PartialEq, Eq, Structural, Debug, Clone, Copy)]
pub enum Instr {
    /// `00E0`: clear the display.
    Cls,
    /// `00EE`: return from a subroutine.
    Ret,
    /// `1nnn`: jump to `nnn`.
    Jp { nnn: u16 },
    /// `2nnn`: call the subroutine at `nnn`.
    Call { nnn: u16 },
    /// `3xkk`: skip the next instruction if `Vx == kk`.
    SeVb { x: u8, kk: u8 },
    /// `4xkk`: skip the next instruction if `Vx != kk`.
    SneVb { x: u8, kk: u8 },
    /// `5xy0`: skip the next instruction if `Vx == Vy`.
    SeVv { x: u8, y: u8 },
    /// `6xkk`: `Vx = kk`.
    LdVb { x: u8, kk: u8 },
    /// `7xkk`: `Vx = Vx + kk`, wrapping, flag untouched.
    AddVb { x: u8, kk: u8 },
    /// `8xy0`: `Vx = Vy`.
    LdVv { x: u8, y: u8 },
    /// `8xy1`: `Vx = Vx | Vy`.
    Or { x: u8, y: u8 },
    /// `8xy2`: `Vx = Vx & Vy`.
    And { x: u8, y: u8 },
    /// `8xy3`: `Vx = Vx ^ Vy`.
    Xor { x: u8, y: u8 },
    /// `8xy4`: `Vx = Vx + Vy`, `VF` = carry.
    AddVv { x: u8, y: u8 },
    /// `8xy5`: `Vx = Vx - Vy`, `VF` = no borrow.
    Sub { x: u8, y: u8 },
    /// `8xy6`: `Vx = Vx >> 1`, `VF` = the bit shifted out.
    Shr { x: u8 },
    /// `8xy7`: `Vx = Vy - Vx`, `VF` = no borrow.
    Subn { x: u8, y: u8 },
    /// `8xyE`: `Vx = Vx << 1`, `VF` = the bit shifted out.
    Shl { x: u8 },
    /// `9xy0`: skip the next instruction if `Vx != Vy`.
    SneVv { x: u8, y: u8 },
    /// `Annn`: `I = nnn`.
    LdI { nnn: u16 },
    /// `Bnnn`: jump to `nnn + V0`.
    JpV0 { nnn: u16 },
    /// `Cxkk`: `Vx` = a random byte AND `kk`.
    Rnd { x: u8, kk: u8 },
    /// `Dxyn`: draw the `n`-byte sprite at `I` at `(Vx, Vy)`, `VF` = collision.
    Drw { x: u8, y: u8, n: u8 },
    /// `Ex9E`: skip the next instruction if key `Vx` is down.
    Skp { x: u8 },
    /// `ExA1`: skip the next instruction if key `Vx` is up.
    Sknp { x: u8 },
    /// `Fx07`: `Vx` = delay timer.
    LdVDt { x: u8 },
    /// `Fx0A`: wait for a key press and store its code in `Vx`.
    LdK { x: u8 },
    /// `Fx15`: delay timer = `Vx`.
    LdDtV { x: u8 },
    /// `Fx18`: sound timer = `Vx`.
    LdStV { x: u8 },
    /// `Fx1E`: `I = I + Vx`.
    AddI { x: u8 },
    /// `Fx29`: `I` = address of the glyph of digit `Vx`.
    LdF { x: u8 },
    /// `Fx33`: store the decimal digits of `Vx` at `I`, `I + 1`, `I + 2`.
    LdB { x: u8 },
    /// `Fx55`: store `V0..=Vx` at `I..=I + x`.
    LdVsToMem { x: u8 },
    /// `Fx65`: load `V0..=Vx` from `I..=I + x`.
    LdVsFromMem { x: u8 },
}

/// Bits 8-11 of an instruction word.
pub open spec fn field_x(op: u16) -> u8 {
    ((op >> 8u16) & 0xFu16) as u8
}

/// Bits 4-7 of an instruction word.
pub open spec fn field_y(op: u16) -> u8 {
    ((op >> 4u16) & 0xFu16) as u8
}

/// Bits 0-7 of an instruction word.
pub open spec fn field_kk(op: u16) -> u8 {
    (op & 0xFFu16) as u8
}

/// Bits 0-11 of an instruction word.
pub open spec fn field_nnn(op: u16) -> u16 {
    op & 0xFFFu16
}

/// Bits 0-3 of an instruction word.
pub open spec fn field_n(op: u16) -> u8 {
    (op & 0xFu16) as u8
}

/// Bits 12-15 of an instruction word: the instruction group.
pub open spec fn field_group(op: u16) -> u16 {
    op >> 12u16
}

/// The instruction that a word encodes, or `None` for a word that matches no
/// row of the instruction table.
pub open spec fn decode_spec(op: u16) -> Option<Instr> {
    let g = field_group(op);
    let x = field_x(op);
    let y = field_y(op);
    let kk = field_kk(op);
    let nnn = field_nnn(op);
    let n = field_n(op);
    if op == 0x00E0 {
        Some(Instr::Cls)
    } else if op == 0x00EE {
        Some(Instr::Ret)
    } else if g == 1 {
        Some(Instr::Jp { nnn })
    } else if g == 2 {
        Some(Instr::Call { nnn })
    } else if g == 3 {
        Some(Instr::SeVb { x, kk })
    } else if g == 4 {
        Some(Instr::SneVb { x, kk })
    } else if g == 5 && n == 0 {
        Some(Instr::SeVv { x, y })
    } else if g == 6 {
        Some(Instr::LdVb { x, kk })
    } else if g == 7 {
        Some(Instr::AddVb { x, kk })
    } else if g == 8 && n == 0 {
        Some(Instr::LdVv { x, y })
    } else if g == 8 && n == 1 {
        Some(Instr::Or { x, y })
    } else if g == 8 && n == 2 {
        Some(Instr::And { x, y })
    } else if g == 8 && n == 3 {
        Some(Instr::Xor { x, y })
    } else if g == 8 && n == 4 {
        Some(Instr::AddVv { x, y })
    } else if g == 8 && n == 5 {
        Some(Instr::Sub { x, y })
    } else if g == 8 && n == 6 {
        Some(Instr::Shr { x })
    } else if g == 8 && n == 7 {
        Some(Instr::Subn { x, y })
    } else if g == 8 && n == 0xE {
        Some(Instr::Shl { x })
    } else if g == 9 && n == 0 {
        Some(Instr::SneVv { x, y })
    } else if g == 0xA {
        Some(Instr::LdI { nnn })
    } else if g == 0xB {
        Some(Instr::JpV0 { nnn })
    } else if g == 0xC {
        Some(Instr::Rnd { x, kk })
    } else if g == 0xD {
        Some(Instr::Drw { x, y, n })
    } else if g == 0xE && kk == 0x9E {
        Some(Instr::Skp { x })
    } else if g == 0xE && kk == 0xA1 {
        Some(Instr::Sknp { x })
    } else if g == 0xF && kk == 0x07 {
        Some(Instr::LdVDt { x })
    } else if g == 0xF && kk == 0x0A {
        Some(Instr::LdK { x })
    } else if g == 0xF && kk == 0x15 {
        Some(Instr::LdDtV { x })
    } else if g == 0xF && kk == 0x18 {
        Some(Instr::LdStV { x })
    } else if g == 0xF && kk == 0x1E {
        Some(Instr::AddI { x })
    } else if g == 0xF && kk == 0x29 {
        Some(Instr::LdF { x })
    } else if g == 0xF && kk == 0x33 {
        Some(Instr::LdB { x })
    } else if g == 0xF && kk == 0x55 {
        Some(Instr::LdVsToMem { x })
    } else if g == 0xF && kk == 0x65 {
        Some(Instr::LdVsFromMem { x })
    } else {
        None
    }
}

/// Operand fields are within their widths: registers and heights below 16,
/// addresses below `0x1000`.
pub open spec fn operands_in_range(ins: Instr) -> bool {
    match ins {
        Instr::Cls | Instr::Ret => true,
        Instr::Jp { nnn } | Instr::Call { nnn } | Instr::LdI { nnn } | Instr::JpV0 { nnn } => nnn
            < 0x1000,
        Instr::SeVb { x, .. } | Instr::SneVb { x, .. } | Instr::LdVb { x, .. } | Instr::AddVb {
            x,
            ..
        } | Instr::Rnd { x, .. } => x < 16,
        Instr::SeVv { x, y } | Instr::LdVv { x, y } | Instr::Or { x, y } | Instr::And { x, y }
        | Instr::Xor { x, y } | Instr::AddVv { x, y } | Instr::Sub { x, y } | Instr::Subn { x, y }
        | Instr::SneVv { x, y } => x < 16 && y < 16,
        Instr::Drw { x, y, n } => x < 16 && y < 16 && n < 16,
        Instr::Shr { x } | Instr::Shl { x } | Instr::Skp { x } | Instr::Sknp { x } | Instr::LdVDt {
            x,
        } | Instr::LdK { x } | Instr::LdDtV { x } | Instr::LdStV { x } | Instr::AddI { x }
        | Instr::LdF { x } | Instr::LdB { x } | Instr::LdVsToMem { x } | Instr::LdVsFromMem {
            x,
        } => x < 16,
    }
}

/// Splits an instruction word into its operation and operands.
pub fn decode(op: u16) -> (r: Option<Instr>)
    ensures
        r == decode_spec(op),
        r matches Some(ins) ==> operands_in_range(ins),
{
    let g = op >> 12;
    let x = ((op >> 8) & 0xF) as u8;
    let y = ((op >> 4) & 0xF) as u8;
    let kk = (op & 0xFF) as u8;
    let nnn = op & 0xFFF;
    let n = (op & 0xF) as u8;
    proof {
        assert(x < 16 && y < 16 && n < 16 && nnn < 0x1000 && g < 16) by (bit_vector)
            requires
                x == ((op >> 8u16) & 0xFu16) as u8,
                y == ((op >> 4u16) & 0xFu16) as u8,
                n == (op & 0xFu16) as u8,
                nnn == op & 0xFFFu16,
                g == op >> 12u16;
    }
    if op == 0x00E0 {
        Some(Instr::Cls)
    } else if op == 0x00EE {
        Some(Instr::Ret)
    } else {
        match g {
            1 => Some(Instr::Jp { nnn }),
            2 => Some(Instr::Call { nnn }),
            3 => Some(Instr::SeVb { x, kk }),
            4 => Some(Instr::SneVb { x, kk }),
            5 => if n == 0 {
                Some(Instr::SeVv { x, y })
            } else {
                None
            },
            6 => Some(Instr::LdVb { x, kk }),
            7 => Some(Instr::AddVb { x, kk }),
            8 => match n {
                0 => Some(Instr::LdVv { x, y }),
                1 => Some(Instr::Or { x, y }),
                2 => Some(Instr::And { x, y }),
                3 => Some(Instr::Xor { x, y }),
                4 => Some(Instr::AddVv { x, y }),
                5 => Some(Instr::Sub { x, y }),
                6 => Some(Instr::Shr { x }),
                7 => Some(Instr::Subn { x, y }),
                0xE => Some(Instr::Shl { x }),
                _ => None,
            },
            9 => if n == 0 {
                Some(Instr::SneVv { x, y })
            } else {
                None
            },
            0xA => Some(Instr::LdI { nnn }),
            0xB => Some(Instr::JpV0 { nnn }),
            0xC => Some(Instr::Rnd { x, kk }),
            0xD => Some(Instr::Drw { x, y, n }),
            0xE => match kk {
                0x9E => Some(Instr::Skp { x }),
                0xA1 => Some(Instr::Sknp { x }),
                _ => None,
            },
            0xF => match kk {
                0x07 => Some(Instr::LdVDt { x }),
                0x0A => Some(Instr::LdK { x }),
                0x15 => Some(Instr::LdDtV { x }),
                0x18 => Some(Instr::LdStV { x }),
                0x1E => Some(Instr::AddI { x }),
                0x29 => Some(Instr::LdF { x }),
                0x33 => Some(Instr::LdB { x }),
                0x55 => Some(Instr::LdVsToMem { x }),
                0x65 => Some(Instr::LdVsFromMem { x }),
                _ => None,
            },
            _ => None,
        }
    }
}

} // verus!
