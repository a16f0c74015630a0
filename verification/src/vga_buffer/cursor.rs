use vstd::prelude::*;

verus! {

/// The CRT controller's register-select port.
pub const CURSOR_CONTROL_PORT: u16 = 0x3D4;

/// The CRT controller's data port.
pub const CURSOR_DATA_PORT: u16 = 0x3D5;

/// One byte written to one I/O port. The hardware side performs these
/// writes in order; this crate only computes them.
#[derive(Debug, Clone, Copy, PartialEq, Eq, Structural)]
pub struct PortWrite {
    pub port: u16,
    pub value: u8,
}

/// The cursor-synchronisation protocol, abstracted over the position.
pub trait CursorTrait {
    /// The linear offset `row * C + column` that the hardware cursor mirrors.
    spec fn spec_pos(&self) -> int;

    /// The two-port sequence that moves the hardware cursor to this position:
    /// register 0x0F receives the low byte of the offset, register 0x0E the
    /// high byte.
    fn update(&self) -> (writes: Vec<PortWrite>)
        requires
            0 <= self.spec_pos() < 0x10000,
        ensures
            writes@.len() == 4,
            writes@[0] == (PortWrite { port: CURSOR_CONTROL_PORT, value: 0x0F }),
            writes@[1] == (PortWrite { port: CURSOR_DATA_PORT, value: (self.spec_pos() % 256) as u8 }),
            writes@[2] == (PortWrite { port: CURSOR_CONTROL_PORT, value: 0x0E }),
            writes@[3] == (PortWrite { port: CURSOR_DATA_PORT, value: (self.spec_pos() / 256) as u8 }),
    ;

    /// The sequence that makes the cursor visible with scan-line range
    /// `[cursor_start, cursor_end]`. Registers 0x0A and 0x0B are
    /// read-modify-write; their current contents are passed in as
    /// `reg_a` and `reg_b`, the range values go in the low five bits and
    /// the high three bits already present are preserved.
    fn enable(&self, cursor_start: u8, cursor_end: u8, reg_a: u8, reg_b: u8) -> (writes: Vec<PortWrite>)
        ensures
            writes@.len() == 4,
            writes@[0] == (PortWrite { port: CURSOR_CONTROL_PORT, value: 0x0A }),
            writes@[1] == (PortWrite { port: CURSOR_DATA_PORT, value: (reg_a & 0xE0) | cursor_start }),
            writes@[2] == (PortWrite { port: CURSOR_CONTROL_PORT, value: 0x0B }),
            writes@[3] == (PortWrite { port: CURSOR_DATA_PORT, value: (reg_b & 0xE0) | cursor_end }),
    ;

    /// The sequence that hides the cursor: setting the disable bit of
    /// register 0x0A.
    fn disable(&self) -> (writes: Vec<PortWrite>)
        ensures
            writes@.len() == 2,
            writes@[0] == (PortWrite { port: CURSOR_CONTROL_PORT, value: 0x0A }),
            writes@[1] == (PortWrite { port: CURSOR_DATA_PORT, value: 0x20 }),
    ;

    /// The linear offset itself.
    fn get_vga_position(&self) -> (pos: u16)
        requires
            0 <= self.spec_pos() < 0x10000,
        ensures
            pos == self.spec_pos(),
    ;
}

/// The logical cursor position on the grid.
#[derive(Debug, Clone, Copy, PartialEq, Eq, Structural)]
pub struct Cursor {
    pub row: usize,
    pub column: usize,
}

impl CursorTrait for Cursor {
    open spec fn spec_pos(&self) -> int {
        self.row * (crate::vga_buffer::BUFFER_WIDTH as int) + self.column
    }

    fn update(&self) -> (writes: Vec<PortWrite>) {
        let pos: u16 = (self.row * crate::vga_buffer::BUFFER_WIDTH + self.column) as u16;
        let low: u8 = (pos & 0xFF) as u8;
        let high: u8 = ((pos >> 8) & 0xFF) as u8;
        proof {
            assert(pos & 0xFF == pos % 256) by (bit_vector);
            assert((pos >> 8) & 0xFF == pos / 256) by (bit_vector);
        }
        let mut writes: Vec<PortWrite> = Vec::new();
        writes.push(PortWrite { port: CURSOR_CONTROL_PORT, value: 0x0F });
        writes.push(PortWrite { port: CURSOR_DATA_PORT, value: low });
        writes.push(PortWrite { port: CURSOR_CONTROL_PORT, value: 0x0E });
        writes.push(PortWrite { port: CURSOR_DATA_PORT, value: high });
        writes
    }

    fn enable(&self, cursor_start: u8, cursor_end: u8, reg_a: u8, reg_b: u8) -> (writes: Vec<PortWrite>) {
        let mut writes: Vec<PortWrite> = Vec::new();
        writes.push(PortWrite { port: CURSOR_CONTROL_PORT, value: 0x0A });
        writes.push(PortWrite { port: CURSOR_DATA_PORT, value: (reg_a & 0xE0) | cursor_start });
        writes.push(PortWrite { port: CURSOR_CONTROL_PORT, value: 0x0B });
        writes.push(PortWrite { port: CURSOR_DATA_PORT, value: (reg_b & 0xE0) | cursor_end });
        writes
    }

    fn disable(&self) -> (writes: Vec<PortWrite>) {
        let mut writes: Vec<PortWrite> = Vec::new();
        writes.push(PortWrite { port: CURSOR_CONTROL_PORT, value: 0x0A });
        writes.push(PortWrite { port: CURSOR_DATA_PORT, value: 0x20 });
        writes
    }

    fn get_vga_position(&self) -> (pos: u16) {
        (self.row * crate::vga_buffer::BUFFER_WIDTH + self.column) as u16
    }
}

} // verus!
