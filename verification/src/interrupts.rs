use vstd::prelude::*;

use crate::vga_buffer::{Buffer, BufferView, VGABuffer};
use crate::vga_buffer::{spec_delete, spec_write_byte};

verus! {

/// The interrupt-vector offset the first controller is remapped to.
pub const PIC_1_OFFSET: u8 = 32;

/// The interrupt-vector offset the second controller is remapped to.
pub const PIC_2_OFFSET: u8 = PIC_1_OFFSET + 8;

/// The interrupt lines this subsystem handles.
#[derive(Debug, Clone, Copy, PartialEq, Eq, Structural)]
pub enum InterruptIndex {
    Timer,
    Keyboard,
}

impl InterruptIndex {
    /// The vector number of this interrupt line.
    pub open spec fn spec_index(self) -> int {
        match self {
            InterruptIndex::Timer => PIC_1_OFFSET as int,
            InterruptIndex::Keyboard => PIC_1_OFFSET as int + 1,
        }
    }

    pub fn as_u8(self) -> (v: u8)
        ensures
            v == self.spec_index(),
    {
        match self {
            InterruptIndex::Timer => PIC_1_OFFSET,
            InterruptIndex::Keyboard => PIC_1_OFFSET + 1,
        }
    }

    pub fn as_usize(self) -> (v: usize)
        ensures
            v == self.spec_index(),
    {
        self.as_u8() as usize
    }
}

/// One decoded key event, as the pipeline consumes it: a unicode code
/// point, or some raw key that has no grid effect.
#[derive(Debug, Clone, Copy, PartialEq, Eq, Structural)]
pub enum KeyInput {
    Unicode(u32),
    Raw,
}

/// The grid effect of one key event.
#[derive(Debug, Clone, Copy, PartialEq, Eq, Structural)]
pub enum KeyAction {
    /// Echo one byte at the cursor.
    Write(u8),
    /// Erase the byte left of the cursor.
    Delete,
    /// No grid effect.
    Ignore,
}

/// How one key event translates: backspace erases, an ASCII code point is
/// echoed as its byte, any other code point is echoed as the replacement
/// glyph, and raw keys have no effect.
pub open spec fn spec_translate(key: KeyInput) -> KeyAction {
    match key {
        KeyInput::Unicode(c) => if c == 8 {
            KeyAction::Delete
        } else if c < 128 {
            KeyAction::Write(c as u8)
        } else {
            KeyAction::Write(0xfe)
        },
        KeyInput::Raw => KeyAction::Ignore,
    }
}

/// What one action does to the display.
pub open spec fn spec_apply(action: KeyAction, v: BufferView) -> BufferView {
    match action {
        KeyAction::Write(b) => spec_write_byte(v, b),
        KeyAction::Delete => spec_delete(v),
        KeyAction::Ignore => v,
    }
}

/// Translates one key event into its grid effect.
pub fn translate_key(key: KeyInput) -> (action: KeyAction)
    ensures
        action == spec_translate(key),
{
    match key {
        KeyInput::Unicode(c) => {
            if c == 8 {
                KeyAction::Delete
            } else if c < 128 {
                KeyAction::Write(c as u8)
            } else {
                KeyAction::Write(0xfe)
            }
        },
        KeyInput::Raw => KeyAction::Ignore,
    }
}

/// Performs one action on the display.
pub fn apply_action(action: KeyAction, buffer: &mut Buffer)
    requires
        old(buffer)@.wf(),
    ensures
        final(buffer)@.wf(),
        final(buffer)@ == spec_apply(action, old(buffer)@),
{
    match action {
        KeyAction::Write(b) => buffer.write_byte(b),
        KeyAction::Delete => buffer.delete_byte(),
        KeyAction::Ignore => {},
    }
}

/// Consumes one decoded key event: exactly one of an echoed byte, a
/// deletion, or nothing.
pub fn handle_key(key: KeyInput, buffer: &mut Buffer)
    requires
        old(buffer)@.wf(),
    ensures
        final(buffer)@.wf(),
        final(buffer)@ == spec_apply(spec_translate(key), old(buffer)@),
{
    let action = translate_key(key);
    apply_action(action, buffer);
}

/// The keyboard input pipeline: the decoder state fed by the interrupt
/// handler one scancode byte at a time. The decoder's generic state
/// machine cannot be declared to the verifier, so the pipeline itself is
/// opaque and is driven only through the trusted calls below.
#[verifier::external_body]
pub struct KeyboardPipeline {
    decoder: pc_keyboard::PS2Keyboard<pc_keyboard::layouts::Us104Key, pc_keyboard::ScancodeSet1>,
}

/// Declares the decoder's intermediate key-event type, carried through
/// opaquely between the two decoding steps.
#[verifier::external_type_specification]
#[verifier::external_body]
pub struct ExKeyEvent(pc_keyboard::KeyEvent);

/// Declares the decoder's decoded-key type.
#[verifier::external_type_specification]
#[verifier::external_body]
pub struct ExDecodedKey(pc_keyboard::DecodedKey);

/// Relies on PS2Keyboard::new: a fresh decoder for the US 104-key layout
/// and scancode set 1, with control characters left unmapped.
#[verifier::external_body]
fn decoder_new() -> (p: KeyboardPipeline) {
    KeyboardPipeline {
        decoder: pc_keyboard::PS2Keyboard::new(
            pc_keyboard::ScancodeSet1::new(),
            pc_keyboard::layouts::Us104Key,
            pc_keyboard::HandleControl::Ignore,
        ),
    }
}

/// Relies on PS2Keyboard::add_byte: feeds one scancode byte to the state
/// machine; a protocol error or an incomplete sequence yields no event.
#[verifier::external_body]
fn decoder_add_byte(p: &mut KeyboardPipeline, scancode: u8) -> (ev: Option<pc_keyboard::KeyEvent>) {
    match p.decoder.add_byte(scancode) {
        Ok(ev) => ev,
        Err(_) => None,
    }
}

/// Relies on PS2Keyboard::process_keyevent: turns a key event into a
/// decoded key under the current modifier state.
#[verifier::external_body]
fn decoder_process(p: &mut KeyboardPipeline, ev: pc_keyboard::KeyEvent) -> (key: Option<pc_keyboard::DecodedKey>) {
    p.decoder.process_keyevent(ev)
}

/// Tells DecodedKey's variants apart: a unicode key carries its code
/// point over, a raw key carries nothing.
#[verifier::external_body]
fn key_input_of(key: pc_keyboard::DecodedKey) -> (k: KeyInput) {
    match key {
        pc_keyboard::DecodedKey::Unicode(c) => KeyInput::Unicode(c as u32),
        pc_keyboard::DecodedKey::RawKey(_) => KeyInput::Raw,
    }
}

impl KeyboardPipeline {
    pub fn new() -> KeyboardPipeline {
        decoder_new()
    }

    /// Consumes one raw scancode byte: whatever key event it decodes to,
    /// the display sees exactly one key's effect, or none at all.
    pub fn handle_scancode(&mut self, scancode: u8, buffer: &mut Buffer)
        requires
            old(buffer)@.wf(),
        ensures
            final(buffer)@.wf(),
            exists|key: KeyInput| final(buffer)@ == spec_apply(spec_translate(key), old(buffer)@),
    {
        let ghost v0 = buffer@;
        match decoder_add_byte(self, scancode) {
            Some(ev) => {
                match decoder_process(self, ev) {
                    Some(decoded) => {
                        let key = key_input_of(decoded);
                        handle_key(key, buffer);
                    },
                    None => {
                        proof {
                            assert(buffer@ == spec_apply(spec_translate(KeyInput::Raw), v0));
                        }
                    },
                }
            },
            None => {
                proof {
                    assert(buffer@ == spec_apply(spec_translate(KeyInput::Raw), v0));
                }
            },
        }
    }
}

} // verus!
