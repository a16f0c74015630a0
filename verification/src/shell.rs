pub mod commands;

use vstd::prelude::*;

use crate::error::ShellError;
use crate::vga_buffer::{Buffer, BufferView, VGABuffer};
use crate::vga_buffer::{spec_clear, spec_write_bytes};

verus! {

use vstd::string::StringExecFns;
use vstd::string::StringSliceAdditionalSpecFns;

/// The shell session: the prompt it emits and whether it is running.
pub struct Shell {
    prompt: String,
    active: bool,
}

/// The bytes of the prompt text ` $ `.
pub open spec fn prompt_bytes() -> Seq<u8> {
    seq![32u8, 36u8, 32u8]
}

impl Shell {
    /// The prompt text.
    pub closed spec fn spec_prompt(self) -> Seq<char> {
        self.prompt@
    }

    /// Whether the session has been started.
    pub closed spec fn spec_active(self) -> bool {
        self.active
    }

    /// A session is well formed when its prompt is the fixed marker text.
    pub open spec fn wf(self) -> bool {
        self.spec_prompt() == " $ "@
    }

    /// A fresh, not yet started session with the fixed prompt.
    pub fn new() -> (s: Shell)
        ensures
            s.wf(),
            !s.spec_active(),
    {
        Shell { prompt: String::from_str(" $ "), active: false }
    }

    pub fn is_active(&self) -> (a: bool)
        ensures
            a == self.spec_active(),
    {
        self.active
    }

    /// Writes the prompt at the cursor, if the session is active.
    pub fn write_prompt(&self, buffer: &mut Buffer)
        requires
            self.wf(),
            old(buffer)@.wf(),
        ensures
            final(buffer)@.wf(),
            self.spec_active() ==> final(buffer)@ == spec_write_bytes(old(buffer)@, prompt_bytes()),
            !self.spec_active() ==> final(buffer)@ == old(buffer)@,
    {
        if self.active {
            buffer.write_string(self.prompt.as_str());
            proof {
                lemma_prompt_literal_bytes();
            }
        }
    }
}

impl Shell {
    /// Starts the session: marks it active and clears the display, which
    /// re-emits the prompt.
    pub fn start_shell(&mut self, buffer: &mut Buffer) -> (r: Result<(), ShellError>)
        requires
            old(self).wf(),
            old(buffer)@.wf(),
        ensures
            final(self).wf(),
            final(self).spec_active(),
            final(buffer)@.wf(),
            final(buffer)@ == spec_clear(old(buffer)@),
            r is Ok,
    {
        self.active = true;
        buffer.clear();
        Ok(())
    }
}

/// The tokenizer's running state: finished tokens, the token being built,
/// and whether the scan is inside double quotes.
#[verifier::ext_equal]
pub struct ParseState {
    pub args: Seq<Seq<u8>>,
    pub current: Seq<u8>,
    pub in_quotes: bool,
}

/// The state before any byte is read.
pub open spec fn initial_parse_state() -> ParseState {
    ParseState { args: Seq::empty(), current: Seq::empty(), in_quotes: false }
}

/// One byte of tokenization: a space outside quotes finishes the current
/// token (empty runs produce none), a double quote toggles quoting, any
/// other byte joins the current token.
pub open spec fn parse_step(st: ParseState, b: u8) -> ParseState {
    if b == 32 && !st.in_quotes {
        if st.current.len() > 0 {
            ParseState { args: st.args.push(st.current), current: Seq::empty(), in_quotes: st.in_quotes }
        } else {
            st
        }
    } else if b == 34 {
        ParseState { in_quotes: !st.in_quotes, ..st }
    } else {
        ParseState { current: st.current.push(b), ..st }
    }
}

/// Tokenization of a whole line, byte by byte.
pub open spec fn parse_fold(st: ParseState, s: Seq<u8>) -> ParseState
    decreases s.len(),
{
    if s.len() == 0 {
        st
    } else {
        parse_fold(parse_step(st, s[0]), s.drop_first())
    }
}

pub proof fn lemma_parse_fold_snoc(st: ParseState, s: Seq<u8>, b: u8)
    ensures
        parse_fold(st, s.push(b)) == parse_step(parse_fold(st, s), b),
    decreases s.len(),
{
    if s.len() == 0 {
        assert(s.push(b)[0] == b);
        assert(s.push(b).drop_first() =~= Seq::<u8>::empty());
        assert(parse_fold(parse_step(st, b), Seq::<u8>::empty()) == parse_step(st, b));
    } else {
        assert(s.push(b)[0] == s[0]);
        assert(s.push(b).drop_first() =~= s.drop_first().push(b));
        lemma_parse_fold_snoc(parse_step(st, s[0]), s.drop_first(), b);
    }
}

/// The tokens of a command line: split on spaces outside double quotes,
/// with an unterminated quote silently closed at the end of the input.
pub open spec fn spec_tokens(s: Seq<u8>) -> Seq<Seq<u8>> {
    let st = parse_fold(initial_parse_state(), s);
    if st.current.len() > 0 {
        st.args.push(st.current)
    } else {
        st.args
    }
}

/// Tokenizes a command line.
pub fn parse_arguments(input: &Vec<u8>) -> (args: Vec<Vec<u8>>)
    ensures
        args.deep_view() == spec_tokens(input@),
{
    let mut args: Vec<Vec<u8>> = Vec::new();
    let mut current: Vec<u8> = Vec::new();
    let mut in_quotes = false;
    let n = input.len();
    let mut i: usize = 0;
    proof {
        assert(input@.take(0) =~= Seq::<u8>::empty());
        assert(args.deep_view() =~= Seq::<Seq<u8>>::empty());
    }
    while i < n
        invariant
            i <= n,
            n == input@.len(),
            (ParseState { args: args.deep_view(), current: current@, in_quotes: in_quotes })
                == parse_fold(initial_parse_state(), input@.take(i as int)),
        decreases n - i,
    {
        let ghost st0 = ParseState { args: args.deep_view(), current: current@, in_quotes: in_quotes };
        let b = input[i];
        proof {
            lemma_parse_fold_snoc(initial_parse_state(), input@.take(i as int), b);
            assert(input@.take(i as int).push(b) =~= input@.take(i as int + 1));
        }
        if b == 32 && !in_quotes {
            if current.len() > 0 {
                let finished = current;
                current = Vec::new();
                args.push(finished);
                proof {
                    assert(args.deep_view() =~~= st0.args.push(st0.current));
                }
            }
        } else if b == 34 {
            in_quotes = !in_quotes;
        } else {
            current.push(b);
        }
        proof {
            assert((ParseState { args: args.deep_view(), current: current@, in_quotes: in_quotes })
                =~= parse_step(st0, b));
        }
        i = i + 1;
    }
    proof {
        assert(input@.take(n as int) =~= input@);
    }
    if current.len() > 0 {
        let ghost st = ParseState { args: args.deep_view(), current: current@, in_quotes: in_quotes };
        args.push(current);
        proof {
            assert(args.deep_view() =~~= st.args.push(st.current));
        }
    }
    args
}

/// The greatest row at or above `r` whose second column holds the prompt
/// sentinel `$`, or row 0 when no row does.
pub open spec fn prompt_row(v: BufferView, r: int) -> int
    decreases r,
{
    if r <= 0 {
        0
    } else if v.grid[crate::vga_buffer::idx(r, 1)].ascii_character == 36 {
        r
    } else {
        prompt_row(v, r - 1)
    }
}

/// The glyphs of row `r` from column `c0` up to (excluding) column `c1`.
pub open spec fn row_seg(v: BufferView, r: int, c0: int, c1: int) -> Seq<u8> {
    Seq::new(if c1 >= c0 { (c1 - c0) as nat } else { 0 }, |k: int| v.grid[crate::vga_buffer::idx(r, c0 + k)].ascii_character)
}

/// The glyphs of the full rows `r0` up to (excluding) `r1`.
pub open spec fn full_rows(v: BufferView, r0: int, r1: int) -> Seq<u8>
    decreases r1 - r0,
{
    if r0 >= r1 {
        Seq::empty()
    } else {
        row_seg(v, r0, 0, crate::vga_buffer::BUFFER_WIDTH as int) + full_rows(v, r0 + 1, r1)
    }
}

pub proof fn lemma_full_rows_snoc(v: BufferView, r0: int, r1: int)
    requires
        r0 <= r1,
    ensures
        full_rows(v, r0, r1 + 1) == full_rows(v, r0, r1) + row_seg(v, r1, 0, crate::vga_buffer::BUFFER_WIDTH as int),
    decreases r1 - r0,
{
    if r0 == r1 {
        assert(full_rows(v, r0, r1) =~= Seq::<u8>::empty());
        assert(full_rows(v, r0 + 1, r1 + 1) =~= Seq::<u8>::empty());
        assert(full_rows(v, r0, r1 + 1)
            == row_seg(v, r0, 0, crate::vga_buffer::BUFFER_WIDTH as int) + full_rows(v, r0 + 1, r1 + 1));
        assert(full_rows(v, r0, r1 + 1)
            =~= full_rows(v, r0, r1) + row_seg(v, r1, 0, crate::vga_buffer::BUFFER_WIDTH as int));
    } else {
        lemma_full_rows_snoc(v, r0 + 1, r1);
        let w = crate::vga_buffer::BUFFER_WIDTH as int;
        assert(full_rows(v, r0, r1 + 1) == row_seg(v, r0, 0, w) + full_rows(v, r0 + 1, r1 + 1));
        assert(full_rows(v, r0, r1) == row_seg(v, r0, 0, w) + full_rows(v, r0 + 1, r1));
        assert(row_seg(v, r0, 0, w) + (full_rows(v, r0 + 1, r1) + row_seg(v, r1, 0, w))
            =~= (row_seg(v, r0, 0, w) + full_rows(v, r0 + 1, r1)) + row_seg(v, r1, 0, w));
    }
}

/// The text of the command being entered: from just right of the most
/// recent prompt marker up to the cursor, spanning wrapped rows.
pub open spec fn spec_get_command(v: BufferView) -> Seq<u8> {
    let start = prompt_row(v, v.row);
    if start == v.row {
        row_seg(v, start, 3, v.column)
    } else {
        row_seg(v, start, 3, crate::vga_buffer::BUFFER_WIDTH as int)
            + full_rows(v, start + 1, v.row)
            + row_seg(v, v.row, 0, v.column)
    }
}

/// Reads the command being entered back from the grid.
pub fn get_command(buffer: &Buffer) -> (cmd: Vec<u8>)
    requires
        buffer@.wf(),
    ensures
        cmd@ == spec_get_command(buffer@),
{
    let (cursor_row, cursor_column) = buffer.get_cursor();
    let mut start = cursor_row;
    while start > 0 && buffer.char_at(start, 1) != 36
        invariant
            buffer@.wf(),
            start <= cursor_row,
            cursor_row == buffer@.row,
            prompt_row(buffer@, buffer@.row) == prompt_row(buffer@, start as int),
        decreases start,
    {
        start = start - 1;
    }
    proof {
        assert(prompt_row(buffer@, start as int) == start as int);
    }
    let mut cmd: Vec<u8> = Vec::new();
    if start == cursor_row {
        let mut c: usize = 3;
        while c < cursor_column
            invariant
                buffer@.wf(),
                3 <= c,
                c <= cursor_column || c == 3,
                cursor_column == buffer@.column,
                cursor_row == buffer@.row,
                start == cursor_row,
                cmd@ =~= row_seg(buffer@, start as int, 3, c as int),
            decreases cursor_column - c,
        {
            cmd.push(buffer.char_at(start, c));
            proof {
                assert(cmd@ =~= row_seg(buffer@, start as int, 3, c as int + 1));
            }
            c = c + 1;
        }
        proof {
            if cursor_column <= 3 {
                assert(cmd@ =~= row_seg(buffer@, start as int, 3, buffer@.column));
            }
        }
    } else {
        let mut c: usize = 3;
        while c < crate::vga_buffer::BUFFER_WIDTH
            invariant
                buffer@.wf(),
                3 <= c <= crate::vga_buffer::BUFFER_WIDTH,
                start as int == prompt_row(buffer@, buffer@.row),
                start < cursor_row,
                cursor_row == buffer@.row,
                cmd@ =~= row_seg(buffer@, start as int, 3, c as int),
            decreases crate::vga_buffer::BUFFER_WIDTH - c,
        {
            cmd.push(buffer.char_at(start, c));
            proof {
                assert(cmd@ =~= row_seg(buffer@, start as int, 3, c as int + 1));
            }
            c = c + 1;
        }
        let mut r = start + 1;
        while r < cursor_row
            invariant
                buffer@.wf(),
                start < r <= cursor_row,
                start as int == prompt_row(buffer@, buffer@.row),
                cursor_row == buffer@.row,
                cmd@ =~= row_seg(buffer@, start as int, 3, crate::vga_buffer::BUFFER_WIDTH as int)
                    + full_rows(buffer@, start as int + 1, r as int),
            decreases cursor_row - r,
        {
            let mut c: usize = 0;
            while c < crate::vga_buffer::BUFFER_WIDTH
                invariant
                    buffer@.wf(),
                    c <= crate::vga_buffer::BUFFER_WIDTH,
                    start < r <= cursor_row,
                    r < crate::vga_buffer::BUFFER_HEIGHT,
                    start as int == prompt_row(buffer@, buffer@.row),
                    cursor_row == buffer@.row,
                    cmd@ =~= row_seg(buffer@, start as int, 3, crate::vga_buffer::BUFFER_WIDTH as int)
                        + full_rows(buffer@, start as int + 1, r as int)
                        + row_seg(buffer@, r as int, 0, c as int),
                decreases crate::vga_buffer::BUFFER_WIDTH - c,
            {
                cmd.push(buffer.char_at(r, c));
                proof {
                    assert(cmd@ =~= row_seg(buffer@, start as int, 3, crate::vga_buffer::BUFFER_WIDTH as int)
                        + full_rows(buffer@, start as int + 1, r as int)
                        + row_seg(buffer@, r as int, 0, c as int + 1));
                }
                c = c + 1;
            }
            proof {
                lemma_full_rows_snoc(buffer@, start as int + 1, r as int);
                assert(cmd@ =~= row_seg(buffer@, start as int, 3, crate::vga_buffer::BUFFER_WIDTH as int)
                    + full_rows(buffer@, start as int + 1, r as int + 1));
            }
            r = r + 1;
        }
        let mut c: usize = 0;
        while c < cursor_column
            invariant
                buffer@.wf(),
                c <= cursor_column || c == 0,
                start < cursor_row,
                start as int == prompt_row(buffer@, buffer@.row),
                cursor_row == buffer@.row,
                cursor_column == buffer@.column,
                cmd@ =~= row_seg(buffer@, start as int, 3, crate::vga_buffer::BUFFER_WIDTH as int)
                    + full_rows(buffer@, start as int + 1, cursor_row as int)
                    + row_seg(buffer@, cursor_row as int, 0, c as int),
            decreases cursor_column - c,
        {
            cmd.push(buffer.char_at(cursor_row, c));
            proof {
                assert(cmd@ =~= row_seg(buffer@, start as int, 3, crate::vga_buffer::BUFFER_WIDTH as int)
                    + full_rows(buffer@, start as int + 1, cursor_row as int)
                    + row_seg(buffer@, cursor_row as int, 0, c as int + 1));
            }
            c = c + 1;
        }
    }
    cmd
}

/// What a command line does to the display: the first token names the
/// command, the rest are its arguments; an empty line or an unknown name
/// is refused and leaves the display untouched.
pub open spec fn spec_parse(line: Seq<u8>, v: BufferView) -> (BufferView, Result<(), ShellError>) {
    let toks = spec_tokens(line);
    if toks.len() == 0 {
        (v, Err(ShellError::InvalidCommand))
    } else if toks[0] == seq![101u8, 99u8, 104u8, 111u8] {
        commands::spec_echo(toks.drop_first(), v)
    } else if toks[0] == seq![99u8, 111u8, 119u8, 115u8, 97u8, 121u8] {
        commands::spec_cowsay(toks.drop_first(), v)
    } else if toks[0] == seq![99u8, 97u8, 108u8, 99u8] {
        commands::spec_calc(toks.drop_first(), v)
    } else if toks[0] == seq![104u8, 101u8, 108u8, 112u8] {
        commands::spec_help(v)
    } else {
        (v, Err(ShellError::InvalidCommand))
    }
}

/// Tokenizes a command line and dispatches it.
pub fn parse(line: &Vec<u8>, buffer: &mut Buffer) -> (r: Result<(), ShellError>)
    requires
        old(buffer)@.wf(),
    ensures
        final(buffer)@.wf(),
        final(buffer)@ == spec_parse(line@, old(buffer)@).0,
        r == spec_parse(line@, old(buffer)@).1,
{
    let mut args = parse_arguments(line);
    if args.len() == 0 {
        return Err(ShellError::InvalidCommand);
    }
    let ghost toks = spec_tokens(line@);
    proof {
        assert(toks[0] == args@[0]@);
    }
    let command = args.remove(0);
    proof {
        assert(command@ == toks[0]);
        assert(args.deep_view() =~~= toks.drop_first());
    }
    if command.len() == 4 && command[0] == 101 && command[1] == 99 && command[2] == 104
        && command[3] == 111 {
        proof {
            assert(toks[0] =~= seq![101u8, 99u8, 104u8, 111u8]);
        }
        commands::echo(&args, buffer)
    } else if command.len() == 6 && command[0] == 99 && command[1] == 111 && command[2] == 119
        && command[3] == 115 && command[4] == 97 && command[5] == 121 {
        proof {
            assert(toks[0] =~= seq![99u8, 111u8, 119u8, 115u8, 97u8, 121u8]);
        }
        commands::cowsay(&args, buffer)
    } else if command.len() == 4 && command[0] == 99 && command[1] == 97 && command[2] == 108
        && command[3] == 99 {
        proof {
            assert(toks[0] =~= seq![99u8, 97u8, 108u8, 99u8]);
        }
        commands::calc(&args, buffer)
    } else if command.len() == 4 && command[0] == 104 && command[1] == 101 && command[2] == 108
        && command[3] == 112 {
        proof {
            assert(toks[0] =~= seq![104u8, 101u8, 108u8, 112u8]);
        }
        commands::help(&args, buffer)
    } else {
        Err(ShellError::InvalidCommand)
    }
}

impl Shell {
    /// Reads the command under entry back from the grid and dispatches it.
    /// Only an active session runs commands: on an inactive one nothing is
    /// extracted, no handler runs, and the call is refused.
    pub fn run_command(&self, buffer: &mut Buffer) -> (r: Result<(), ShellError>)
        requires
            self.wf(),
            old(buffer)@.wf(),
        ensures
            final(buffer)@.wf(),
            self.spec_active() ==> final(buffer)@ == spec_parse(spec_get_command(old(buffer)@), old(buffer)@).0
                && r == spec_parse(spec_get_command(old(buffer)@), old(buffer)@).1,
            !self.spec_active() ==> final(buffer)@ == old(buffer)@
                && r is Err && r->Err_0 == ShellError::InvalidCommand,
    {
        if self.active {
            let cmd = get_command(buffer);
            parse(&cmd, buffer)
        } else {
            Err(ShellError::InvalidCommand)
        }
    }
}

/// The in-grid protocol holds: printable text echoed after a fresh prompt
/// line, as the keyboard pipeline echoes keystrokes, reads back as exactly
/// the command being entered.
pub proof fn lemma_echoed_text_is_the_command(v: BufferView, s: Seq<u8>)
    requires
        v.wf(),
        crate::vga_buffer::printable(s),
        s.len() + 3 <= crate::vga_buffer::BUFFER_WIDTH,
    ensures
        spec_get_command(spec_write_bytes(crate::vga_buffer::spec_new_line(v), s)) == s,
{
    let v1 = crate::vga_buffer::spec_new_line(v);
    assert(v1.wf());
    assert(v1.grid[crate::vga_buffer::idx(v1.row, 1)].ascii_character == 36);
    crate::vga_buffer::lemma_write_string_readback(v1, s);
    let v2 = spec_write_bytes(v1, s);
    assert(v2.grid[crate::vga_buffer::idx(v2.row, 1)].ascii_character == 36);
    assert(prompt_row(v2, v2.row) == v2.row);
    assert(row_seg(v2, v2.row, 3, v2.column) =~= s);
}

/// The literal ` $ ` encodes to exactly the prompt marker bytes.
proof fn lemma_prompt_literal_bytes()
    ensures
        " $ ".spec_bytes() == prompt_bytes(),
{
    reveal_strlit(" $ ");
    let chars = " $ "@;
    assert(vstd::utf8::is_ascii_chars(chars));
    vstd::utf8::is_ascii_chars_encode_utf8(chars);
    assert(" $ ".spec_bytes() =~= prompt_bytes());
}

} // verus!
