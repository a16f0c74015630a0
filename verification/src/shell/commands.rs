use vstd::prelude::*;

use crate::error::ShellError;
use crate::vga_buffer::{Buffer, BufferView, VGABuffer};
use crate::vga_buffer::{spec_new_line, spec_write_bytes};

verus! {

use vstd::string::StrSliceExecFns;
use vstd::string::StringSliceAdditionalSpecFns;

/// Maximum line width inside the speech bubble, margins included.
pub const BUBBLE_WIDTH: usize = 30;

/// `args` joined with single spaces.
pub open spec fn join_spaces(args: Seq<Seq<u8>>) -> Seq<u8>
    decreases args.len(),
{
    if args.len() == 0 {
        Seq::empty()
    } else if args.len() == 1 {
        args[0]
    } else {
        args[0] + seq![32u8] + join_spaces(args.drop_first())
    }
}

pub proof fn lemma_join_spaces_snoc(args: Seq<Seq<u8>>, a: Seq<u8>)
    ensures
        join_spaces(args.push(a)) == if args.len() == 0 {
            a
        } else {
            join_spaces(args) + seq![32u8] + a
        },
    decreases args.len(),
{
    if args.len() == 0 {
        assert(args.push(a)[0] =~= a);
    } else {
        assert(args.push(a)[0] =~= args[0]);
        assert(args.push(a).drop_first() =~= args.drop_first().push(a));
        lemma_join_spaces_snoc(args.drop_first(), a);
        if args.len() == 1 {
            assert(args.drop_first().len() == 0);
            assert(join_spaces(args.push(a)) == args[0] + seq![32u8] + a);
        } else {
            assert(join_spaces(args) + seq![32u8] + a
                =~= args[0] + seq![32u8] + (join_spaces(args.drop_first()) + seq![32u8] + a));
        }
    }
}

/// What `echo` does: move to a fresh line and write the arguments joined
/// with spaces. It always succeeds.
pub open spec fn spec_echo(args: Seq<Seq<u8>>, v: BufferView) -> (BufferView, Result<(), ShellError>) {
    (spec_write_bytes(spec_new_line(v), join_spaces(args)), Ok(()))
}

/// `args` joined with single spaces, as a byte vector.
fn join_args(args: &Vec<Vec<u8>>) -> (out: Vec<u8>)
    ensures
        out@ == join_spaces(args.deep_view()),
{
    let mut out: Vec<u8> = Vec::new();
    let n = args.len();
    let mut i: usize = 0;
    proof {
        assert(args.deep_view().take(0) =~= Seq::<Seq<u8>>::empty());
    }
    while i < n
        invariant
            i <= n,
            n == args@.len(),
            args.deep_view().len() == n,
            forall|j: int| 0 <= j < n ==> args.deep_view()[j] == #[trigger] args@[j]@,
            out@ == join_spaces(args.deep_view().take(i as int)),
        decreases n - i,
    {
        let ghost pre = args.deep_view().take(i as int);
        if i > 0 {
            out.push(32);
        }
        let mut piece = args[i].clone();
        out.append(&mut piece);
        proof {
            assert(args.deep_view().take(i as int + 1) =~= pre.push(args@[i as int]@));
            lemma_join_spaces_snoc(pre, args@[i as int]@);
            if i == 0 {
                assert(out@ =~= args@[0]@);
            } else {
                assert(out@ =~= join_spaces(pre) + seq![32u8] + args@[i as int]@);
            }
        }
        i = i + 1;
    }
    proof {
        assert(args.deep_view().take(n as int) =~= args.deep_view());
    }
    out
}

/// Joins the arguments with spaces and writes them on a fresh line.
pub fn echo(args: &Vec<Vec<u8>>, buffer: &mut Buffer) -> (r: Result<(), ShellError>)
    requires
        old(buffer)@.wf(),
    ensures
        final(buffer)@.wf(),
        final(buffer)@ == spec_echo(args.deep_view(), old(buffer)@).0,
        r == spec_echo(args.deep_view(), old(buffer)@).1,
{
    buffer.new_line();
    let joined = join_args(args);
    buffer.write_bytes(&joined);
    Ok(())
}

/// A decimal digit byte.
pub open spec fn is_digit(b: u8) -> bool {
    48 <= b <= 57
}

pub open spec fn all_digits(s: Seq<u8>) -> bool {
    forall|i: int| 0 <= i < s.len() ==> is_digit(#[trigger] s[i])
}

/// The value of a digit string, most significant digit first.
pub open spec fn digits_val(s: Seq<u8>) -> int
    decreases s.len(),
{
    if s.len() == 0 {
        0
    } else {
        digits_val(s.drop_last()) * 10 + (s.last() - 48)
    }
}

pub proof fn lemma_digits_val_nonneg(s: Seq<u8>)
    requires
        all_digits(s),
    ensures
        digits_val(s) >= 0,
    decreases s.len(),
{
    if s.len() > 0 {
        assert(all_digits(s.drop_last()));
        lemma_digits_val_nonneg(s.drop_last());
    }
}

/// The digits of a number token, its optional sign stripped.
pub open spec fn int_body(s: Seq<u8>) -> Seq<u8> {
    if s.len() > 0 && (s[0] == 43 || s[0] == 45) {
        s.drop_first()
    } else {
        s
    }
}

/// The sign of a number token: -1 under a leading minus, else 1.
pub open spec fn int_sign(s: Seq<u8>) -> int {
    if s.len() > 0 && s[0] == 45 {
        -1
    } else {
        1
    }
}

/// Whether `s` is a decimal 32-bit signed integer: an optional sign, at
/// least one digit, nothing else, and a value in range.
pub open spec fn is_i32_token(s: Seq<u8>) -> bool {
    &&& int_body(s).len() > 0
    &&& all_digits(int_body(s))
    &&& -0x8000_0000 <= int_sign(s) * digits_val(int_body(s)) <= 0x7FFF_FFFF
}

/// The value of a valid number token.
pub open spec fn i32_token_val(s: Seq<u8>) -> int {
    int_sign(s) * digits_val(int_body(s))
}

/// Parses a decimal 32-bit signed integer, accepting exactly the tokens
/// `is_i32_token` describes.
pub fn parse_i32(s: &Vec<u8>) -> (r: Option<i32>)
    ensures
        r is Some <==> is_i32_token(s@),
        is_i32_token(s@) ==> r == Some(i32_token_val(s@) as i32),
{
    let n = s.len();
    if n == 0 {
        return None;
    }
    let (neg, start): (bool, usize) = if s[0] == 45 {
        (true, 1)
    } else if s[0] == 43 {
        (false, 1)
    } else {
        (false, 0)
    };
    proof {
        assert(int_body(s@) =~= s@.skip(start as int));
    }
    if n == start {
        return None;
    }
    let mut acc: u64 = 0;
    let mut j = start;
    proof {
        assert(s@.skip(start as int).take(0) =~= Seq::<u8>::empty());
    }
    while j < n
        invariant
            start <= j <= n,
            n == s@.len(),
            int_body(s@) == s@.skip(start as int),
            all_digits(s@.skip(start as int).take(j - start)),
            ({
                let val = digits_val(s@.skip(start as int).take(j - start));
                &&& (val <= 0x8000_0000 ==> acc == val)
                &&& (val > 0x8000_0000 ==> acc > 0x8000_0000)
                &&& acc <= 0x6_0000_0000
            }),
        decreases n - j,
    {
        let b = s[j];
        if b < 48 || b > 57 {
            proof {
                assert(int_body(s@)[j - start] == b);
                assert(!is_i32_token(s@));
            }
            return None;
        }
        let ghost prefix = s@.skip(start as int).take(j - start);
        let ghost val = digits_val(prefix);
        proof {
            assert(s@.skip(start as int).take(j - start + 1).drop_last() =~= prefix);
            assert(s@.skip(start as int).take(j - start + 1).last() == b);
            assert(all_digits(prefix));
            lemma_digits_val_nonneg(prefix);
        }
        if acc <= 0x8000_0000 {
            acc = acc * 10 + ((b - 48) as u64);
        }
        j = j + 1;
    }
    proof {
        assert(s@.skip(start as int).take(n - start) =~= s@.skip(start as int));
        lemma_digits_val_nonneg(s@.skip(start as int));
    }
    let ghost val = digits_val(int_body(s@));
    if neg {
        if acc > 0x8000_0000 {
            proof {
                assert(int_sign(s@) * val < -0x8000_0000);
            }
            None
        } else if acc == 0x8000_0000 {
            proof {
                assert(int_sign(s@) * val == -0x8000_0000);
            }
            Some(i32::MIN)
        } else {
            Some(-(acc as i32))
        }
    } else {
        if acc > 0x7FFF_FFFF {
            proof {
                assert(int_sign(s@) * val > 0x7FFF_FFFF);
            }
            None
        } else {
            Some(acc as i32)
        }
    }
}

/// The decimal digits of a nonnegative number.
pub open spec fn spec_udec(m: nat) -> Seq<u8>
    decreases m,
{
    if m < 10 {
        seq![(48 + m) as u8]
    } else {
        spec_udec(m / 10).push((48 + m % 10) as u8)
    }
}

/// The decimal text of an integer, minus sign included.
pub open spec fn spec_dec(n: int) -> Seq<u8> {
    if n < 0 {
        seq![45u8] + spec_udec((-n) as nat)
    } else {
        spec_udec(n as nat)
    }
}

fn udec(m: u32) -> (d: Vec<u8>)
    ensures
        d@ == spec_udec(m as nat),
    decreases m,
{
    if m < 10 {
        let mut d: Vec<u8> = Vec::new();
        d.push(48 + m as u8);
        proof {
            assert(d@ =~= spec_udec(m as nat));
        }
        d
    } else {
        let mut d = udec(m / 10);
        d.push(48 + (m % 10) as u8);
        d
    }
}

/// The decimal text of `n`.
fn dec_bytes(n: i32) -> (d: Vec<u8>)
    ensures
        d@ == spec_dec(n as int),
{
    if n < 0 {
        let mag: u32 = (-(n as i64)) as u32;
        let mut d: Vec<u8> = Vec::new();
        d.push(45);
        let mut rest = udec(mag);
        d.append(&mut rest);
        proof {
            assert(d@ =~= spec_dec(n as int));
        }
        d
    } else {
        udec(n as u32)
    }
}

/// What `calc` writes on success.
pub open spec fn result_text(n: int) -> Seq<u8> {
    "\nResult: ".spec_bytes() + spec_dec(n)
}

/// Truncating 32-bit division for a nonzero divisor, the one overflowing
/// quotient wrapped back into range.
pub open spec fn div_i32(a: int, b: int) -> int {
    let q = if a >= 0 && b > 0 {
        a / b
    } else if a < 0 && b < 0 {
        (a * -1) / (b * -1)
    } else if a < 0 {
        ((a * -1) / b) * -1
    } else {
        (a / (b * -1)) * -1
    };
    if q > 0x7FFF_FFFF {
        -0x8000_0000
    } else {
        q
    }
}

/// What `calc` does: with exactly three arguments — number, operator,
/// number — it writes the result of the wrapping operation; every failure
/// leaves the display untouched and names its reason.
pub open spec fn spec_calc(args: Seq<Seq<u8>>, v: BufferView) -> (BufferView, Result<(), ShellError>) {
    if args.len() != 3 {
        (v, Err(ShellError::InvalidArgumentCount))
    } else if !is_i32_token(args[0]) {
        (v, Err(ShellError::InvalidNumber))
    } else if !is_i32_token(args[2]) {
        (v, Err(ShellError::InvalidNumber))
    } else {
        let a = i32_token_val(args[0]) as i32;
        let b = i32_token_val(args[2]) as i32;
        if args[1] == seq![43u8] {
            (spec_write_bytes(v, result_text(vstd::wrapping::i32_specs::wrapping_add(a, b) as int)), Ok(()))
        } else if args[1] == seq![45u8] {
            (spec_write_bytes(v, result_text(vstd::wrapping::i32_specs::wrapping_sub(a, b) as int)), Ok(()))
        } else if args[1] == seq![42u8] {
            (spec_write_bytes(v, result_text(vstd::wrapping::i32_specs::wrapping_mul(a, b) as int)), Ok(()))
        } else if args[1] == seq![47u8] {
            if b == 0 {
                (v, Err(ShellError::DivisionByZero))
            } else {
                (spec_write_bytes(v, result_text(div_i32(a as int, b as int))), Ok(()))
            }
        } else {
            (v, Err(ShellError::InvalidOperator))
        }
    }
}

/// Evaluates `num1 op num2` and writes the result on a fresh output line.
pub fn calc(args: &Vec<Vec<u8>>, buffer: &mut Buffer) -> (r: Result<(), ShellError>)
    requires
        old(buffer)@.wf(),
    ensures
        final(buffer)@.wf(),
        final(buffer)@ == spec_calc(args.deep_view(), old(buffer)@).0,
        r == spec_calc(args.deep_view(), old(buffer)@).1,
{
    if args.len() != 3 {
        return Err(ShellError::InvalidArgumentCount);
    }
    proof {
        assert(args.deep_view().len() == 3);
        assert(args.deep_view()[0] =~= args@[0]@);
        assert(args.deep_view()[1] =~= args@[1]@);
        assert(args.deep_view()[2] =~= args@[2]@);
    }
    let num1: i32 = match parse_i32(&args[0]) {
        Some(num) => num,
        None => {
            return Err(ShellError::InvalidNumber);
        },
    };
    let num2: i32 = match parse_i32(&args[2]) {
        Some(num) => num,
        None => {
            return Err(ShellError::InvalidNumber);
        },
    };
    let op = &args[1];
    let result: i32 = if op.len() == 1 && op[0] == 43 {
        proof {
            assert(args@[1]@ =~= seq![43u8]);
        }
        num1.wrapping_add(num2)
    } else if op.len() == 1 && op[0] == 45 {
        proof {
            assert(args@[1]@ =~= seq![45u8]);
        }
        num1.wrapping_sub(num2)
    } else if op.len() == 1 && op[0] == 42 {
        proof {
            assert(args@[1]@ =~= seq![42u8]);
        }
        num1.wrapping_mul(num2)
    } else if op.len() == 1 && op[0] == 47 {
        proof {
            assert(args@[1]@ =~= seq![47u8]);
        }
        if num2 == 0 {
            return Err(ShellError::DivisionByZero);
        }
        match num1.checked_div(num2) {
            Some(q) => q,
            None => i32::MIN,
        }
    } else {
        return Err(ShellError::InvalidOperator);
    };
    let mut out = "\nResult: ".as_bytes_vec();
    let mut digits = dec_bytes(result);
    out.append(&mut digits);
    proof {
        assert(out@ =~= result_text(result as int));
    }
    buffer.write_bytes(&out);
    Ok(())
}

/// What `help` writes: the list of available commands.
pub open spec fn help_text() -> Seq<u8> {
    "\nPossible Commands:\necho args\ncowsay args\ncalc num1 operator num2\nhelp".spec_bytes()
}

pub open spec fn spec_help(v: BufferView) -> (BufferView, Result<(), ShellError>) {
    (spec_write_bytes(v, help_text()), Ok(()))
}

/// Lists the available commands. The arguments are ignored.
pub fn help(_args: &Vec<Vec<u8>>, buffer: &mut Buffer) -> (r: Result<(), ShellError>)
    requires
        old(buffer)@.wf(),
    ensures
        final(buffer)@.wf(),
        final(buffer)@ == spec_help(old(buffer)@).0,
        r == spec_help(old(buffer)@).1,
{
    buffer.write_string(
        "\nPossible Commands:\necho args\ncowsay args\ncalc num1 operator num2\nhelp",
    );
    Ok(())
}

/// What the game writes for each choice; the machine always picks paper.
pub open spec fn rps_text(choice: int) -> Seq<u8> {
    if choice == 0 {
        "\n 3  2  1 \n You Chose: Rock\n I Chose: Paper".spec_bytes()
    } else if choice == 1 {
        "\n 3  2  1 \n You Chose: Paper\n I Chose: Paper".spec_bytes()
    } else {
        "\n 3  2  1 \n You Chose: Scissors\n I Chose: Paper".spec_bytes()
    }
}

/// What the game does: a recognised choice counts down and shows both
/// picks; anything else is refused and leaves the display untouched.
pub open spec fn spec_rps(args: Seq<Seq<u8>>, v: BufferView) -> (BufferView, Result<(), ShellError>) {
    if args.len() > 0 && args[0] == seq![114u8, 111u8, 99u8, 107u8] {
        (spec_write_bytes(v, rps_text(0)), Ok(()))
    } else if args.len() > 0 && args[0] == seq![112u8, 97u8, 112u8, 101u8, 114u8] {
        (spec_write_bytes(v, rps_text(1)), Ok(()))
    } else if args.len() > 0 && args[0] == seq![115u8, 99u8, 105u8, 115u8, 115u8, 111u8, 114u8, 115u8] {
        (spec_write_bytes(v, rps_text(2)), Ok(()))
    } else {
        (v, Err(ShellError::InvalidMessage))
    }
}

/// Plays one round of rock-paper-scissors against a machine that always
/// picks paper.
pub fn rockpaperscissors(args: &Vec<Vec<u8>>, buffer: &mut Buffer) -> (r: Result<(), ShellError>)
    requires
        old(buffer)@.wf(),
    ensures
        final(buffer)@.wf(),
        final(buffer)@ == spec_rps(args.deep_view(), old(buffer)@).0,
        r == spec_rps(args.deep_view(), old(buffer)@).1,
{
    proof {
        if args@.len() > 0 {
            assert(args.deep_view()[0] =~= args@[0]@);
        }
    }
    if args.len() == 0 {
        return Err(ShellError::InvalidMessage);
    }
    let choice = &args[0];
    if choice.len() == 4 && choice[0] == 114 && choice[1] == 111 && choice[2] == 99
        && choice[3] == 107 {
        proof {
            assert(args@[0]@ =~= seq![114u8, 111u8, 99u8, 107u8]);
        }
        buffer.write_string("\n 3  2  1 \n You Chose: Rock\n I Chose: Paper");
        Ok(())
    } else if choice.len() == 5 && choice[0] == 112 && choice[1] == 97 && choice[2] == 112
        && choice[3] == 101 && choice[4] == 114 {
        proof {
            assert(args@[0]@ =~= seq![112u8, 97u8, 112u8, 101u8, 114u8]);
        }
        buffer.write_string("\n 3  2  1 \n You Chose: Paper\n I Chose: Paper");
        Ok(())
    } else if choice.len() == 8 && choice[0] == 115 && choice[1] == 99 && choice[2] == 105
        && choice[3] == 115 && choice[4] == 115 && choice[5] == 111 && choice[6] == 114
        && choice[7] == 115 {
        proof {
            assert(args@[0]@ =~= seq![115u8, 99u8, 105u8, 115u8, 115u8, 111u8, 114u8, 115u8]);
        }
        buffer.write_string("\n 3  2  1 \n You Chose: Scissors\n I Chose: Paper");
        Ok(())
    } else {
        Err(ShellError::InvalidMessage)
    }
}

/// A byte the word splitter treats as whitespace: the ASCII whitespace
/// bytes, and the two further whitespace code points of the 8-bit range
/// the grid's glyphs stand for.
pub open spec fn is_space_byte(b: u8) -> bool {
    b == 32 || b == 9 || b == 10 || b == 11 || b == 12 || b == 13 || b == 0x85 || b == 0xa0
}

fn byte_is_space(b: u8) -> (r: bool)
    ensures
        r == is_space_byte(b),
{
    b == 32 || b == 9 || b == 10 || b == 11 || b == 12 || b == 13 || b == 0x85 || b == 0xa0
}

/// The word splitter's running state: finished words and the word being
/// built.
#[verifier::ext_equal]
pub struct WordState {
    pub words: Seq<Seq<u8>>,
    pub current: Seq<u8>,
}

pub open spec fn initial_word_state() -> WordState {
    WordState { words: Seq::empty(), current: Seq::empty() }
}

/// One byte of word splitting: whitespace finishes the current word
/// (empty runs produce none), any other byte joins it.
pub open spec fn word_step(st: WordState, b: u8) -> WordState {
    if is_space_byte(b) {
        if st.current.len() > 0 {
            WordState { words: st.words.push(st.current), current: Seq::empty() }
        } else {
            st
        }
    } else {
        WordState { words: st.words, current: st.current.push(b) }
    }
}

pub open spec fn word_fold(st: WordState, s: Seq<u8>) -> WordState
    decreases s.len(),
{
    if s.len() == 0 {
        st
    } else {
        word_fold(word_step(st, s[0]), s.drop_first())
    }
}

pub proof fn lemma_word_fold_snoc(st: WordState, s: Seq<u8>, b: u8)
    ensures
        word_fold(st, s.push(b)) == word_step(word_fold(st, s), b),
    decreases s.len(),
{
    if s.len() == 0 {
        assert(s.push(b)[0] == b);
        assert(s.push(b).drop_first() =~= Seq::<u8>::empty());
        assert(word_fold(word_step(st, b), Seq::<u8>::empty()) == word_step(st, b));
    } else {
        assert(s.push(b)[0] == s[0]);
        assert(s.push(b).drop_first() =~= s.drop_first().push(b));
        lemma_word_fold_snoc(word_step(st, s[0]), s.drop_first(), b);
    }
}

/// The whitespace-separated words of `s`, in order, empty runs coalesced.
pub open spec fn spec_words(s: Seq<u8>) -> Seq<Seq<u8>> {
    let st = word_fold(initial_word_state(), s);
    if st.current.len() > 0 {
        st.words.push(st.current)
    } else {
        st.words
    }
}

/// Splits a message into its whitespace-separated words.
fn split_words(input: &Vec<u8>) -> (words: Vec<Vec<u8>>)
    ensures
        words.deep_view() == spec_words(input@),
{
    let mut words: Vec<Vec<u8>> = Vec::new();
    let mut current: Vec<u8> = Vec::new();
    let n = input.len();
    let mut i: usize = 0;
    proof {
        assert(input@.take(0) =~= Seq::<u8>::empty());
        assert(words.deep_view() =~= Seq::<Seq<u8>>::empty());
    }
    while i < n
        invariant
            i <= n,
            n == input@.len(),
            (WordState { words: words.deep_view(), current: current@ })
                == word_fold(initial_word_state(), input@.take(i as int)),
        decreases n - i,
    {
        let ghost st0 = WordState { words: words.deep_view(), current: current@ };
        let b = input[i];
        proof {
            lemma_word_fold_snoc(initial_word_state(), input@.take(i as int), b);
            assert(input@.take(i as int).push(b) =~= input@.take(i as int + 1));
        }
        if byte_is_space(b) {
            if current.len() > 0 {
                let finished = current;
                current = Vec::new();
                words.push(finished);
                proof {
                    assert(words.deep_view() =~~= st0.words.push(st0.current));
                }
            }
        } else {
            current.push(b);
        }
        proof {
            assert((WordState { words: words.deep_view(), current: current@ })
                =~= word_step(st0, b));
        }
        i = i + 1;
    }
    proof {
        assert(input@.take(n as int) =~= input@);
    }
    if current.len() > 0 {
        let ghost st = WordState { words: words.deep_view(), current: current@ };
        words.push(current);
        proof {
            assert(words.deep_view() =~~= st.words.push(st.current));
        }
    }
    words
}

/// The word-wrapper's running state: finished bubble lines and the line
/// being filled, which carries a trailing space after every word.
#[verifier::ext_equal]
pub struct WrapState {
    pub lines: Seq<Seq<u8>>,
    pub current: Seq<u8>,
}

pub open spec fn initial_wrap_state() -> WrapState {
    WrapState { lines: Seq::empty(), current: Seq::empty() }
}

/// `s` without its trailing spaces.
pub open spec fn trim_right_spaces(s: Seq<u8>) -> Seq<u8>
    decreases s.len(),
{
    if s.len() > 0 && s.last() == 32 {
        trim_right_spaces(s.drop_last())
    } else {
        s
    }
}

/// One word of greedy wrapping: a word that still fits joins the current
/// line, otherwise the current line is finished (trailing space trimmed)
/// and the word opens the next one.
pub open spec fn wrap_step(st: WrapState, w: Seq<u8>) -> WrapState {
    if st.current.len() + w.len() + 1 <= (BUBBLE_WIDTH as int) {
        WrapState { lines: st.lines, current: st.current + w + seq![32u8] }
    } else {
        WrapState { lines: st.lines.push(trim_right_spaces(st.current)), current: w + seq![32u8] }
    }
}

pub open spec fn wrap_fold(st: WrapState, ws: Seq<Seq<u8>>) -> WrapState
    decreases ws.len(),
{
    if ws.len() == 0 {
        st
    } else {
        wrap_fold(wrap_step(st, ws[0]), ws.drop_first())
    }
}

pub proof fn lemma_wrap_fold_snoc(st: WrapState, ws: Seq<Seq<u8>>, w: Seq<u8>)
    ensures
        wrap_fold(st, ws.push(w)) == wrap_step(wrap_fold(st, ws), w),
    decreases ws.len(),
{
    if ws.len() == 0 {
        assert(ws.push(w)[0] == w);
        assert(ws.push(w).drop_first() =~= Seq::<Seq<u8>>::empty());
        assert(wrap_fold(wrap_step(st, w), Seq::<Seq<u8>>::empty()) == wrap_step(st, w));
    } else {
        assert(ws.push(w)[0] == ws[0]);
        assert(ws.push(w).drop_first() =~= ws.drop_first().push(w));
        lemma_wrap_fold_snoc(wrap_step(st, ws[0]), ws.drop_first(), w);
    }
}

/// The message's words wrapped greedily into bubble lines.
pub open spec fn spec_wrap(ws: Seq<Seq<u8>>) -> Seq<Seq<u8>> {
    let st = wrap_fold(initial_wrap_state(), ws);
    if st.current.len() > 0 {
        st.lines.push(trim_right_spaces(st.current))
    } else {
        st.lines
    }
}

/// `n` spaces.
pub open spec fn spaces(n: int) -> Seq<u8> {
    Seq::new(if n >= 0 { n as nat } else { 0 }, |i: int| 32u8)
}

/// `n` dashes.
pub open spec fn dashes(n: int) -> Seq<u8> {
    Seq::new(if n >= 0 { n as nat } else { 0 }, |i: int| 45u8)
}

/// The padding that fills a bubble line out to the fixed width; a line
/// already too wide gets none.
pub open spec fn bubble_pad(line: Seq<u8>) -> int {
    if line.len() + 2 <= (BUBBLE_WIDTH as int) {
        (BUBBLE_WIDTH as int) - line.len() - 2
    } else {
        0
    }
}

/// One content line of the bubble, newline first: `| `, the text, its
/// padding, ` |`.
pub open spec fn bubble_line(line: Seq<u8>) -> Seq<u8> {
    seq![10u8, 124u8, 32u8] + line + spaces(bubble_pad(line)) + seq![32u8, 124u8]
}

/// The bubble's content lines in order.
pub open spec fn bubble_body(lines: Seq<Seq<u8>>) -> Seq<u8>
    decreases lines.len(),
{
    if lines.len() == 0 {
        Seq::empty()
    } else {
        bubble_line(lines[0]) + bubble_body(lines.drop_first())
    }
}

pub proof fn lemma_bubble_body_snoc(lines: Seq<Seq<u8>>, line: Seq<u8>)
    ensures
        bubble_body(lines.push(line)) == bubble_body(lines) + bubble_line(line),
    decreases lines.len(),
{
    if lines.len() == 0 {
        assert(lines.push(line)[0] == line);
        assert(lines.push(line).drop_first() =~= Seq::<Seq<u8>>::empty());
        assert(bubble_body(lines.push(line).drop_first()) == Seq::<u8>::empty());
        assert(bubble_body(lines.push(line)) =~= bubble_body(lines) + bubble_line(line));
    } else {
        assert(lines.push(line)[0] == lines[0]);
        assert(lines.push(line).drop_first() =~= lines.drop_first().push(line));
        lemma_bubble_body_snoc(lines.drop_first(), line);
        assert(bubble_body(lines.push(line))
            == bubble_line(lines[0]) + (bubble_body(lines.drop_first()) + bubble_line(line)));
        assert(bubble_line(lines[0]) + (bubble_body(lines.drop_first()) + bubble_line(line))
            =~= (bubble_line(lines[0]) + bubble_body(lines.drop_first())) + bubble_line(line));
    }
}

/// The bubble's horizontal border, newline first.
pub open spec fn bubble_border() -> Seq<u8> {
    seq![10u8, 32u8] + dashes(BUBBLE_WIDTH as int)
}

/// The fixed cow drawn under the bubble.
pub open spec fn cow_art() -> Seq<u8> {
    "\n        \\   ^__^\n         \\  (oo)\\_______\n            (__)\\       )\\/\\\n                ||----w |\n                ||     ||".spec_bytes()
}

/// Everything `cowsay` writes for a message.
pub open spec fn cowsay_output(msg: Seq<u8>) -> Seq<u8> {
    bubble_border() + bubble_body(spec_wrap(spec_words(msg))) + bubble_border() + cow_art()
}

/// What `cowsay` does: with a message argument it draws the bubble and the
/// cow; without one it is refused and the display is untouched.
pub open spec fn spec_cowsay(args: Seq<Seq<u8>>, v: BufferView) -> (BufferView, Result<(), ShellError>) {
    if args.len() == 0 {
        (v, Err(ShellError::InvalidMessage))
    } else {
        (spec_write_bytes(v, cowsay_output(args[0])), Ok(()))
    }
}

/// Every content line of a bubble whose text fits is padded out to the
/// same fixed width: the wrap width plus the frame margin.
pub proof fn lemma_bubble_line_width(line: Seq<u8>)
    requires
        line.len() + 2 <= BUBBLE_WIDTH,
    ensures
        bubble_line(line).len() == BUBBLE_WIDTH + 3,
        bubble_line(line).len() == bubble_border().len() + 1,
{
}

pub proof fn lemma_trim_right_spaces_len(s: Seq<u8>)
    ensures
        trim_right_spaces(s).len() <= s.len(),
    decreases s.len(),
{
    if s.len() > 0 && s.last() == 32 {
        lemma_trim_right_spaces_len(s.drop_last());
    }
}

/// A line being filled is either empty or ends with the space that
/// followed its last word, and it never outgrows the wrap width.
pub open spec fn wrap_state_ok(st: WrapState) -> bool {
    &&& st.current.len() <= (BUBBLE_WIDTH as int)
    &&& (st.current.len() > 0 ==> st.current.last() == 32)
    &&& forall|i: int| 0 <= i < st.lines.len() ==> (#[trigger] st.lines[i]).len() < (BUBBLE_WIDTH as int)
}

pub proof fn lemma_wrap_fold_bounded(st: WrapState, ws: Seq<Seq<u8>>)
    requires
        wrap_state_ok(st),
        forall|i: int| 0 <= i < ws.len() ==> (#[trigger] ws[i]).len() + 2 <= (BUBBLE_WIDTH as int),
    ensures
        wrap_state_ok(wrap_fold(st, ws)),
    decreases ws.len(),
{
    if ws.len() > 0 {
        let st1 = wrap_step(st, ws[0]);
        if !(st.current.len() + ws[0].len() + 1 <= (BUBBLE_WIDTH as int)) {
            lemma_trim_right_spaces_len(st.current);
            if st.current.len() > 0 {
                assert(trim_right_spaces(st.current) == trim_right_spaces(st.current.drop_last()));
                lemma_trim_right_spaces_len(st.current.drop_last());
            }
        }
        assert(wrap_state_ok(st1));
        lemma_wrap_fold_bounded(st1, ws.drop_first());
    }
}

/// Wrapping words that each fit inside the bubble yields only lines that
/// fit too: every line is strictly narrower than the wrap width, so each
/// of its bubble rows carries at least its closing margin, and every line
/// narrow enough for the full margin is padded to the exact fixed width.
pub proof fn lemma_wrap_lines_fit(ws: Seq<Seq<u8>>)
    requires
        forall|i: int| 0 <= i < ws.len() ==> (#[trigger] ws[i]).len() + 2 <= (BUBBLE_WIDTH as int),
    ensures
        forall|i: int| 0 <= i < spec_wrap(ws).len()
            ==> (#[trigger] spec_wrap(ws)[i]).len() < (BUBBLE_WIDTH as int),
        forall|i: int| 0 <= i < spec_wrap(ws).len()
            && (#[trigger] spec_wrap(ws)[i]).len() + 2 <= (BUBBLE_WIDTH as int)
            ==> bubble_line(spec_wrap(ws)[i]).len() == (BUBBLE_WIDTH as int) + 3,
{
    lemma_wrap_fold_bounded(initial_wrap_state(), ws);
    let st = wrap_fold(initial_wrap_state(), ws);
    if st.current.len() > 0 {
        assert(trim_right_spaces(st.current) == trim_right_spaces(st.current.drop_last()));
        lemma_trim_right_spaces_len(st.current.drop_last());
    }
    assert forall|i: int| 0 <= i < spec_wrap(ws).len()
        && (#[trigger] spec_wrap(ws)[i]).len() + 2 <= (BUBBLE_WIDTH as int)
        implies bubble_line(spec_wrap(ws)[i]).len() == (BUBBLE_WIDTH as int) + 3 by {
        lemma_bubble_line_width(spec_wrap(ws)[i]);
    }
}

/// `s` with its trailing spaces removed.
fn trim_vec(s: Vec<u8>) -> (t: Vec<u8>)
    ensures
        t@ == trim_right_spaces(s@),
{
    let ghost orig = s@;
    let mut t = s;
    while t.len() > 0 && t[t.len() - 1] == 32
        invariant
            trim_right_spaces(orig) == trim_right_spaces(t@),
        decreases t@.len(),
    {
        let ghost before = t@;
        t.pop();
        proof {
            assert(t@ =~= before.drop_last());
        }
    }
    t
}

/// Wraps the message's words to the bubble width and draws the speech
/// bubble with the cow under it.
pub fn cowsay(args: &Vec<Vec<u8>>, buffer: &mut Buffer) -> (r: Result<(), ShellError>)
    requires
        old(buffer)@.wf(),
    ensures
        final(buffer)@.wf(),
        final(buffer)@ == spec_cowsay(args.deep_view(), old(buffer)@).0,
        r == spec_cowsay(args.deep_view(), old(buffer)@).1,
{
    proof {
        if args@.len() > 0 {
            assert(args.deep_view()[0] =~= args@[0]@);
        }
    }
    if args.len() == 0 {
        return Err(ShellError::InvalidMessage);
    }
    let words = split_words(&args[0]);
    let ghost wordseq = words.deep_view();

    let mut lines: Vec<Vec<u8>> = Vec::new();
    let mut current: Vec<u8> = Vec::new();
    let n = words.len();
    let mut i: usize = 0;
    proof {
        assert(wordseq.take(0) =~= Seq::<Seq<u8>>::empty());
        assert(lines.deep_view() =~= Seq::<Seq<u8>>::empty());
    }
    while i < n
        invariant
            i <= n,
            n == words@.len(),
            wordseq == words.deep_view(),
            (WrapState { lines: lines.deep_view(), current: current@ })
                == wrap_fold(initial_wrap_state(), wordseq.take(i as int)),
        decreases n - i,
    {
        let ghost st0 = WrapState { lines: lines.deep_view(), current: current@ };
        proof {
            assert(wordseq[i as int] == words@[i as int]@);
            lemma_wrap_fold_snoc(initial_wrap_state(), wordseq.take(i as int), wordseq[i as int]);
            assert(wordseq.take(i as int).push(wordseq[i as int]) =~= wordseq.take(i as int + 1));
        }
        let fits = current.len() <= BUBBLE_WIDTH && words[i].len() <= BUBBLE_WIDTH
            && current.len() + words[i].len() + 1 <= BUBBLE_WIDTH;
        if fits {
            let mut piece = words[i].clone();
            current.append(&mut piece);
            current.push(32);
            proof {
                assert(current@ =~= st0.current + wordseq[i as int] + seq![32u8]);
            }
        } else {
            let finished = trim_vec(current);
            lines.push(finished);
            current = words[i].clone();
            current.push(32);
            proof {
                assert(lines.deep_view() =~~= st0.lines.push(trim_right_spaces(st0.current)));
                assert(current@ =~= wordseq[i as int] + seq![32u8]);
            }
        }
        proof {
            assert((WrapState { lines: lines.deep_view(), current: current@ })
                =~= wrap_step(st0, wordseq[i as int]));
        }
        i = i + 1;
    }
    proof {
        assert(wordseq.take(n as int) =~= wordseq);
    }
    if current.len() > 0 {
        let ghost st = WrapState { lines: lines.deep_view(), current: current@ };
        let finished = trim_vec(current);
        lines.push(finished);
        proof {
            assert(lines.deep_view() =~~= st.lines.push(trim_right_spaces(st.current)));
        }
    } else {
        proof {
            assert(lines.deep_view() == spec_wrap(spec_words(args@[0]@)));
        }
    }
    proof {
        assert(lines.deep_view() == spec_wrap(spec_words(args@[0]@)));
    }

    let mut out: Vec<u8> = Vec::new();
    push_border(&mut out);
    proof {
        assert(out@ =~= bubble_border());
    }
    let ghost lineseq = lines.deep_view();
    let m = lines.len();
    let mut k: usize = 0;
    proof {
        assert(lineseq.take(0) =~= Seq::<Seq<u8>>::empty());
        assert(out@ =~= bubble_border() + bubble_body(lineseq.take(0)));
    }
    while k < m
        invariant
            k <= m,
            m == lines@.len(),
            lineseq == lines.deep_view(),
            out@ == bubble_border() + bubble_body(lineseq.take(k as int)),
        decreases m - k,
    {
        let ghost out0 = out@;
        out.push(10);
        out.push(124);
        out.push(32);
        let mut piece = lines[k].clone();
        out.append(&mut piece);
        let line_len = lines[k].len();
        let pad: usize = if line_len <= BUBBLE_WIDTH - 2 {
            BUBBLE_WIDTH - line_len - 2
        } else {
            0
        };
        let ghost mid = out@;
        let mut p: usize = 0;
        while p < pad
            invariant
                p <= pad,
                out@ == mid + spaces(p as int),
            decreases pad - p,
        {
            out.push(32);
            proof {
                assert(out@ =~= mid + spaces(p as int + 1));
            }
            p = p + 1;
        }
        out.push(32);
        out.push(124);
        proof {
            assert(lineseq[k as int] == lines@[k as int]@);
            assert(out@ =~= out0 + bubble_line(lineseq[k as int]));
            lemma_bubble_body_snoc(lineseq.take(k as int), lineseq[k as int]);
            assert(lineseq.take(k as int).push(lineseq[k as int]) =~= lineseq.take(k as int + 1));
            assert(out@ =~= bubble_border() + bubble_body(lineseq.take(k as int + 1)));
        }
        k = k + 1;
    }
    proof {
        assert(lineseq.take(m as int) =~= lineseq);
    }
    let ghost with_body = out@;
    push_border(&mut out);
    proof {
        assert(out@ =~= with_body + bubble_border());
    }
    let mut art = "\n        \\   ^__^\n         \\  (oo)\\_______\n            (__)\\       )\\/\\\n                ||----w |\n                ||     ||".as_bytes_vec();
    out.append(&mut art);
    proof {
        assert(out@ =~= cowsay_output(args@[0]@));
    }
    buffer.write_bytes(&out);
    Ok(())
}

/// Appends the bubble's horizontal border.
fn push_border(out: &mut Vec<u8>)
    ensures
        final(out)@ == old(out)@ + bubble_border(),
{
    let ghost out0 = out@;
    out.push(10);
    out.push(32);
    let mut d: usize = 0;
    while d < BUBBLE_WIDTH
        invariant
            d <= BUBBLE_WIDTH,
            out@ == out0 + seq![10u8, 32u8] + dashes(d as int),
        decreases BUBBLE_WIDTH - d,
    {
        out.push(45);
        proof {
            assert(out@ =~= out0 + seq![10u8, 32u8] + dashes(d as int + 1));
        }
        d = d + 1;
    }
    proof {
        assert(out@ =~= out0 + bubble_border());
    }
}

} // verus!
