use ipp_os::error::{MyError, ShellError};
use ipp_os::shell::commands::{cowsay, echo, help, parse_i32, rockpaperscissors};
use ipp_os::shell::{get_command, parse, parse_arguments, Shell};
use ipp_os::task::spawner::Spawner;
use ipp_os::task::task_loader::{load_task, parse_string};
use ipp_os::task::{run_ready_tasks, Task, TaskKind, TaskState};
use ipp_os::vga_buffer::{Buffer, VGABuffer};

fn row_text(b: &Buffer, row: usize, from: usize, to: usize) -> String {
    let mut s = String::new();
    for c in from..to {
        s.push(b.char_at(row, c) as char);
    }
    s
}

fn args(list: &[&str]) -> Vec<Vec<u8>> {
    list.iter().map(|s| s.as_bytes().to_vec()).collect()
}

#[test]
fn parse_arguments_groups_quotes() {
    let tokens = parse_arguments(&b"echo \"a b\" c".to_vec());
    assert_eq!(tokens, vec![b"echo".to_vec(), b"a b".to_vec(), b"c".to_vec()]);
}

#[test]
fn parse_arguments_coalesces_spaces_and_closes_quotes() {
    let tokens = parse_arguments(&b"  a   b  ".to_vec());
    assert_eq!(tokens, vec![b"a".to_vec(), b"b".to_vec()]);
    // an unterminated quote silently closes at the end of the input
    let tokens = parse_arguments(&b"say \"x y".to_vec());
    assert_eq!(tokens, vec![b"say".to_vec(), b"x y".to_vec()]);
    let tokens = parse_arguments(&b"   ".to_vec());
    assert!(tokens.is_empty());
}

#[test]
fn calc_divides() {
    let mut b = Buffer::new();
    let r = ipp_os::shell::commands::calc(&args(&["6", "/", "3"]), &mut b);
    assert_eq!(r, Ok(()));
    assert_eq!(row_text(&b, 1, 3, 12), "Result: 2");
}

#[test]
fn calc_rejects_division_by_zero() {
    let mut b = Buffer::new();
    let r = ipp_os::shell::commands::calc(&args(&["6", "/", "0"]), &mut b);
    assert_eq!(r, Err(ShellError::DivisionByZero));
    // nothing was written
    assert_eq!(b.char_at(1, 0), b' ');
}

#[test]
fn calc_rejects_bad_operator_and_arguments() {
    let mut b = Buffer::new();
    assert_eq!(
        ipp_os::shell::commands::calc(&args(&["6", "x", "3"]), &mut b),
        Err(ShellError::InvalidOperator)
    );
    assert_eq!(
        ipp_os::shell::commands::calc(&args(&["6", "/"]), &mut b),
        Err(ShellError::InvalidArgumentCount)
    );
    assert_eq!(
        ipp_os::shell::commands::calc(&args(&["six", "/", "3"]), &mut b),
        Err(ShellError::InvalidNumber)
    );
    assert_eq!(
        ipp_os::shell::commands::calc(&args(&["6", "/", "three"]), &mut b),
        Err(ShellError::InvalidNumber)
    );
}

#[test]
fn calc_arithmetic_results() {
    let cases: &[(&str, &str, &str, &str)] = &[
        ("2", "+", "3", "Result: 5"),
        ("-7", "-", "3", "Result: -10"),
        ("-6", "*", "7", "Result: -42"),
        ("7", "/", "-2", "Result: -3"),
        ("-2147483648", "/", "-1", "Result: -2147483648"),
        ("2147483647", "+", "1", "Result: -2147483648"),
    ];
    for (a, op, c, expect) in cases {
        let mut b = Buffer::new();
        assert_eq!(ipp_os::shell::commands::calc(&args(&[a, op, c]), &mut b), Ok(()));
        assert_eq!(&row_text(&b, 1, 3, 3 + expect.len()), expect);
    }
}

#[test]
fn parse_i32_accepts_exactly_the_valid_tokens() {
    assert_eq!(parse_i32(&b"0".to_vec()), Some(0));
    assert_eq!(parse_i32(&b"+42".to_vec()), Some(42));
    assert_eq!(parse_i32(&b"-42".to_vec()), Some(-42));
    assert_eq!(parse_i32(&b"2147483647".to_vec()), Some(i32::MAX));
    assert_eq!(parse_i32(&b"-2147483648".to_vec()), Some(i32::MIN));
    assert_eq!(parse_i32(&b"0000000000000007".to_vec()), Some(7));
    assert_eq!(parse_i32(&b"2147483648".to_vec()), None);
    assert_eq!(parse_i32(&b"-2147483649".to_vec()), None);
    assert_eq!(parse_i32(&b"".to_vec()), None);
    assert_eq!(parse_i32(&b"-".to_vec()), None);
    assert_eq!(parse_i32(&b"1 2".to_vec()), None);
    assert_eq!(parse_i32(&b"12a".to_vec()), None);
}

#[test]
fn echo_joins_arguments() {
    let mut b = Buffer::new();
    assert_eq!(echo(&args(&["one", "two", "three"]), &mut b), Ok(()));
    // echo moves to a fresh prompt line first
    assert_eq!(row_text(&b, 1, 0, 16), " $ one two three");
}

#[test]
fn echo_with_no_arguments_writes_nothing() {
    let mut b = Buffer::new();
    assert_eq!(echo(&args(&[]), &mut b), Ok(()));
    let (row, col) = b.get_cursor();
    assert_eq!((row, col), (1, 3));
}

#[test]
fn help_lists_the_dispatchable_commands() {
    let mut b = Buffer::new();
    assert_eq!(help(&args(&[]), &mut b), Ok(()));
    assert_eq!(row_text(&b, 1, 3, 21), "Possible Commands:");
    assert_eq!(row_text(&b, 2, 3, 12), "echo args");
    assert_eq!(row_text(&b, 3, 3, 14), "cowsay args");
    assert_eq!(row_text(&b, 4, 3, 26), "calc num1 operator num2");
    assert_eq!(row_text(&b, 5, 3, 7), "help");
}

#[test]
fn cowsay_draws_a_padded_bubble() {
    let mut b = Buffer::new();
    assert_eq!(cowsay(&args(&["hello world"]), &mut b), Ok(()));
    // the border is one space and exactly thirty dashes
    assert_eq!(row_text(&b, 1, 3, 4), " ");
    assert_eq!(row_text(&b, 1, 4, 34), "-".repeat(30));
    // the content line is padded to the exact width between its pipes
    assert_eq!(
        row_text(&b, 2, 3, 35),
        format!("| hello world{} |", " ".repeat(17))
    );
    // the closing border matches the opening one
    assert_eq!(row_text(&b, 3, 4, 34), "-".repeat(30));
    // the cow follows
    assert_eq!(row_text(&b, 4, 11, 15), "\\   ");
    assert_eq!(row_text(&b, 5, 15, 19), "(oo)");
}

#[test]
fn cowsay_wraps_long_messages() {
    let mut b = Buffer::new();
    let msg = "aaaa bbbb cccc dddd eeee ffff gggg";
    assert_eq!(cowsay(&args(&[msg]), &mut b), Ok(()));
    // the words wrap greedily into two content lines between the borders
    assert_eq!(row_text(&b, 2, 3, 5), "| ");
    assert_eq!(row_text(&b, 2, 5, 34), "aaaa bbbb cccc dddd eeee ffff");
    assert_eq!(row_text(&b, 3, 3, 9), "| gggg");
    assert_eq!(row_text(&b, 4, 4, 34), "-".repeat(30));
}

#[test]
fn cowsay_without_message_is_refused() {
    let mut b = Buffer::new();
    assert_eq!(cowsay(&args(&[]), &mut b), Err(ShellError::InvalidMessage));
}

#[test]
fn rockpaperscissors_reports_both_picks() {
    let mut b = Buffer::new();
    assert_eq!(rockpaperscissors(&args(&["rock"]), &mut b), Ok(()));
    assert_eq!(row_text(&b, 1, 3, 12), " 3  2  1 ");
    assert_eq!(row_text(&b, 2, 4, 19), "You Chose: Rock");
    assert_eq!(row_text(&b, 3, 4, 18), "I Chose: Paper");
    let mut b = Buffer::new();
    assert_eq!(
        rockpaperscissors(&args(&["lizard"]), &mut b),
        Err(ShellError::InvalidMessage)
    );
}

#[test]
fn parse_dispatches_and_rejects() {
    let mut b = Buffer::new();
    assert_eq!(
        parse(&b"calc 6 / 3".to_vec(), &mut b),
        Ok(())
    );
    assert_eq!(row_text(&b, 1, 3, 12), "Result: 2");
    assert_eq!(
        parse(&b"frobnicate".to_vec(), &mut b),
        Err(ShellError::InvalidCommand)
    );
    assert_eq!(
        parse(&b"".to_vec(), &mut b),
        Err(ShellError::InvalidCommand)
    );
}

#[test]
fn parse_dispatches_help() {
    let mut b = Buffer::new();
    assert_eq!(parse(&b"help".to_vec(), &mut b), Ok(()));
    assert_eq!(row_text(&b, 1, 3, 21), "Possible Commands:");
}

#[test]
fn cowsay_splits_on_whitespace_keeping_quotes() {
    // a tab separates words just as a space does
    let mut b = Buffer::new();
    assert_eq!(cowsay(&args(&["al\tbet"]), &mut b), Ok(()));
    assert_eq!(row_text(&b, 2, 3, 13), "| al bet  ");
    // double quotes are ordinary glyphs inside the message
    let mut b = Buffer::new();
    assert_eq!(cowsay(&args(&["say \"hi\""]), &mut b), Ok(()));
    assert_eq!(row_text(&b, 2, 3, 13), "| say \"hi\"");
}

#[test]
fn run_command_on_inactive_session_is_refused() {
    let mut b = Buffer::new();
    let shell = Shell::new();
    let before = row_text(&b, 0, 0, 10);
    assert_eq!(shell.run_command(&mut b), Err(ShellError::InvalidCommand));
    assert_eq!(row_text(&b, 0, 0, 10), before);
    assert_eq!(b.get_cursor(), (0, 0));
}

#[test]
fn shell_session_runs_typed_commands() {
    let mut b = Buffer::new();
    let mut shell = Shell::new();
    assert!(!shell.is_active());
    assert_eq!(shell.start_shell(&mut b), Ok(()));
    assert!(shell.is_active());
    // start_shell cleared the grid and emitted the prompt
    assert_eq!(row_text(&b, 0, 0, 3), " $ ");
    // type a command after the prompt, as the keyboard handler would
    for ch in "echo hi".bytes() {
        b.write_byte(ch);
    }
    assert_eq!(get_command(&b), b"echo hi".to_vec());
    assert_eq!(shell.run_command(&mut b), Ok(()));
    assert_eq!(row_text(&b, 1, 0, 6), " $ hi ");
}

#[test]
fn write_prompt_only_when_active() {
    let mut b = Buffer::new();
    let shell = Shell::new();
    shell.write_prompt(&mut b);
    assert_eq!(row_text(&b, 0, 0, 3), "   ");
    let mut shell = Shell::new();
    let _ = shell.start_shell(&mut b);
    let before = b.get_cursor();
    shell.write_prompt(&mut b);
    let after = b.get_cursor();
    assert_eq!(after.1, before.1 + 3);
}

#[test]
fn spawner_is_bounded_and_fifo() {
    let mut s = Spawner::new(2);
    assert_eq!(s.len(), 0);
    s.add(Task::new(TaskKind::ExampleTask));
    s.add(Task::new(TaskKind::ExampleTask));
    assert_eq!(s.len(), 2);
    // the queue is full: the next spawn is dropped, without panic
    s.add(Task::new(TaskKind::ExampleTask));
    assert_eq!(s.len(), 2);
    let t = s.pop0().unwrap();
    assert_eq!(t.state, TaskState::Pending);
    assert_eq!(s.len(), 1);
    assert!(s.pop0().is_some());
    assert!(s.pop0().is_none());
}

#[test]
fn load_task_spawns_known_names_only() {
    let mut s = Spawner::new(4);
    let r = load_task(String::from("nonexistent"), &mut s);
    assert_eq!(r, Err(MyError::InvalidFuture));
    assert_eq!(s.len(), 0);
    let r = load_task(String::from("example_task"), &mut s);
    assert_eq!(r, Ok(()));
    assert_eq!(s.len(), 1);
    let r = load_task(String::from("  example_task extra"), &mut s);
    assert_eq!(r, Ok(()));
    assert_eq!(s.len(), 2);
    let r = load_task(String::from(""), &mut s);
    assert_eq!(r, Err(MyError::InvalidFuture));
    assert_eq!(s.len(), 2);
}

#[test]
fn parse_string_splits_on_spaces() {
    let words = parse_string("  one  two three ");
    assert_eq!(words, vec!["one", "two", "three"]);
    let words = parse_string("");
    assert!(words.is_empty());
}

#[test]
fn executor_drains_the_queue_in_order() {
    let mut s = Spawner::new(8);
    let mut b = Buffer::new();
    s.add(Task::new(TaskKind::ExampleTask));
    s.add(Task::new(TaskKind::ExampleTask));
    run_ready_tasks(&mut s, &mut b);
    assert_eq!(s.len(), 0);
    // each completed task reported its number on its own line
    assert_eq!(row_text(&b, 0, 0, 16), "async number: 42");
    assert_eq!(row_text(&b, 1, 3, 19), "async number: 42");
}
