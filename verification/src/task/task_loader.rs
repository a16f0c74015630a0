use vstd::prelude::*;

use crate::error::MyError;
use crate::task::spawner::Spawner;
use crate::task::{Task, TaskKind};

verus! {

use vstd::string::StrSliceExecFns;
use vstd::string::StringExecFns;

/// The splitter's running state: finished words and the word being built.
#[verifier::ext_equal]
pub struct SplitState {
    pub words: Seq<Seq<char>>,
    pub current: Seq<char>,
}

pub open spec fn initial_split_state() -> SplitState {
    SplitState { words: Seq::empty(), current: Seq::empty() }
}

/// One character of splitting: a space finishes the current word (empty
/// runs produce none), anything else joins it.
pub open spec fn split_step(st: SplitState, c: char) -> SplitState {
    if c == ' ' {
        if st.current.len() > 0 {
            SplitState { words: st.words.push(st.current), current: Seq::empty() }
        } else {
            st
        }
    } else {
        SplitState { words: st.words, current: st.current.push(c) }
    }
}

pub open spec fn split_fold(st: SplitState, s: Seq<char>) -> SplitState
    decreases s.len(),
{
    if s.len() == 0 {
        st
    } else {
        split_fold(split_step(st, s[0]), s.drop_first())
    }
}

pub proof fn lemma_split_fold_snoc(st: SplitState, s: Seq<char>, c: char)
    ensures
        split_fold(st, s.push(c)) == split_step(split_fold(st, s), c),
    decreases s.len(),
{
    if s.len() == 0 {
        assert(s.push(c)[0] == c);
        assert(s.push(c).drop_first() =~= Seq::<char>::empty());
        assert(split_fold(split_step(st, c), Seq::<char>::empty()) == split_step(st, c));
    } else {
        assert(s.push(c)[0] == s[0]);
        assert(s.push(c).drop_first() =~= s.drop_first().push(c));
        lemma_split_fold_snoc(split_step(st, s[0]), s.drop_first(), c);
    }
}

/// The space-delimited words of `s`, in order, with empty runs coalesced.
pub open spec fn spec_split_spaces(s: Seq<char>) -> Seq<Seq<char>> {
    let st = split_fold(initial_split_state(), s);
    if st.current.len() > 0 {
        st.words.push(st.current)
    } else {
        st.words
    }
}

/// Splits the input on spaces into its words.
pub fn parse_string(input_str: &str) -> (words: Vec<String>)
    ensures
        words.deep_view() == spec_split_spaces(input_str@),
{
    let mut words: Vec<String> = Vec::new();
    let n = input_str.unicode_len();
    let mut i: usize = 0;
    let mut run_start: usize = 0;
    proof {
        assert(input_str@.take(0) =~= Seq::<char>::empty());
        assert(words.deep_view() =~= Seq::<Seq<char>>::empty());
        assert(input_str@.subrange(0, 0) =~= Seq::<char>::empty());
    }
    while i < n
        invariant
            i <= n,
            run_start <= i,
            n == input_str@.len(),
            (SplitState { words: words.deep_view(), current: input_str@.subrange(run_start as int, i as int) })
                == split_fold(initial_split_state(), input_str@.take(i as int)),
        decreases n - i,
    {
        let ghost st0 = SplitState {
            words: words.deep_view(),
            current: input_str@.subrange(run_start as int, i as int),
        };
        let c = input_str.get_char(i);
        proof {
            lemma_split_fold_snoc(initial_split_state(), input_str@.take(i as int), c);
            assert(input_str@.take(i as int).push(c) =~= input_str@.take(i as int + 1));
        }
        if c == ' ' {
            if i > run_start {
                let word = input_str.substring_char(run_start, i);
                words.push(word.to_owned());
                proof {
                    assert(words.deep_view() =~~= st0.words.push(st0.current));
                }
            }
            run_start = i + 1;
            proof {
                assert(input_str@.subrange(i as int + 1, i as int + 1) =~= Seq::<char>::empty());
            }
        } else {
            proof {
                assert(input_str@.subrange(run_start as int, i as int + 1)
                    =~= st0.current.push(input_str@[i as int]));
            }
        }
        proof {
            assert((SplitState {
                words: words.deep_view(),
                current: input_str@.subrange(run_start as int, i as int + 1),
            }) =~= split_step(st0, c));
        }
        i = i + 1;
    }
    proof {
        assert(input_str@.take(n as int) =~= input_str@);
    }
    if run_start < n {
        let ghost st = SplitState {
            words: words.deep_view(),
            current: input_str@.subrange(run_start as int, n as int),
        };
        let word = input_str.substring_char(run_start, n);
        words.push(word.to_owned());
        proof {
            assert(words.deep_view() =~~= st.words.push(st.current));
        }
    } else {
        proof {
            assert(input_str@.subrange(run_start as int, n as int).len() == 0);
        }
    }
    words
}

/// What loading a task does: the first space-delimited word of the input
/// names the task; a known name spawns it (the queue keeps its silent-drop
/// policy when full), any other input fails and leaves the queue exactly
/// as it was.
pub open spec fn spec_load_task(input: Seq<char>, tasks: Seq<Task>, capacity: nat) -> (Seq<Task>, Result<(), MyError>) {
    let words = spec_split_spaces(input);
    if words.len() > 0 && words[0] == "example_task"@ {
        if tasks.len() < capacity {
            (tasks.push(Task { kind: TaskKind::ExampleTask, state: crate::task::TaskState::Pending }), Ok(()))
        } else {
            (tasks, Ok(()))
        }
    } else {
        (tasks, Err(MyError::InvalidFuture))
    }
}

/// Maps a symbolic task name to its constructor and spawns it.
pub fn load_task(input_str: String, spawner: &mut Spawner) -> (r: Result<(), MyError>)
    ensures
        final(spawner).capacity() == old(spawner).capacity(),
        final(spawner).tasks()
            == spec_load_task(input_str@, old(spawner).tasks(), old(spawner).capacity()).0,
        r == spec_load_task(input_str@, old(spawner).tasks(), old(spawner).capacity()).1,
{
    let words = parse_string(input_str.as_str());
    if words.len() == 0 {
        return Err(MyError::InvalidFuture);
    }
    proof {
        assert(words.deep_view()[0] == words@[0]@);
    }
    let target = String::from_str("example_task");
    if words[0] == target {
        spawner.add(Task::new(TaskKind::ExampleTask));
        Ok(())
    } else {
        Err(MyError::InvalidFuture)
    }
}

} // verus!
