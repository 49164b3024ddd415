//! The commands of a line-driven console that feeds a buffer: what a line
//! of text asks for, and what a dispatch takes out of the buffer.

use crate::buffer::CommandBuffer;
use vstd::prelude::*;
use vstd::string::StrSliceExecFns;

verus! {

/// The number of commands that the console's buffer holds.
pub const QUEUE_CAPACITY: usize = 5;

/// A command that waits in the buffer until it is dispatched.
#[derive(Copy, Clone, Debug, PartialEq, Eq, Structural)]
pub enum Command {
    Stuff,
    Things,
    Exit,
}

/// What a line of input asks the console to do.
#[derive(Copy, Clone, Debug, PartialEq, Eq, Structural)]
pub enum Request {
    /// Write the command to the buffer.
    Enqueue(Command),
    /// Take the waiting commands out of the buffer and run them.
    Dispatch,
}

/// What a dispatch took out of the buffer.
#[derive(Debug)]
pub struct Batch {
    /// The commands to run, in the order in which they were written.
    pub commands: Vec<Command>,
    /// Whether an `Exit` ended the batch.
    pub exit: bool,
}

/// The text that `str::trim` returns for the text `line`.
pub uninterp spec fn trimmed(line: Seq<char>) -> Seq<char>;

/// `str::trim` of std: the part of `line` that is left when the white
/// space at both ends is taken away. The contract gives that text the name
/// `trimmed`, and says nothing more of it.
#[verifier::external_body]
fn trim(line: &str) -> (token: &str)
    ensures
        token@ == trimmed(line@),
{
    line.trim()
}

/// What a token asks for; `None` for a token that the console does not
/// know.
pub open spec fn meaning(token: Seq<char>) -> Option<Request> {
    if token == "stuff"@ {
        Some(Request::Enqueue(Command::Stuff))
    } else if token == "things"@ {
        Some(Request::Enqueue(Command::Things))
    } else if token == "exit"@ {
        Some(Request::Enqueue(Command::Exit))
    } else if token == "dispatch"@ {
        Some(Request::Dispatch)
    } else {
        None
    }
}

/// The number of commands at the front of `commands` that stand before the
/// first `Exit`; all of them where there is no `Exit`.
pub open spec fn first_exit(commands: Seq<Command>) -> int
    decreases commands.len(),
{
    if commands.len() == 0 || commands[0] == Command::Exit {
        0
    } else {
        1 + first_exit(commands.drop_first())
    }
}

/// The count that `first_exit` gives is a place in `commands` or their
/// number: no command before it is an `Exit`, and where it is a place, the
/// command there is one.
pub proof fn lemma_first_exit_is_first(commands: Seq<Command>)
    ensures
        0 <= first_exit(commands) <= commands.len(),
        forall|i: int| 0 <= i < first_exit(commands) ==> commands[i] != Command::Exit,
        first_exit(commands) < commands.len() ==> commands[first_exit(commands)]
            == Command::Exit,
    decreases commands.len(),
{
    if commands.len() > 0 && commands[0] != Command::Exit {
        let later = commands.drop_first();
        lemma_first_exit_is_first(later);
        assert forall|i: int| 0 <= i < first_exit(commands) implies commands[i]
            != Command::Exit by {
            if i > 0 {
                assert(commands[i] == later[i - 1]);
            }
        }
    }
}

/// Whether two texts are the same, character by character.
fn same_text(left: &str, right: &str) -> (same: bool)
    ensures
        same == (left@ == right@),
{
    let count = left.unicode_len();
    if count != right.unicode_len() {
        return false;
    }
    let mut i: usize = 0;
    while i < count
        invariant
            count == left@.len(),
            count == right@.len(),
            forall|j: int| 0 <= j < i ==> left@[j] == right@[j],
        decreases count - i,
    {
        if left.get_char(i) != right.get_char(i) {
            return false;
        }
        i += 1;
    }
    assert(left@ =~= right@);
    true
}

/// Reads a token: one of the four words that the console knows, exactly
/// as written, or nothing.
pub fn parse_token(token: &str) -> (request: Option<Request>)
    ensures
        request == meaning(token@),
{
    if same_text(token, "stuff") {
        Some(Request::Enqueue(Command::Stuff))
    } else if same_text(token, "things") {
        Some(Request::Enqueue(Command::Things))
    } else if same_text(token, "exit") {
        Some(Request::Enqueue(Command::Exit))
    } else if same_text(token, "dispatch") {
        Some(Request::Dispatch)
    } else {
        None
    }
}

/// Reads a line of input: the token that is left when the white space
/// around it, the end of the line included, is taken away.
pub fn parse_line(line: &str) -> (request: Option<Request>)
    ensures
        request == meaning(trimmed(line@)),
{
    parse_token(trim(line))
}

/// Takes the waiting commands out of `buffer`, oldest first, up to and
/// including the first `Exit`. The commands before it are returned for
/// running; what was written after an `Exit` stays in the buffer.
pub fn dispatch(buffer: &mut CommandBuffer<Command>) -> (batch: Batch)
    ensures
        batch.commands@ == old(buffer)@.take(first_exit(old(buffer)@)),
        forall|i: int| 0 <= i < batch.commands@.len() ==> batch.commands@[i] != Command::Exit,
        batch.exit == (first_exit(old(buffer)@) < old(buffer)@.len()),
        batch.exit ==> final(buffer)@ == old(buffer)@.skip(first_exit(old(buffer)@) + 1),
        !batch.exit ==> final(buffer)@ == Seq::<Command>::empty(),
        final(buffer).capacity() == old(buffer).capacity(),
{
    let ghost before = buffer@;
    let mut commands: Vec<Command> = Vec::new();
    assert(before.skip(0) =~= before);
    while buffer.len() > 0
        invariant
            before == old(buffer)@,
            commands@.len() + buffer@.len() == before.len(),
            commands@ == before.take(commands@.len() as int),
            buffer@ == before.skip(commands@.len() as int),
            first_exit(before) == commands@.len() + first_exit(buffer@),
            forall|i: int| 0 <= i < commands@.len() ==> commands@[i] != Command::Exit,
            buffer.capacity() == old(buffer).capacity(),
        decreases buffer@.len(),
    {
        let ghost done = commands@.len() as int;
        match buffer.read_command() {
            Some(Command::Exit) => {
                assert(buffer@ =~= before.skip(done + 1));
                return Batch { commands, exit: true };
            },
            Some(command) => {
                commands.push(command);
                assert(commands@ =~= before.take(done + 1));
                assert(buffer@ =~= before.skip(done + 1));
            },
            None => {},
        }
    }
    assert(before.take(before.len() as int) =~= before);
    Batch { commands, exit: false }
}

} // verus!
