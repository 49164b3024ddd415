use eventsys::console::{dispatch, parse_line, parse_token, Command, Request, QUEUE_CAPACITY};
use eventsys::CommandBuffer;

fn filled(commands: &[Command]) -> CommandBuffer<Command> {
    let mut buffer = CommandBuffer::new(QUEUE_CAPACITY);
    for command in commands {
        buffer.write_command(*command);
    }
    buffer
}

#[test]
fn console_buffer_holds_five() {
    assert_eq!(QUEUE_CAPACITY, 5);
    let mut buffer = CommandBuffer::new(QUEUE_CAPACITY);
    for _ in 0..5 {
        assert!(!buffer.write_command(Command::Stuff));
    }
    assert!(buffer.write_command(Command::Things));
    assert_eq!(buffer.len(), 5);
}

#[test]
fn tokens_map_to_requests() {
    assert_eq!(parse_token("stuff"), Some(Request::Enqueue(Command::Stuff)));
    assert_eq!(parse_token("things"), Some(Request::Enqueue(Command::Things)));
    assert_eq!(parse_token("exit"), Some(Request::Enqueue(Command::Exit)));
    assert_eq!(parse_token("dispatch"), Some(Request::Dispatch));
}

#[test]
fn unknown_tokens_are_refused() {
    assert_eq!(parse_token(""), None);
    assert_eq!(parse_token("stuf"), None);
    assert_eq!(parse_token("stuffs"), None);
    assert_eq!(parse_token("thing"), None);
    assert_eq!(parse_token("Stuff"), None);
    assert_eq!(parse_token("EXIT"), None);
    assert_eq!(parse_token("quit"), None);
    assert_eq!(parse_token("stuff things"), None);
    assert_eq!(parse_token("dispatc\u{e9}"), None);
    assert_eq!(parse_token("\u{e9}xit"), None);
}

#[test]
fn token_is_taken_as_written() {
    assert_eq!(parse_token(" stuff"), None);
    assert_eq!(parse_token("stuff\n"), None);
}

#[test]
fn line_is_trimmed_before_it_is_read() {
    assert_eq!(parse_line("stuff\n"), Some(Request::Enqueue(Command::Stuff)));
    assert_eq!(parse_line("  things \r\n"), Some(Request::Enqueue(Command::Things)));
    assert_eq!(parse_line("\texit"), Some(Request::Enqueue(Command::Exit)));
    assert_eq!(parse_line("dispatch\n"), Some(Request::Dispatch));
    assert_eq!(parse_line("dispatch"), Some(Request::Dispatch));
}

#[test]
fn line_with_unknown_token_is_refused() {
    assert_eq!(parse_line("\n"), None);
    assert_eq!(parse_line(""), None);
    assert_eq!(parse_line("   "), None);
    assert_eq!(parse_line("st uff\n"), None);
    assert_eq!(parse_line("stuff things\n"), None);
    assert_eq!(parse_line("run\n"), None);
}

#[test]
fn dispatch_drains_in_write_order() {
    let mut buffer = filled(&[Command::Stuff, Command::Things, Command::Stuff]);
    let batch = dispatch(&mut buffer);
    assert_eq!(batch.commands, vec![Command::Stuff, Command::Things, Command::Stuff]);
    assert!(!batch.exit);
    assert_eq!(buffer.len(), 0);
    assert_eq!(buffer.read_command(), None);
}

#[test]
fn dispatch_of_empty_buffer_is_empty() {
    let mut buffer = filled(&[]);
    let batch = dispatch(&mut buffer);
    assert_eq!(batch.commands, Vec::<Command>::new());
    assert!(!batch.exit);
    assert!(buffer.is_empty());
}

#[test]
fn dispatch_stops_at_exit() {
    let mut buffer = filled(&[Command::Things, Command::Exit, Command::Stuff, Command::Exit]);
    let batch = dispatch(&mut buffer);
    assert_eq!(batch.commands, vec![Command::Things]);
    assert!(batch.exit);
    assert_eq!(buffer.len(), 2);

    let batch = dispatch(&mut buffer);
    assert_eq!(batch.commands, vec![Command::Stuff]);
    assert!(batch.exit);
    assert_eq!(buffer.len(), 0);
}

#[test]
fn dispatch_with_exit_first_runs_nothing() {
    let mut buffer = filled(&[Command::Exit, Command::Stuff]);
    let batch = dispatch(&mut buffer);
    assert_eq!(batch.commands, Vec::<Command>::new());
    assert!(batch.exit);
    assert_eq!(buffer.read_command(), Some(Command::Stuff));
    assert_eq!(buffer.read_command(), None);
}

#[test]
fn dispatch_with_exit_last_empties_the_buffer() {
    let mut buffer = filled(&[Command::Stuff, Command::Exit]);
    let batch = dispatch(&mut buffer);
    assert_eq!(batch.commands, vec![Command::Stuff]);
    assert!(batch.exit);
    assert!(buffer.is_empty());
}

#[test]
fn dispatch_sees_only_what_was_not_evicted() {
    let mut buffer = filled(&[
        Command::Exit,
        Command::Stuff,
        Command::Things,
        Command::Stuff,
        Command::Things,
        Command::Stuff,
    ]);
    let batch = dispatch(&mut buffer);
    assert_eq!(
        batch.commands,
        vec![Command::Stuff, Command::Things, Command::Stuff, Command::Things, Command::Stuff]
    );
    assert!(!batch.exit);
}

#[test]
fn lines_drive_the_buffer() {
    let mut buffer = CommandBuffer::new(QUEUE_CAPACITY);
    let mut ran = Vec::new();
    for line in ["stuff\n", "things\n", "dispatch\n", "things\n", "dispatch\n"] {
        match parse_line(line) {
            Some(Request::Enqueue(command)) => {
                buffer.write_command(command);
            }
            Some(Request::Dispatch) => {
                let batch = dispatch(&mut buffer);
                assert!(!batch.exit);
                ran.push(batch.commands);
            }
            None => panic!("unrecognized command {}", line),
        }
    }
    assert_eq!(ran, vec![vec![Command::Stuff, Command::Things], vec![Command::Things]]);
}
