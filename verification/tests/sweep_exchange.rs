use nanovna_saver::protocol::{
    bandwidth_command_bytes, data_command_bytes, sweep_command_bytes, ReadEvent, SweepAction,
    SweepExchange, SweepStage,
};

/// What a scripted port does on one read.
enum Reply {
    /// Fills the read buffer from these bytes (as much as fits).
    Bytes(Vec<u8>),
    WouldBlock,
    TimedOut,
    Failed,
}

/// A scripted serial port: answers reads from a script (the last entry is
/// repeated), records writes and flushes, and keeps a clock that advances one
/// millisecond per read.
struct ScriptedPort {
    script: Vec<Reply>,
    next: usize,
    writes: Vec<Vec<u8>>,
    flushes: usize,
    clock_ms: u64,
}

impl ScriptedPort {
    fn new(script: Vec<Reply>) -> Self {
        ScriptedPort { script, next: 0, writes: Vec::new(), flushes: 0, clock_ms: 0 }
    }

    fn read(&mut self, max: usize) -> ReadEvent {
        self.clock_ms += 1;
        let idx = self.next.min(self.script.len() - 1);
        self.next += 1;
        match &self.script[idx] {
            Reply::Bytes(b) => {
                let n = b.len().min(max);
                ReadEvent::Received(b[..n].to_vec())
            }
            Reply::WouldBlock => ReadEvent::WouldBlock,
            Reply::TimedOut => ReadEvent::TimedOut,
            Reply::Failed => ReadEvent::Failed,
        }
    }
}

/// Runs a whole exchange against the scripted port, as the recorder's port
/// driver does.
fn perform_sweep(
    port: &mut ScriptedPort,
    data_idx: u8,
    start_freq: u64,
    end_freq: u64,
    num_points: usize,
) -> Result<(usize, String), ()> {
    let (mut ex, mut action) = SweepExchange::start(data_idx, start_freq, end_freq, num_points);
    let mut deadline = 0u64;
    loop {
        match action {
            SweepAction::Send { command, deadline_ms } => {
                port.writes.push(command);
                port.flushes += 1;
                deadline = port.clock_ms + deadline_ms;
                action = SweepAction::Read { pause: false };
            }
            SweepAction::Read { .. } => {
                let event = if port.clock_ms > deadline {
                    ReadEvent::DeadlinePassed
                } else {
                    port.read(ex.read_size())
                };
                action = ex.on_event(event);
            }
            SweepAction::Finish => return Ok(ex.finish()),
            SweepAction::Abort => return Err(()),
        }
    }
}

fn prompt_then(rest: Vec<Reply>) -> Vec<Reply> {
    let mut script = vec![
        Reply::Bytes(vec![b'c']),
        Reply::Bytes(vec![b'h']),
        Reply::Bytes(vec![b'>']),
    ];
    script.extend(rest);
    script
}

#[test]
fn test_perform_sweep_normal_data() {
    let mut data = "0.000000,0.000000\r\n".repeat(101);
    data.push_str("ch>");
    let mut port = ScriptedPort::new(prompt_then(vec![Reply::Bytes(data.into_bytes())]));

    let text = perform_sweep(&mut port, 1, 101, 50000, 50000).unwrap().1;
    let expected = "0.000000,0.000000\r\n".repeat(101) + "ch>";

    assert_eq!(text, expected);
}

#[test]
fn test_perform_sweep_reads_101_lines() {
    let mut data = "x\n".repeat(101);
    data.push_str("ch>");
    let bytes = data.as_bytes().to_vec();
    let mut port = ScriptedPort::new(prompt_then(vec![Reply::Bytes(bytes.clone())]));

    let (count, text) = perform_sweep(&mut port, 0, 50_000_000, 900_000_000, 101).unwrap();

    assert!(text.lines().count() >= 101);
    assert_eq!(count, bytes.len());
}

#[test]
fn test_stops_after_101_lines_even_if_more_arrives() {
    let mut data = "x\n".repeat(101);
    data.push_str("ch>");
    let bytes = data.as_bytes().to_vec();
    let mut port = ScriptedPort::new(prompt_then(vec![Reply::Bytes(bytes.clone())]));

    let (_, text) = perform_sweep(&mut port, 0, 50_000_000, 900_000_000, 101).unwrap();
    assert!(text.lines().count() >= 101);
}

#[test]
fn test_command_is_sent() {
    let mut port = ScriptedPort::new(vec![Reply::TimedOut]);

    let _ = perform_sweep(&mut port, 0, 50_000_000, 900_000_000, 101).unwrap();

    assert_eq!(
        port.writes,
        vec![b"sweep 50000000 900000000 101\r\n".to_vec(), b"data 0\r\n".to_vec()]
    );
    assert_eq!(port.flushes, 2);
}

#[test]
fn test_timeout_returns_partial_data() {
    let partial = "x\n".repeat(20).into_bytes();
    let mut port = ScriptedPort::new(prompt_then(vec![Reply::Bytes(partial), Reply::TimedOut]));

    let (_, text) = perform_sweep(&mut port, 0, 50_000_000, 900_000_000, 101).unwrap();
    assert_eq!(text.lines().count(), 20);
}

#[test]
fn test_wouldblock_is_retried() {
    let mut data = "x\n".repeat(101);
    data.push_str("ch>");
    let mut port = ScriptedPort::new(prompt_then(vec![
        Reply::WouldBlock,
        Reply::WouldBlock,
        Reply::Bytes(data.into_bytes()),
    ]));

    let (_, text) = perform_sweep(&mut port, 0, 50_000_000, 900_000_000, 101).unwrap();
    assert!(text.lines().count() >= 101);
}

#[test]
fn commands_have_the_shell_syntax() {
    assert_eq!(sweep_command_bytes(50_000, 900_000_000, 101), b"sweep 50000 900000000 101\r\n".to_vec());
    assert_eq!(sweep_command_bytes(0, 18_446_744_073_709_551_615, 0), b"sweep 0 18446744073709551615 0\r\n".to_vec());
    assert_eq!(data_command_bytes(1), b"data 1\r\n".to_vec());
    assert_eq!(data_command_bytes(255), b"data 255\r\n".to_vec());
    assert_eq!(bandwidth_command_bytes(10), b"bandwidth 10\r\n".to_vec());
    assert_eq!(bandwidth_command_bytes(0), b"bandwidth 0\r\n".to_vec());
}

#[test]
fn deadlines_follow_the_point_count() {
    let (mut ex, first) = SweepExchange::start(0, 1, 2, 101);
    match first {
        SweepAction::Send { deadline_ms, .. } => assert_eq!(deadline_ms, 5000 + 101 * 20),
        _ => panic!("the first action sends the sweep command"),
    }
    match ex.on_event(ReadEvent::DeadlinePassed) {
        SweepAction::Send { command, deadline_ms } => {
            assert_eq!(command, b"data 0\r\n".to_vec());
            assert_eq!(deadline_ms, 3000 + 101 * 10);
        }
        _ => panic!("the data command follows the sweep deadline"),
    }
    assert_eq!(ex.stage(), SweepStage::ReceivingData);
}

#[test]
fn prompt_is_found_across_noise_and_only_once() {
    let (mut ex, _) = SweepExchange::start(0, 1, 2, 11);
    for b in b"xxcch".iter() {
        assert!(matches!(ex.on_event(ReadEvent::Received(vec![*b])), SweepAction::Read { pause: false }));
        assert_eq!(ex.read_size(), 1);
    }
    assert!(matches!(ex.on_event(ReadEvent::Received(vec![b'>'])), SweepAction::Send { .. }));
    assert_eq!(ex.stage(), SweepStage::ReceivingData);
    assert_eq!(ex.read_size(), 4096);
    assert_eq!(ex.finish().0, 0);
}

#[test]
fn reads_of_other_sizes_pause_while_awaiting_prompt() {
    let (mut ex, _) = SweepExchange::start(0, 1, 2, 11);
    assert!(matches!(ex.on_event(ReadEvent::Received(Vec::new())), SweepAction::Read { pause: true }));
    assert!(matches!(ex.on_event(ReadEvent::Received(b"ch>".to_vec())), SweepAction::Read { pause: true }));
    assert!(matches!(ex.on_event(ReadEvent::WouldBlock), SweepAction::Read { pause: true }));
    assert!(matches!(ex.on_event(ReadEvent::TimedOut), SweepAction::Read { pause: false }));
    assert_eq!(ex.stage(), SweepStage::AwaitingPrompt);
}

#[test]
fn reply_terminators_end_the_exchange() {
    for (chunks, done) in [
        (vec![&b"1 2\r\nch"[..], &b">"[..]], true),
        (vec![&b"1 2\r\nch> "[..]], true),
        (vec![&b"1 2\r\nch>\r"[..]], true),
        (vec![&b"1 2\r\nch>\n"[..]], true),
        (vec![&b"1 2\r\nch>x"[..]], false),
        (vec![&b"ch"[..]], false),
    ] {
        let (mut ex, _) = SweepExchange::start(0, 1, 2, 11);
        ex.on_event(ReadEvent::DeadlinePassed);
        let mut last = SweepAction::Read { pause: false };
        for c in &chunks {
            last = ex.on_event(ReadEvent::Received(c.to_vec()));
        }
        assert_eq!(matches!(last, SweepAction::Finish), done);
        let total: usize = chunks.iter().map(|c| c.len()).sum();
        assert_eq!(ex.finish().0, total);
    }
}

#[test]
fn read_failure_aborts_and_stays_aborted() {
    let mut port = ScriptedPort::new(prompt_then(vec![Reply::Failed]));
    assert!(perform_sweep(&mut port, 0, 1, 2, 11).is_err());

    let (mut ex, _) = SweepExchange::start(0, 1, 2, 11);
    assert!(matches!(ex.on_event(ReadEvent::Failed), SweepAction::Abort));
    assert_eq!(ex.stage(), SweepStage::Failed);
    assert!(matches!(ex.on_event(ReadEvent::Received(vec![b'c'])), SweepAction::Abort));
}

#[test]
fn invalid_utf8_is_replaced_in_the_text() {
    let (mut ex, _) = SweepExchange::start(0, 1, 2, 11);
    ex.on_event(ReadEvent::DeadlinePassed);
    ex.on_event(ReadEvent::Received(vec![b'a', 0xff, b'b']));
    let (n, text) = ex.finish();
    assert_eq!(n, 3);
    assert_eq!(text, "a\u{fffd}b");
}
