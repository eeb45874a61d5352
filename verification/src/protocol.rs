use vstd::prelude::*;
use vstd::utf8::{decode_utf8, valid_utf8};

use crate::digits::{
    decimal_digits, decimal_value, lemma_decimal_digits_value, lemma_decimal_digits_well_formed,
    push_decimal,
};
use crate::text::{lossy_decoding, utf8_lossy};

verus! {

/// The analyser's shell prompt, `ch>`.
pub open spec fn prompt() -> Seq<u8> {
    seq![99u8, 104, 62]
}

/// `s` ends with `suffix`.
pub open spec fn ends_with(s: Seq<u8>, suffix: Seq<u8>) -> bool {
    s.len() >= suffix.len() && s.subrange(s.len() - suffix.len(), s.len() as int) == suffix
}

/// The reply to a `data` command is complete once the bytes received so far
/// end with the prompt, or with the prompt followed by a space, a carriage
/// return or a line feed.
pub open spec fn data_terminated(s: Seq<u8>) -> bool {
    ||| ends_with(s, prompt())
    ||| ends_with(s, prompt().push(32u8))
    ||| ends_with(s, prompt().push(13u8))
    ||| ends_with(s, prompt().push(10u8))
}

/// The last `k` bytes of `s` (all of `s` when it is shorter).
pub open spec fn last_bytes(s: Seq<u8>, k: nat) -> Seq<u8> {
    if s.len() <= k {
        s
    } else {
        s.subrange(s.len() - k, s.len() as int)
    }
}

/// `sweep <start> <end> <points>\r\n`
pub open spec fn sweep_command(start_freq: nat, end_freq: nat, num_points: nat) -> Seq<u8> {
    seq![115u8, 119, 101, 101, 112, 32] + decimal_digits(start_freq) + seq![32u8]
        + decimal_digits(end_freq) + seq![32u8] + decimal_digits(num_points) + seq![13u8, 10]
}

/// `data <index>\r\n`
pub open spec fn data_command(data_idx: nat) -> Seq<u8> {
    seq![100u8, 97, 116, 97, 32] + decimal_digits(data_idx) + seq![13u8, 10]
}

/// `bandwidth <value>\r\n`
pub open spec fn bandwidth_command(bandwidth: nat) -> Seq<u8> {
    seq![98u8, 97, 110, 100, 119, 105, 100, 116, 104, 32] + decimal_digits(bandwidth) + seq![
        13u8,
        10,
    ]
}

/// How long, in milliseconds, the analyser is given to finish a sweep.
pub open spec fn sweep_timeout_ms(num_points: nat) -> nat {
    5000 + num_points * 20
}

/// How long, in milliseconds, the analyser is given to send the sweep data.
pub open spec fn read_timeout_ms(num_points: nat) -> nat {
    3000 + num_points * 10
}

/// The command that starts a sweep.
pub fn sweep_command_bytes(start_freq: u64, end_freq: u64, num_points: usize) -> (cmd: Vec<u8>)
    ensures
        cmd@ == sweep_command(start_freq as nat, end_freq as nat, num_points as nat),
{
    let mut out: Vec<u8> = Vec::new();
    out.push(115);
    out.push(119);
    out.push(101);
    out.push(101);
    out.push(112);
    out.push(32);
    push_decimal(&mut out, start_freq);
    out.push(32);
    push_decimal(&mut out, end_freq);
    out.push(32);
    push_decimal(&mut out, num_points as u64);
    out.push(13);
    out.push(10);
    assert(out@ =~= sweep_command(start_freq as nat, end_freq as nat, num_points as nat));
    out
}

/// The command that asks for the data of trace `data_idx` of the last sweep.
pub fn data_command_bytes(data_idx: u8) -> (cmd: Vec<u8>)
    ensures
        cmd@ == data_command(data_idx as nat),
{
    let mut out: Vec<u8> = Vec::new();
    out.push(100);
    out.push(97);
    out.push(116);
    out.push(97);
    out.push(32);
    push_decimal(&mut out, data_idx as u64);
    out.push(13);
    out.push(10);
    assert(out@ =~= data_command(data_idx as nat));
    out
}

/// The command that sets the analyser's IF bandwidth.
pub fn bandwidth_command_bytes(bandwidth: u32) -> (cmd: Vec<u8>)
    ensures
        cmd@ == bandwidth_command(bandwidth as nat),
{
    let mut out: Vec<u8> = Vec::new();
    out.push(98);
    out.push(97);
    out.push(110);
    out.push(100);
    out.push(119);
    out.push(105);
    out.push(100);
    out.push(116);
    out.push(104);
    out.push(32);
    push_decimal(&mut out, bandwidth as u64);
    out.push(13);
    out.push(10);
    assert(out@ =~= bandwidth_command(bandwidth as nat));
    out
}


/// Where a sweep exchange stands.
#[derive(Clone, Copy, Debug, PartialEq, Eq, Structural)]
pub enum SweepStage {
    /// The `sweep` command was sent; the shell's prompt is awaited byte by byte.
    AwaitingPrompt,
    /// The `data` command was sent; its reply is being collected.
    ReceivingData,
    /// The reply is complete (or its deadline passed).
    Complete,
    /// A read failed; the exchange is abandoned.
    Failed,
}

/// What one attempt to read from the port gave.
pub enum ReadEvent {
    /// The read returned these bytes (possibly none).
    Received(Vec<u8>),
    /// The port had nothing yet (`WouldBlock`).
    WouldBlock,
    /// The port's own read timeout expired.
    TimedOut,
    /// The read failed with any other error.
    Failed,
    /// The deadline of the current step passed before the read was attempted.
    DeadlinePassed,
}

/// The mathematical form of a [`ReadEvent`].
pub enum ReadEventModel {
    Received(Seq<u8>),
    WouldBlock,
    TimedOut,
    Failed,
    DeadlinePassed,
}

impl View for ReadEvent {
    type V = ReadEventModel;

    open spec fn view(&self) -> ReadEventModel {
        match self {
            ReadEvent::Received(bytes) => ReadEventModel::Received(bytes@),
            ReadEvent::WouldBlock => ReadEventModel::WouldBlock,
            ReadEvent::TimedOut => ReadEventModel::TimedOut,
            ReadEvent::Failed => ReadEventModel::Failed,
            ReadEvent::DeadlinePassed => ReadEventModel::DeadlinePassed,
        }
    }
}

/// What the caller must do next with the port.
pub enum SweepAction {
    /// Write `command`, flush, and give the next step `deadline_ms` milliseconds
    /// from now; then read.
    Send { command: Vec<u8>, deadline_ms: u64 },
    /// Read again; when `pause` is set, yield the thread first.
    Read { pause: bool },
    /// The exchange is over: take its result.
    Finish,
    /// The exchange failed: report the read error.
    Abort,
}

/// The mathematical form of a [`SweepAction`].
pub enum SweepActionModel {
    Send(Seq<u8>, nat),
    Read(bool),
    Finish,
    Abort,
}

impl View for SweepAction {
    type V = SweepActionModel;

    open spec fn view(&self) -> SweepActionModel {
        match self {
            SweepAction::Send { command, deadline_ms } => SweepActionModel::Send(
                command@,
                *deadline_ms as nat,
            ),
            SweepAction::Read { pause } => SweepActionModel::Read(*pause),
            SweepAction::Finish => SweepActionModel::Finish,
            SweepAction::Abort => SweepActionModel::Abort,
        }
    }
}

/// The abstract state of a sweep exchange.
pub struct SweepExchangeModel {
    pub stage: SweepStage,
    /// Every byte read while the prompt was awaited.
    pub prompt_stream: Seq<u8>,
    /// Every byte of the reply to the `data` command read so far.
    pub data: Seq<u8>,
    pub data_idx: u8,
    pub num_points: usize,
}

/// The state after `stage` changes.
pub open spec fn with_stage(m: SweepExchangeModel, stage: SweepStage) -> SweepExchangeModel {
    SweepExchangeModel { stage, ..m }
}

/// One step of the exchange: the new state and the next action after `e`.
pub open spec fn step(m: SweepExchangeModel, e: ReadEventModel) -> (
    SweepExchangeModel,
    SweepActionModel,
) {
    let ask_data = SweepActionModel::Send(
        data_command(m.data_idx as nat),
        read_timeout_ms(m.num_points as nat),
    );
    match m.stage {
        SweepStage::AwaitingPrompt => match e {
            ReadEventModel::Received(bytes) => if bytes.len() == 1 {
                let stream = m.prompt_stream + bytes;
                let next = SweepExchangeModel { prompt_stream: stream, ..m };
                if ends_with(stream, prompt()) {
                    (with_stage(next, SweepStage::ReceivingData), ask_data)
                } else {
                    (next, SweepActionModel::Read(false))
                }
            } else {
                (m, SweepActionModel::Read(true))
            },
            ReadEventModel::WouldBlock => (m, SweepActionModel::Read(true)),
            ReadEventModel::TimedOut => (m, SweepActionModel::Read(false)),
            ReadEventModel::Failed => (with_stage(m, SweepStage::Failed), SweepActionModel::Abort),
            ReadEventModel::DeadlinePassed => (with_stage(m, SweepStage::ReceivingData), ask_data),
        },
        SweepStage::ReceivingData => match e {
            ReadEventModel::Received(bytes) => if bytes.len() == 0 {
                (m, SweepActionModel::Read(true))
            } else {
                let data = m.data + bytes;
                let next = SweepExchangeModel { data, ..m };
                if data_terminated(data) {
                    (with_stage(next, SweepStage::Complete), SweepActionModel::Finish)
                } else {
                    (next, SweepActionModel::Read(false))
                }
            },
            ReadEventModel::WouldBlock => (m, SweepActionModel::Read(true)),
            ReadEventModel::TimedOut => (m, SweepActionModel::Read(false)),
            ReadEventModel::Failed => (with_stage(m, SweepStage::Failed), SweepActionModel::Abort),
            ReadEventModel::DeadlinePassed => (
                with_stage(m, SweepStage::Complete),
                SweepActionModel::Finish,
            ),
        },
        SweepStage::Complete => (m, SweepActionModel::Finish),
        SweepStage::Failed => (m, SweepActionModel::Abort),
    }
}

/// The exchange that fetches one trace of a sweep from the analyser: send
/// `sweep`, wait for the prompt, send `data`, collect the reply until it ends
/// with the prompt or its deadline passes.
pub struct SweepExchange {
    stage: SweepStage,
    data_idx: u8,
    num_points: usize,
    /// The last (at most three) bytes read while the prompt was awaited.
    window: Vec<u8>,
    received: Vec<u8>,
    prompt_stream: Ghost<Seq<u8>>,
}

impl View for SweepExchange {
    type V = SweepExchangeModel;

    closed spec fn view(&self) -> SweepExchangeModel {
        SweepExchangeModel {
            stage: self.stage,
            prompt_stream: self.prompt_stream@,
            data: self.received@,
            data_idx: self.data_idx,
            num_points: self.num_points,
        }
    }
}

/// Whether `d` ends with one of the reply terminators.
fn ends_with_terminator(d: &Vec<u8>) -> (b: bool)
    ensures
        b == data_terminated(d@),
{
    let n = d.len();
    let ghost p = prompt();
    proof {
        if n >= 3 {
            assert(ends_with(d@, p) <==> (d@[n - 3] == 99 && d@[n - 2] == 104 && d@[n - 1] == 62))
                by {
                if d@[n - 3] == 99 && d@[n - 2] == 104 && d@[n - 1] == 62 {
                    assert(d@.subrange(n - 3, n as int) =~= p);
                }
                if ends_with(d@, p) {
                    assert(d@.subrange(n - 3, n as int)[0] == d@[n - 3]);
                    assert(d@.subrange(n - 3, n as int)[1] == d@[n - 2]);
                    assert(d@.subrange(n - 3, n as int)[2] == d@[n - 1]);
                }
            }
        }
        if n >= 4 {
            assert forall|c: u8|
                ends_with(d@, p.push(c)) <==> (d@[n - 4] == 99 && d@[n - 3] == 104 && d@[n - 2]
                    == 62 && d@[n - 1] == c) by {
                let t = d@.subrange(n - 4, n as int);
                if d@[n - 4] == 99 && d@[n - 3] == 104 && d@[n - 2] == 62 && d@[n - 1] == c {
                    assert(t =~= p.push(c));
                }
                if ends_with(d@, p.push(c)) {
                    assert(t[0] == d@[n - 4]);
                    assert(t[1] == d@[n - 3]);
                    assert(t[2] == d@[n - 2]);
                    assert(t[3] == d@[n - 1]);
                    assert(p.push(c)[3] == c);
                }
            }
        }
    }
    if n >= 3 && d[n - 3] == 99 && d[n - 2] == 104 && d[n - 1] == 62 {
        true
    } else if n >= 4 && d[n - 4] == 99 && d[n - 3] == 104 && d[n - 2] == 62 && (d[n - 1] == 32
        || d[n - 1] == 13 || d[n - 1] == 10) {
        true
    } else {
        false
    }
}

impl SweepExchange {
    /// The exchange's invariant: the window holds the last three bytes of the
    /// prompt stream, and the deadlines fit in a `u64`.
    pub closed spec fn wf(&self) -> bool {
        &&& self.window@ == last_bytes(self.prompt_stream@, 3)
        &&& self.num_points * 20 + 5000 <= u64::MAX
    }

    /// Starts the exchange for trace `data_idx` of a sweep over
    /// `start_freq..end_freq` with `num_points` points: the first action sends
    /// the `sweep` command with the sweep's deadline.
    pub fn start(data_idx: u8, start_freq: u64, end_freq: u64, num_points: usize) -> (r: (
        SweepExchange,
        SweepAction,
    ))
        requires
            num_points * 20 + 5000 <= u64::MAX,
        ensures
            r.0.wf(),
            r.0@ == (SweepExchangeModel {
                stage: SweepStage::AwaitingPrompt,
                prompt_stream: Seq::empty(),
                data: Seq::empty(),
                data_idx,
                num_points,
            }),
            r.1@ == SweepActionModel::Send(
                sweep_command(start_freq as nat, end_freq as nat, num_points as nat),
                sweep_timeout_ms(num_points as nat),
            ),
    {
        let ex = SweepExchange {
            stage: SweepStage::AwaitingPrompt,
            data_idx,
            num_points,
            window: Vec::new(),
            received: Vec::new(),
            prompt_stream: Ghost(Seq::empty()),
        };
        let command = sweep_command_bytes(start_freq, end_freq, num_points);
        let deadline_ms: u64 = 5000 + (num_points as u64) * 20;
        (ex, SweepAction::Send { command, deadline_ms })
    }

    /// The current stage.
    pub fn stage(&self) -> (s: SweepStage)
        ensures
            s == self@.stage,
    {
        self.stage
    }

    fn ask_for_data(&self) -> (a: SweepAction)
        requires
            self.wf(),
        ensures
            a@ == SweepActionModel::Send(
                data_command(self.data_idx as nat),
                read_timeout_ms(self.num_points as nat),
            ),
    {
        let command = data_command_bytes(self.data_idx);
        let deadline_ms: u64 = 3000 + (self.num_points as u64) * 10;
        SweepAction::Send { command, deadline_ms }
    }

    /// Takes one read outcome and says what to do next, as [`step`] defines.
    pub fn on_event(&mut self, event: ReadEvent) -> (action: SweepAction)
        requires
            old(self).wf(),
        ensures
            final(self).wf(),
            (final(self)@, action@) == step(old(self)@, event@),
    {
        match self.stage {
            SweepStage::AwaitingPrompt => match event {
                ReadEvent::Received(bytes) => {
                    if bytes.len() == 1 {
                        let b = bytes[0];
                        let ghost old_stream = self.prompt_stream@;
                        let ghost stream = old_stream + bytes@;
                        assert(stream =~= old_stream.push(b));
                        self.window.push(b);
                        if self.window.len() > 3 {
                            self.window.remove(0);
                        }
                        self.prompt_stream = Ghost(stream);
                        assert(self.window@ =~= last_bytes(stream, 3));
                        let seen = self.window.len() == 3 && self.window[0] == 99
                            && self.window[1] == 104 && self.window[2] == 62;
                        proof {
                            let w = self.window@;
                            if stream.len() >= 3 {
                                assert(w =~= stream.subrange(stream.len() - 3, stream.len() as int));
                            }
                            if seen {
                                assert(w =~= prompt());
                            }
                        }
                        if seen {
                            self.stage = SweepStage::ReceivingData;
                            self.ask_for_data()
                        } else {
                            SweepAction::Read { pause: false }
                        }
                    } else {
                        SweepAction::Read { pause: true }
                    }
                },
                ReadEvent::WouldBlock => SweepAction::Read { pause: true },
                ReadEvent::TimedOut => SweepAction::Read { pause: false },
                ReadEvent::Failed => {
                    self.stage = SweepStage::Failed;
                    SweepAction::Abort
                },
                ReadEvent::DeadlinePassed => {
                    self.stage = SweepStage::ReceivingData;
                    self.ask_for_data()
                },
            },
            SweepStage::ReceivingData => match event {
                ReadEvent::Received(bytes) => {
                    if bytes.len() == 0 {
                        SweepAction::Read { pause: true }
                    } else {
                        let mut bytes = bytes;
                        self.received.append(&mut bytes);
                        if ends_with_terminator(&self.received) {
                            self.stage = SweepStage::Complete;
                            SweepAction::Finish
                        } else {
                            SweepAction::Read { pause: false }
                        }
                    }
                },
                ReadEvent::WouldBlock => SweepAction::Read { pause: true },
                ReadEvent::TimedOut => SweepAction::Read { pause: false },
                ReadEvent::Failed => {
                    self.stage = SweepStage::Failed;
                    SweepAction::Abort
                },
                ReadEvent::DeadlinePassed => {
                    self.stage = SweepStage::Complete;
                    SweepAction::Finish
                },
            },
            SweepStage::Complete => SweepAction::Finish,
            SweepStage::Failed => SweepAction::Abort,
        }
    }

    /// How many bytes a read should ask for: one while the prompt is awaited
    /// (so that nothing after the prompt is consumed), 4096 afterwards.
    pub fn read_size(&self) -> (n: usize)
        ensures
            n == (if self@.stage == SweepStage::AwaitingPrompt { 1usize } else { 4096usize }),
    {
        if self.stage == SweepStage::AwaitingPrompt {
            1
        } else {
            4096
        }
    }

    /// The result of the exchange: the number of reply bytes read, and the
    /// reply decoded as text (invalid UTF-8 replaced).
    pub fn finish(&self) -> (r: (usize, String))
        ensures
            r.0 == self@.data.len(),
            r.1@ == lossy_decoding(self@.data),
            valid_utf8(self@.data) ==> r.1@ == decode_utf8(self@.data),
    {
        (self.received.len(), utf8_lossy(self.received.as_slice()))
    }
}

/// The prompt ends at position `k` of `s`: `s[k-3..k]` is `ch>`.
pub open spec fn prompt_at(s: Seq<u8>, k: int) -> bool {
    3 <= k <= s.len() && s.subrange(k - 3, k) == prompt()
}

/// Feeds the bytes of `s` to the exchange one read at a time for as long as
/// it awaits the prompt.
pub open spec fn feed_until_prompt(m: SweepExchangeModel, s: Seq<u8>) -> SweepExchangeModel
    decreases s.len(),
{
    if s.len() == 0 || m.stage != SweepStage::AwaitingPrompt {
        m
    } else {
        feed_until_prompt(step(m, ReadEventModel::Received(seq![s[0]])).0, s.drop_first())
    }
}

proof fn lemma_feed_until_prompt(m: SweepExchangeModel, s: Seq<u8>)
    requires
        m.stage == SweepStage::AwaitingPrompt,
        forall|j: int| #![trigger prompt_at(m.prompt_stream, j)] !prompt_at(m.prompt_stream, j),
    ensures
        ({
            let r = feed_until_prompt(m, s);
            let full = m.prompt_stream + s;
            &&& r.data == m.data
            &&& r.data_idx == m.data_idx
            &&& r.num_points == m.num_points
            &&& (r.stage == SweepStage::ReceivingData) == (exists|k: int|
                #![trigger prompt_at(full, k)]
                prompt_at(full, k))
            &&& r.stage == SweepStage::AwaitingPrompt || r.stage == SweepStage::ReceivingData
            &&& r.stage == SweepStage::AwaitingPrompt ==> r.prompt_stream == full
            &&& r.stage == SweepStage::ReceivingData ==> {
                &&& prompt_at(full, r.prompt_stream.len() as int)
                &&& r.prompt_stream == full.take(r.prompt_stream.len() as int)
                &&& forall|j: int|
                    #![trigger prompt_at(full, j)]
                    j < r.prompt_stream.len() ==> !prompt_at(full, j)
            }
        }),
    decreases s.len(),
{
    let full = m.prompt_stream + s;
    let n = m.prompt_stream.len() as int;
    // An occurrence inside the old stream would be one of the old stream.
    assert forall|j: int| j <= n implies !prompt_at(full, j) by {
        if prompt_at(full, j) {
            assert(full.subrange(j - 3, j) =~= m.prompt_stream.subrange(j - 3, j));
            assert(prompt_at(m.prompt_stream, j));
        }
    }
    if s.len() == 0 {
        assert(full =~= m.prompt_stream);
    } else {
        let stream = m.prompt_stream + seq![s[0]];
        let next = step(m, ReadEventModel::Received(seq![s[0]])).0;
        assert(stream =~= full.take(n + 1));
        assert(ends_with(stream, prompt()) == prompt_at(full, n + 1)) by {
            if stream.len() >= 3 {
                assert(stream.subrange(stream.len() - 3, stream.len() as int) =~= full.subrange(
                    n - 2,
                    n + 1,
                ));
            }
        }
        if ends_with(stream, prompt()) {
            assert(feed_until_prompt(next, s.drop_first()) == next);
            assert(prompt_at(full, n + 1));
        } else {
            assert forall|j: int| #![trigger prompt_at(stream, j)] !prompt_at(stream, j) by {
                if prompt_at(stream, j) {
                    if j == n + 1 {
                        assert(stream.subrange(j - 3, j) =~= full.subrange(j - 3, j));
                    } else {
                        assert(stream.subrange(j - 3, j) =~= full.subrange(j - 3, j));
                        assert(prompt_at(full, j));
                    }
                }
            }
            lemma_feed_until_prompt(next, s.drop_first());
            assert(next.prompt_stream + s.drop_first() =~= full);
        }
    }
}

/// Law (prompt detection): fed the bytes of `s` one by one, a fresh exchange
/// leaves the prompt stage exactly when `ch>` occurs in `s`; it then has
/// consumed the bytes up to the end of the first occurrence and no more, and
/// otherwise it has consumed all of `s`. No byte counts as reply data.
pub proof fn lemma_prompt_detected_at_first_occurrence(
    data_idx: u8,
    num_points: usize,
    s: Seq<u8>,
)
    ensures
        ({
            let m = SweepExchangeModel {
                stage: SweepStage::AwaitingPrompt,
                prompt_stream: Seq::empty(),
                data: Seq::empty(),
                data_idx,
                num_points,
            };
            let r = feed_until_prompt(m, s);
            &&& r.data == Seq::<u8>::empty()
            &&& (r.stage == SweepStage::ReceivingData) == (exists|k: int|
                #![trigger prompt_at(s, k)]
                prompt_at(s, k))
            &&& r.stage == SweepStage::AwaitingPrompt ==> r.prompt_stream == s
            &&& r.stage == SweepStage::ReceivingData ==> {
                &&& r.prompt_stream == s.take(r.prompt_stream.len() as int)
                &&& prompt_at(s, r.prompt_stream.len() as int)
                &&& forall|j: int|
                    #![trigger prompt_at(s, j)]
                    j < r.prompt_stream.len() ==> !prompt_at(s, j)
            }
        }),
{
    let m = SweepExchangeModel {
        stage: SweepStage::AwaitingPrompt,
        prompt_stream: Seq::empty(),
        data: Seq::empty(),
        data_idx,
        num_points,
    };
    assert(m.prompt_stream + s =~= s);
    lemma_feed_until_prompt(m, s);
}

/// Law (nothing is lost or invented): a step only ever appends the bytes it
/// was given, to the prompt stream while the prompt is awaited and to the
/// reply data afterwards; a finished or failed exchange never changes again;
/// and a reply is complete only when it ends with a terminator or its
/// deadline passed.
pub proof fn lemma_step_appends_only(m: SweepExchangeModel, e: ReadEventModel)
    ensures
        ({
            let (r, a) = step(m, e);
            &&& r.data_idx == m.data_idx && r.num_points == m.num_points
            &&& (r.data == m.data || (e matches ReadEventModel::Received(b) && r.data == m.data + b
                && m.stage == SweepStage::ReceivingData))
            &&& (r.prompt_stream == m.prompt_stream || (e matches ReadEventModel::Received(b)
                && r.prompt_stream == m.prompt_stream + b && m.stage
                == SweepStage::AwaitingPrompt))
            &&& (m.stage == SweepStage::Complete ==> r == m && a == SweepActionModel::Finish)
            &&& (m.stage == SweepStage::Failed ==> r == m && a == SweepActionModel::Abort)
            &&& (r.stage == SweepStage::Complete && m.stage != SweepStage::Complete) ==> (
            data_terminated(r.data) || e == ReadEventModel::DeadlinePassed)
        }),
{
}

/// Law (the trace asked for is the trace fetched): whenever a step ends the
/// wait for the prompt, whether the prompt `ch>` arrived or the sweep's
/// deadline passed, the exchange asks for its own trace: it sends `data `,
/// the decimal digits of the index it was started with, and `\r\n`, with a
/// deadline of 3000 ms plus 10 ms per point. It leaves the wait on no other
/// event.
pub proof fn lemma_data_request_names_the_trace(m: SweepExchangeModel, e: ReadEventModel)
    requires
        m.stage == SweepStage::AwaitingPrompt,
    ensures
        step(m, e).0.stage == SweepStage::ReceivingData <==> (e == ReadEventModel::DeadlinePassed
            || (e matches ReadEventModel::Received(b) && b.len() == 1 && ends_with(
            m.prompt_stream + b,
            seq![99u8, 104, 62],
        ))),
        step(m, e).0.stage == SweepStage::ReceivingData ==> (step(m, e).1 matches SweepActionModel::Send(
            cmd,
            deadline,
        ) && {
            &&& cmd.len() >= 8
            &&& cmd.take(5) == seq![100u8, 97, 116, 97, 32]
            &&& cmd.subrange(cmd.len() - 2, cmd.len() as int) == seq![13u8, 10]
            &&& forall|i: int| 5 <= i < cmd.len() - 2 ==> 48 <= #[trigger] cmd[i] <= 57
            &&& decimal_value(cmd.subrange(5, cmd.len() - 2)) == m.data_idx
            &&& cmd == data_command(m.data_idx as nat)
            &&& deadline == 3000 + 10 * m.num_points
        }),
{
    let n = m.data_idx as nat;
    let digits = decimal_digits(n);
    let cmd = data_command(n);
    lemma_decimal_digits_value(n);
    lemma_decimal_digits_well_formed(n);
    assert(cmd.take(5) =~= seq![100u8, 97, 116, 97, 32]);
    assert(cmd.subrange(cmd.len() - 2, cmd.len() as int) =~= seq![13u8, 10]);
    assert(cmd.subrange(5, cmd.len() - 2) =~= digits);
    assert forall|i: int| 5 <= i < cmd.len() - 2 implies 48 <= #[trigger] cmd[i] <= 57 by {
        assert(cmd[i] == digits[i - 5]);
    }
}

proof fn lemma_split_at_space(x1: Seq<u8>, y1: Seq<u8>, x2: Seq<u8>, y2: Seq<u8>)
    requires
        x1 + seq![32u8] + y1 == x2 + seq![32u8] + y2,
        forall|i: int| 0 <= i < x1.len() ==> x1[i] != 32,
        forall|i: int| 0 <= i < x2.len() ==> x2[i] != 32,
    ensures
        x1 == x2,
        y1 == y2,
{
    let s = x1 + seq![32u8] + y1;
    let t = x2 + seq![32u8] + y2;
    if x1.len() < x2.len() {
        assert(s[x1.len() as int] == 32);
        assert(t[x1.len() as int] == x2[x1.len() as int]);
    } else if x2.len() < x1.len() {
        assert(t[x2.len() as int] == 32);
        assert(s[x2.len() as int] == x1[x2.len() as int]);
    } else {
        assert(x1 =~= s.take(x1.len() as int));
        assert(x2 =~= t.take(x2.len() as int));
        assert(y1 =~= s.skip(x1.len() + 1int));
        assert(y2 =~= t.skip(x2.len() + 1int));
    }
}

proof fn lemma_digits_have_no_space(n: nat)
    ensures
        forall|i: int| 0 <= i < decimal_digits(n).len() ==> decimal_digits(n)[i] != 32,
{
    lemma_decimal_digits_well_formed(n);
}

/// Law (the command says what was asked): two `sweep` commands are equal
/// only when they ask for the same start, end and point count.
pub proof fn lemma_sweep_command_unambiguous(a1: nat, b1: nat, c1: nat, a2: nat, b2: nat, c2: nat)
    requires
        sweep_command(a1, b1, c1) == sweep_command(a2, b2, c2),
    ensures
        a1 == a2,
        b1 == b2,
        c1 == c2,
{
    let head = seq![115u8, 119, 101, 101, 112, 32];
    let crlf = seq![13u8, 10];
    let s1 = sweep_command(a1, b1, c1);
    let s2 = sweep_command(a2, b2, c2);
    let r1 = decimal_digits(a1) + seq![32u8] + (decimal_digits(b1) + seq![32u8] + (decimal_digits(
        c1,
    ) + crlf));
    let r2 = decimal_digits(a2) + seq![32u8] + (decimal_digits(b2) + seq![32u8] + (decimal_digits(
        c2,
    ) + crlf));
    assert(s1 =~= head + r1);
    assert(s2 =~= head + r2);
    assert(r1 =~= s1.skip(6));
    assert(r2 =~= s2.skip(6));
    lemma_digits_have_no_space(a1);
    lemma_digits_have_no_space(a2);
    lemma_digits_have_no_space(b1);
    lemma_digits_have_no_space(b2);
    lemma_split_at_space(
        decimal_digits(a1),
        decimal_digits(b1) + seq![32u8] + (decimal_digits(c1) + crlf),
        decimal_digits(a2),
        decimal_digits(b2) + seq![32u8] + (decimal_digits(c2) + crlf),
    );
    lemma_split_at_space(
        decimal_digits(b1),
        decimal_digits(c1) + crlf,
        decimal_digits(b2),
        decimal_digits(c2) + crlf,
    );
    assert(decimal_digits(c1) =~= (decimal_digits(c1) + crlf).take(
        decimal_digits(c1).len() as int,
    ));
    assert((decimal_digits(c1) + crlf).len() == (decimal_digits(c2) + crlf).len());
    assert(decimal_digits(c2) =~= (decimal_digits(c2) + crlf).take(
        decimal_digits(c2).len() as int,
    ));
    lemma_decimal_digits_value(a1);
    lemma_decimal_digits_value(a2);
    lemma_decimal_digits_value(b1);
    lemma_decimal_digits_value(b2);
    lemma_decimal_digits_value(c1);
    lemma_decimal_digits_value(c2);
}

} // verus!
