//! Bus procedures as scripts: a `Procedure` says which I2C transfer or
//! delay to perform next, is resumed with what the bus answered, and at the
//! end hands back the decoded reading. Running the transfers is left to the
//! caller, so the protocol logic here never touches the bus itself.

use vstd::prelude::*;
use crate::dps310::{Dps310Status, Dps310Coefficients, spec_status, spec_coefficients,
    spec_raw_measurement, decode_coefficients, decode_raw_measurement};
use crate::rpr0521rs::{AlsSample, spec_sample, decode_sample};
use crate::scd41::{spec_data_ready, spec_measurement, data_ready, words_valid, measurement_valid};
use crate::bh1750;
use crate::scd41;

verus! {

/// One thing for the caller to do on the bus.
#[derive(Debug)]
pub enum Request {
    /// Write `bytes` to the device at `addr`.
    Write { addr: u8, bytes: Vec<u8> },
    /// Read `len` bytes from the device at `addr`.
    Read { addr: u8, len: usize },
    /// Write `bytes`, then read `len` bytes, in one transaction.
    WriteRead { addr: u8, bytes: Vec<u8>, len: usize },
    /// Wait `ms` milliseconds.
    Delay { ms: u32 },
}

#[verifier::ext_equal]
pub enum RequestView {
    Write { addr: u8, bytes: Seq<u8> },
    Read { addr: u8, len: nat },
    WriteRead { addr: u8, bytes: Seq<u8>, len: nat },
    Delay { ms: u32 },
}

impl RequestView {
    /// How many bytes the caller reports back for this request.
    pub open spec fn reply_len(self) -> nat {
        match self {
            RequestView::Read { len, .. } => len,
            RequestView::WriteRead { len, .. } => len,
            _ => 0,
        }
    }
}

impl View for Request {
    type V = RequestView;

    open spec fn view(&self) -> RequestView {
        match self {
            Request::Write { addr, bytes } => RequestView::Write { addr: *addr, bytes: bytes@ },
            Request::Read { addr, len } => RequestView::Read { addr: *addr, len: *len as nat },
            Request::WriteRead { addr, bytes, len } => RequestView::WriteRead {
                addr: *addr,
                bytes: bytes@,
                len: *len as nat,
            },
            Request::Delay { ms } => RequestView::Delay { ms: *ms },
        }
    }
}

fn copy_bytes(v: &Vec<u8>) -> (r: Vec<u8>)
    ensures
        r@ == v@,
{
    let r = v.clone();
    assert(r@ =~= v@);
    r
}

impl Request {
    /// A copy of the request.
    pub fn duplicate(&self) -> (r: Request)
        ensures
            r@ == self@,
    {
        match self {
            Request::Write { addr, bytes } => Request::Write { addr: *addr, bytes: copy_bytes(bytes) },
            Request::Read { addr, len } => Request::Read { addr: *addr, len: *len },
            Request::WriteRead { addr, bytes, len } => Request::WriteRead {
                addr: *addr,
                bytes: copy_bytes(bytes),
                len: *len,
            },
            Request::Delay { ms } => Request::Delay { ms: *ms },
        }
    }
}

/// What the caller reports after performing a request: the bytes in its
/// receive buffer (zero-filled before the transfer) and whether the driver
/// reported success.
pub struct Reply {
    pub data: Vec<u8>,
    pub ok: bool,
}

/// The I2C driver reported an error on a transfer that had to succeed.
#[derive(Debug, Clone, Copy, PartialEq, Eq)]
pub struct BusFault;

/// One step of a procedure script.
#[derive(Debug)]
pub enum Op {
    /// Perform `request`. When `keep` holds, its reply bytes join the data
    /// the procedure decodes. When `required` holds, a driver error ends the
    /// procedure; otherwise the error is ignored and the buffer contents are
    /// used as they are.
    Run { request: Request, keep: bool, required: bool },
    /// Perform `request` until some reply byte shares a set bit with the
    /// byte of `mask` at the same position, waiting 1 ms between attempts.
    /// A driver error ends the procedure, unless `fatal` holds: then the
    /// sensor node cannot go on, and the procedure refuses the reply.
    WaitUntil { request: Request, mask: Vec<u8>, fatal: bool },
}

#[verifier::ext_equal]
pub enum OpView {
    Run { request: RequestView, keep: bool, required: bool },
    WaitUntil { request: RequestView, mask: Seq<u8>, fatal: bool },
}

impl View for Op {
    type V = OpView;

    open spec fn view(&self) -> OpView {
        match self {
            Op::Run { request, keep, required } => OpView::Run {
                request: request@,
                keep: *keep,
                required: *required,
            },
            Op::WaitUntil { request, mask, fatal } => OpView::WaitUntil {
                request: request@,
                mask: mask@,
                fatal: *fatal,
            },
        }
    }
}

impl OpView {
    pub open spec fn request(self) -> RequestView {
        match self {
            OpView::Run { request, .. } => request,
            OpView::WaitUntil { request, .. } => request,
        }
    }

    /// How many bytes this step adds to the data the procedure decodes.
    pub open spec fn kept_len(self) -> nat {
        match self {
            OpView::Run { request, keep, .. } => if keep {
                request.reply_len()
            } else {
                0
            },
            OpView::WaitUntil { .. } => 0,
        }
    }

    /// A wait step has one mask byte per reply byte.
    pub open spec fn well_formed(self) -> bool {
        match self {
            OpView::Run { .. } => true,
            OpView::WaitUntil { request, mask, .. } => mask.len() == request.reply_len(),
        }
    }
}

/// How many bytes the steps of `script` add to the decoded data.
pub open spec fn kept_len(script: Seq<OpView>) -> nat
    decreases script.len(),
{
    if script.len() == 0 {
        0
    } else {
        kept_len(script.drop_last()) + script.last().kept_len()
    }
}

/// Whether some reply byte shares a set bit with its mask byte.
pub open spec fn any_masked(data: Seq<u8>, mask: Seq<u8>) -> bool {
    exists|i: int| 0 <= i < mask.len() && i < data.len() && #[trigger] (data[i] & mask[i]) != 0
}

/// How the kept bytes of a procedure are turned into its reading.
#[derive(Debug, Clone, Copy, PartialEq, Eq)]
pub enum Decoder {
    Nothing,
    Dps310Status,
    Dps310Coefficients,
    Dps310RawMeasurement,
    Bh1750Measurement,
    Rpr0521Sample,
    Scd41DataReady,
    Scd41Measurement,
}

/// The result of a procedure.
#[derive(Debug, Clone, Copy, PartialEq, Eq)]
pub enum Reading {
    Nothing,
    Status(Dps310Status),
    Coefficients(Dps310Coefficients),
    RawMeasurement(i32),
    Illuminance(u16),
    Als(AlsSample),
    DataReady(bool),
    Measurement((u16, u16, u16)),
}

/// Why a procedure cannot take a reply: the sensor node stops on it.
#[derive(Debug, Clone, Copy, PartialEq, Eq)]
pub enum Refusal {
    /// The driver reported an error on a step that must not fail.
    BusError,
    /// A word of an SCD41 measurement failed its CRC check.
    CrcMismatch,
}

/// Whether decoder `d` refuses the kept bytes `b`: an SCD41 measurement
/// with a corrupt word is refused.
pub open spec fn decoder_refusal(d: Decoder, b: Seq<u8>) -> Option<Refusal> {
    match d {
        Decoder::Scd41Measurement => if words_valid(b) {
            None
        } else {
            Some(Refusal::CrcMismatch)
        },
        _ => None,
    }
}

/// Tells whether decoder `d` refuses the kept bytes `b`.
pub fn decoder_refusal_exec(d: Decoder, b: &Vec<u8>) -> (r: Option<Refusal>)
    requires
        b@.len() == decoder_len(d),
    ensures
        r == decoder_refusal(d, b@),
{
    match d {
        Decoder::Scd41Measurement => if measurement_valid(b.as_slice()) {
            None
        } else {
            Some(Refusal::CrcMismatch)
        },
        _ => None,
    }
}

/// The number of kept bytes a decoder reads.
pub open spec fn decoder_len(d: Decoder) -> nat {
    match d {
        Decoder::Nothing => 0,
        Decoder::Dps310Status => 1,
        Decoder::Dps310Coefficients => 18,
        Decoder::Dps310RawMeasurement => 3,
        Decoder::Bh1750Measurement => 2,
        Decoder::Rpr0521Sample => 5,
        Decoder::Scd41DataReady => 3,
        Decoder::Scd41Measurement => 9,
    }
}

/// The reading that decoder `d` makes of the kept bytes `b`.
pub open spec fn spec_decode(d: Decoder, b: Seq<u8>) -> Reading {
    match d {
        Decoder::Nothing => Reading::Nothing,
        Decoder::Dps310Status => Reading::Status(spec_status(b[0])),
        Decoder::Dps310Coefficients => Reading::Coefficients(spec_coefficients(b)),
        Decoder::Dps310RawMeasurement => Reading::RawMeasurement(spec_raw_measurement(b)),
        Decoder::Bh1750Measurement => Reading::Illuminance(bh1750::spec_measurement(b)),
        Decoder::Rpr0521Sample => Reading::Als(spec_sample(b)),
        Decoder::Scd41DataReady => Reading::DataReady(spec_data_ready(b)),
        Decoder::Scd41Measurement => Reading::Measurement(spec_measurement(b)),
    }
}

/// Decodes the kept bytes of a finished procedure.
pub fn decode(d: Decoder, b: &Vec<u8>) -> (r: Reading)
    requires
        b@.len() == decoder_len(d),
        decoder_refusal(d, b@) is None,
    ensures
        r == spec_decode(d, b@),
{
    match d {
        Decoder::Nothing => Reading::Nothing,
        Decoder::Dps310Status => Reading::Status(Dps310Status::from_u8(b[0])),
        Decoder::Dps310Coefficients => Reading::Coefficients(decode_coefficients(b.as_slice())),
        Decoder::Dps310RawMeasurement => Reading::RawMeasurement(decode_raw_measurement(b.as_slice())),
        Decoder::Bh1750Measurement => Reading::Illuminance(bh1750::decode_measurement(b.as_slice())),
        Decoder::Rpr0521Sample => Reading::Als(decode_sample(b.as_slice())),
        Decoder::Scd41DataReady => Reading::DataReady(data_ready(b.as_slice())),
        Decoder::Scd41Measurement => Reading::Measurement(scd41::decode_measurement(b.as_slice())),
    }
}

/// What a procedure asks for next.
#[derive(Debug)]
pub enum Step {
    /// Perform this request and resume the procedure with the reply.
    Perform(Request),
    /// The procedure is over.
    Done(Result<Reading, BusFault>),
}

pub enum StepView {
    Perform(RequestView),
    Done(Result<Reading, BusFault>),
}

impl View for Step {
    type V = StepView;

    open spec fn view(&self) -> StepView {
        match self {
            Step::Perform(r) => StepView::Perform(r@),
            Step::Done(r) => StepView::Done(*r),
        }
    }
}

/// A bus procedure in progress.
pub struct Procedure {
    script: Vec<Op>,
    decoder: Decoder,
    pc: usize,
    polling: bool,
    kept: Vec<u8>,
    finished: bool,
}

pub struct ProcedureView {
    /// The steps of the procedure.
    pub script: Seq<OpView>,
    pub decoder: Decoder,
    /// The step under way.
    pub pc: nat,
    /// The step under way is a wait, and its 1 ms pause is under way.
    pub polling: bool,
    /// The reply bytes kept so far.
    pub kept: Seq<u8>,
    pub finished: bool,
}

impl View for Procedure {
    type V = ProcedureView;

    closed spec fn view(&self) -> ProcedureView {
        ProcedureView {
            script: self.script@.map_values(|o: Op| o@),
            decoder: self.decoder,
            pc: self.pc as nat,
            polling: self.polling,
            kept: self.kept@,
            finished: self.finished,
        }
    }
}

/// A script that a procedure can run with the given decoder: its kept bytes
/// fill the decoder's layout and its waits are well formed.
pub open spec fn script_fits(script: Seq<OpView>, d: Decoder) -> bool {
    &&& kept_len(script) == decoder_len(d)
    &&& all_well_formed(script)
}

/// The view of a script.
pub open spec fn script_view(v: Seq<Op>) -> Seq<OpView> {
    v.map_values(|o: Op| o@)
}

/// A write whose driver error ends the procedure.
pub open spec fn required_write(addr: u8, bytes: Seq<u8>) -> OpView {
    OpView::Run { request: RequestView::Write { addr, bytes }, keep: false, required: true }
}

/// A write whose driver error is ignored.
pub open spec fn tolerated_write(addr: u8, bytes: Seq<u8>) -> OpView {
    OpView::Run { request: RequestView::Write { addr, bytes }, keep: false, required: false }
}

/// A read whose bytes are kept and whose driver error ends the procedure.
pub open spec fn required_read(addr: u8, len: nat) -> OpView {
    OpView::Run { request: RequestView::Read { addr, len }, keep: true, required: true }
}

/// A combined write and read.
pub open spec fn write_read(addr: u8, bytes: Seq<u8>, len: nat, keep: bool, required: bool) -> OpView {
    OpView::Run { request: RequestView::WriteRead { addr, bytes, len }, keep, required }
}

/// A pause of `ms` milliseconds.
pub open spec fn pause(ms: u32) -> OpView {
    OpView::Run { request: RequestView::Delay { ms }, keep: false, required: false }
}

/// Polling the register selected by writing `bytes` until a reply byte
/// shares a set bit with its `mask` byte.
pub open spec fn wait_for(addr: u8, bytes: Seq<u8>, mask: Seq<u8>, fatal: bool) -> OpView {
    OpView::WaitUntil { request: RequestView::WriteRead { addr, bytes, len: mask.len() }, mask, fatal }
}

/// Appending a step adds its kept bytes to those of the script.
pub proof fn lemma_kept_len_push(s: Seq<OpView>, o: OpView)
    ensures
        kept_len(s.push(o)) == kept_len(s) + o.kept_len(),
{
    assert(s.push(o).drop_last() =~= s);
}

/// Every wait of the script is well formed.
pub open spec fn all_well_formed(s: Seq<OpView>) -> bool {
    forall|i: int| 0 <= i < s.len() ==> #[trigger] s[i].well_formed()
}

/// A script under construction.
pub struct Script {
    ops: Vec<Op>,
}

impl View for Script {
    type V = Seq<OpView>;

    closed spec fn view(&self) -> Seq<OpView> {
        script_view(self.ops@)
    }
}

impl Script {
    /// An empty script.
    pub fn new() -> (r: Script)
        ensures
            r@ == Seq::<OpView>::empty(),
            kept_len(r@) == 0,
            all_well_formed(r@),
    {
        let r = Script { ops: Vec::new() };
        assert(r@ =~= Seq::<OpView>::empty());
        r
    }

    fn push(&mut self, op: Op)
        requires
            op@.well_formed(),
        ensures
            final(self)@ == old(self)@.push(op@),
            kept_len(final(self)@) == kept_len(old(self)@) + op@.kept_len(),
            all_well_formed(old(self)@) ==> all_well_formed(final(self)@),
    {
        self.ops.push(op);
        assert(final(self)@ =~= old(self)@.push(op@));
        proof {
            lemma_kept_len_push(old(self)@, op@);
        }
    }

    /// Appends a write of `bytes` to the device at `addr`.
    pub fn write(&mut self, addr: u8, bytes: Vec<u8>, required: bool)
        ensures
            final(self)@ == old(self)@.push(
                if required { required_write(addr, bytes@) } else { tolerated_write(addr, bytes@) },
            ),
            kept_len(final(self)@) == kept_len(old(self)@),
            all_well_formed(old(self)@) ==> all_well_formed(final(self)@),
    {
        self.push(Op::Run { request: Request::Write { addr, bytes }, keep: false, required });
    }

    /// Appends a read of `len` bytes, kept, whose driver error ends the
    /// procedure.
    pub fn read(&mut self, addr: u8, len: usize)
        ensures
            final(self)@ == old(self)@.push(required_read(addr, len as nat)),
            kept_len(final(self)@) == kept_len(old(self)@) + len,
            all_well_formed(old(self)@) ==> all_well_formed(final(self)@),
    {
        self.push(Op::Run { request: Request::Read { addr, len }, keep: true, required: true });
    }

    /// Appends a combined write and read.
    pub fn write_read(&mut self, addr: u8, bytes: Vec<u8>, len: usize, keep: bool, required: bool)
        ensures
            final(self)@ == old(self)@.push(write_read(addr, bytes@, len as nat, keep, required)),
            kept_len(final(self)@) == kept_len(old(self)@) + if keep { len as nat } else { 0 },
            all_well_formed(old(self)@) ==> all_well_formed(final(self)@),
    {
        self.push(Op::Run { request: Request::WriteRead { addr, bytes, len }, keep, required });
    }

    /// Appends a pause.
    pub fn pause(&mut self, ms: u32)
        ensures
            final(self)@ == old(self)@.push(pause(ms)),
            kept_len(final(self)@) == kept_len(old(self)@),
            all_well_formed(old(self)@) ==> all_well_formed(final(self)@),
    {
        self.push(Op::Run { request: Request::Delay { ms }, keep: false, required: false });
    }

    /// Appends a wait: poll with a write of `bytes` and a read of
    /// `mask.len()` bytes until a reply byte shares a bit with its mask byte.
    /// When `fatal` holds, a driver error on a poll is refused.
    pub fn wait_for(&mut self, addr: u8, bytes: Vec<u8>, mask: Vec<u8>, fatal: bool)
        ensures
            final(self)@ == old(self)@.push(wait_for(addr, bytes@, mask@, fatal)),
            kept_len(final(self)@) == kept_len(old(self)@),
            all_well_formed(old(self)@) ==> all_well_formed(final(self)@),
    {
        let len: usize = mask.len();
        self.push(Op::WaitUntil { request: Request::WriteRead { addr, bytes, len }, mask, fatal });
    }

    /// Starts a procedure running this script.
    pub fn start(self, decoder: Decoder) -> (r: (Procedure, Step))
        requires
            kept_len(self@) == decoder_len(decoder),
            all_well_formed(self@),
            self@.len() == 0 ==> decoder_refusal(decoder, Seq::empty()) is None,
        ensures
            r.0.inv(),
            (r.0@, r.1@) == issue(initial(self@, decoder), 0, Seq::empty()),
    {
        Procedure::start(self.ops, decoder)
    }
}

/// Moves the procedure to step `pc` with kept bytes `kept`: it asks for the
/// step's request, or, past the last step, finishes with the decoded reading.
pub open spec fn issue(p: ProcedureView, pc: nat, kept: Seq<u8>) -> (ProcedureView, StepView) {
    if pc >= p.script.len() {
        (
            ProcedureView { script: p.script, decoder: p.decoder, pc, polling: false, kept, finished: true },
            StepView::Done(Ok(spec_decode(p.decoder, kept))),
        )
    } else {
        (
            ProcedureView { script: p.script, decoder: p.decoder, pc, polling: false, kept, finished: false },
            StepView::Perform(p.script[pc as int].request()),
        )
    }
}

/// The procedure `p` ended by a driver error.
pub open spec fn fail(p: ProcedureView) -> (ProcedureView, StepView) {
    (
        ProcedureView { script: p.script, decoder: p.decoder, pc: p.pc, polling: false, kept: p.kept, finished: true },
        StepView::Done(Err(BusFault)),
    )
}

/// A fresh procedure running `script`, before its first request.
pub open spec fn initial(script: Seq<OpView>, d: Decoder) -> ProcedureView {
    ProcedureView { script, decoder: d, pc: 0, polling: false, kept: Seq::empty(), finished: false }
}

/// What the procedure does with a reply of `data`, the driver having
/// reported success when `ok` holds.
pub open spec fn spec_resume(p: ProcedureView, data: Seq<u8>, ok: bool) -> (ProcedureView, StepView) {
    if p.polling {
        issue(p, p.pc, p.kept)
    } else {
        match p.script[p.pc as int] {
            OpView::Run { keep, required, .. } => if !ok && required {
                fail(p)
            } else {
                issue(p, p.pc + 1, if keep { p.kept + data } else { p.kept })
            },
            OpView::WaitUntil { mask, .. } => if !ok {
                fail(p)
            } else if any_masked(data, mask) {
                issue(p, p.pc + 1, p.kept)
            } else {
                (
                    ProcedureView {
                        script: p.script,
                        decoder: p.decoder,
                        pc: p.pc,
                        polling: true,
                        kept: p.kept,
                        finished: false,
                    },
                    StepView::Perform(RequestView::Delay { ms: 1 }),
                )
            },
        }
    }
}

/// What the procedure `p` refuses in a reply of `data` (the driver having
/// reported success when `ok` holds): a driver error on a fatal wait, or a
/// reply that would finish the procedure with bytes its decoder refuses.
pub open spec fn spec_refusal(p: ProcedureView, data: Seq<u8>, ok: bool) -> Option<Refusal> {
    if !p.polling && (p.script[p.pc as int] matches OpView::WaitUntil { fatal, .. } && fatal) && !ok {
        Some(Refusal::BusError)
    } else if spec_resume(p, data, ok).1 matches StepView::Done(Ok(_)) {
        decoder_refusal(p.decoder, spec_resume(p, data, ok).0.kept)
    } else {
        None
    }
}

impl ProcedureView {
    /// How many bytes the reply to the pending request holds.
    pub open spec fn expected_reply_len(self) -> nat {
        if self.polling {
            0
        } else {
            self.script[self.pc as int].request().reply_len()
        }
    }
}

/// The state and last step after resuming `start` with each reply of
/// `replies` in turn (a reply being the bytes and whether the driver
/// reported success).
pub open spec fn run(start: (ProcedureView, StepView), replies: Seq<(Seq<u8>, bool)>) -> (ProcedureView, StepView)
    decreases replies.len(),
{
    if replies.len() == 0 {
        start
    } else {
        let prev = run(start, replies.drop_last());
        spec_resume(prev.0, replies.last().0, replies.last().1)
    }
}

/// The script has no wait steps.
pub open spec fn no_waits(script: Seq<OpView>) -> bool {
    forall|i: int| 0 <= i < script.len() ==> #[trigger] script[i] is Run
}

/// Reply `r` answers step `op`: it has the step's reply length, and it
/// reports success unless the step tolerates errors.
pub open spec fn reply_fits(op: OpView, r: (Seq<u8>, bool)) -> bool {
    &&& r.0.len() == op.request().reply_len()
    &&& (r.1 || !(op->Run_required))
}

/// The bytes a procedure keeps from `replies` to the steps of `script`.
pub open spec fn kept_bytes(script: Seq<OpView>, replies: Seq<(Seq<u8>, bool)>) -> Seq<u8>
    decreases replies.len(),
{
    if replies.len() == 0 || script.len() == 0 {
        Seq::empty()
    } else {
        kept_bytes(script.drop_last(), replies.drop_last()) + if script.last()->Run_keep {
            replies.last().0
        } else {
            Seq::empty()
        }
    }
}

/// Resuming with the replies of `a` and then those of `b` is resuming with
/// the replies of `a + b`.
pub proof fn lemma_run_append(
    start: (ProcedureView, StepView),
    a: Seq<(Seq<u8>, bool)>,
    b: Seq<(Seq<u8>, bool)>,
)
    ensures
        run(start, a + b) == run(run(start, a), b),
    decreases b.len(),
{
    if b.len() == 0 {
        assert(a + b =~= a);
    } else {
        lemma_run_append(start, a, b.drop_last());
        assert((a + b).drop_last() =~= a + b.drop_last());
        assert((a + b).last() == b.last());
    }
}

/// From step `m` on, `k` steps without waits answered as they should take
/// the procedure to step `m + k`, having added the bytes kept from those
/// replies.
pub proof fn lemma_run_from(
    script: Seq<OpView>,
    d: Decoder,
    m: int,
    kept0: Seq<u8>,
    replies: Seq<(Seq<u8>, bool)>,
    k: int,
)
    requires
        0 <= m,
        0 <= k,
        m + k <= script.len(),
        k <= replies.len(),
        forall|i: int| 0 <= i < k ==> #[trigger] script[m + i] is Run,
        forall|i: int| 0 <= i < k ==> #[trigger] reply_fits(script[m + i], replies[i]),
    ensures
        run(issue(initial(script, d), m as nat, kept0), replies.take(k)) == issue(
            initial(script, d),
            (m + k) as nat,
            kept0 + kept_bytes(script.subrange(m, m + k), replies.take(k)),
        ),
    decreases k,
{
    if k == 0 {
        assert(replies.take(0).len() == 0);
        assert(kept0 + kept_bytes(script.subrange(m, m), replies.take(0)) =~= kept0);
    } else {
        lemma_run_from(script, d, m, kept0, replies, k - 1);
        let sub = script.subrange(m, m + k);
        assert(replies.take(k).drop_last() =~= replies.take(k - 1));
        assert(sub.drop_last() =~= script.subrange(m, m + k - 1));
        assert(replies.take(k).last() == replies[k - 1]);
        assert(sub.last() == script[m + k - 1]);
        assert(script[m + (k - 1)] is Run);
        assert(reply_fits(script[m + (k - 1)], replies[k - 1]));
        let before = kept_bytes(script.subrange(m, m + k - 1), replies.take(k - 1));
        let added = if script[m + k - 1]->Run_keep { replies[k - 1].0 } else { Seq::<u8>::empty() };
        assert(kept_bytes(sub, replies.take(k)) == before + added);
        assert((kept0 + before) + added =~= kept0 + (before + added));
    }
}

/// Steps that each keep a one-byte reply keep exactly those bytes, in order.
pub proof fn lemma_kept_single_bytes(script: Seq<OpView>, m: int, replies: Seq<(Seq<u8>, bool)>, k: int)
    requires
        0 <= m,
        0 <= k,
        m + k <= script.len(),
        k <= replies.len(),
        forall|i: int| 0 <= i < k ==> #[trigger] script[m + i] is Run && script[m + i]->Run_keep,
        forall|i: int| 0 <= i < k ==> (#[trigger] replies[i]).0.len() == 1,
    ensures
        kept_bytes(script.subrange(m, m + k), replies.take(k)) =~= Seq::new(
            k as nat,
            |i: int| replies[i].0[0],
        ),
    decreases k,
{
    if k > 0 {
        lemma_kept_single_bytes(script, m, replies, k - 1);
        let sub = script.subrange(m, m + k);
        assert(replies.take(k).drop_last() =~= replies.take(k - 1));
        assert(sub.drop_last() =~= script.subrange(m, m + k - 1));
        assert(sub.last() == script[m + (k - 1)]);
        assert(script[m + (k - 1)]->Run_keep);
        assert(replies[k - 1].0.len() == 1);
        assert(replies[k - 1].0 =~= seq![replies[k - 1].0[0]]);
    }
}

/// When the script has no waits and the bus answers every step (failing,
/// if at all, only on steps that tolerate it), the procedure finishes after
/// exactly one reply per step, with the decoding of the bytes kept from
/// those replies.
pub proof fn lemma_run_completes(script: Seq<OpView>, d: Decoder, replies: Seq<(Seq<u8>, bool)>)
    requires
        no_waits(script),
        replies.len() == script.len(),
        forall|i: int| 0 <= i < script.len() ==> #[trigger] reply_fits(script[i], replies[i]),
    ensures
        run(issue(initial(script, d), 0, Seq::empty()), replies).0.finished,
        run(issue(initial(script, d), 0, Seq::empty()), replies).1 == StepView::Done(
            Ok(spec_decode(d, kept_bytes(script, replies))),
        ),
{
    lemma_run_from(script, d, 0, Seq::empty(), replies, script.len() as int);
    assert(replies.take(script.len() as int) =~= replies);
    assert(script.subrange(0, script.len() as int) =~= script);
    assert(Seq::<u8>::empty() + kept_bytes(script, replies) =~= kept_bytes(script, replies));
}

/// When the bus answers the first `k` steps of a script without waits as it
/// should, and then reports an error on step `k`, which must succeed, the
/// procedure ends right there with a bus fault.
pub proof fn lemma_run_fails(script: Seq<OpView>, d: Decoder, replies: Seq<(Seq<u8>, bool)>, k: int)
    requires
        no_waits(script),
        0 <= k < script.len(),
        replies.len() == k + 1,
        forall|i: int| 0 <= i < k ==> #[trigger] reply_fits(script[i], replies[i]),
        script[k]->Run_required,
        !replies[k].1,
    ensures
        run(issue(initial(script, d), 0, Seq::empty()), replies).0.finished,
        run(issue(initial(script, d), 0, Seq::empty()), replies).1 == StepView::Done(Err(BusFault)),
{
    lemma_run_from(script, d, 0, Seq::empty(), replies, k);
    assert(replies.drop_last() =~= replies.take(k));
    assert(script[k] is Run);
}

/// A wait that reads a not-ready reply pauses 1 ms, and after the pause asks
/// for the same poll again, in the same state: polling neither advances the
/// procedure nor changes the bytes it has kept.
pub proof fn lemma_wait_repeats(p: ProcedureView, data: Seq<u8>)
    requires
        !p.polling,
        !p.finished,
        p.pc < p.script.len(),
        p.script[p.pc as int] is WaitUntil,
        !any_masked(data, p.script[p.pc as int]->WaitUntil_mask),
    ensures
        spec_resume(p, data, true).1 == StepView::Perform(RequestView::Delay { ms: 1 }),
        spec_resume(spec_resume(p, data, true).0, Seq::empty(), true).0 == p,
        spec_resume(spec_resume(p, data, true).0, Seq::empty(), true).1 == StepView::Perform(
            p.script[p.pc as int].request(),
        ),
{
}

proof fn lemma_kept_len_step(script: Seq<OpView>, pc: int)
    requires
        0 <= pc < script.len(),
    ensures
        kept_len(script.take(pc + 1)) == kept_len(script.take(pc)) + script[pc].kept_len(),
{
    assert(script.take(pc + 1).drop_last() =~= script.take(pc));
}

impl Procedure {
    /// The internal consistency of a procedure.
    pub closed spec fn inv(&self) -> bool {
        &&& self.pc <= self.script@.len()
        &&& script_fits(self@.script, self.decoder)
        &&& self.kept@.len() == kept_len(self@.script.take(self.pc as int))
        &&& !self.finished ==> self.pc < self.script@.len()
        &&& self.polling ==> !self.finished && self@.script[self.pc as int] is WaitUntil
    }

    fn issue(&mut self, pc: usize) -> (step: Step)
        requires
            pc <= old(self).script@.len(),
            script_fits(old(self)@.script, old(self).decoder),
            old(self).kept@.len() == kept_len(old(self)@.script.take(pc as int)),
            pc == old(self).script@.len() ==> decoder_refusal(old(self).decoder, old(self)@.kept) is None,
        ensures
            final(self).inv(),
            (final(self)@, step@) == issue(old(self)@, pc as nat, old(self)@.kept),
    {
        self.pc = pc;
        self.polling = false;
        if pc == self.script.len() {
            self.finished = true;
            proof {
                assert(self@.script.take(pc as int) =~= self@.script);
            }
            Step::Done(Ok(decode(self.decoder, &self.kept)))
        } else {
            self.finished = false;
            let request = match &self.script[pc] {
                Op::Run { request, .. } => request.duplicate(),
                Op::WaitUntil { request, .. } => request.duplicate(),
            };
            Step::Perform(request)
        }
    }

    /// Starts a procedure running `script` and decoding its kept bytes with
    /// `decoder`; returns it with its first step.
    pub fn start(script: Vec<Op>, decoder: Decoder) -> (r: (Procedure, Step))
        requires
            script_fits(script@.map_values(|o: Op| o@), decoder),
            script@.len() == 0 ==> decoder_refusal(decoder, Seq::empty()) is None,
        ensures
            r.0.inv(),
            (r.0@, r.1@) == issue(initial(script@.map_values(|o: Op| o@), decoder), 0, Seq::empty()),
    {
        let mut p = Procedure {
            script,
            decoder,
            pc: 0,
            polling: false,
            kept: Vec::new(),
            finished: false,
        };
        proof {
            assert(p@.script.take(0) =~= Seq::<OpView>::empty());
            assert(p@ == initial(p@.script, decoder));
        }
        let step = p.issue(0);
        (p, step)
    }

    /// What the procedure refuses in `reply`, the reply to the request it
    /// asked for. The caller stops instead of resuming with a refused reply.
    pub fn refusal(&self, reply: &Reply) -> (r: Option<Refusal>)
        requires
            self.inv(),
            !self@.finished,
            reply.data@.len() == self@.expected_reply_len(),
        ensures
            r == spec_refusal(self@, reply.data@, reply.ok),
    {
        if self.polling {
            return None;
        }
        let pc: usize = self.pc;
        let n: usize = self.script.len();
        proof {
            lemma_kept_len_step(self@.script, pc as int);
            assert(self@.script[pc as int] == self.script@[pc as int]@);
            assert(self@.script.take(n as int) =~= self@.script);
        }
        match &self.script[pc] {
            Op::WaitUntil { mask, fatal, .. } => {
                if !reply.ok {
                    if *fatal {
                        Some(Refusal::BusError)
                    } else {
                        None
                    }
                } else if pc + 1 == n && any_masked_exec(&reply.data, mask) {
                    decoder_refusal_exec(self.decoder, &self.kept)
                } else {
                    None
                }
            },
            Op::Run { keep, required, .. } => {
                if (!reply.ok && *required) || pc + 1 < n {
                    None
                } else if *keep {
                    let mut bytes = copy_bytes(&self.kept);
                    let mut more = copy_bytes(&reply.data);
                    bytes.append(&mut more);
                    decoder_refusal_exec(self.decoder, &bytes)
                } else {
                    decoder_refusal_exec(self.decoder, &self.kept)
                }
            },
        }
    }

    /// Resumes the procedure with the reply to the request it asked for.
    pub fn resume(&mut self, reply: Reply) -> (step: Step)
        requires
            old(self).inv(),
            !old(self)@.finished,
            reply.data@.len() == old(self)@.expected_reply_len(),
            spec_refusal(old(self)@, reply.data@, reply.ok) is None,
        ensures
            final(self).inv(),
            (final(self)@, step@) == spec_resume(old(self)@, reply.data@, reply.ok),
    {
        let Reply { data, ok } = reply;
        let mut data = data;
        if self.polling {
            let pc: usize = self.pc;
            return self.issue(pc);
        }
        let pc: usize = self.pc;
        let n: usize = self.script.len();
        assert(pc < n);
        proof {
            lemma_kept_len_step(self@.script, pc as int);
            assert(self@.script[pc as int] == self.script@[pc as int]@);
        }
        let (is_run, keep, required, ready) = match &self.script[pc] {
            Op::Run { keep, required, .. } => (true, *keep, *required, false),
            Op::WaitUntil { mask, .. } => (false, false, true, any_masked_exec(&data, mask)),
        };
        if !ok && required {
            self.polling = false;
            self.finished = true;
            return Step::Done(Err(BusFault));
        }
        if is_run {
            if keep {
                self.kept.append(&mut data);
            }
            self.issue(pc + 1)
        } else if ready {
            self.issue(pc + 1)
        } else {
            self.polling = true;
            Step::Perform(Request::Delay { ms: 1 })
        }
    }
}

fn any_masked_exec(data: &Vec<u8>, mask: &Vec<u8>) -> (r: bool)
    ensures
        r == any_masked(data@, mask@),
{
    let mut i: usize = 0;
    while i < mask.len() && i < data.len()
        invariant
            i <= mask@.len(),
            forall|j: int| 0 <= j < i ==> #[trigger] (data@[j] & mask@[j]) == 0,
        decreases mask@.len() - i,
    {
        if data[i] & mask[i] != 0 {
            return true;
        }
        i += 1;
    }
    false
}

} // verus!
