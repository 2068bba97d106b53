use vstd::prelude::*;

use crate::errors::LensError;
use crate::frame::{decode, decode_variable, encode, frame_for};
use crate::mode::{mode_from_u8, LensMode};
use crate::transport::Transport;
use crate::units::{
    current_from_raw, current_to_raw, diopter_from_raw, diopter_offset_milli, diopter_to_raw,
    lemma_round_div_exact, lemma_round_div_lower, lemma_round_div_upper, max_current_from_raw,
    round_div, round_div_i64, temperature_from_raw, version_from_payload,
};
use vstd::arithmetic::div_mod::lemma_basic_div;
use crate::wire::{i16_be_hi, i16_be_lo, i16_from_be, i16_to_be};

verus! {

/// Focal power in milli-diopters that a wire integer stands for, under the
/// firmware-selected offset.
pub open spec fn diopter_milli_of_raw(raw: int, fw_type: u8) -> int {
    raw * 5 - diopter_offset_milli(fw_type)
}

/// The errors an exchange over the transport can surface. The purely local
/// mode errors never come out of an exchange.
pub open spec fn is_exchange_error(e: LensError) -> bool {
    ||| e == LensError::Transport
    ||| e == LensError::CrcError
    ||| e == LensError::ShortResponse
    ||| e == LensError::UnexpectedResponse
}

/// The greeting the host opens with; sent bare, without a checksum.
pub open spec fn handshake_request() -> Seq<u8> {
    seq![83u8, 116u8, 97u8, 114u8, 116u8]
}

/// The only reply that completes the handshake.
pub open spec fn ready_reply() -> Seq<u8> {
    seq![82u8, 101u8, 97u8, 100u8, 121u8, 13u8, 10u8]
}

/// The set-current command: opcode `Aw` followed by the big-endian wire
/// integer for `value_milli` under the device's maximum output current.
pub open spec fn cmd_set_current(max_milli: int, value_milli: int) -> Seq<u8> {
    seq![
        65u8,
        119u8,
        i16_be_hi(round_div(value_milli * 4095, max_milli)),
        i16_be_lo(round_div(value_milli * 4095, max_milli)),
    ]
}

/// The set-focal-power command: opcode `PwDA` followed by the big-endian wire
/// integer for `value_milli` under the firmware offset, padded by two bytes.
pub open spec fn cmd_set_diopter(fw_type: u8, value_milli: int) -> Seq<u8> {
    seq![
        80u8,
        119u8,
        68u8,
        65u8,
        i16_be_hi(round_div(value_milli + diopter_offset_milli(fw_type), 5)),
        i16_be_lo(round_div(value_milli + diopter_offset_milli(fw_type), 5)),
        0u8,
        0u8,
    ]
}

/// The firmware-type query, opcode `H`.
pub open spec fn cmd_firmware_type() -> Seq<u8> {
    seq![72u8]
}

/// The firmware-version query, opcode `V`.
pub open spec fn cmd_firmware_version() -> Seq<u8> {
    seq![86u8, 0u8]
}

/// The maximum-output-current query, opcode `CrMA`.
pub open spec fn cmd_max_current() -> Seq<u8> {
    seq![67u8, 114u8, 77u8, 65u8, 0u8, 0u8]
}

/// The active-mode query, opcode `MMA`.
pub open spec fn cmd_query_mode() -> Seq<u8> {
    seq![77u8, 77u8, 65u8]
}

/// The temperature query, opcode `TCA`.
pub open spec fn cmd_get_temperature() -> Seq<u8> {
    seq![84u8, 67u8, 65u8]
}

/// The current read-back query, opcode `Ar`.
pub open spec fn cmd_get_current() -> Seq<u8> {
    seq![65u8, 114u8, 0u8, 0u8]
}

/// The focal-power read-back query, opcode `PrDA`.
pub open spec fn cmd_get_diopter() -> Seq<u8> {
    seq![80u8, 114u8, 68u8, 65u8, 0u8, 0u8, 0u8, 0u8]
}

/// The switch to current mode, opcode `MwDA`.
pub open spec fn cmd_mode_current() -> Seq<u8> {
    seq![77u8, 119u8, 68u8, 65u8]
}

/// The switch to focal-power mode, opcode `MwCA`.
pub open spec fn cmd_mode_focal() -> Seq<u8> {
    seq![77u8, 119u8, 67u8, 65u8]
}

/// The evenly spaced ramp schedule from `start` down to zero, as a
/// mathematical sequence of `steps + 1` setter targets.
pub open spec fn ramp_schedule(start: int, steps: nat) -> Seq<int> {
    Seq::new(steps + 1, |i: int| round_div(start * (steps - i), steps as int))
}

/// The wire traffic of one set-current command per target, in order.
pub open spec fn set_current_frames(max_milli: int, targets: Seq<int>) -> Seq<u8>
    decreases targets.len(),
{
    if targets.len() == 0 {
        Seq::empty()
    } else {
        set_current_frames(max_milli, targets.drop_last()) + frame_for(
            cmd_set_current(max_milli, targets.last()),
        )
    }
}

/// The wire traffic of one set-focal-power command per target, in order.
pub open spec fn set_diopter_frames(fw_type: u8, targets: Seq<int>) -> Seq<u8>
    decreases targets.len(),
{
    if targets.len() == 0 {
        Seq::empty()
    } else {
        set_diopter_frames(fw_type, targets.drop_last()) + frame_for(
            cmd_set_diopter(fw_type, targets.last()),
        )
    }
}

/// Wire traffic of a current-mode ramp that stopped at its first failure:
/// either the read-back query alone, possibly cut short, or the query, the
/// complete setter frames before some step, and at most that one step's own
/// frame, possibly cut short — never a setter beyond the failed exchange.
pub open spec fn current_ramp_stopped_traffic(
    max_milli: int,
    start: int,
    steps: nat,
    t: Seq<u8>,
) -> bool {
    ||| exists|k: int|
        0 <= k <= frame_for(cmd_get_current()).len() && t == #[trigger] frame_for(
            cmd_get_current(),
        ).subrange(0, k)
    ||| exists|j: int, k: int|
        #![trigger set_current_frames(max_milli, ramp_schedule(start, steps).take(j)), frame_for(cmd_set_current(max_milli, ramp_schedule(start, steps)[j])).subrange(0, k)]
        {
            &&& 0 <= j <= steps
            &&& 0 <= k <= frame_for(
                cmd_set_current(max_milli, ramp_schedule(start, steps)[j]),
            ).len()
            &&& t == frame_for(cmd_get_current()) + set_current_frames(
                max_milli,
                ramp_schedule(start, steps).take(j),
            ) + frame_for(cmd_set_current(max_milli, ramp_schedule(start, steps)[j])).subrange(
                0,
                k,
            )
        }
}

/// Wire traffic of a focal-power ramp that stopped at its first failure, in
/// the same shape as the current-mode form.
pub open spec fn diopter_ramp_stopped_traffic(
    fw_type: u8,
    start: int,
    steps: nat,
    t: Seq<u8>,
) -> bool {
    ||| exists|k: int|
        0 <= k <= frame_for(cmd_get_diopter()).len() && t == #[trigger] frame_for(
            cmd_get_diopter(),
        ).subrange(0, k)
    ||| exists|j: int, k: int|
        #![trigger set_diopter_frames(fw_type, ramp_schedule(start, steps).take(j)), frame_for(cmd_set_diopter(fw_type, ramp_schedule(start, steps)[j])).subrange(0, k)]
        {
            &&& 0 <= j <= steps
            &&& 0 <= k <= frame_for(cmd_set_diopter(fw_type, ramp_schedule(start, steps)[j])).len()
            &&& t == frame_for(cmd_get_diopter()) + set_diopter_frames(
                fw_type,
                ramp_schedule(start, steps).take(j),
            ) + frame_for(cmd_set_diopter(fw_type, ramp_schedule(start, steps)[j])).subrange(0, k)
        }
}

/// The pause schedule of a ramp over `duration_ms`: one pause of
/// `duration_ms / steps` milliseconds after each of the `steps + 1` setter
/// calls.
pub open spec fn ramp_pauses(duration_ms: u64, steps: nat) -> Seq<u64> {
    Seq::new(steps + 1, |i: int| (duration_ms / (steps as u64)) as u64)
}

/// Accepts a discovered maximum output current: a positive value becomes the
/// session's conversion base; anything else is an out-of-range report and
/// session construction fails on it.
pub fn check_max_output_current(max_milli_ma: i64) -> (r: Result<i64, LensError>)
    ensures
        max_milli_ma >= 1 ==> r == Ok::<i64, LensError>(max_milli_ma),
        max_milli_ma < 1 ==> r == Err::<i64, LensError>(LensError::UnexpectedResponse),
{
    if max_milli_ma < 1 {
        Err(LensError::UnexpectedResponse)
    } else {
        Ok(max_milli_ma)
    }
}

/// Accepts a current reading as a ramp's starting point: within plus or minus
/// the maximum output current it is usable; beyond that the device's report
/// is rejected rather than driven.
pub fn check_ramp_start(reading: i64, max_milli_ma: i64) -> (r: Result<i64, LensError>)
    requires
        max_milli_ma >= 0,
    ensures
        -max_milli_ma <= reading <= max_milli_ma ==> r == Ok::<i64, LensError>(reading),
        !(-max_milli_ma <= reading <= max_milli_ma) ==> r == Err::<i64, LensError>(
            LensError::UnexpectedResponse,
        ),
{
    if reading < -max_milli_ma || reading > max_milli_ma {
        Err(LensError::UnexpectedResponse)
    } else {
        Ok(reading)
    }
}

/// Checks the fixed seven-byte handshake reply: anything but the expected
/// greeting fails the handshake.
pub fn check_handshake(reply: &[u8]) -> (r: Result<(), LensError>)
    ensures
        r matches Ok(_) <==> reply@ == ready_reply(),
        r matches Err(e) ==> e == LensError::HandshakeFailed,
{
    let expected: [u8; 7] = [82u8, 101u8, 97u8, 100u8, 121u8, 13u8, 10u8];
    if reply.len() != 7 {
        return Err(LensError::HandshakeFailed);
    }
    let mut i: usize = 0;
    while i < 7
        invariant
            0 <= i <= 7,
            reply@.len() == 7,
            expected@ == ready_reply(),
            forall|j: int| 0 <= j < i ==> reply@[j] == ready_reply()[j],
        decreases 7 - i,
    {
        if reply[i] != expected[i] {
            return Err(LensError::HandshakeFailed);
        }
        i = i + 1;
    }
    proof {
        assert(reply@ =~= ready_reply());
    }
    Ok(())
}

/// The inclusive ramp schedule from `start` down to zero: `steps + 1` evenly
/// spaced setter targets, the `i`-th being `round(start × (steps − i) / steps)`,
/// so the first is `start` itself and the last is exactly zero.
pub fn ramp_targets(start: i64, steps: usize) -> (r: Vec<i64>)
    requires
        1 <= steps <= 1000000,
        -2_700_000 <= start <= 2_700_000,
    ensures
        r@.len() == steps + 1,
        forall|i: int|
            0 <= i <= steps ==> r@[i] == round_div(start * (steps - i), steps as int),
        r@[0] == start,
        r@[steps as int] == 0,
        forall|i: int|
            0 <= i <= steps ==> ((start >= 0 ==> 0 <= #[trigger] r@[i] <= start) && (start < 0
                ==> start <= r@[i] <= 0)),
{
    let mut out: Vec<i64> = Vec::new();
    let mut i: usize = 0;
    while i <= steps
        invariant
            0 <= i <= steps + 1,
            1 <= steps <= 1000000,
            -2_700_000 <= start <= 2_700_000,
            out@.len() == i,
            forall|j: int|
                0 <= j < i ==> out@[j] == round_div(start * (steps - j), steps as int),
            forall|j: int|
                0 <= j < i ==> (start >= 0 ==> 0 <= #[trigger] out@[j] <= start) && (start < 0
                    ==> start <= out@[j] <= 0),
        decreases steps + 1 - i,
    {
        let k: i64 = (steps - i) as i64;
        proof {
            assert(-0x4000_0000_0000_0000 <= start * k <= 0x4000_0000_0000_0000)
                by (nonlinear_arith)
                requires
                    -2_700_000 <= start <= 2_700_000,
                    0 <= k <= 1000000,
            ;
            if start >= 0 {
                assert(0 <= start * k <= start * (steps as int)) by (nonlinear_arith)
                    requires
                        start >= 0,
                        0 <= k <= steps,
                ;
                assert((start + 1) * (steps as int) == start * (steps as int) + (steps as int))
                    by (nonlinear_arith);
                lemma_round_div_upper(start * k, steps as int, start as int);
                lemma_round_div_lower(start * k, steps as int, 0);
            } else {
                assert(start * k <= 0 && -(start * k) <= (-(start as int)) * (steps as int))
                    by (nonlinear_arith)
                    requires
                        start < 0,
                        0 <= k <= steps,
                ;
                assert((-(start as int) + 1) * (steps as int) == (-(start as int)) * (steps as int)
                    + (steps as int)) by (nonlinear_arith);
                lemma_round_div_upper(start * k, steps as int, 0);
                lemma_round_div_lower(start * k, steps as int, -(start as int));
            }
        }
        let t: i64 = round_div_i64(start * k, steps as i64);
        out.push(t);
        i = i + 1;
    }
    proof {
        lemma_round_div_exact(start as int, steps as int);
        assert(out@[steps as int] == round_div(start * 0, steps as int));
        assert(start * 0 == 0) by (nonlinear_arith);
        assert(round_div(0, steps as int) == 0) by {
            lemma_basic_div((steps as int) / 2, steps as int);
        }
    }
    out
}

/// The session façade: owns the transport, the device profile discovered at
/// construction, and the tracked operating mode.
pub struct LensDriver<T: Transport> {
    transport: T,
    firmware_type: u8,
    firmware_version: (u8, u8, u16, u16),
    max_output_current_milli: i64,
    mode: Option<LensMode>,
}

impl<T: Transport> LensDriver<T> {
    /// The discovered maximum output current is positive and within what its
    /// wire field can carry; every current conversion leans on this.
    pub closed spec fn wf(&self) -> bool {
        1 <= self.max_output_current_milli <= 327670
    }

    /// The tracked operating mode.
    pub closed spec fn spec_mode(&self) -> Option<LensMode> {
        self.mode
    }

    /// The firmware type tag byte.
    pub closed spec fn spec_firmware_type(&self) -> u8 {
        self.firmware_type
    }

    /// The firmware version fields.
    pub closed spec fn spec_firmware_version(&self) -> (u8, u8, u16, u16) {
        self.firmware_version
    }

    /// The maximum output current in milli-mA.
    pub closed spec fn spec_max_output_current(&self) -> i64 {
        self.max_output_current_milli
    }

    /// Everything the transport has been handed so far.
    pub closed spec fn written(&self) -> Seq<u8> {
        self.transport.written()
    }

    /// Every pause the session has taken so far, in milliseconds.
    pub closed spec fn paused(&self) -> Seq<u64> {
        self.transport.paused()
    }

    /// The immutable-after-discovery profile attributes agree between two
    /// session states.
    pub open spec fn same_profile(a: &Self, b: &Self) -> bool {
        &&& a.spec_firmware_type() == b.spec_firmware_type()
        &&& a.spec_firmware_version() == b.spec_firmware_version()
        &&& a.spec_max_output_current() == b.spec_max_output_current()
    }

    /// The tracked operating mode; `None` until discovery determines it.
    pub fn mode(&self) -> (r: Option<LensMode>)
        ensures
            r == self.spec_mode(),
    {
        self.mode
    }

    /// The firmware type tag byte discovered at session start.
    pub fn firmware_type(&self) -> (r: u8)
        ensures
            r == self.spec_firmware_type(),
    {
        self.firmware_type
    }

    /// The firmware version discovered at session start: major, minor, and
    /// two 16-bit sub-fields.
    pub fn firmware_version(&self) -> (r: (u8, u8, u16, u16))
        ensures
            r == self.spec_firmware_version(),
    {
        self.firmware_version
    }

    /// The maximum output current in milli-mA discovered at session start.
    pub fn max_output_current(&self) -> (r: i64)
        ensures
            r == self.spec_max_output_current(),
            self.wf() ==> 1 <= r <= 327670,
    {
        self.max_output_current_milli
    }

    /// Borrows the underlying transport, for callers that want to inspect the
    /// channel (a scripted transport's write log, for one).
    pub fn transport_ref(&self) -> (r: &T)
        ensures
            r.written() == self.written(),
    {
        &self.transport
    }

    /// Sends `command` with its checksum appended, then reads and validates
    /// the fixed-length reply: `reply_size` payload bytes, the little-endian
    /// CRC-16 and the two-byte terminator. A `reply_size` of zero is
    /// fire-and-forget: nothing is read. A reply is accepted only when its
    /// checksum matches the payload.
    pub fn send_command(&mut self, command: &[u8], reply_size: usize) -> (r: Result<
        Vec<u8>,
        LensError,
    >)
        requires
            reply_size + 4 <= usize::MAX,
        ensures
            Self::same_profile(final(self), old(self)),
            final(self).spec_mode() == old(self).spec_mode(),
            r matches Ok(v) ==> v@.len() == reply_size && final(self).written() == old(
                self,
            ).written() + frame_for(command@),
            reply_size == 0 ==> (r matches Ok(v) && v@.len() == 0 || r == Err::<
                Vec<u8>,
                LensError,
            >(LensError::Transport)),
            r matches Err(_) ==> exists|k: int|
                0 <= k <= frame_for(command@).len() && final(self).written() == old(
                    self,
                ).written() + #[trigger] frame_for(command@).subrange(0, k),
            final(self).paused() == old(self).paused(),
            r matches Err(e) ==> is_exchange_error(e),
    {
        let frame = encode(command);
        match self.transport.write_all(frame.as_slice()) {
            Ok(_) => {},
            Err(e) => {
                return Err(e);
            },
        }
        if reply_size == 0 {
            return Ok(Vec::new());
        }
        let raw = match self.transport.read_exact(reply_size + 4) {
            Ok(v) => v,
            Err(e) => {
                proof {
                    assert(frame_for(command@).subrange(
                        0,
                        frame_for(command@).len() as int,
                    ) =~= frame_for(command@));
                }
                return Err(e);
            },
        };
        proof {
            assert(frame_for(command@).subrange(0, frame_for(command@).len() as int) =~= frame_for(
                command@,
            ));
        }
        decode(raw.as_slice(), reply_size, true)
    }

    /// Sends `command` with its checksum appended, then reads whatever
    /// arrives before the channel's timeout (at most `max_len` bytes) and
    /// validates the trailing checksum-and-sentinel bytes: the framing
    /// variant for replies whose length is not known ahead of time.
    pub fn send_command_variable(&mut self, command: &[u8], max_len: usize) -> (r: Result<
        Vec<u8>,
        LensError,
    >)
        ensures
            Self::same_profile(final(self), old(self)),
            final(self).spec_mode() == old(self).spec_mode(),
            r matches Ok(v) ==> final(self).written() == old(self).written() + frame_for(command@),
            r matches Err(_) ==> exists|k: int|
                0 <= k <= frame_for(command@).len() && final(self).written() == old(
                    self,
                ).written() + #[trigger] frame_for(command@).subrange(0, k),
            final(self).paused() == old(self).paused(),
            r matches Err(e) ==> is_exchange_error(e),
    {
        let frame = encode(command);
        match self.transport.write_all(frame.as_slice()) {
            Ok(_) => {},
            Err(e) => {
                return Err(e);
            },
        }
        let raw = match self.transport.read_available(max_len) {
            Ok(v) => v,
            Err(e) => {
                proof {
                    assert(frame_for(command@).subrange(
                        0,
                        frame_for(command@).len() as int,
                    ) =~= frame_for(command@));
                }
                return Err(e);
            },
        };
        proof {
            assert(frame_for(command@).subrange(0, frame_for(command@).len() as int) =~= frame_for(
                command@,
            ));
        }
        decode_variable(raw.as_slice())
    }

    /// Opens a session over `transport`: performs the handshake, discovers
    /// firmware type, firmware version and maximum output current, and
    /// initializes the mode from the device's report. Construction fails
    /// atomically — on any error no session is returned.
    pub fn new(transport: T) -> (r: Result<LensDriver<T>, LensError>)
        ensures
            r matches Ok(d) ==> d.wf(),
            r matches Ok(d) ==> d.written() == transport.written() + handshake_request()
                + frame_for(cmd_firmware_type()) + frame_for(cmd_firmware_version()) + frame_for(
                cmd_max_current(),
            ) + frame_for(cmd_query_mode()),
            r matches Err(e) ==> is_exchange_error(e) || e == LensError::HandshakeFailed,
    {
        let mut driver = LensDriver {
            transport,
            firmware_type: 0,
            firmware_version: (0, 0, 0, 0),
            max_output_current_milli: 1,
            mode: None,
        };
        match driver.handshake() {
            Ok(_) => {},
            Err(e) => {
                return Err(e);
            },
        }
        match driver.init() {
            Ok(_) => {},
            Err(e) => {
                return Err(e);
            },
        }
        Ok(driver)
    }

    /// Writes the greeting bare (the handshake carries no checksum) and
    /// demands the exact ready reply back.
    fn handshake(&mut self) -> (r: Result<(), LensError>)
        ensures
            Self::same_profile(final(self), old(self)),
            final(self).spec_mode() == old(self).spec_mode(),
            r matches Ok(_) ==> final(self).written() == old(self).written()
                + handshake_request(),
            r == Err::<(), LensError>(LensError::HandshakeFailed) ==> final(self).written() == old(
                self,
            ).written() + handshake_request(),
            r == Err::<(), LensError>(LensError::Transport) ==> exists|k: int|
                0 <= k <= handshake_request().len() && final(self).written() == old(
                    self,
                ).written() + #[trigger] handshake_request().subrange(0, k),
            final(self).paused() == old(self).paused(),
            r matches Err(e) ==> e == LensError::Transport || e == LensError::HandshakeFailed,
    {
        let cmd: [u8; 5] = [83u8, 116u8, 97u8, 114u8, 116u8];
        proof {
            assert(cmd@ =~= handshake_request());
        }
        match self.transport.write_all(cmd.as_slice()) {
            Ok(_) => {},
            Err(e) => {
                return Err(e);
            },
        }
        let reply = match self.transport.read_exact(7) {
            Ok(v) => v,
            Err(e) => {
                proof {
                    assert(handshake_request().subrange(
                        0,
                        handshake_request().len() as int,
                    ) =~= handshake_request());
                }
                return Err(e);
            },
        };
        check_handshake(reply.as_slice())
    }

    /// Capability discovery: firmware type, firmware version, maximum output
    /// current, then the active mode. A non-positive or out-of-range reported
    /// maximum output current is rejected, so a constructed session always
    /// has a usable conversion base.
    fn init(&mut self) -> (r: Result<(), LensError>)
        ensures
            r matches Ok(_) ==> final(self).wf(),
            r matches Ok(_) ==> final(self).written() == old(self).written() + frame_for(
                cmd_firmware_type(),
            ) + frame_for(cmd_firmware_version()) + frame_for(cmd_max_current()) + frame_for(
                cmd_query_mode(),
            ),
            r matches Err(e) ==> is_exchange_error(e),
    {
        let ft = match self.get_firmware_type() {
            Ok(v) => v,
            Err(e) => {
                return Err(e);
            },
        };
        self.firmware_type = ft;
        let fv = match self.get_firmware_version() {
            Ok(v) => v,
            Err(e) => {
                return Err(e);
            },
        };
        self.firmware_version = fv;
        let reported = match self.get_max_output_current() {
            Ok(v) => v,
            Err(e) => {
                return Err(e);
            },
        };
        let max = match check_max_output_current(reported) {
            Ok(v) => v,
            Err(e) => {
                return Err(e);
            },
        };
        self.max_output_current_milli = max;
        match self.refresh_active_mode() {
            Ok(_) => Ok(()),
            Err(e) => Err(e),
        }
    }

    /// Queries the firmware type tag byte (opcode `H`).
    fn get_firmware_type(&mut self) -> (r: Result<u8, LensError>)
        ensures
            Self::same_profile(final(self), old(self)),
            final(self).spec_mode() == old(self).spec_mode(),
            r matches Ok(_) ==> final(self).written() == old(self).written() + frame_for(
                cmd_firmware_type(),
            ),
            r matches Err(e) ==> is_exchange_error(e),
    {
        let cmd: [u8; 1] = [72u8];
        proof {
            assert(cmd@ =~= cmd_firmware_type());
        }
        let data = match self.send_command(cmd.as_slice(), 1) {
            Ok(v) => v,
            Err(e) => {
                return Err(e);
            },
        };
        Ok(data[0])
    }

    /// Queries the firmware version (opcode `V`): major, minor and two
    /// big-endian 16-bit sub-fields.
    fn get_firmware_version(&mut self) -> (r: Result<(u8, u8, u16, u16), LensError>)
        ensures
            Self::same_profile(final(self), old(self)),
            final(self).spec_mode() == old(self).spec_mode(),
            r matches Ok(_) ==> final(self).written() == old(self).written() + frame_for(
                cmd_firmware_version(),
            ),
            r matches Err(e) ==> is_exchange_error(e),
    {
        let cmd: [u8; 2] = [86u8, 0u8];
        proof {
            assert(cmd@ =~= cmd_firmware_version());
        }
        let data = match self.send_command(cmd.as_slice(), 6) {
            Ok(v) => v,
            Err(e) => {
                return Err(e);
            },
        };
        Ok(version_from_payload(data.as_slice()))
    }

    /// Queries the maximum output current (opcode `CrMA`), reported in
    /// hundredths of a mA, returned in milli-mA.
    fn get_max_output_current(&mut self) -> (r: Result<i64, LensError>)
        ensures
            Self::same_profile(final(self), old(self)),
            final(self).spec_mode() == old(self).spec_mode(),
            r matches Ok(v) ==> -327680 <= v <= 327670,
            r matches Ok(_) ==> final(self).written() == old(self).written() + frame_for(
                cmd_max_current(),
            ),
            r matches Err(e) ==> is_exchange_error(e),
    {
        let cmd: [u8; 6] = [67u8, 114u8, 77u8, 65u8, 0u8, 0u8];
        proof {
            assert(cmd@ =~= cmd_max_current());
        }
        let data = match self.send_command(cmd.as_slice(), 2) {
            Ok(v) => v,
            Err(e) => {
                return Err(e);
            },
        };
        let raw = i16_from_be(data[0], data[1]);
        Ok(max_current_from_raw(raw as i64))
    }

    /// Queries the active mode (opcode `MMA`) and overwrites the local
    /// tracking with whatever the device reports: the reconciliation path.
    fn refresh_active_mode(&mut self) -> (r: Result<(), LensError>)
        ensures
            Self::same_profile(final(self), old(self)),
            r matches Ok(_) ==> final(self).written() == old(self).written() + frame_for(
                cmd_query_mode(),
            ),
            r matches Err(e) ==> is_exchange_error(e) && final(self).spec_mode() == old(
                self,
            ).spec_mode(),
    {
        let cmd: [u8; 3] = [77u8, 77u8, 65u8];
        proof {
            assert(cmd@ =~= cmd_query_mode());
        }
        let data = match self.send_command(cmd.as_slice(), 1) {
            Ok(v) => v,
            Err(e) => {
                return Err(e);
            },
        };
        self.mode = mode_from_u8(data[0]);
        Ok(())
    }

    /// Reads the temperature in milli-°C (opcode `TCA`): the device reports
    /// sixteenths of a degree. Reading is permitted in every mode.
    pub fn get_temperature(&mut self) -> (r: Result<i64, LensError>)
        ensures
            Self::same_profile(final(self), old(self)),
            final(self).spec_mode() == old(self).spec_mode(),
            r matches Ok(v) ==> exists|raw: int|
                -32768 <= raw <= 32767 && v == #[trigger] round_div(raw * 125, 2),
            r matches Ok(v) ==> -2_048_000 <= v <= 2_047_938,
            r matches Ok(_) ==> final(self).written() == old(self).written() + frame_for(
                cmd_get_temperature(),
            ),
            r matches Err(_) ==> exists|k: int|
                0 <= k <= frame_for(cmd_get_temperature()).len() && final(self).written() == old(
                    self,
                ).written() + #[trigger] frame_for(cmd_get_temperature()).subrange(0, k),
            final(self).paused() == old(self).paused(),
            r matches Err(e) ==> is_exchange_error(e),
    {
        let cmd: [u8; 3] = [84u8, 67u8, 65u8];
        proof {
            assert(cmd@ =~= cmd_get_temperature());
        }
        let data = match self.send_command(cmd.as_slice(), 2) {
            Ok(v) => v,
            Err(e) => {
                return Err(e);
            },
        };
        let raw = i16_from_be(data[0], data[1]);
        let t = temperature_from_raw(raw as i64);
        proof {
            assert(-32768 <= raw as int <= 32767 && t == round_div(raw as int * 125, 2));
        }
        Ok(t)
    }

    /// Reads the drive current in milli-mA (opcode `Ar`): the wire integer
    /// scaled by the device's maximum output current. Reading is permitted in
    /// every mode.
    pub fn get_current(&mut self) -> (r: Result<i64, LensError>)
        requires
            old(self).wf(),
        ensures
            final(self).wf(),
            Self::same_profile(final(self), old(self)),
            final(self).spec_mode() == old(self).spec_mode(),
            r matches Ok(v) ==> exists|raw: int|
                -32768 <= raw <= 32767 && v == #[trigger] round_div(
                    raw * old(self).spec_max_output_current(),
                    4095,
                ),
            r matches Ok(v) ==> -2_700_000 <= v <= 2_700_000,
            r matches Ok(_) ==> final(self).written() == old(self).written() + frame_for(
                cmd_get_current(),
            ),
            r matches Err(_) ==> exists|k: int|
                0 <= k <= frame_for(cmd_get_current()).len() && final(self).written() == old(
                    self,
                ).written() + #[trigger] frame_for(cmd_get_current()).subrange(0, k),
            final(self).paused() == old(self).paused(),
            r matches Err(e) ==> is_exchange_error(e),
    {
        let cmd: [u8; 4] = [65u8, 114u8, 0u8, 0u8];
        proof {
            assert(cmd@ =~= cmd_get_current());
        }
        let data = match self.send_command(cmd.as_slice(), 2) {
            Ok(v) => v,
            Err(e) => {
                return Err(e);
            },
        };
        let raw = i16_from_be(data[0], data[1]);
        let c = current_from_raw(raw as i64, self.max_output_current_milli);
        proof {
            assert(-32768 <= raw as int <= 32767 && c == round_div(
                raw as int * self.max_output_current_milli,
                4095,
            ));
        }
        Ok(c)
    }

    /// Reads the focal power in milli-diopters (opcode `PrDA`), after the
    /// firmware-type offset. Reading is permitted in every mode.
    pub fn get_diopter(&mut self) -> (r: Result<i64, LensError>)
        ensures
            Self::same_profile(final(self), old(self)),
            final(self).spec_mode() == old(self).spec_mode(),
            r matches Ok(v) ==> exists|raw: int|
                -32768 <= raw <= 32767 && v == #[trigger] diopter_milli_of_raw(
                    raw,
                    old(self).spec_firmware_type(),
                ),
            r matches Ok(v) ==> -163840 <= v + diopter_offset_milli(
                old(self).spec_firmware_type(),
            ) <= 163835,
            r matches Ok(_) ==> final(self).written() == old(self).written() + frame_for(
                cmd_get_diopter(),
            ),
            r matches Err(_) ==> exists|k: int|
                0 <= k <= frame_for(cmd_get_diopter()).len() && final(self).written() == old(
                    self,
                ).written() + #[trigger] frame_for(cmd_get_diopter()).subrange(0, k),
            final(self).paused() == old(self).paused(),
            r matches Err(e) ==> is_exchange_error(e),
    {
        let cmd: [u8; 8] = [80u8, 114u8, 68u8, 65u8, 0u8, 0u8, 0u8, 0u8];
        proof {
            assert(cmd@ =~= cmd_get_diopter());
        }
        let data = match self.send_command(cmd.as_slice(), 2) {
            Ok(v) => v,
            Err(e) => {
                return Err(e);
            },
        };
        let raw = i16_from_be(data[0], data[1]);
        let d = diopter_from_raw(raw as i64, self.firmware_type);
        proof {
            assert(-32768 <= raw as int <= 32767 && d == diopter_milli_of_raw(
                raw as int,
                self.firmware_type,
            ));
        }
        Ok(d)
    }

    /// Sets the drive current, given in milli-mA (opcode `Aw`). Gated on
    /// `Current` mode: in any other state the command fails locally with
    /// `WrongMode` and nothing touches the transport.
    pub fn set_current(&mut self, value_milli_ma: i64) -> (r: Result<(), LensError>)
        requires
            old(self).wf(),
            -old(self).spec_max_output_current() <= value_milli_ma <= old(
                self,
            ).spec_max_output_current(),
        ensures
            final(self).wf(),
            Self::same_profile(final(self), old(self)),
            final(self).spec_mode() == old(self).spec_mode(),
            old(self).spec_mode() != Some(LensMode::Current) ==> r == Err::<(), LensError>(
                LensError::WrongMode {
                    expected: LensMode::Current,
                    actual: old(self).spec_mode(),
                },
            ) && *final(self) == *old(self),
            old(self).spec_mode() == Some(LensMode::Current) ==> (r matches Ok(_) || r == Err::<
                (),
                LensError,
            >(LensError::Transport)),
            r matches Ok(_) ==> final(self).written() == old(self).written() + frame_for(
                cmd_set_current(
                    old(self).spec_max_output_current() as int,
                    value_milli_ma as int,
                ),
            ),
            r matches Err(_) ==> exists|k: int|
                0 <= k <= frame_for(
                    cmd_set_current(
                        old(self).spec_max_output_current() as int,
                        value_milli_ma as int,
                    ),
                ).len() && final(self).written() == old(self).written() + #[trigger] frame_for(
                    cmd_set_current(
                        old(self).spec_max_output_current() as int,
                        value_milli_ma as int,
                    ),
                ).subrange(0, k),
            final(self).paused() == old(self).paused(),
    {
        let gate_ok = match self.mode {
            Some(LensMode::Current) => true,
            _ => false,
        };
        if !gate_ok {
            proof {
                let c = cmd_set_current(
                    self.max_output_current_milli as int,
                    value_milli_ma as int,
                );
                assert(self.written() + frame_for(c).subrange(0, 0) =~= self.written());
            }
            return Err(LensError::WrongMode { expected: LensMode::Current, actual: self.mode });
        }
        let raw = current_to_raw(value_milli_ma, self.max_output_current_milli);
        let (hi, lo) = i16_to_be(raw);
        let cmd: [u8; 4] = [65u8, 119u8, hi, lo];
        proof {
            assert(cmd@ =~= cmd_set_current(
                self.max_output_current_milli as int,
                value_milli_ma as int,
            ));
        }
        match self.send_command(cmd.as_slice(), 0) {
            Ok(_) => Ok(()),
            Err(e) => Err(e),
        }
    }

    /// Sets the focal power, given in milli-diopters (opcode `PwDA`). Gated
    /// on `FocalPower` mode: in any other state the command fails locally
    /// with `WrongMode` and nothing touches the transport.
    pub fn set_diopter(&mut self, value_milli_diopter: i64) -> (r: Result<(), LensError>)
        requires
            old(self).wf(),
            -163842 <= value_milli_diopter + diopter_offset_milli(
                old(self).spec_firmware_type(),
            ) <= 163837,
        ensures
            final(self).wf(),
            Self::same_profile(final(self), old(self)),
            final(self).spec_mode() == old(self).spec_mode(),
            old(self).spec_mode() != Some(LensMode::FocalPower) ==> r == Err::<(), LensError>(
                LensError::WrongMode {
                    expected: LensMode::FocalPower,
                    actual: old(self).spec_mode(),
                },
            ) && *final(self) == *old(self),
            old(self).spec_mode() == Some(LensMode::FocalPower) ==> (r matches Ok(_) || r == Err::<
                (),
                LensError,
            >(LensError::Transport)),
            r matches Ok(_) ==> final(self).written() == old(self).written() + frame_for(
                cmd_set_diopter(old(self).spec_firmware_type(), value_milli_diopter as int),
            ),
            r matches Err(_) ==> exists|k: int|
                0 <= k <= frame_for(
                    cmd_set_diopter(old(self).spec_firmware_type(), value_milli_diopter as int),
                ).len() && final(self).written() == old(self).written() + #[trigger] frame_for(
                    cmd_set_diopter(old(self).spec_firmware_type(), value_milli_diopter as int),
                ).subrange(0, k),
            final(self).paused() == old(self).paused(),
    {
        let gate_ok = match self.mode {
            Some(LensMode::FocalPower) => true,
            _ => false,
        };
        if !gate_ok {
            proof {
                let c = cmd_set_diopter(self.firmware_type, value_milli_diopter as int);
                assert(self.written() + frame_for(c).subrange(0, 0) =~= self.written());
            }
            return Err(LensError::WrongMode { expected: LensMode::FocalPower, actual: self.mode });
        }
        let raw = diopter_to_raw(value_milli_diopter, self.firmware_type);
        let (hi, lo) = i16_to_be(raw);
        let cmd: [u8; 8] = [80u8, 119u8, 68u8, 65u8, hi, lo, 0u8, 0u8];
        proof {
            assert(cmd@ =~= cmd_set_diopter(self.firmware_type, value_milli_diopter as int));
        }
        match self.send_command(cmd.as_slice(), 0) {
            Ok(_) => Ok(()),
            Err(e) => Err(e),
        }
    }

    /// Switches the device's operating mode. On a validated response the
    /// tracked mode becomes `mode`; on any error it is left as it was. For
    /// `FocalPower` the device additionally reports the focal-power range,
    /// returned as `(min, max)` milli-diopters after the firmware-type
    /// offset; for `Current` there is no report and the result is `None`.
    pub fn set_mode(&mut self, mode: LensMode) -> (r: Result<Option<(i64, i64)>, LensError>)
        ensures
            Self::same_profile(final(self), old(self)),
            r matches Ok(_) ==> final(self).spec_mode() == Some(mode),
            r matches Err(_) ==> final(self).spec_mode() == old(self).spec_mode(),
            mode == LensMode::Current ==> (r matches Ok(v) ==> v is None),
            mode == LensMode::FocalPower ==> (r matches Ok(v) ==> (v matches Some(range)
                && exists|raw_min: int, raw_max: int|
                {
                    &&& -32768 <= raw_min <= 32767
                    &&& -32768 <= raw_max <= 32767
                    &&& range.0 == #[trigger] diopter_milli_of_raw(
                        raw_min,
                        old(self).spec_firmware_type(),
                    )
                    &&& range.1 == #[trigger] diopter_milli_of_raw(
                        raw_max,
                        old(self).spec_firmware_type(),
                    )
                })),
            mode == LensMode::Current ==> (r matches Ok(_) ==> final(self).written() == old(
                self,
            ).written() + frame_for(cmd_mode_current())),
            mode == LensMode::FocalPower ==> (r matches Ok(_) ==> final(self).written() == old(
                self,
            ).written() + frame_for(cmd_mode_focal())),
            r matches Err(e) ==> is_exchange_error(e),
    {
        match mode {
            LensMode::Current => {
                let cmd: [u8; 4] = [77u8, 119u8, 68u8, 65u8];
                proof {
                    assert(cmd@ =~= cmd_mode_current());
                }
                match self.send_command(cmd.as_slice(), 0) {
                    Ok(_) => {},
                    Err(e) => {
                        return Err(e);
                    },
                }
                self.mode = Some(LensMode::Current);
                Ok(None)
            },
            LensMode::FocalPower => {
                let cmd: [u8; 4] = [77u8, 119u8, 67u8, 65u8];
                proof {
                    assert(cmd@ =~= cmd_mode_focal());
                }
                let data = match self.send_command(cmd.as_slice(), 5) {
                    Ok(v) => v,
                    Err(e) => {
                        return Err(e);
                    },
                };
                self.mode = Some(LensMode::FocalPower);
                let raw_min = i16_from_be(data[3], data[4]);
                let raw_max = i16_from_be(data[1], data[2]);
                let mn = diopter_from_raw(raw_min as i64, self.firmware_type);
                let mx = diopter_from_raw(raw_max as i64, self.firmware_type);
                proof {
                    assert(-32768 <= raw_min as int <= 32767 && mn == diopter_milli_of_raw(
                        raw_min as int,
                        self.firmware_type,
                    ));
                    assert(-32768 <= raw_max as int <= 32767 && mx == diopter_milli_of_raw(
                        raw_max as int,
                        self.firmware_type,
                    ));
                }
                Ok(Some((mn, mx)))
            },
        }
    }

    /// Ramps the active quantity from its present reading linearly down to
    /// zero: `steps + 1` setter calls on the evenly spaced schedule of
    /// [`ramp_targets`] (both endpoints included), pausing
    /// `duration_ms / steps` milliseconds between steps. Needs a determined
    /// mode; fails locally with `InvalidMode` otherwise.
    pub fn ramp_to_zero(&mut self, duration_ms: u64, steps: usize) -> (r: Result<(), LensError>)
        requires
            old(self).wf(),
            1 <= steps <= 1000000,
        ensures
            final(self).wf(),
            Self::same_profile(final(self), old(self)),
            final(self).spec_mode() == old(self).spec_mode(),
            r == Err::<(), LensError>(LensError::InvalidMode) <==> old(self).spec_mode() is None,
            old(self).spec_mode() is None ==> *final(self) == *old(self),
            old(self).spec_mode() == Some(LensMode::Current) ==> (r matches Ok(_) ==> exists|
                start: int,
            |
                {
                    &&& -old(self).spec_max_output_current() <= start <= old(
                        self,
                    ).spec_max_output_current()
                    &&& final(self).written() == old(self).written() + frame_for(
                        cmd_get_current(),
                    ) + set_current_frames(
                        old(self).spec_max_output_current() as int,
                        #[trigger] ramp_schedule(start, steps as nat),
                    )
                }),
            old(self).spec_mode() == Some(LensMode::FocalPower) ==> (r matches Ok(_) ==> exists|
                start: int,
            |
                {
                    &&& -163840 <= start + diopter_offset_milli(old(self).spec_firmware_type())
                        <= 163835
                    &&& final(self).written() == old(self).written() + frame_for(
                        cmd_get_diopter(),
                    ) + set_diopter_frames(
                        old(self).spec_firmware_type(),
                        #[trigger] ramp_schedule(start, steps as nat),
                    )
                }),
            old(self).spec_mode() == Some(LensMode::Current) ==> (r matches Err(_) ==> exists|
                start: int,
                t: Seq<u8>,
            |
                {
                    &&& -old(self).spec_max_output_current() <= start <= old(
                        self,
                    ).spec_max_output_current()
                    &&& final(self).written() == old(self).written() + t
                    &&& #[trigger] current_ramp_stopped_traffic(
                        old(self).spec_max_output_current() as int,
                        start,
                        steps as nat,
                        t,
                    )
                }),
            old(self).spec_mode() == Some(LensMode::FocalPower) ==> (r matches Err(_) ==> exists|
                start: int,
                t: Seq<u8>,
            |
                {
                    &&& -163840 <= start + diopter_offset_milli(old(self).spec_firmware_type())
                        <= 163835
                    &&& final(self).written() == old(self).written() + t
                    &&& #[trigger] diopter_ramp_stopped_traffic(
                        old(self).spec_firmware_type(),
                        start,
                        steps as nat,
                        t,
                    )
                }),
            r matches Ok(_) ==> final(self).paused() == old(self).paused() + ramp_pauses(
                duration_ms,
                steps as nat,
            ),
            r matches Err(e) ==> is_exchange_error(e) || e == LensError::InvalidMode,
    {
        let step_ms: u64 = duration_ms / (steps as u64);
        let is_current = match self.mode {
            None => {
                return Err(LensError::InvalidMode);
            },
            Some(LensMode::Current) => true,
            Some(LensMode::FocalPower) => false,
        };
        if is_current {
            let reading = match self.get_current() {
                Ok(v) => v,
                Err(e) => {
                    proof {
                        let kk = choose|k: int|
                            0 <= k <= frame_for(cmd_get_current()).len() && self.written() == old(
                                self,
                            ).written() + #[trigger] frame_for(cmd_get_current()).subrange(0, k);
                        assert(current_ramp_stopped_traffic(
                            old(self).spec_max_output_current() as int,
                            0,
                            steps as nat,
                            frame_for(cmd_get_current()).subrange(0, kk),
                        ));
                    }
                    return Err(e);
                },
            };
            let start = match check_ramp_start(reading, self.max_output_current_milli) {
                Ok(v) => v,
                Err(e) => {
                    proof {
                        assert(frame_for(cmd_get_current()).subrange(
                            0,
                            frame_for(cmd_get_current()).len() as int,
                        ) =~= frame_for(cmd_get_current()));
                        assert(current_ramp_stopped_traffic(
                            old(self).spec_max_output_current() as int,
                            0,
                            steps as nat,
                            frame_for(cmd_get_current()),
                        ));
                    }
                    return Err(e);
                },
            };
            let targets = ramp_targets(start, steps);
            let ghost schedule = ramp_schedule(start as int, steps as nat);
            let ghost base = self.written();
            let ghost max = self.spec_max_output_current() as int;
            proof {
                assert(forall|j: int| 0 <= j <= steps ==> targets@[j] == #[trigger] schedule[j]);
                assert(self.paused() =~= old(self).paused() + Seq::new(
                    0nat,
                    |q: int| step_ms,
                ));
            }
            let mut i: usize = 0;
            while i < targets.len()
                invariant
                    self.wf(),
                    Self::same_profile(self, old(self)),
                    old(self).spec_mode() == Some(LensMode::Current),
                    self.spec_mode() == Some(LensMode::Current),
                    0 <= i <= targets@.len(),
                    targets@.len() == steps + 1,
                    schedule == ramp_schedule(start as int, steps as nat),
                    schedule.len() == steps + 1,
                    forall|j: int| 0 <= j <= steps ==> targets@[j] == #[trigger] schedule[j],
                    max == self.spec_max_output_current() as int,
                    base == old(self).written() + frame_for(cmd_get_current()),
                    self.written() == base + set_current_frames(max, schedule.take(i as int)),
                    self.paused() == old(self).paused() + Seq::new(i as nat, |q: int| step_ms),
                    -self.spec_max_output_current() <= start <= self.spec_max_output_current(),
                    forall|j: int|
                        0 <= j < targets@.len() ==> (start >= 0 ==> 0 <= #[trigger] targets@[j]
                            <= start) && (start < 0 ==> start <= targets@[j] <= 0),
                decreases targets@.len() - i,
            {
                let ghost wpre = self.written();
                match self.set_current(targets[i]) {
                    Ok(_) => {},
                    Err(e) => {
                        proof {
                            let c = cmd_set_current(max, targets@[i as int] as int);
                            let kk = choose|k: int|
                                0 <= k <= frame_for(c).len() && self.written() == wpre
                                    + #[trigger] frame_for(c).subrange(0, k);
                            assert(c == cmd_set_current(
                                max,
                                ramp_schedule(start as int, steps as nat)[i as int],
                            ));
                            let t = frame_for(cmd_get_current()) + set_current_frames(
                                max,
                                schedule.take(i as int),
                            ) + frame_for(c).subrange(0, kk);
                            assert(self.written() =~= old(self).written() + t);
                            assert(current_ramp_stopped_traffic(max, start as int, steps as nat, t));
                        }
                        return Err(e);
                    },
                }
                proof {
                    assert(schedule.take(i + 1 as int).drop_last() =~= schedule.take(i as int));
                    assert(self.written() == base + set_current_frames(
                        max,
                        schedule.take(i + 1 as int),
                    ));
                }
                self.transport.pause(step_ms);
                proof {
                    assert(self.paused() =~= old(self).paused() + Seq::new(
                        (i + 1) as nat,
                        |q: int| step_ms,
                    ));
                }
                i = i + 1;
            }
            proof {
                assert(schedule.take(targets@.len() as int) =~= schedule);
                assert(old(self).paused() + Seq::new(
                    (steps + 1) as nat,
                    |q: int| step_ms,
                ) =~= old(self).paused() + ramp_pauses(duration_ms, steps as nat));
            }
            Ok(())
        } else {
            let start = match self.get_diopter() {
                Ok(v) => v,
                Err(e) => {
                    proof {
                        let kk = choose|k: int|
                            0 <= k <= frame_for(cmd_get_diopter()).len() && self.written() == old(
                                self,
                            ).written() + #[trigger] frame_for(cmd_get_diopter()).subrange(0, k);
                        assert(diopter_ramp_stopped_traffic(
                            old(self).spec_firmware_type(),
                            0,
                            steps as nat,
                            frame_for(cmd_get_diopter()).subrange(0, kk),
                        ));
                    }
                    return Err(e);
                },
            };
            let targets = ramp_targets(start, steps);
            let ghost schedule = ramp_schedule(start as int, steps as nat);
            let ghost base = self.written();
            let ghost fw = self.spec_firmware_type();
            proof {
                assert(forall|j: int| 0 <= j <= steps ==> targets@[j] == #[trigger] schedule[j]);
                assert(self.paused() =~= old(self).paused() + Seq::new(
                    0nat,
                    |q: int| step_ms,
                ));
            }
            let mut i: usize = 0;
            while i < targets.len()
                invariant
                    self.wf(),
                    Self::same_profile(self, old(self)),
                    old(self).spec_mode() == Some(LensMode::FocalPower),
                    self.spec_mode() == Some(LensMode::FocalPower),
                    0 <= i <= targets@.len(),
                    targets@.len() == steps + 1,
                    schedule == ramp_schedule(start as int, steps as nat),
                    schedule.len() == steps + 1,
                    forall|j: int| 0 <= j <= steps ==> targets@[j] == #[trigger] schedule[j],
                    fw == self.spec_firmware_type(),
                    base == old(self).written() + frame_for(cmd_get_diopter()),
                    self.written() == base + set_diopter_frames(fw, schedule.take(i as int)),
                    self.paused() == old(self).paused() + Seq::new(i as nat, |q: int| step_ms),
                    -163840 <= start + diopter_offset_milli(self.spec_firmware_type()) <= 163835,
                    forall|j: int|
                        0 <= j < targets@.len() ==> (start >= 0 ==> 0 <= #[trigger] targets@[j]
                            <= start) && (start < 0 ==> start <= targets@[j] <= 0),
                decreases targets@.len() - i,
            {
                let ghost wpre = self.written();
                match self.set_diopter(targets[i]) {
                    Ok(_) => {},
                    Err(e) => {
                        proof {
                            let c = cmd_set_diopter(fw, targets@[i as int] as int);
                            let kk = choose|k: int|
                                0 <= k <= frame_for(c).len() && self.written() == wpre
                                    + #[trigger] frame_for(c).subrange(0, k);
                            assert(c == cmd_set_diopter(
                                fw,
                                ramp_schedule(start as int, steps as nat)[i as int],
                            ));
                            let t = frame_for(cmd_get_diopter()) + set_diopter_frames(
                                fw,
                                schedule.take(i as int),
                            ) + frame_for(c).subrange(0, kk);
                            assert(self.written() =~= old(self).written() + t);
                            assert(diopter_ramp_stopped_traffic(fw, start as int, steps as nat, t));
                        }
                        return Err(e);
                    },
                }
                proof {
                    assert(schedule.take(i + 1 as int).drop_last() =~= schedule.take(i as int));
                    assert(self.written() == base + set_diopter_frames(
                        fw,
                        schedule.take(i + 1 as int),
                    ));
                }
                self.transport.pause(step_ms);
                proof {
                    assert(self.paused() =~= old(self).paused() + Seq::new(
                        (i + 1) as nat,
                        |q: int| step_ms,
                    ));
                }
                i = i + 1;
            }
            proof {
                assert(schedule.take(targets@.len() as int) =~= schedule);
                assert(old(self).paused() + Seq::new(
                    (steps + 1) as nat,
                    |q: int| step_ms,
                ) =~= old(self).paused() + ramp_pauses(duration_ms, steps as nat));
            }
            Ok(())
        }
    }

    /// The graceful teardown callers are documented to invoke before letting
    /// the session go: a best-effort ramp of the active quantity to zero over
    /// one second in fifty steps, so the lens is never left under residual
    /// drive current or stressed focal power. An error is reported to the
    /// caller but leaves the session usable.
    pub fn close(&mut self) -> (r: Result<(), LensError>)
        requires
            old(self).wf(),
        ensures
            final(self).wf(),
            Self::same_profile(final(self), old(self)),
            final(self).spec_mode() == old(self).spec_mode(),
            r == Err::<(), LensError>(LensError::InvalidMode) <==> old(self).spec_mode() is None,
            old(self).spec_mode() is None ==> *final(self) == *old(self),
            old(self).spec_mode() == Some(LensMode::Current) ==> (r matches Ok(_) ==> exists|
                start: int,
            |
                {
                    &&& -old(self).spec_max_output_current() <= start <= old(
                        self,
                    ).spec_max_output_current()
                    &&& final(self).written() == old(self).written() + frame_for(
                        cmd_get_current(),
                    ) + set_current_frames(
                        old(self).spec_max_output_current() as int,
                        #[trigger] ramp_schedule(start, 50),
                    )
                }),
            old(self).spec_mode() == Some(LensMode::FocalPower) ==> (r matches Ok(_) ==> exists|
                start: int,
            |
                {
                    &&& -163840 <= start + diopter_offset_milli(old(self).spec_firmware_type())
                        <= 163835
                    &&& final(self).written() == old(self).written() + frame_for(
                        cmd_get_diopter(),
                    ) + set_diopter_frames(
                        old(self).spec_firmware_type(),
                        #[trigger] ramp_schedule(start, 50),
                    )
                }),
            r matches Ok(_) ==> final(self).paused() == old(self).paused() + ramp_pauses(1000, 50),
            r matches Err(e) ==> is_exchange_error(e) || e == LensError::InvalidMode,
    {
        self.ramp_to_zero(1000, 50)
    }
}

} // verus!
