use vstd::prelude::*;

use crate::chunk::ScheduleMode;
use crate::devices::scale_offset_chunk::modulo;
use crate::devices::MidiMessage;
use crate::midi_keys::MidiKeys;
use crate::output_value::OutputValue;

verus! {

/// The parameter address of the vocal transformer's robot switch.
pub open spec fn robot_address() -> Seq<u8> {
    seq![0x10u8, 0x00u8, 0x00u8, 0x00u8]
}

/// The header every message of the vocal transformer starts with.
pub open spec fn sysex_header() -> Seq<u8> {
    seq![240u8, 65u8, 16u8, 0u8, 0u8, 0u8, 81u8]
}

/// What a system-exclusive message of the vocal transformer asks.
#[derive(Debug, Copy, Clone, PartialEq, Eq, Structural, Hash)]
pub enum VT4Command {
    Request,
    SetParameter,
    Unknown,
}

/// The byte a command is sent as, if it has one.
pub open spec fn command_byte(c: VT4Command) -> Option<u8> {
    match c {
        VT4Command::Request => Some(0x11u8),
        VT4Command::SetParameter => Some(0x12u8),
        VT4Command::Unknown => None,
    }
}

/// The command a byte stands for.
pub open spec fn command_of(b: u8) -> VT4Command {
    if b == 0x11 { VT4Command::Request } else if b == 0x12 { VT4Command::SetParameter } else { VT4Command::Unknown }
}

impl VT4Command {
    /// The command a byte stands for.
    pub fn from(value: u8) -> (r: VT4Command)
        ensures
            r == command_of(value),
    {
        match value {
            0x11 => VT4Command::Request,
            0x12 => VT4Command::SetParameter,
            _ => VT4Command::Unknown,
        }
    }

    /// The byte this command is sent as.
    pub fn to_sysex(&self) -> (r: Option<u8>)
        ensures
            r == command_byte(*self),
    {
        match self {
            VT4Command::Request => Some(0x11),
            VT4Command::SetParameter => Some(0x12),
            _ => None,
        }
    }
}

/// The running checksum of a message body: each byte added in, modulo 128.
pub open spec fn running_sum(s: Seq<u8>) -> int
    decreases s.len(),
{
    if s.len() == 0 { 0 } else { (running_sum(s.drop_last()) + s.last()) % 128 }
}

/// Whether summing a body byte by byte in a byte never goes past 255.
pub open spec fn sum_fits(s: Seq<u8>) -> bool
    decreases s.len(),
{
    s.len() == 0 || (sum_fits(s.drop_last()) && running_sum(s.drop_last()) + s.last() <= 255)
}

/// The Roland checksum of a body: what brings its sum to a multiple of 128.
pub open spec fn checksum(s: Seq<u8>) -> int {
    (128 - running_sum(s)) % 128
}

/// A system-exclusive message of the vocal transformer: a command on a parameter
/// address with its data.
#[derive(Debug, Clone, PartialEq, Eq)]
pub struct VT4SysExMessage {
    pub command: VT4Command,
    pub address: [u8; 4],
    pub data: Vec<u8>,
}

/// The bytes of a message: header, command byte, address, data, checksum over address and
/// data, end of exclusive.
pub open spec fn encoded(command: u8, address: Seq<u8>, data: Seq<u8>) -> Seq<u8> {
    let body = address + data;
    sysex_header().push(command) + body + seq![checksum(body) as u8, 0xF7u8]
}

/// Whether bytes are a message of the vocal transformer: longer than twelve bytes and
/// starting with its header.
pub open spec fn is_vt4_sysex(m: Seq<u8>) -> bool {
    m.len() > 12 && m.subrange(0, 7) == sysex_header()
}

impl VT4SysExMessage {
    /// A message of the given command, address and data.
    pub fn new(command: VT4Command, address: [u8; 4], data: Vec<u8>) -> (r: Self)
        ensures
            r.command == command,
            r.address@ == address@,
            r.data@ == data@,
    {
        Self { command, address, data }
    }

    /// Whether bytes are a message of the vocal transformer.
    pub fn is_sysex(message: &[u8]) -> (r: bool)
        ensures
            r == is_vt4_sysex(message@),
    {
        if message.len() <= 12 {
            return false;
        }
        let header: [u8; 7] = [240, 65, 16, 0, 0, 0, 81];
        let mut i: usize = 0;
        while i < 7
            invariant
                i <= 7,
                message@.len() > 12,
                header@ == sysex_header(),
                forall|k: int| 0 <= k < i ==> message@[k] == header@[k],
            decreases 7 - i,
        {
            if message[i] != header[i] {
                proof {
                    assert(message@.subrange(0, 7)[i as int] != sysex_header()[i as int]);
                }
                return false;
            }
            i += 1;
        }
        proof {
            assert(header@ =~= sysex_header());
            assert(message@.subrange(0, 7) =~= sysex_header());
        }
        true
    }

    /// Reads a message: its command byte, the four address bytes, and the data up to the
    /// checksum and end byte.
    pub fn from(message: &[u8]) -> (r: Option<Self>)
        requires
            is_vt4_sysex(message@) ==> message@.len() >= 14,
        ensures
            is_vt4_sysex(message@) ==> (r matches Some(m) && m.command == command_of(message@[7])
                && m.address@ == message@.subrange(8, 12)
                && m.data@ == message@.subrange(12, message@.len() - 2)),
            !is_vt4_sysex(message@) ==> r is None,
    {
        if VT4SysExMessage::is_sysex(message) {
            let command = VT4Command::from(message[7]);
            let address: [u8; 4] = [message[8], message[9], message[10], message[11]];
            let mut data: Vec<u8> = Vec::new();
            let end = message.len() - 2;
            let mut i: usize = 12;
            while i < end
                invariant
                    12 <= i <= end,
                    end == message@.len() - 2,
                    data@ == message@.subrange(12, i as int),
                decreases end - i,
            {
                data.push(message[i]);
                i += 1;
            }
            proof {
                assert(address@ =~= message@.subrange(8, 12));
            }
            Some(Self { command, address, data })
        } else {
            None
        }
    }

    /// The bytes of this message, if its command can be sent.
    pub fn to_sysex(&self) -> (r: Option<Vec<u8>>)
        requires
            sum_fits(self.address@ + self.data@),
            self.data@.len() < 0x1000_0000,
        ensures
            match command_byte(self.command) {
                Some(b) => (r matches Some(v) && v@ == encoded(b, self.address@, self.data@)),
                None => r is None,
            },
    {
        match self.command.to_sysex() {
            Some(command_byte) => {
                let mut result: Vec<u8> = Vec::new();
                result.push(0xF0);
                result.push(0x41);
                result.push(0x10);
                result.push(0x00);
                result.push(0x00);
                result.push(0x00);
                result.push(0x51);
                result.push(command_byte);
                let mut a: usize = 0;
                while a < 4
                    invariant
                        a <= 4,
                        result@ == sysex_header().push(command_byte) + self.address@.subrange(0, a as int),
                    decreases 4 - a,
                {
                    result.push(self.address[a]);
                    proof {
                        assert(self.address@.subrange(0, a as int + 1) == self.address@.subrange(0, a as int).push(self.address@[a as int]));
                    }
                    a += 1;
                }
                let mut d: usize = 0;
                while d < self.data.len()
                    invariant
                        d <= self.data@.len(),
                        result@ == sysex_header().push(command_byte) + self.address@ + self.data@.subrange(0, d as int),
                    decreases self.data@.len() - d,
                {
                    result.push(self.data[d]);
                    proof {
                        assert(self.data@.subrange(0, d as int + 1) == self.data@.subrange(0, d as int).push(self.data@[d as int]));
                    }
                    d += 1;
                }
                proof {
                    assert(self.address@.subrange(0, 4) == self.address@);
                    assert(self.data@.subrange(0, self.data@.len() as int) == self.data@);
                    assert(result@ =~= sysex_header().push(command_byte) + (self.address@ + self.data@));
                }
                let ghost body = self.address@ + self.data@;
                let mut sum: u8 = 0;
                let mut i: usize = 8;
                while i < result.len()
                    invariant
                        8 <= i <= result@.len(),
                        result@ == sysex_header().push(command_byte) + body,
                        body == self.address@ + self.data@,
                        sum_fits(body),
                        sum == running_sum(body.subrange(0, i - 8)),
                        sum < 128,
                    decreases result@.len() - i,
                {
                    proof {
                        lemma_sum_fits_prefix(body, i - 8 + 1);
                        assert(body.subrange(0, i - 8 + 1).drop_last() == body.subrange(0, i - 8));
                        assert(result@[i as int] == body[i - 8]);
                    }
                    sum = (sum + result[i]) % 128;
                    i += 1;
                }
                proof {
                    assert(body.subrange(0, body.len() as int) == body);
                }
                result.push((128 - sum) % 128);
                result.push(0xF7);
                proof {
                    assert(result@ =~= encoded(command_byte, self.address@, self.data@));
                }
                Some(result)
            }
            None => None,
        }
    }
}

/// Every prefix of a body whose sum fits has a sum that fits.
proof fn lemma_sum_fits_prefix(s: Seq<u8>, k: int)
    requires
        sum_fits(s),
        0 <= k <= s.len(),
    ensures
        sum_fits(s.subrange(0, k)),
        k > 0 ==> running_sum(s.subrange(0, k - 1)) + s[k - 1] <= 255,
    decreases s.len() - k,
{
    if k < s.len() {
        assert(s.drop_last() == s.subrange(0, s.len() - 1));
        lemma_sum_fits_prefix(s.drop_last(), k);
        assert(s.drop_last().subrange(0, k) == s.subrange(0, k));
        if k > 0 {
            assert(s.drop_last().subrange(0, k - 1) == s.subrange(0, k - 1));
        }
    } else {
        assert(s.subrange(0, k) == s);
        if k > 0 {
            assert(s.drop_last() == s.subrange(0, k - 1));
        }
    }
}

/// Reading back the bytes of a message gives the message: the command, address and data
/// come back as they were sent. The bytes are the header, the command byte, the body, its
/// checksum and the end byte, fourteen more than the data, and the body with its checksum
/// sums to a multiple of 128.
pub proof fn law_sysex_round_trip(command: VT4Command, address: Seq<u8>, data: Seq<u8>)
    requires
        command_byte(command) is Some,
        address.len() == 4,
    ensures
        ({
            let bytes = encoded(command_byte(command)->0, address, data);
            &&& bytes.len() == data.len() + 14
            &&& bytes.subrange(0, 7) == sysex_header()
            &&& bytes[7] == command_byte(command)->0
            &&& bytes.last() == 0xF7
            &&& running_sum(bytes.subrange(8, bytes.len() - 1)) == 0
            &&& is_vt4_sysex(bytes)
            &&& command_of(bytes[7]) == command
            &&& bytes.subrange(8, 12) == address
            &&& bytes.subrange(12, bytes.len() - 2) == data
        }),
{
    let b = command_byte(command)->0;
    let bytes = encoded(b, address, data);
    let body = address + data;
    assert(bytes.subrange(0, 7) =~= sysex_header());
    assert(bytes.subrange(8, 12) =~= address);
    assert(bytes.subrange(12, bytes.len() - 2) =~= data);
    assert(bytes.subrange(8, bytes.len() - 1) =~= body.push(checksum(body) as u8));
    law_checksum_completes_the_sum(body);
}

/// Bytes below 128 can always be summed in a byte.
pub proof fn lemma_seven_bit_sum_fits(s: Seq<u8>)
    requires
        forall|i: int| 0 <= i < s.len() ==> s[i] < 128,
    ensures
        sum_fits(s),
    decreases s.len(),
{
    if s.len() > 0 {
        let p = s.drop_last();
        assert forall|i: int| 0 <= i < p.len() implies p[i] < 128 by {
            assert(p[i] == s[i]);
        }
        lemma_seven_bit_sum_fits(p);
        assert(s.last() == s[s.len() - 1]);
        assert(running_sum(p) < 128) by {
            if p.len() > 0 {
                assert(running_sum(p) == (running_sum(p.drop_last()) + p.last()) % 128);
            }
        }
    }
}

/// The Roland checksum: the body and its checksum byte sum to a multiple of 128.
pub proof fn law_checksum_completes_the_sum(body: Seq<u8>)
    ensures
        running_sum(body.push(checksum(body) as u8)) == 0,
{
    let p = body.push(checksum(body) as u8);
    assert(p.drop_last() == body);
    assert(0 <= running_sum(body) < 128) by {
        if body.len() > 0 {
            assert(running_sum(body) == (running_sum(body.drop_last()) + body.last()) % 128);
        }
    }
}

/// The data that asks for a parameter of the given length.
pub fn sysex_length(length: u8) -> (r: Vec<u8>)
    ensures
        r@ == seq![0u8, 0u8, 0u8, length % 128],
{
    let mut v: Vec<u8> = Vec::new();
    v.push(0);
    v.push(0);
    v.push(0);
    v.push(length % 128);
    proof {
        assert(v@ =~= seq![0u8, 0u8, 0u8, length % 128]);
    }
    v
}

/// The semitones from the scale's root to the root of its mode: the sum of the first
/// `mode` steps of the major scale (at most six of them).
pub open spec fn mode_offset(mode: int) -> int {
    if mode <= 0 { 0 }
    else if mode == 1 { 2 }
    else if mode == 2 { 4 }
    else if mode == 3 { 5 }
    else if mode == 4 { 7 }
    else if mode == 5 { 9 }
    else { 11 }
}

/// The semitones from the scale's root to the root of its mode.
pub fn get_mode_offset(mode: i32) -> (r: i32)
    ensures
        r == mode_offset(mode as int),
{
    let mut offset: i32 = 0;
    let intervals: [i32; 7] = [2, 2, 1, 2, 2, 2, 1];
    let mut i: usize = 0;
    while i < 6 && (i as i32) < mode
        invariant
            i <= 6,
            i <= 0 || (i as int) <= mode,
            intervals@ == seq![2i32, 2, 1, 2, 2, 2, 1],
            offset == mode_offset(i as int),
        decreases 6 - i,
    {
        offset += intervals[i];
        i += 1;
    }
    offset
}

/// The key the vocal transformer is set to for a scale: the root of the scale's mode, as a
/// pitch class counted from C.
pub open spec fn robot_key(root: int, scale: int) -> int {
    ((root - 60) % 12 - mode_offset(scale % 7)) % 12
}

/// The key the vocal transformer is set to for a scale with the given root note and mode.
pub fn robot_key_for(root: i32, scale: i32) -> (r: u8)
    requires
        root >= i32::MIN + 60,
    ensures
        r == robot_key(root as int, scale as int),
{
    let from_c = root - 60;
    let base_key = modulo(from_c, 12);
    let offset = get_mode_offset(modulo(scale, 7));
    modulo(base_key - offset, 12) as u8
}

/// What the vocal transformer's own messages ask of the library.
#[derive(Debug, Copy, Clone, PartialEq, Eq, Structural)]
pub enum RobotInput {
    /// The robot button was pressed: ask for the robot switch's state.
    RequestState,
    /// The robot switch's state arrived.
    RobotMode(bool),
    Ignore,
}

/// What a message of the vocal transformer asks: a press of the robot button asks for the
/// robot state; a `Set` of the robot address with data reports it (on when the first data
/// byte is not zero); anything else is ignored.
pub open spec fn robot_input_of(m: Seq<u8>) -> RobotInput {
    if m == seq![176u8, 49u8, 0u8] {
        RobotInput::RequestState
    } else if is_vt4_sysex(m) && command_of(m[7]) == VT4Command::SetParameter && m.subrange(8, 12) == robot_address()
        && m.len() > 14 {
        RobotInput::RobotMode(m[12] > 0)
    } else {
        RobotInput::Ignore
    }
}

/// Reads a message of the vocal transformer.
pub fn robot_input(message: &[u8]) -> (r: RobotInput)
    requires
        is_vt4_sysex(message@) ==> message@.len() >= 14,
    ensures
        r == robot_input_of(message@),
{
    if message.len() == 3 && message[0] == 176 && message[1] == 49 && message[2] == 0 {
        proof {
            assert(message@ =~= seq![176u8, 49u8, 0u8]);
        }
        return RobotInput::RequestState;
    }
    proof {
        if message@ == seq![176u8, 49u8, 0u8] {
            assert(message@.len() == 3);
        }
    }
    match VT4SysExMessage::from(message) {
        Some(response) => {
            if response.command == VT4Command::SetParameter && response.address[0] == 0x10 && response.address[1] == 0
                && response.address[2] == 0 && response.address[3] == 0 && response.data.len() > 0 {
                proof {
                    assert(response.address@ =~= robot_address());
                }
                RobotInput::RobotMode(response.data[0] > 0)
            } else {
                proof {
                    if response.address@ == robot_address() {
                        assert(response.address@[0] == 0x10);
                        assert(response.address@[1] == 0);
                        assert(response.address@[2] == 0);
                        assert(response.address@[3] == 0);
                    }
                }
                RobotInput::Ignore
            }
        }
        None => RobotInput::Ignore,
    }
}

/// The message that asks the vocal transformer for its robot switch's state.
pub fn robot_state_request() -> (r: Vec<u8>)
    ensures
        r@ == encoded(0x11, robot_address(), seq![0u8, 0u8, 0u8, 1u8]),
{
    let message = VT4SysExMessage::new(VT4Command::Request, [0x10, 0x00, 0x00, 0x00], sysex_length(1));
    proof {
        assert(message.address@ =~= robot_address());
        let body = message.address@ + message.data@;
        assert(body =~= seq![0x10u8, 0, 0, 0, 0, 0, 0, 1]);
        reveal_with_fuel(sum_fits, 9);
        reveal_with_fuel(running_sum, 9);
        assert(body.drop_last() =~= seq![0x10u8, 0, 0, 0, 0, 0, 0]);
        assert(body.drop_last().drop_last() =~= seq![0x10u8, 0, 0, 0, 0, 0]);
        assert(body.drop_last().drop_last().drop_last() =~= seq![0x10u8, 0, 0, 0, 0]);
        assert(body.drop_last().drop_last().drop_last().drop_last() =~= seq![0x10u8, 0, 0, 0]);
        assert(body.drop_last().drop_last().drop_last().drop_last().drop_last() =~= seq![0x10u8, 0, 0]);
        assert(body.drop_last().drop_last().drop_last().drop_last().drop_last().drop_last() =~= seq![0x10u8, 0]);
        assert(body.drop_last().drop_last().drop_last().drop_last().drop_last().drop_last().drop_last() =~= seq![0x10u8]);
        assert(sum_fits(body));
    }
    match message.to_sysex() {
        Some(bytes) => bytes,
        None => Vec::new(),
    }
}


/// The vocal transformer played as a keyboard on channel 1 (the notes come from the
/// scale, looked up by the caller), following the scale's key unless the robot voice is
/// on (changing the key would switch it off).
pub struct VT4 {
    midi_keys: MidiKeys,
    last_key: Option<u8>,
    in_robot_mode: bool,
    outbox: Vec<MidiMessage>,
}

impl VT4 {
    /// The notes sounding.
    pub closed spec fn held(&self) -> Map<u32, u8> {
        self.midi_keys.held()
    }

    /// The key last sent, if any.
    pub closed spec fn key(&self) -> Option<u8> {
        self.last_key
    }

    /// Whether the robot voice is (taken to be) on.
    pub closed spec fn robot(&self) -> bool {
        self.in_robot_mode
    }

    /// The messages to send, oldest first.
    pub closed spec fn messages(&self) -> Seq<MidiMessage> {
        self.outbox@
    }

    pub closed spec fn well_formed(&self) -> bool {
        self.midi_keys.channel() == 1 && self.midi_keys.messages() == Seq::<MidiMessage>::empty()
    }

    /// Nothing sounding, no key sent, robot voice off.
    pub fn new() -> (r: VT4)
        ensures
            r.well_formed(),
            r.held().is_empty(),
            r.key() is None,
            !r.robot(),
            r.messages() == Seq::<MidiMessage>::empty(),
    {
        VT4 { midi_keys: MidiKeys::new(1), last_key: None, in_robot_mode: false, outbox: Vec::new() }
    }

    /// A message from the vocal transformer: a press of the robot button asks for the robot
    /// state (the request to send is returned); a report of the state records it.
    pub fn handle_input(&mut self, message: &[u8]) -> (r: Option<Vec<u8>>)
        requires
            is_vt4_sysex(message@) ==> message@.len() >= 14,
        ensures
            final(self).held() == old(self).held(),
            final(self).key() == old(self).key(),
            final(self).messages() == old(self).messages(),
            final(self).well_formed() == old(self).well_formed(),
            match robot_input_of(message@) {
                RobotInput::RequestState => r matches Some(req) && req@ == encoded(0x11, robot_address(), seq![0u8, 0u8, 0u8, 1u8])
                    && final(self).robot() == old(self).robot(),
                RobotInput::RobotMode(on) => r is None && final(self).robot() == on,
                RobotInput::Ignore => r is None && final(self).robot() == old(self).robot(),
            },
            message@ == seq![176u8, 49u8, 0u8] ==> r is Some,
    {
        let input = robot_input(message);
        match input {
            RobotInput::RequestState => Some(robot_state_request()),
            RobotInput::RobotMode(on) => {
                self.in_robot_mode = on;
                None
            },
            RobotInput::Ignore => None,
        }
    }

    /// A key changed value (`note_id` is the note the scale gives it): playing takes the
    /// robot voice to be on.
    pub fn trigger(&mut self, id: u32, value: OutputValue, note_id: u8)
        requires
            old(self).well_formed(),
        ensures
            final(self).well_formed(),
            final(self).robot(),
            final(self).key() == old(self).key(),
            match value {
                OutputValue::Off => if old(self).held().contains_key(id) {
                    &&& final(self).messages() == old(self).messages().push(MidiMessage::Three(144, old(self).held()[id], 0))
                    &&& final(self).held() == old(self).held().remove(id)
                } else {
                    &&& final(self).messages() == old(self).messages()
                    &&& final(self).held() == old(self).held()
                },
                OutputValue::On(velocity) => {
                    &&& final(self).messages() == old(self).messages().push(MidiMessage::Three(144, note_id, velocity))
                    &&& final(self).held() == old(self).held().insert(id, note_id)
                },
            },
    {
        self.in_robot_mode = true;
        self.midi_keys.note(id, value, note_id);
        let sent = self.midi_keys.take_messages();
        let mut i: usize = 0;
        let ghost before = self.outbox@;
        let ghost s1 = *self;
        while i < sent.len()
            invariant
                i <= sent@.len(),
                *self == (VT4 { outbox: self.outbox, ..s1 }),
                self.outbox@ == before + sent@.take(i as int),
            decreases sent@.len() - i,
        {
            self.outbox.push(sent[i]);
            proof {
                assert(sent@.take(i + 1) == sent@.take(i as int).push(sent@[i as int]));
            }
            i = i + 1;
        }
        proof {
            assert(sent@.take(sent@.len() as int) == sent@);
        }
    }

    /// The clock moved on, with the scale at `root` and `scale` (its mode): unless the robot
    /// voice is on, the key of the scale is sent when it differs from the one sent last.
    pub fn on_tick(&mut self, root: i32, scale: i32)
        requires
            root >= i32::MIN + 60,
        ensures
            final(self).held() == old(self).held(),
            final(self).robot() == old(self).robot(),
            final(self).well_formed() == old(self).well_formed(),
            ({
                let key = robot_key(root as int, scale as int) as u8;
                if !old(self).robot() && old(self).key() != Some(key) {
                    &&& final(self).messages() == old(self).messages().push(MidiMessage::Three(176, 48, key))
                    &&& final(self).key() == Some(key)
                } else {
                    &&& final(self).messages() == old(self).messages()
                    &&& final(self).key() == old(self).key()
                }
            }),
    {
        if !self.in_robot_mode {
            let key = robot_key_for(root, scale);
            let changed = match self.last_key {
                Some(k) => k != key,
                None => true,
            };
            if changed {
                self.outbox.push(MidiMessage::Three(176, 48, key));
                self.last_key = Some(key);
            }
        }
    }

    /// Only one note plays at a time.
    pub fn schedule_mode(&self) -> (r: ScheduleMode)
        ensures
            r == ScheduleMode::Monophonic,
    {
        ScheduleMode::Monophonic
    }

    /// Hands out the messages to send, oldest first.
    pub fn take_messages(&mut self) -> (r: Vec<MidiMessage>)
        ensures
            r@ == old(self).messages(),
            final(self).messages() == Seq::<MidiMessage>::empty(),
            final(self).held() == old(self).held(),
            final(self).key() == old(self).key(),
            final(self).robot() == old(self).robot(),
            final(self).well_formed() == old(self).well_formed(),
    {
        let mut taken: Vec<MidiMessage> = Vec::new();
        std::mem::swap(&mut taken, &mut self.outbox);
        taken
    }
}

} // verus!
