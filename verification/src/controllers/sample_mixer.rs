use vstd::prelude::*;

use crate::devices::MidiMessage;

verus! {

/// The controls of the mixer's eight sliders.
pub const SLIDER_CCS: [u8; 8] = [16, 17, 18, 19, 20, 21, 22, 23];

/// The notes of the mixer's eight mute buttons.
pub const MUTE_NOTES: [u8; 8] = [61, 62, 63, 64, 65, 66, 67, 68];

/// Note-on status of the controller's second channel.
pub const NOTE_ON_STATUS_CH2: u8 = 145;

/// Note-off status of the controller's second channel.
pub const NOTE_OFF_STATUS_CH2: u8 = 129;

/// Control change status of the controller's second channel.
pub const CC_STATUS_CH2: u8 = 177;

/// Mute light off.
pub const LED_OFF: u8 = 0;

/// Mute light colour of a muted slider.
pub const LED_RED: u8 = 1;

/// Mute light colour of a flashing slider.
pub const LED_WHITE: u8 = 127;

/// Intensity of a lit mute light.
pub const LED_ON_INTENSITY: u8 = 127;

/// The controller's feedback indices of the eight mute lights.
pub const MUTE_DIGITAL_INDICES: [u16; 8] = [16, 17, 18, 19, 20, 21, 22, 23];

/// The controller's answer when it is ready for bulk feedback.
pub const BULK_FEEDBACK_READY_RESPONSE: [u8; 9] = [0xF0, 0x79, 0x74, 0x78, 0x01, 0x00, 0x00, 0x1E, 0xF7];

/// The start of a bulk feedback frame; the last byte is replaced by the record count.
pub const BULK_DIGITAL_FEEDBACK_FRAME_PREFIX: [u8; 10] = [0xF0, 0x79, 0x74, 0x78, 0x00, 0x01, 0x00, 0x1D, 0x00, 0x00];

/// What the mixer knows of its controls: slider positions (and whether each was seen),
/// gain multipliers, which sliders are muted (held or latched), the value last sent for
/// each, and which need sending.
pub struct SampleMixerState {
    pub sliders: [u8; 8],
    pub slider_seen: [bool; 8],
    pub multipliers: [u8; 8],
    pub muted: [bool; 8],
    pub mute_held: [bool; 8],
    pub mute_latched: [bool; 8],
    pub last_sent: [u8; 8],
    pub dirty: [bool; 8],
}

/// The place of `x` among the first eight entries of `s`, if it is there.
pub open spec fn position_in(s: Seq<u8>, x: u8) -> Option<usize> {
    if exists|i: int| 0 <= i < 8 && s[i] == x {
        Some((choose|i: int| 0 <= i < 8 && s[i] == x && forall|j: int| 0 <= j < i ==> s[j] != x) as usize)
    } else {
        None
    }
}

fn find_in(table: &[u8; 8], x: u8) -> (r: Option<usize>)
    ensures
        match r {
            Some(i) => i < 8 && table@[i as int] == x && forall|j: int| 0 <= j < i ==> table@[j] != x,
            None => forall|j: int| 0 <= j < 8 ==> table@[j] != x,
        },
{
    let mut i: usize = 0;
    while i < 8
        invariant
            i <= 8,
            forall|j: int| 0 <= j < i ==> table@[j] != x,
        decreases 8 - i,
    {
        if table[i] == x {
            return Some(i);
        }
        i = i + 1;
    }
    None
}

/// The colour of a mute light: white while its channel flashes with activity, else red
/// when muted, else off.
pub open spec fn spec_mute_light(flashing: bool, muted: bool) -> u8 {
    if flashing { LED_WHITE } else if muted { LED_RED } else { LED_OFF }
}

/// The colour of a mute light.
pub fn mute_light(flashing: bool, muted: bool) -> (r: u8)
    ensures
        r == spec_mute_light(flashing, muted),
{
    if flashing { LED_WHITE } else if muted { LED_RED } else { LED_OFF }
}

/// The bytes of a bulk feedback frame: the prefix with the record count, then for each
/// record its index (low and high seven bits), colour and intensity, then the end of
/// the system exclusive message.
pub open spec fn frame_bytes(records: Seq<(u16, u8, u8)>) -> Seq<u8>
    decreases records.len(),
{
    if records.len() == 0 {
        BULK_DIGITAL_FEEDBACK_FRAME_PREFIX@.update(9, 0)
    } else {
        let (index, color, intensity) = records.last();
        frame_bytes(records.drop_last()).update(9, records.len() as u8)
            + seq![(index % 128) as u8, ((index / 128) % 128) as u8, color, intensity]
    }
}

/// The feedback frame that sets the given lights; nothing when there is nothing to set.
pub fn digital_feedback_frame(records: &[(u16, u8, u8)]) -> (r: Vec<u8>)
    requires
        records@.len() < 256,
    ensures
        records@.len() == 0 ==> r@ == Seq::<u8>::empty(),
        records@.len() > 0 ==> r@ == frame_bytes(records@).push(0xF7),
{
    if records.len() == 0 {
        return Vec::new();
    }
    let mut message: Vec<u8> = Vec::new();
    let mut k: usize = 0;
    while k < 10
        invariant
            k <= 10,
            message@ == BULK_DIGITAL_FEEDBACK_FRAME_PREFIX@.take(k as int),
        decreases 10 - k,
    {
        message.push(BULK_DIGITAL_FEEDBACK_FRAME_PREFIX[k]);
        proof {
            assert(BULK_DIGITAL_FEEDBACK_FRAME_PREFIX@.take(k + 1) == BULK_DIGITAL_FEEDBACK_FRAME_PREFIX@.take(k as int).push(BULK_DIGITAL_FEEDBACK_FRAME_PREFIX@[k as int]));
        }
        k = k + 1;
    }
    proof {
        assert(BULK_DIGITAL_FEEDBACK_FRAME_PREFIX@.take(10) == BULK_DIGITAL_FEEDBACK_FRAME_PREFIX@);
    }
    message.set(9, records.len() as u8);
    let mut i: usize = 0;
    while i < records.len()
        invariant
            0 <= i <= records@.len() < 256,
            records@.len() > 0,
            message@ == if i == 0 {
                BULK_DIGITAL_FEEDBACK_FRAME_PREFIX@.update(9, records@.len() as u8)
            } else {
                frame_bytes(records@.take(i as int)).update(9, records@.len() as u8)
            },
        decreases records@.len() - i,
    {
        let (index, color, intensity) = records[i];
        let lo = ((index & 0x7F) as u8);
        let hi = (((index >> 7) & 0x7F) as u8);
        proof {
            assert(index & 0x7F == index % 128) by (bit_vector);
            assert((index >> 7) & 0x7F == (index / 128) % 128) by (bit_vector);
            let t = records@.take(i + 1);
            assert(t.drop_last() == records@.take(i as int));
            assert(t.last() == records@[i as int]);
            assert(frame_bytes(records@.take(0)) == BULK_DIGITAL_FEEDBACK_FRAME_PREFIX@.update(9, 0));
        }
        message.push(lo);
        message.push(hi);
        message.push(color);
        message.push(intensity);
        proof {
            let t = records@.take(i + 1);
            assert(frame_bytes(t).len() == 10 + 4 * t.len()) by {
                lemma_frame_len(t);
            }
            if i > 0 {
                lemma_frame_len(records@.take(i as int));
            }
            assert(message@ =~= frame_bytes(t).update(9, records@.len() as u8));
        }
        i = i + 1;
    }
    proof {
        assert(records@.take(records@.len() as int) == records@);
        lemma_frame_len(records@);
        assert(message@ =~= frame_bytes(records@));
    }
    message.push(0xF7);
    message
}

proof fn lemma_frame_len(records: Seq<(u16, u8, u8)>)
    ensures
        frame_bytes(records).len() == 10 + 4 * records.len(),
        frame_bytes(records)[9] == records.len() as u8,
        forall|j: int| 0 <= j < 9 ==> #[trigger] frame_bytes(records)[j] == BULK_DIGITAL_FEEDBACK_FRAME_PREFIX@[j],
    decreases records.len(),
{
    if records.len() > 0 {
        lemma_frame_len(records.drop_last());
    }
}

impl SampleMixerState {
    /// Sliders at zero and unseen, full multipliers, nothing muted, nothing sent (255 is
    /// no value a slider sends), nothing to send.
    pub fn new() -> (r: SampleMixerState)
        ensures
            r.sliders@ == seq![0u8; 8],
            r.slider_seen@ == seq![false; 8],
            r.multipliers@ == seq![127u8; 8],
            r.muted@ == seq![false; 8],
            r.mute_held@ == seq![false; 8],
            r.mute_latched@ == seq![false; 8],
            r.last_sent@ == seq![255u8; 8],
            r.dirty@ == seq![false; 8],
    {
        let r = SampleMixerState {
            sliders: [0; 8],
            slider_seen: [false; 8],
            multipliers: [127; 8],
            muted: [false; 8],
            mute_held: [false; 8],
            mute_latched: [false; 8],
            last_sent: [255; 8],
            dirty: [false; 8],
        };
        assert(r.sliders@ =~= seq![0u8; 8]);
        assert(r.slider_seen@ =~= seq![false; 8]);
        assert(r.multipliers@ =~= seq![127u8; 8]);
        assert(r.muted@ =~= seq![false; 8]);
        assert(r.mute_held@ =~= seq![false; 8]);
        assert(r.mute_latched@ =~= seq![false; 8]);
        assert(r.last_sent@ =~= seq![255u8; 8]);
        assert(r.dirty@ =~= seq![false; 8]);
        r
    }

    /// A held mute button was let go: the slider stays muted (latched) when `latch` is
    /// set, else it is unmuted; either way it needs sending. A button not held is ignored.
    pub fn release_mute(&mut self, index: usize, latch: bool)
        requires
            index < 8,
        ensures
            if old(self).mute_held@[index as int] {
                &&& final(self).mute_held@ == old(self).mute_held@.update(index as int, false)
                &&& final(self).mute_latched@ == old(self).mute_latched@.update(index as int, latch)
                &&& final(self).muted@ == old(self).muted@.update(index as int, latch)
                &&& final(self).dirty@ == old(self).dirty@.update(index as int, true)
                &&& final(self).sliders == old(self).sliders
                &&& final(self).slider_seen == old(self).slider_seen
                &&& final(self).multipliers == old(self).multipliers
                &&& final(self).last_sent == old(self).last_sent
            } else {
                *final(self) == *old(self)
            },
    {
        broadcast use vstd::array::group_array_axioms;
        if !self.mute_held[index] {
            return;
        }
        self.mute_held[index] = false;
        self.mute_latched[index] = latch;
        self.muted[index] = self.mute_latched[index];
        self.dirty[index] = true;
    }

    /// A message from the controller: a slider control sets its slider (seen, needs
    /// sending); a mute note pressed mutes and holds its slider; released (note-off, or
    /// note-on at zero velocity) it lets go of the mute (see `release_mute`). Answers
    /// whether the message says the controller is ready for bulk feedback.
    pub fn handle_controller_message(&mut self, message: &[u8], latch: bool) -> (ready: bool)
        ensures
            ready == (message@ == BULK_FEEDBACK_READY_RESPONSE@),
            ready ==> *final(self) == *old(self),
            !ready && message@.len() == 3 && message@[0] == CC_STATUS_CH2 ==> match position_in(SLIDER_CCS@, message@[1]) {
                Some(i) => {
                    &&& final(self).sliders@ == old(self).sliders@.update(i as int, message@[2])
                    &&& final(self).slider_seen@ == old(self).slider_seen@.update(i as int, true)
                    &&& final(self).dirty@ == old(self).dirty@.update(i as int, true)
                    &&& final(self).multipliers == old(self).multipliers
                    &&& final(self).muted == old(self).muted
                    &&& final(self).mute_held == old(self).mute_held
                    &&& final(self).mute_latched == old(self).mute_latched
                    &&& final(self).last_sent == old(self).last_sent
                },
                None => *final(self) == *old(self),
            },
            !ready && message@.len() == 3 && message@[0] == NOTE_ON_STATUS_CH2 && message@[2] > 0 ==> match position_in(MUTE_NOTES@, message@[1]) {
                Some(i) => {
                    &&& final(self).mute_held@ == old(self).mute_held@.update(i as int, true)
                    &&& final(self).muted@ == old(self).muted@.update(i as int, true)
                    &&& final(self).dirty@ == old(self).dirty@.update(i as int, true)
                    &&& final(self).sliders == old(self).sliders
                    &&& final(self).slider_seen == old(self).slider_seen
                    &&& final(self).multipliers == old(self).multipliers
                    &&& final(self).mute_latched == old(self).mute_latched
                    &&& final(self).last_sent == old(self).last_sent
                },
                None => *final(self) == *old(self),
            },
            !ready && message@.len() == 3 && (message@[0] == NOTE_OFF_STATUS_CH2 || (message@[0] == NOTE_ON_STATUS_CH2 && message@[2] == 0))
                ==> match position_in(MUTE_NOTES@, message@[1]) {
                    Some(i) => old(self).mute_held@[i as int] ==> {
                        &&& final(self).mute_held@ == old(self).mute_held@.update(i as int, false)
                        &&& final(self).mute_latched@ == old(self).mute_latched@.update(i as int, latch)
                        &&& final(self).muted@ == old(self).muted@.update(i as int, latch)
                        &&& final(self).dirty@ == old(self).dirty@.update(i as int, true)
                        &&& final(self).sliders == old(self).sliders
                        &&& final(self).slider_seen == old(self).slider_seen
                        &&& final(self).multipliers == old(self).multipliers
                        &&& final(self).last_sent == old(self).last_sent
                    },
                    None => *final(self) == *old(self),
                },
            !ready && !(message@.len() == 3 && (message@[0] == CC_STATUS_CH2 || message@[0] == NOTE_ON_STATUS_CH2
                || message@[0] == NOTE_OFF_STATUS_CH2)) ==> *final(self) == *old(self),
            (message@.len() == 3 && message@[0] == NOTE_ON_STATUS_CH2 && message@[2] == 0 && position_in(MUTE_NOTES@, message@[1]) is Some
                && !old(self).mute_held@[position_in(MUTE_NOTES@, message@[1])->0 as int]) ==> *final(self) == *old(self),
            (message@.len() == 3 && message@[0] == NOTE_OFF_STATUS_CH2 && position_in(MUTE_NOTES@, message@[1]) is Some
                && !old(self).mute_held@[position_in(MUTE_NOTES@, message@[1])->0 as int]) ==> *final(self) == *old(self),
    {
        broadcast use vstd::array::group_array_axioms;
        let ready_response = BULK_FEEDBACK_READY_RESPONSE;
        if message.len() == 9 {
            let mut same = true;
            let mut k: usize = 0;
            while k < 9
                invariant
                    k <= 9,
                    message@.len() == 9,
                    same == (forall|j: int| 0 <= j < k ==> message@[j] == ready_response@[j]),
                decreases 9 - k,
            {
                if message[k] != ready_response[k] {
                    same = false;
                }
                k = k + 1;
            }
            proof {
                if same {
                    assert(message@ =~= BULK_FEEDBACK_READY_RESPONSE@);
                } else {
                    let j = choose|j: int| 0 <= j < 9 && message@[j] != ready_response@[j];
                    assert(message@[j] != BULK_FEEDBACK_READY_RESPONSE@[j]);
                }
            }
            if same {
                return true;
            }
        }
        proof {
            assert(message@.len() != 9 ==> message@ != BULK_FEEDBACK_READY_RESPONSE@);
        }
        if message.len() == 3 {
            let status = message[0];
            let data = message[1];
            let value = message[2];
            if status == CC_STATUS_CH2 {
                if let Some(index) = find_in(&SLIDER_CCS, data) {
                    proof {
                        lemma_position_in(SLIDER_CCS@, data, index as int);
                    }
                    self.sliders[index] = value;
                    self.slider_seen[index] = true;
                    self.dirty[index] = true;
                } else {
                    proof {
                        assert(!(exists|i: int| 0 <= i < 8 && SLIDER_CCS@[i] == data));
                    }
                }
            } else if status == NOTE_ON_STATUS_CH2 {
                if let Some(index) = find_in(&MUTE_NOTES, data) {
                    proof {
                        lemma_position_in(MUTE_NOTES@, data, index as int);
                    }
                    if value > 0 {
                        self.mute_held[index] = true;
                        self.muted[index] = true;
                        self.dirty[index] = true;
                    } else {
                        self.release_mute(index, latch);
                    }
                } else {
                    proof {
                        assert(!(exists|i: int| 0 <= i < 8 && MUTE_NOTES@[i] == data));
                    }
                }
            } else if status == NOTE_OFF_STATUS_CH2 {
                if let Some(index) = find_in(&MUTE_NOTES, data) {
                    proof {
                        lemma_position_in(MUTE_NOTES@, data, index as int);
                    }
                    self.release_mute(index, latch);
                } else {
                    proof {
                        assert(!(exists|i: int| 0 <= i < 8 && MUTE_NOTES@[i] == data));
                    }
                }
            }
        }
        false
    }
}

proof fn lemma_position_in(s: Seq<u8>, x: u8, i: int)
    requires
        0 <= i < 8,
        s[i] == x,
        forall|j: int| 0 <= j < i ==> s[j] != x,
    ensures
        position_in(s, x) == Some(i as usize),
{
    let c = choose|c: int| 0 <= c < 8 && s[c] == x && forall|j: int| 0 <= j < c ==> s[j] != x;
    assert(c == i) by {
        if c < i {
            assert(s[c] != x);
        }
        if i < c {
            assert(s[i] != x);
        }
    }
}

/// The lights the mixer last set (255 for unknown) and whether the controller was ready.
pub struct MixerLights {
    pub last_lights: [u8; 8],
    pub was_ready: bool,
}

/// The feedback records for the lights that differ from what was last set: index,
/// colour, and full intensity unless off.
pub open spec fn light_records(last: Seq<u8>, lights: Seq<u8>, upto: int) -> Seq<(u16, u8, u8)>
    decreases upto,
{
    if upto <= 0 {
        Seq::empty()
    } else {
        let before = light_records(last, lights, upto - 1);
        let i = upto - 1;
        if last[i] != lights[i] {
            before.push((MUTE_DIGITAL_INDICES@[i], lights[i], if lights[i] == LED_OFF { 0u8 } else { LED_ON_INTENSITY }))
        } else {
            before
        }
    }
}

impl MixerLights {
    /// Nothing known of the lights yet.
    pub fn new() -> (r: MixerLights)
        ensures
            r.last_lights@ == seq![255u8; 8],
            !r.was_ready,
    {
        let r = MixerLights { last_lights: [255; 8], was_ready: false };
        assert(r.last_lights@ =~= seq![255u8; 8]);
        r
    }

    /// Works out the mute lights to set. While the controller is not ready nothing is set
    /// (and when it stops being ready the lights are forgotten); when it becomes ready the
    /// lights are forgotten, so all are set; otherwise only the lights that changed are.
    pub fn refresh(&mut self, ready: bool, flashing: [bool; 8], muted: [bool; 8]) -> (r: Vec<(u16, u8, u8)>)
        ensures
            final(self).was_ready == ready,
            !ready ==> {
                &&& r@ == Seq::<(u16, u8, u8)>::empty()
                &&& final(self).last_lights@ == if old(self).was_ready { seq![255u8; 8] } else { old(self).last_lights@ }
            },
            ready ==> {
                let last = if old(self).was_ready { old(self).last_lights@ } else { seq![255u8; 8] };
                let lights = Seq::new(8, |i: int| spec_mute_light(flashing@[i], muted@[i]));
                &&& r@ == light_records(last, lights, 8)
                &&& final(self).last_lights@ == lights
            },
    {
        broadcast use vstd::array::group_array_axioms;
        if !ready {
            if self.was_ready {
                self.last_lights = [255; 8];
                self.was_ready = false;
                assert(self.last_lights@ =~= seq![255u8; 8]);
            }
            return Vec::new();
        }
        if !self.was_ready {
            self.last_lights = [255; 8];
            self.was_ready = true;
            assert(self.last_lights@ =~= seq![255u8; 8]);
        }
        let ghost last = self.last_lights@;
        let ghost lights = Seq::new(8, |i: int| spec_mute_light(flashing@[i], muted@[i]));
        let mut records: Vec<(u16, u8, u8)> = Vec::new();
        let mut index: usize = 0;
        while index < 8
            invariant
                index <= 8,
                last.len() == 8,
                lights == Seq::new(8, |i: int| spec_mute_light(flashing@[i], muted@[i])),
                self.was_ready,
                records@ == light_records(last, lights, index as int),
                forall|j: int| 0 <= j < index ==> self.last_lights@[j] == lights[j],
                forall|j: int| index <= j < 8 ==> self.last_lights@[j] == last[j],
            decreases 8 - index,
        {
            let light = mute_light(flashing[index], muted[index]);
            if self.last_lights[index] != light {
                records.push((MUTE_DIGITAL_INDICES[index], light, if light == LED_OFF { 0 } else { LED_ON_INTENSITY }));
                self.last_lights[index] = light;
            }
            index = index + 1;
        }
        assert(self.last_lights@ =~= lights);
        records
    }
}

/// What sending the dirty, seen sliders does: each sends its level (zero when muted) as
/// the index's control, unless that value was the last sent; each stops needing sending.
pub open spec fn output_messages(
    dirty: Seq<bool>,
    seen: Seq<bool>,
    muted: Seq<bool>,
    levels: Seq<u8>,
    last_sent: Seq<u8>,
    status: u8,
    ccs: Seq<u8>,
    upto: int,
) -> Seq<MidiMessage>
    decreases upto,
{
    if upto <= 0 {
        Seq::empty()
    } else {
        let before = output_messages(dirty, seen, muted, levels, last_sent, status, ccs, upto - 1);
        let i = upto - 1;
        let value = if muted[i] { 0u8 } else { levels[i] };
        if dirty[i] && seen[i] && last_sent[i] != value {
            before.push(MidiMessage::Three(status, ccs[i], value))
        } else {
            before
        }
    }
}

impl SampleMixerState {
    /// Sends the sliders that need it on `output_channel` (1 to 16), slider `i` as control
    /// `output_ccs[i]`: a muted slider sends zero, another its level `levels[i]` (the
    /// slider scaled by its multiplier's gain curve, worked out by the caller).
    pub fn refresh_output(&mut self, levels: &[u8; 8], output_channel: u8, output_ccs: &Vec<u8>) -> (r: Vec<MidiMessage>)
        requires
            1 <= output_channel <= 16,
            output_ccs@.len() == 8,
        ensures
            r@ == output_messages(old(self).dirty@, old(self).slider_seen@, old(self).muted@, levels@,
                old(self).last_sent@, (175 + output_channel) as u8, output_ccs@, 8),
            final(self).last_sent@ == Seq::new(8, |i: int| if old(self).dirty@[i] && old(self).slider_seen@[i] {
                if old(self).muted@[i] { 0u8 } else { levels@[i] }
            } else {
                old(self).last_sent@[i]
            }),
            final(self).dirty@ == Seq::new(8, |i: int| old(self).dirty@[i] && !old(self).slider_seen@[i]),
            final(self).sliders == old(self).sliders,
            final(self).slider_seen == old(self).slider_seen,
            final(self).multipliers == old(self).multipliers,
            final(self).muted == old(self).muted,
            final(self).mute_held == old(self).mute_held,
            final(self).mute_latched == old(self).mute_latched,
    {
        broadcast use vstd::array::group_array_axioms;
        let status = 175 + output_channel;
        let ghost start = *self;
        let mut messages: Vec<MidiMessage> = Vec::new();
        let mut index: usize = 0;
        while index < 8
            invariant
                index <= 8,
                output_ccs@.len() == 8,
                status == 175 + output_channel,
                messages@ == output_messages(start.dirty@, start.slider_seen@, start.muted@, levels@,
                    start.last_sent@, status, output_ccs@, index as int),
                self.sliders == start.sliders,
                self.slider_seen == start.slider_seen,
                self.multipliers == start.multipliers,
                self.muted == start.muted,
                self.mute_held == start.mute_held,
                self.mute_latched == start.mute_latched,
                forall|j: int| index <= j < 8 ==> self.last_sent@[j] == start.last_sent@[j] && self.dirty@[j] == start.dirty@[j],
                forall|j: int| 0 <= j < index ==> self.last_sent@[j] == (if start.dirty@[j] && start.slider_seen@[j] {
                    if start.muted@[j] { 0u8 } else { levels@[j] }
                } else {
                    start.last_sent@[j]
                }) && self.dirty@[j] == (start.dirty@[j] && !start.slider_seen@[j]),
            decreases 8 - index,
        {
            if self.dirty[index] && self.slider_seen[index] {
                let value = if self.muted[index] { 0 } else { levels[index] };
                if self.last_sent[index] != value {
                    messages.push(MidiMessage::Three(status, output_ccs[index], value));
                    self.last_sent[index] = value;
                }
                self.dirty[index] = false;
            }
            index = index + 1;
        }
        assert(self.last_sent@ =~= Seq::new(8, |i: int| if start.dirty@[i] && start.slider_seen@[i] {
            if start.muted@[i] { 0u8 } else { levels@[i] }
        } else {
            start.last_sent@[i]
        }));
        assert(self.dirty@ =~= Seq::new(8, |i: int| start.dirty@[i] && !start.slider_seen@[i]));
        messages
    }
}

} // verus!
