//! The 32-bit payload of a Honeywell 5816 door/window sensor broadcast, and
//! the device events that the radio loop derives from it.

use vstd::prelude::*;

verus! {

/// Whether bit `k` (0 = least significant) of `value` is set.
pub open spec fn bit_of(value: int, k: nat) -> bool {
    (value / vstd::arithmetic::power2::pow2(k) as int) % 2 == 1
}

/// A decoded sensor payload: `cccc iiii iiii iiii iiii iiii eeee eeee`,
/// channel, 20-bit device id and an event byte of status flags.
#[derive(Clone, Copy, Debug, Hash, PartialEq, Eq, Structural)]
pub struct Message {
    pub channel: u8,
    pub device_id: u32,
    pub event: u8,
    pub contact: bool,
    pub tamper: bool,
    pub reed_open: bool,
    pub alarm: bool,
    pub low_battery: bool,
    pub heartbeat: bool,
}

/// The message that a payload denotes.
pub open spec fn payload_message(body: u32) -> Message {
    let event = (body as int % 256) as u8;
    Message {
        channel: (body as int / 0x1000_0000) as u8,
        device_id: ((body as int / 256) % 0x10_0000) as u32,
        event,
        contact: bit_of(event as int, 7),
        tamper: bit_of(event as int, 6),
        reed_open: bit_of(event as int, 5),
        alarm: bit_of(event as int, 4),
        low_battery: bit_of(event as int, 3),
        heartbeat: bit_of(event as int, 2),
    }
}

proof fn lemma_pow2_values()
    ensures
        vstd::arithmetic::power2::pow2(2) == 4,
        vstd::arithmetic::power2::pow2(3) == 8,
        vstd::arithmetic::power2::pow2(4) == 16,
        vstd::arithmetic::power2::pow2(5) == 32,
        vstd::arithmetic::power2::pow2(6) == 64,
        vstd::arithmetic::power2::pow2(7) == 128,
{
    vstd::arithmetic::power2::lemma2_to64();
}

impl Message {
    /// Splits a payload into its fields and flags.
    pub fn parse(body: u32) -> (m: Message)
        ensures
            m == payload_message(body),
    {
        let channel = ((body >> 28u32) & 0xf) as u8;
        let id = (body >> 8u32) & 0xfffff;
        let event = (body & 0xff) as u8;

        let contact = (event & 0x80) != 0;
        let tamper = (event & 0x40) != 0;
        let reed = (event & 0x20) != 0;
        let alarm = (event & 0x10) != 0;
        let battery = (event & 0x08) != 0;
        let heartbeat = (event & 0x04) != 0;

        proof {
            lemma_pow2_values();
            assert(((body >> 28u32) & 0xf) == body / 0x1000_0000) by (bit_vector);
            assert(((body >> 8u32) & 0xfffff) == (body / 256) % 0x10_0000) by (bit_vector);
            assert((body & 0xff) == body % 256) by (bit_vector);
            assert(((event & 0x80) != 0) == ((event / 128) % 2 == 1)) by (bit_vector);
            assert(((event & 0x40) != 0) == ((event / 64) % 2 == 1)) by (bit_vector);
            assert(((event & 0x20) != 0) == ((event / 32) % 2 == 1)) by (bit_vector);
            assert(((event & 0x10) != 0) == ((event / 16) % 2 == 1)) by (bit_vector);
            assert(((event & 0x08) != 0) == ((event / 8) % 2 == 1)) by (bit_vector);
            assert(((event & 0x04) != 0) == ((event / 4) % 2 == 1)) by (bit_vector);
        }

        Message {
            channel,
            device_id: id,
            event,
            contact,
            tamper,
            reed_open: reed,
            alarm,
            low_battery: battery,
            heartbeat,
        }
    }
}

/// Each field of a decoded message is the payload's own bits: the channel is
/// the top four bits, the device id the 20 bits below them, the event the
/// low byte, and each flag one bit of it (contact 0x80, tamper 0x40, reed
/// 0x20, alarm 0x10, low battery 0x08, heartbeat 0x04).
pub proof fn lemma_message_fields_are_payload_bits(body: u32)
    ensures
        payload_message(body).channel == body >> 28u32,
        payload_message(body).device_id == (body >> 8u32) & 0xfffff,
        payload_message(body).event == body & 0xff,
        payload_message(body).contact == ((body & 0x80) != 0),
        payload_message(body).tamper == ((body & 0x40) != 0),
        payload_message(body).reed_open == ((body & 0x20) != 0),
        payload_message(body).alarm == ((body & 0x10) != 0),
        payload_message(body).low_battery == ((body & 0x08) != 0),
        payload_message(body).heartbeat == ((body & 0x04) != 0),
{
    lemma_pow2_values();
    assert((body >> 28u32) == body / 0x1000_0000) by (bit_vector);
    assert(((body >> 8u32) & 0xfffff) == (body / 256) % 0x10_0000) by (bit_vector);
    assert((body & 0xff) == body % 256) by (bit_vector);
    assert(((body & 0x80) != 0) == (((body % 256) / 128) % 2 == 1)) by (bit_vector);
    assert(((body & 0x40) != 0) == (((body % 256) / 64) % 2 == 1)) by (bit_vector);
    assert(((body & 0x20) != 0) == (((body % 256) / 32) % 2 == 1)) by (bit_vector);
    assert(((body & 0x10) != 0) == (((body % 256) / 16) % 2 == 1)) by (bit_vector);
    assert(((body & 0x08) != 0) == (((body % 256) / 8) % 2 == 1)) by (bit_vector);
    assert(((body & 0x04) != 0) == (((body % 256) / 4) % 2 == 1)) by (bit_vector);
}

/// What is published of a decoded broadcast is read straight off the
/// payload's bits: the door or window is open exactly when the reed bit 0x20
/// is set, motion is the alarm bit 0x10, a low battery the bit 0x08, and the
/// device is the 20-bit id in bits 8 to 27.
pub proof fn lemma_published_state_is_payload_bits(body: u32)
    ensures
        message_event(payload_message(body)).device_id == (body >> 8u32) & 0xfffff,
        message_event(payload_message(body)).state.open == ((body & 0x20) != 0),
        message_event(payload_message(body)).state.motion == ((body & 0x10) != 0),
        message_event(payload_message(body)).state.low_battery == ((body & 0x08) != 0),
{
    lemma_message_fields_are_payload_bits(body);
}

/// Decoding loses nothing: the channel, device id and event byte put back
/// together give the payload again.
pub proof fn lemma_payload_fields_rebuild_body(body: u32)
    ensures
        ({
            let m = payload_message(body);
            m.channel as int * 0x1000_0000 + m.device_id as int * 256 + m.event as int == body
        }),
{
}

/// Two payloads decode to the same message only if they are the same payload.
pub proof fn lemma_payload_message_injective(a: u32, b: u32)
    requires
        payload_message(a) == payload_message(b),
    ensures
        a == b,
{
    lemma_payload_fields_rebuild_body(a);
    lemma_payload_fields_rebuild_body(b);
}


/// What a sensor reports, as published to the message broker.
#[derive(Clone, Copy, Debug, Hash, PartialEq, Eq, Structural)]
pub struct DeviceState {
    pub open: bool,
    pub motion: bool,
    pub low_battery: bool,
}

/// A sensor's state, tagged with the sensor's device id.
#[derive(Clone, Copy, Debug, Hash, PartialEq, Eq, Structural)]
pub struct DeviceEvent {
    pub device_id: u32,
    pub state: DeviceState,
}

/// The event that a decoded message announces: the reed switch tells whether
/// the door or window is open, the alarm flag reports motion.
pub open spec fn message_event(m: Message) -> DeviceEvent {
    DeviceEvent {
        device_id: m.device_id,
        state: DeviceState { open: m.reed_open, motion: m.alarm, low_battery: m.low_battery },
    }
}

impl DeviceEvent {
    /// The event that `message` announces.
    pub fn from_message(message: &Message) -> (e: DeviceEvent)
        ensures
            e == message_event(*message),
    {
        DeviceEvent {
            device_id: message.device_id,
            state: DeviceState {
                open: message.reed_open,
                motion: message.alarm,
                low_battery: message.low_battery,
            },
        }
    }
}

/// How many undecodable broadcasts are kept on disk before the oldest file
/// name is used again.
pub const CAPTURE_SLOTS: u32 = 100;

/// What the radio loop does with one scanned broadcast.
#[derive(Clone, Copy, Debug, PartialEq, Eq, Structural)]
pub enum RadioAction {
    /// The broadcast decoded: log the message and publish its event.
    Publish { message: Message, event: DeviceEvent },
    /// The broadcast did not decode: save its samples under capture number `slot`.
    SaveCapture { slot: u32 },
}

/// The state that the radio loop keeps between broadcasts: the number of the
/// next capture file.
pub struct RadioLoop {
    next_capture: u32,
}

impl RadioLoop {
    pub closed spec fn spec_next_capture(&self) -> u32 {
        self.next_capture
    }

    /// The capture number always names one of the capture slots.
    pub closed spec fn wf(&self) -> bool {
        self.next_capture < CAPTURE_SLOTS
    }

    /// The loop before any broadcast: captures start at number 0.
    pub fn new() -> (r: RadioLoop)
        ensures
            r.wf(),
            r.spec_next_capture() == 0,
    {
        RadioLoop { next_capture: 0 }
    }

    /// Decides what to do with the payload that the frame decoder returned
    /// for one broadcast (`None` when the broadcast did not decode).
    pub fn on_broadcast(&mut self, payload: Option<u32>) -> (action: RadioAction)
        requires
            old(self).wf(),
        ensures
            final(self).wf(),
            match payload {
                Some(body) => {
                    &&& action == (RadioAction::Publish {
                        message: payload_message(body),
                        event: message_event(payload_message(body)),
                    })
                    &&& final(self).spec_next_capture() == old(self).spec_next_capture()
                },
                None => {
                    &&& action == (RadioAction::SaveCapture { slot: old(self).spec_next_capture() })
                    &&& final(self).spec_next_capture() == (old(self).spec_next_capture() + 1)
                        % (CAPTURE_SLOTS as int)
                },
            },
    {
        match payload {
            Some(body) => {
                let message = Message::parse(body);
                let event = DeviceEvent::from_message(&message);
                RadioAction::Publish { message, event }
            },
            None => {
                let slot = self.next_capture;
                self.next_capture = (self.next_capture + 1) % CAPTURE_SLOTS;
                RadioAction::SaveCapture { slot }
            },
        }
    }
}

/// The capture number after `misses` undecodable broadcasts in a row,
/// starting from capture number `start`.
pub open spec fn capture_after(start: int, misses: nat) -> int {
    (start + misses) % (CAPTURE_SLOTS as int)
}

/// Capture numbers cycle through the slots: one more miss after `k` misses
/// moves `capture_after` on by one, as `on_broadcast` does, every number is a
/// slot, and after `CAPTURE_SLOTS` misses the loop is back where it started.
pub proof fn lemma_capture_numbers_cycle(start: int, k: nat)
    requires
        0 <= start < CAPTURE_SLOTS,
    ensures
        0 <= capture_after(start, k) < CAPTURE_SLOTS,
        (capture_after(start, k) + 1) % (CAPTURE_SLOTS as int) == capture_after(start, k + 1),
        capture_after(start, CAPTURE_SLOTS as nat) == start,
{
    vstd::arithmetic::div_mod::lemma_add_mod_noop(start + k, 1, CAPTURE_SLOTS as int);
}

/// The decimal digits of `n`, most significant first, without leading zeros.
pub open spec fn decimal_text(n: nat) -> Seq<char>
    decreases n,
{
    if n < 10 {
        seq![crate::bench::hex_digit(n as int)]
    } else {
        decimal_text(n / 10).push(crate::bench::hex_digit((n % 10) as int))
    }
}

/// Appends the decimal digits of `n` to `text`.
fn append_decimal(text: &mut String, n: u32)
    ensures
        final(text)@ == old(text)@ + decimal_text(n as nat),
    decreases n,
{
    if n >= 10 {
        append_decimal(text, n / 10);
    }
    let digit = (n % 10) as u8;
    text.append(crate::bench::hex_digit_str(digit));
}

/// The broker topic under which a sensor's state is published:
/// `mfro/honeywell5816/` followed by the device id in decimal.
pub fn mqtt_topic(device_id: u32) -> (topic: String)
    ensures
        topic@ == "mfro/honeywell5816/"@ + decimal_text(device_id as nat),
{
    let mut topic = String::from_str("mfro/honeywell5816/");
    append_decimal(&mut topic, device_id);
    topic
}

} // verus!
