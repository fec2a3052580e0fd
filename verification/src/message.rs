//! A single note message: the status/channel byte split, the note, the
//! velocity and the time at which it is to be played.
use std::cmp::Ordering;
use std::time::SystemTime;
use vstd::prelude::*;

verus! {

/// The wall-clock instant type of std, carried through a message untouched.
#[verifier::external_type_specification]
#[verifier::external_body]
pub struct ExSystemTime(SystemTime);

/// Reads the system clock with `std::time::SystemTime::now`.
/// Nothing is claimed of the instant returned: it depends on the clock.
#[verifier::external_body]
pub fn system_time_now() -> SystemTime {
    SystemTime::now()
}

/// The kind of a note message, taken from the high nibble of its status byte.
#[derive(Clone, Copy, Debug, PartialEq, Eq, Structural)]
pub enum Status {
    NoteOn,
    NoteOff,
    Unknown,
}

/// The status that a status/channel byte names: `0x9_` is a note-on,
/// `0x8_` a note-off, anything else is unknown.
pub open spec fn status_of(status_channel: u8) -> Status {
    if status_channel & 0xF0 == 144 {
        Status::NoteOn
    } else if status_channel & 0xF0 == 128 {
        Status::NoteOff
    } else {
        Status::Unknown
    }
}

/// The numeric code of a status.
pub open spec fn status_code(s: Status) -> u8 {
    match s {
        Status::NoteOn => 144,
        Status::NoteOff => 128,
        Status::Unknown => 0,
    }
}

impl Status {
    /// Decodes the high nibble of a status/channel byte.
    pub fn from_status_byte(status_channel: u8) -> (r: Status)
        ensures
            r == status_of(status_channel),
    {
        let high: u8 = status_channel & 0b11110000;
        if high == 144 {
            Status::NoteOn
        } else if high == 128 {
            Status::NoteOff
        } else {
            Status::Unknown
        }
    }

    /// The numeric code of this status (144 for note-on, 128 for note-off, 0 otherwise).
    pub fn code(&self) -> (r: u8)
        ensures
            r == status_code(*self),
    {
        match self {
            Status::NoteOn => 144,
            Status::NoteOff => 128,
            Status::Unknown => 0,
        }
    }

    /// The name under which the status is shown.
    pub fn label(&self) -> (r: &'static str)
        ensures
            *self == Status::NoteOn ==> r@ == "NoteOn"@,
            *self == Status::NoteOff ==> r@ == "NoteOff"@,
            *self == Status::Unknown ==> r@ == "Unknown"@,
    {
        match self {
            Status::NoteOn => "NoteOn",
            Status::NoteOff => "NoteOff",
            Status::Unknown => "Unknown",
        }
    }
}

/// A note message. `play_at_ms` is the time, in milliseconds from the start
/// of the song, at which the message is due; `pressed_at` is the wall-clock
/// instant at which the message was received or made.
#[derive(Clone, Copy)]
pub struct Message {
    pub shrug: u8,
    pub status: Status,
    pub channel: u8,
    pub note: u8,
    pub velocity: u8,
    pub pressed_at: SystemTime,
    pub play_at_ms: u64,
    pub raw: [u8; 256],
}

/// Everything of a message but the wall-clock instant.
pub struct MessageView {
    pub shrug: u8,
    pub status: Status,
    pub channel: u8,
    pub note: u8,
    pub velocity: u8,
    pub play_at_ms: u64,
    pub raw: Seq<u8>,
}

impl View for Message {
    type V = MessageView;

    open spec fn view(&self) -> MessageView {
        MessageView {
            shrug: self.shrug,
            status: self.status,
            channel: self.channel,
            note: self.note,
            velocity: self.velocity,
            play_at_ms: self.play_at_ms,
            raw: self.raw@,
        }
    }
}

/// The message that a status/channel byte, a note number and a velocity
/// make, due at `play_at_ms`.
pub open spec fn midi_message(status_channel: u8, note: u8, velocity: u8, play_at_ms: u64) -> MessageView {
    MessageView {
        shrug: 0,
        status: status_of(status_channel),
        channel: status_channel & 0x0F,
        note,
        velocity,
        play_at_ms,
        raw: Seq::new(256, |k: int| 0u8),
    }
}

/// The message that a raw device packet holds: byte 0 is kept as `shrug`,
/// byte 1 is the status/channel byte, bytes 2 and 3 the note and velocity.
pub open spec fn packet_message(data: Seq<u8>) -> MessageView {
    MessageView {
        shrug: data[0],
        status: status_of(data[1]),
        channel: data[1] & 0x0F,
        note: data[2],
        velocity: data[3],
        play_at_ms: 0,
        raw: data,
    }
}

impl Message {
    /// Builds a message from a raw device packet received at `pressed_at`.
    pub fn new(data: [u8; 256], pressed_at: SystemTime) -> (r: Message)
        ensures
            r@ == packet_message(data@),
            r.pressed_at == pressed_at,
    {
        let status = Status::from_status_byte(data[1]);
        Message {
            shrug: data[0],
            status,
            channel: data[1] & 0b00001111,
            note: data[2],
            velocity: data[3],
            pressed_at,
            play_at_ms: 0,
            raw: data,
        }
    }

    /// Builds a message from the fields of a file event, due at `play_at_ms`,
    /// made at the instant `pressed_at`.
    pub fn from_midi_at(status_channel: u8, note_number: u8, velocity: u8, play_at_ms: u64, pressed_at: SystemTime) -> (r: Message)
        ensures
            r@ == midi_message(status_channel, note_number, velocity, play_at_ms),
            r.pressed_at == pressed_at,
    {
        let status = Status::from_status_byte(status_channel);
        let raw: [u8; 256] = [0u8; 256];
        let r = Message {
            shrug: 0,
            status,
            channel: status_channel & 0b00001111,
            note: note_number,
            velocity,
            pressed_at,
            play_at_ms,
            raw,
        };
        assert(r@.raw =~= Seq::new(256, |k: int| 0u8));
        r
    }

    /// Builds a message from the fields of a file event, due at `play_at_ms`.
    /// The wall-clock instant is read from the system clock; nothing is
    /// claimed of that reading.
    pub fn from_midi(status_channel: u8, note_number: u8, velocity: u8, play_at_ms: u64) -> (r: Message)
        ensures
            r@ == midi_message(status_channel, note_number, velocity, play_at_ms),
    {
        Message::from_midi_at(status_channel, note_number, velocity, play_at_ms, system_time_now())
    }
}

/// How two messages compare by the time at which they are due.
pub open spec fn play_order(a: MessageView, b: MessageView) -> Ordering {
    if a.play_at_ms < b.play_at_ms {
        Ordering::Less
    } else if a.play_at_ms == b.play_at_ms {
        Ordering::Equal
    } else {
        Ordering::Greater
    }
}

impl Message {
    /// Compares two messages by the time at which they are due.
    pub fn cmp(&self, other: &Self) -> (r: Ordering)
        ensures
            r == play_order(self@, other@),
    {
        if self.play_at_ms < other.play_at_ms {
            Ordering::Less
        } else if self.play_at_ms == other.play_at_ms {
            Ordering::Equal
        } else {
            Ordering::Greater
        }
    }
}

/// Comparing by play time is antisymmetric: `a` comes before `b` exactly
/// when `b` comes after `a`, and they tie both ways or not at all.
pub proof fn law_play_order_antisymmetric(a: MessageView, b: MessageView)
    ensures
        (play_order(a, b) == Ordering::Less) <==> (play_order(b, a) == Ordering::Greater),
        (play_order(a, b) == Ordering::Equal) <==> (play_order(b, a) == Ordering::Equal),
{
}

/// Comparing by play time is the numeric order of the play times, over
/// their whole range.
pub proof fn law_play_order_numeric(a: MessageView, b: MessageView)
    ensures
        (play_order(a, b) == Ordering::Less) <==> (a.play_at_ms < b.play_at_ms),
        (play_order(a, b) == Ordering::Equal) <==> (a.play_at_ms == b.play_at_ms),
        (play_order(a, b) == Ordering::Greater) <==> (a.play_at_ms > b.play_at_ms),
{
}

/// The kind of a status byte by its range: 0x90 to 0x9F is a note-on, 0x80
/// to 0x8F a note-off, and the channel is the byte modulo 16.
pub proof fn law_status_byte_ranges(status_channel: u8, note: u8, velocity: u8, play_at_ms: u64)
    ensures
        (status_of(status_channel) == Status::NoteOn) <==> (0x90 <= status_channel < 0xA0),
        (status_of(status_channel) == Status::NoteOff) <==> (0x80 <= status_channel < 0x90),
        midi_message(status_channel, note, velocity, play_at_ms).channel == status_channel % 16,
        midi_message(status_channel, note, velocity, play_at_ms).note == note,
        midi_message(status_channel, note, velocity, play_at_ms).velocity == velocity,
        midi_message(status_channel, note, velocity, play_at_ms).play_at_ms == play_at_ms,
{
    let b = status_channel;
    assert((b & 0xF0 == 144) == (0x90 <= b && b < 0xA0) && (b & 0xF0 == 128) == (0x80 <= b && b < 0x90)
        && b & 0x0F == b % 16) by (bit_vector);
}

/// Comparing by play time is transitive.
pub proof fn law_play_order_transitive(a: MessageView, b: MessageView, c: MessageView)
    ensures
        play_order(a, b) != Ordering::Greater && play_order(b, c) != Ordering::Greater
            ==> play_order(a, c) != Ordering::Greater,
        play_order(a, b) == Ordering::Less && play_order(b, c) != Ordering::Greater
            ==> play_order(a, c) == Ordering::Less,
{
}

/// A note-on or note-off message keeps the whole status byte: its status code
/// and its channel add back up to the byte it was made from.
pub proof fn law_status_channel_split(status_channel: u8, note: u8, velocity: u8, play_at_ms: u64)
    requires
        status_of(status_channel) != Status::Unknown,
    ensures
        status_code(midi_message(status_channel, note, velocity, play_at_ms).status)
            + midi_message(status_channel, note, velocity, play_at_ms).channel == status_channel,
{
    assert(status_channel & 0xF0 == 144 || status_channel & 0xF0 == 128 ==>
        (status_channel & 0xF0) + (status_channel & 0x0F) == status_channel) by (bit_vector);
}

} // verus!
