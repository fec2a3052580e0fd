//! Reading a Standard MIDI File: the header, each track's events, and the
//! note messages of all tracks in the order in which they are due.
//!
//! The reader walks each track event by event. A byte of 0x80 or more after
//! an event's delta time is always a new status byte; a note event leaves
//! its status in force, so that a later event whose first byte is below 0x80
//! reuses it (running status). The tempo carries over from track to track,
//! and a track stops at its end-of-track meta event or at the first event
//! kind the reader does not know.
use crate::bytes::{as_u16_be, as_u24_be, as_u32_be, be16, be24, be32, read_vlq, read_vlq_usize, vlq_u64, vlq_u64_from, vlq_usize, vlq_usize_from, ParseError};
use crate::message::{midi_message, status_of, Message, MessageView, Status};
use crate::order::{insert_message_by_time, law_sort_by_time, sort_by_time, sorted_by_time};
use vstd::prelude::*;

verus! {

/// The header chunk of a file: its length field, format, number of tracks
/// and time division (ticks per quarter note).
#[derive(Clone, Copy, Debug, PartialEq, Eq, Structural)]
pub struct MidiHeader {
    pub length: u32,
    pub format: u16,
    pub n_tracks: u16,
    pub division: u16,
}

/// A note event of a track: its delta time and the message it makes.
#[derive(Clone, Copy)]
pub struct MidiEvent {
    pub delta_time: u32,
    pub event: Message,
}

/// A track chunk: its length field and its note events, in file order.
pub struct MidiTrack {
    pub length: u32,
    pub events: Vec<MidiEvent>,
}

/// A read file: the header, the tracks, and the note messages of all tracks
/// sorted by the time at which they are due. The file name is left empty.
pub struct MidiFile {
    pub filename: String,
    pub header: MidiHeader,
    pub tracks: Vec<MidiTrack>,
    pub messages: Vec<Message>,
}

pub struct EventView {
    pub delta_time: u32,
    pub event: MessageView,
}

pub struct TrackView {
    pub length: u32,
    pub events: Seq<EventView>,
}

pub struct MidiFileView {
    pub filename: Seq<char>,
    pub header: MidiHeader,
    pub tracks: Seq<TrackView>,
    pub messages: Seq<MessageView>,
}

impl View for MidiEvent {
    type V = EventView;

    open spec fn view(&self) -> EventView {
        EventView { delta_time: self.delta_time, event: self.event@ }
    }
}

impl View for MidiTrack {
    type V = TrackView;

    open spec fn view(&self) -> TrackView {
        TrackView { length: self.length, events: self.events@.map_values(|e: MidiEvent| e@) }
    }
}

impl View for MidiFile {
    type V = MidiFileView;

    open spec fn view(&self) -> MidiFileView {
        MidiFileView {
            filename: self.filename@,
            header: self.header,
            tracks: self.tracks@.map_values(|t: MidiTrack| t@),
            messages: self.messages@.map_values(|m: Message| m@),
        }
    }
}

/// Where the reader stands inside a track: the next byte, whether a running
/// status is in force, the current status/channel byte, the current time in
/// milliseconds, and the tempo in microseconds per quarter note (which
/// carries over from one track to the next).
#[derive(Clone, Copy)]
pub struct Cursor {
    pub pos: usize,
    pub running_status: bool,
    pub code_channel: u8,
    pub current_time: u64,
    pub tempo: u64,
}

/// The reader's place as mathematics sees it.
pub struct ReadState {
    pub pos: int,
    pub running_status: bool,
    pub code_channel: u8,
    pub current_time: u64,
    pub tempo: u64,
}

impl View for Cursor {
    type V = ReadState;

    open spec fn view(&self) -> ReadState {
        ReadState {
            pos: self.pos as int,
            running_status: self.running_status,
            code_channel: self.code_channel,
            current_time: self.current_time,
            tempo: self.tempo,
        }
    }
}

/// What one event does to the reader: where it leaves the cursor, whether
/// the track ends there, and the note event it makes, if any.
pub struct Step {
    pub cursor: ReadState,
    pub stop: bool,
    pub event: Option<EventView>,
}

pub open spec fn moved(c: ReadState, pos: int) -> ReadState {
    ReadState { pos, ..c }
}

pub open spec fn go_on(c: ReadState, pos: int) -> Result<Step, ParseError> {
    Ok(Step { cursor: moved(c, pos), stop: false, event: None })
}

pub open spec fn halt(c: ReadState) -> Result<Step, ParseError> {
    Ok(Step { cursor: c, stop: true, event: None })
}

/// Skips one data byte after the status byte at `c.pos`.
pub open spec fn skip_one(data: Seq<u8>, c: ReadState) -> Result<Step, ParseError> {
    if c.pos + 1 >= data.len() {
        Err(ParseError::Truncated)
    } else {
        go_on(c, c.pos + 2)
    }
}

/// A meta event: `0xFF`, its type byte, then a body that depends on the type.
/// Text-like types (1 to 14, and 0xCF) carry a variable-length size; 0x58 is a
/// time signature (its denominator power must be below 8), 0x59 a key
/// signature (its sharps/flats byte must not be 0x80), 0x51 sets the tempo,
/// 0x2F ends the track, 0x21 (a device prefix) needs four bytes present and moves past two. Any other type ends the track
/// where it stands.
pub open spec fn meta_step(data: Seq<u8>, c: ReadState) -> Result<Step, ParseError> {
    let p = c.pos;
    if p + 2 > usize::MAX {
        Err(ParseError::Overflow)
    } else if p + 2 > data.len() {
        Err(ParseError::Truncated)
    } else {
        let q = p + 2;
        let t = data[p + 1];
        if (1 <= t <= 0x0E) || t == 0xCF {
            match vlq_usize(data, q) {
                Err(e) => Err(e),
                Ok((k, length)) => if length + 1 > usize::MAX || k + length + 1 > usize::MAX {
                    Err(ParseError::Overflow)
                } else if k + length + 1 > data.len() {
                    Err(ParseError::Truncated)
                } else {
                    go_on(c, k + length + 1)
                },
            }
        } else if t == 0x58 {
            if q + 2 >= data.len() {
                Err(ParseError::Truncated)
            } else if data[q + 2] >= 8 {
                Err(ParseError::Overflow)
            } else if q + 4 >= data.len() {
                Err(ParseError::Truncated)
            } else {
                go_on(c, q + 5)
            }
        } else if t == 0x59 {
            if q + 1 >= data.len() {
                Err(ParseError::Truncated)
            } else if data[q + 1] == 0x80 {
                Err(ParseError::Overflow)
            } else if q + 2 >= data.len() {
                Err(ParseError::Truncated)
            } else {
                go_on(c, q + 3)
            }
        } else if t == 0x51 {
            if q >= data.len() {
                Err(ParseError::Truncated)
            } else if q + 4 > usize::MAX {
                Err(ParseError::Overflow)
            } else if q + 4 > data.len() {
                Err(ParseError::Truncated)
            } else {
                let tempo = be24(data[q + 1], data[q + 2], data[q + 3]) as u64;
                Ok(Step { cursor: ReadState { pos: q + 4, tempo, ..c }, stop: false, event: None })
            }
        } else if t == 0x2F {
            if q + 2 > usize::MAX {
                Err(ParseError::Overflow)
            } else {
                Ok(Step {
                    cursor: ReadState { pos: q + 2, running_status: false, ..c },
                    stop: true,
                    event: None,
                })
            }
        } else if t == 0x21 {
            if q + 1 > usize::MAX {
                Err(ParseError::Overflow)
            } else if q + 4 >= data.len() {
                Err(ParseError::Truncated)
            } else {
                go_on(c, q + 2)
            }
        } else {
            halt(moved(c, q))
        }
    }
}

/// The status/channel byte that a note event ends up with: a zero velocity
/// turns it into a note-off, any other velocity into a note-on, on the same
/// channel.
pub open spec fn note_status(code_channel: u8, velocity: u8) -> u8 {
    if velocity == 0 {
        (code_channel & 0x0F) | 0x80
    } else {
        (code_channel & 0x0F) | 0x90
    }
}

/// Whether the event at `p` carries its own status byte: every byte of
/// 0x80 or more is a status byte, and data bytes are all below 0x80.
pub open spec fn has_status_byte(data: Seq<u8>, p: int) -> bool {
    data[p] >= 0x80
}

/// A note-on or note-off event: the note number and velocity follow the
/// event's own status byte, or, when the event borrows the running status,
/// they are the two bytes from `c.pos` on.
pub open spec fn note_step(data: Seq<u8>, c: ReadState, delta: u64) -> Result<Step, ParseError> {
    let p = c.pos;
    let own = has_status_byte(data, p);
    let next = if own { p + 3 } else { p + 2 };
    if next > data.len() {
        Err(ParseError::Truncated)
    } else {
        let number = if own { data[p + 1] } else { data[p] };
        let velocity = if own { data[p + 2] } else { data[p + 1] };
        let cc = note_status(c.code_channel, velocity);
        Ok(Step {
            cursor: ReadState { pos: next, running_status: true, code_channel: cc, ..c },
            stop: false,
            event: Some(EventView {
                delta_time: delta as u32,
                event: midi_message(cc, number, velocity, c.current_time),
            }),
        })
    }
}

/// Any other channel event, by the high nibble of the status/channel byte
/// and the low nibble of the byte at `c.pos`: program and control changes
/// take two data bytes; the controller groups that are known take one; the
/// rest end the track where it stands.
pub open spec fn control_step(data: Seq<u8>, c: ReadState, kind: u8) -> Result<Step, ParseError> {
    let p = c.pos;
    let n = data[p] & 0x0F;
    if kind == 0xC0 || kind == 0xB0 {
        if p + 2 >= data.len() {
            Err(ParseError::Truncated)
        } else {
            go_on(c, p + 3)
        }
    } else if kind == 0x70 {
        if (1 <= n <= 7) || n == 9 { skip_one(data, c) } else { halt(c) }
    } else if kind == 0x60 {
        if n == 3 || 6 <= n {
            skip_one(data, c)
        } else if n == 4 {
            if p + 1 >= data.len() { Err(ParseError::Truncated) } else { go_on(c, p + 1) }
        } else {
            halt(c)
        }
    } else if kind == 0x50 {
        if n == 0 || n == 4 || n == 0x0B || n == 0x0D { skip_one(data, c) } else { halt(c) }
    } else if kind == 0x40 {
        skip_one(data, c)
    } else if kind == 0x30 || kind == 0x10 {
        if 4 <= n { skip_one(data, c) } else { halt(c) }
    } else if kind == 0x00 {
        if n == 0 || n == 1 || n == 7 || n == 0x0A { skip_one(data, c) } else { halt(c) }
    } else {
        halt(c)
    }
}

/// The time in milliseconds that `delta` ticks add, at `tempo` microseconds
/// per quarter note and `division` ticks per quarter note (the tempo is
/// divided by the division first, in whole microseconds per tick).
pub open spec fn advance_time(current: u64, delta: u64, tempo: u64, division: u16) -> Result<u64, ParseError> {
    if division == 0 {
        Err(ParseError::ZeroDivision)
    } else if delta * (tempo / (division as u64)) > u64::MAX {
        Err(ParseError::Overflow)
    } else if current + (delta * (tempo / (division as u64))) / 1000 > u64::MAX {
        Err(ParseError::Overflow)
    } else {
        Ok((current + (delta * (tempo / (division as u64))) / 1000) as u64)
    }
}

/// One event of a track, starting at `c.pos`: its delta time, the update of
/// the current time, the choice of status byte (the byte after the delta
/// time when it is a status byte, 0x80 or more, or when no running status is
/// in force; the running status otherwise), and the event.
pub open spec fn event_step(data: Seq<u8>, division: u16, c: ReadState) -> Result<Step, ParseError> {
    match vlq_u64(data, c.pos) {
        Err(e) => Err(e),
        Ok((k, delta)) => match advance_time(c.current_time, delta, c.tempo, division) {
            Err(e) => Err(e),
            Ok(ct) => {
                let p = k + 1;
                if p >= data.len() {
                    Err(ParseError::Truncated)
                } else {
                    let cc = if !c.running_status || has_status_byte(data, p) {
                        data[p]
                    } else {
                        c.code_channel
                    };
                    let c1 = ReadState { pos: p, code_channel: cc, current_time: ct, ..c };
                    let kind = cc & 0xF0;
                    if kind == 0xF0 {
                        meta_step(data, c1)
                    } else if kind == 0x90 || kind == 0x80 {
                        note_step(data, c1, delta)
                    } else {
                        control_step(data, c1, kind)
                    }
                }
            },
        },
    }
}

/// The events added to `events` by the note event a step makes, if any.
pub open spec fn with_event(events: Seq<EventView>, event: Option<EventView>) -> Seq<EventView> {
    match event {
        Some(e) => events.push(e),
        None => events,
    }
}

/// Reads the events of a track from `c` on, until the data runs out or an
/// event ends the track; the result is where the reader stopped and the
/// note events, appended to `events`.
pub open spec fn run_track(data: Seq<u8>, division: u16, c: ReadState, events: Seq<EventView>) -> Result<(ReadState, Seq<EventView>), ParseError>
    decreases data.len() - c.pos,
{
    if c.pos >= data.len() {
        Ok((c, events))
    } else {
        match event_step(data, division, c) {
            Err(e) => Err(e),
            Ok(st) => if st.stop {
                Ok((st.cursor, with_event(events, st.event)))
            } else {
                proof {
                    lemma_event_step_advances(data, division, c);
                }
                run_track(data, division, st.cursor, with_event(events, st.event))
            },
        }
    }
}

proof fn lemma_vlq_u64_from_forward(data: Seq<u8>, p: int, acc: u64)
    ensures
        vlq_u64_from(data, p, acc) matches Ok((k, v)) ==> p <= k < data.len(),
    decreases data.len() - p,
{
    if 0 <= p < data.len() && data[p] & 0x80 != 0 && p + 1 < data.len() {
        lemma_vlq_u64_from_forward(data, p + 1, (acc << 7) | ((data[p + 1] & 0x7F) as u64));
    }
}

proof fn lemma_vlq_usize_from_forward(data: Seq<u8>, p: int, acc: usize)
    ensures
        vlq_usize_from(data, p, acc) matches Ok((k, v)) ==> p <= k < data.len(),
    decreases data.len() - p,
{
    if 0 <= p < data.len() && data[p] & 0x80 != 0 && p + 1 < data.len() {
        lemma_vlq_usize_from_forward(data, p + 1, (acc << 7) | ((data[p + 1] & 0x7F) as usize));
    }
}

proof fn lemma_meta_step_forward(data: Seq<u8>, c: ReadState)
    ensures
        meta_step(data, c) matches Ok(st) ==> st.cursor.pos >= c.pos,
{
    let q = c.pos + 2;
    if 0 <= q < data.len() {
        lemma_vlq_usize_from_forward(data, q, (data[q] & 0x7F) as usize);
    }
}

proof fn lemma_control_step_forward(data: Seq<u8>, c: ReadState, kind: u8)
    ensures
        control_step(data, c, kind) matches Ok(st) ==> st.cursor.pos >= c.pos,
{
}

/// Every event moves the reader forward.
pub proof fn lemma_event_step_advances(data: Seq<u8>, division: u16, c: ReadState)
    requires
        c.pos < data.len(),
    ensures
        event_step(data, division, c) matches Ok(st) ==> st.cursor.pos > c.pos,
{
    lemma_vlq_u64_from_forward(data, c.pos, (data[c.pos] & 0x7F) as u64);
    if let Ok((k, delta)) = vlq_u64(data, c.pos) {
        if let Ok(ct) = advance_time(c.current_time, delta, c.tempo, division) {
            let p = k + 1;
            if p < data.len() {
                let cc = if !c.running_status || has_status_byte(data, p) {
                    data[p]
                } else {
                    c.code_channel
                };
                let c1 = ReadState { pos: p, code_channel: cc, current_time: ct, ..c };
                lemma_meta_step_forward(data, c1);
                lemma_control_step_forward(data, c1, cc & 0xF0);
            }
        }
    }
}

/// The first reader state of every track: at the first byte, no running
/// status, time zero, and the tempo left by the previous track.
pub open spec fn track_start(tempo: u64) -> ReadState {
    ReadState { pos: 0, running_status: false, code_channel: 0, current_time: 0, tempo }
}

/// Reads the track chunks from `j` on, appending them to `tracks`. Each chunk
/// is a four-byte tag (not checked), a four-byte big-endian length, and that
/// many bytes of events. The next chunk is looked for one byte before the
/// place where the reader of this one stopped.
pub open spec fn parse_tracks(buf: Seq<u8>, division: u16, j: int, tempo: u64, tracks: Seq<TrackView>) -> Result<Seq<TrackView>, ParseError>
    decreases if j < buf.len() { buf.len() - j } else { 0 },
{
    if j >= buf.len() {
        Ok(tracks)
    } else if j + 3 >= buf.len() {
        Err(ParseError::Truncated)
    } else if j + 8 > usize::MAX {
        Err(ParseError::Overflow)
    } else if j + 8 > buf.len() {
        Err(ParseError::Truncated)
    } else {
        let j8 = j + 8;
        let length = be32(buf[j + 4], buf[j + 5], buf[j + 6], buf[j + 7]) as u32;
        let jt = j8 as u32;
        if length + jt > u32::MAX {
            Err(ParseError::Overflow)
        } else if j8 > length + jt || length + jt > buf.len() {
            Err(ParseError::Truncated)
        } else {
            match run_track(buf.subrange(j8, length + jt), division, track_start(tempo), seq![]) {
                Err(e) => Err(e),
                Ok((c, events)) => if c.pos < 1 {
                    Err(ParseError::Overflow)
                } else if j8 + c.pos - 1 > usize::MAX {
                    Err(ParseError::Overflow)
                } else {
                    parse_tracks(
                        buf,
                        division,
                        j8 + c.pos - 1,
                        c.tempo,
                        tracks.push(TrackView { length, events }),
                    )
                },
            }
        }
    }
}

/// The messages of a sequence of note events.
pub open spec fn event_messages(events: Seq<EventView>) -> Seq<MessageView> {
    events.map_values(|e: EventView| e.event)
}

/// The messages of all tracks, track after track, each in file order.
pub open spec fn all_messages(tracks: Seq<TrackView>) -> Seq<MessageView>
    decreases tracks.len(),
{
    if tracks.len() == 0 {
        seq![]
    } else {
        all_messages(tracks.drop_last()) + event_messages(tracks.last().events)
    }
}

/// The header that the first fourteen bytes of a file hold.
pub open spec fn header_of(buf: Seq<u8>) -> MidiHeader {
    MidiHeader {
        length: be32(buf[4], buf[5], buf[6], buf[7]) as u32,
        format: be16(buf[8], buf[9]) as u16,
        n_tracks: be16(buf[10], buf[11]) as u16,
        division: be16(buf[12], buf[13]) as u16,
    }
}

/// The file that the bytes `buf` hold, or why they cannot be read.
pub open spec fn midi_file_of(buf: Seq<u8>) -> Result<MidiFileView, ParseError> {
    if buf.len() < 14 {
        Err(ParseError::Truncated)
    } else {
        match parse_tracks(buf, header_of(buf).division, 14, 0, seq![]) {
            Err(e) => Err(e),
            Ok(tracks) => Ok(
                MidiFileView {
                    filename: Seq::empty(),
                    header: header_of(buf),
                    tracks,
                    messages: sort_by_time(all_messages(tracks)),
                },
            ),
        }
    }
}

/// An exec step result says what a spec step result says.
pub open spec fn step_agrees(r: Result<(Cursor, bool, Option<MidiEvent>), ParseError>, s: Result<Step, ParseError>) -> bool {
    match r {
        Ok((c, stop, ev)) => match s {
            Ok(st) => st.cursor == c@ && st.stop == stop && st.event == (match ev {
                Some(e) => Some(e@),
                None => None::<EventView>,
            }),
            Err(_) => false,
        },
        Err(e) => s == Err::<Step, ParseError>(e),
    }
}

fn read_meta_event(data: &[u8], c: Cursor) -> (r: Result<(Cursor, bool, Option<MidiEvent>), ParseError>)
    requires
        c.pos < data@.len(),
    ensures
        step_agrees(r, meta_step(data@, c@)),
{
    let p = c.pos;
    let q = match p.checked_add(2) {
        Some(q) => q,
        None => return Err(ParseError::Overflow),
    };
    if q > data.len() {
        return Err(ParseError::Truncated);
    }
    let t = data[p + 1];
    if (1 <= t && t <= 0x0E) || t == 0xCF {
        let (k, length) = match read_vlq_usize(data, q) {
            Ok(x) => x,
            Err(e) => return Err(e),
        };
        let l1 = match length.checked_add(1) {
            Some(x) => x,
            None => return Err(ParseError::Overflow),
        };
        let ni = match k.checked_add(l1) {
            Some(x) => x,
            None => return Err(ParseError::Overflow),
        };
        if ni > data.len() {
            return Err(ParseError::Truncated);
        }
        Ok((Cursor { pos: ni, ..c }, false, None))
    } else if t == 0x58 {
        if data.len() - q <= 2 {
            Err(ParseError::Truncated)
        } else if data[q + 2] >= 8 {
            Err(ParseError::Overflow)
        } else if data.len() - q <= 4 {
            Err(ParseError::Truncated)
        } else {
            Ok((Cursor { pos: q + 5, ..c }, false, None))
        }
    } else if t == 0x59 {
        if data.len() - q <= 1 {
            Err(ParseError::Truncated)
        } else if data[q + 1] == 0x80 {
            Err(ParseError::Overflow)
        } else if data.len() - q <= 2 {
            Err(ParseError::Truncated)
        } else {
            Ok((Cursor { pos: q + 3, ..c }, false, None))
        }
    } else if t == 0x51 {
        if q >= data.len() {
            Err(ParseError::Truncated)
        } else if q > usize::MAX - 4 {
            Err(ParseError::Overflow)
        } else if q + 4 > data.len() {
            Err(ParseError::Truncated)
        } else {
            let tempo = as_u24_be(&[data[q + 1], data[q + 2], data[q + 3]]);
            Ok((Cursor { pos: q + 4, tempo, ..c }, false, None))
        }
    } else if t == 0x2F {
        if q > usize::MAX - 2 {
            Err(ParseError::Overflow)
        } else {
            Ok((Cursor { pos: q + 2, running_status: false, ..c }, true, None))
        }
    } else if t == 0x21 {
        if q > usize::MAX - 1 {
            Err(ParseError::Overflow)
        } else if data.len() - q <= 4 {
            Err(ParseError::Truncated)
        } else {
            Ok((Cursor { pos: q + 2, ..c }, false, None))
        }
    } else {
        Ok((Cursor { pos: q, ..c }, true, None))
    }
}

fn read_note_event(data: &[u8], c: Cursor, delta: u64) -> (r: Result<(Cursor, bool, Option<MidiEvent>), ParseError>)
    requires
        c.pos < data@.len(),
    ensures
        step_agrees(r, note_step(data@, c@, delta)),
{
    let p = c.pos;
    let own = data[p] >= 0x80;
    if (own && data.len() - p < 3) || (!own && data.len() - p < 2) {
        return Err(ParseError::Truncated);
    }
    let number = if own { data[p + 1] } else { data[p] };
    let velocity = if own { data[p + 2] } else { data[p + 1] };
    let cc = if velocity == 0 {
        (c.code_channel & 0b0000_1111) | 0x80
    } else {
        (c.code_channel & 0b0000_1111) | 0x90
    };
    let next = if own { p + 3 } else { p + 2 };
    let message = Message::from_midi(cc, number, velocity, c.current_time);
    Ok((
        Cursor { pos: next, running_status: true, code_channel: cc, ..c },
        false,
        Some(MidiEvent { delta_time: delta as u32, event: message }),
    ))
}

fn skip_data_byte(data: &[u8], c: Cursor) -> (r: Result<(Cursor, bool, Option<MidiEvent>), ParseError>)
    requires
        c.pos < data@.len(),
    ensures
        step_agrees(r, skip_one(data@, c@)),
{
    if data.len() - c.pos <= 1 {
        Err(ParseError::Truncated)
    } else {
        Ok((Cursor { pos: c.pos + 2, ..c }, false, None))
    }
}

fn read_control_event(data: &[u8], c: Cursor, kind: u8) -> (r: Result<(Cursor, bool, Option<MidiEvent>), ParseError>)
    requires
        c.pos < data@.len(),
    ensures
        step_agrees(r, control_step(data@, c@, kind)),
{
    let p = c.pos;
    let n = data[p] & 0b0000_1111;
    if kind == 0xC0 || kind == 0xB0 {
        if data.len() - p <= 2 {
            Err(ParseError::Truncated)
        } else {
            Ok((Cursor { pos: p + 3, ..c }, false, None))
        }
    } else if kind == 0x70 {
        if (1 <= n && n <= 7) || n == 9 { skip_data_byte(data, c) } else { Ok((c, true, None)) }
    } else if kind == 0x60 {
        if n == 3 || 6 <= n {
            skip_data_byte(data, c)
        } else if n == 4 {
            if data.len() - p <= 1 {
                Err(ParseError::Truncated)
            } else {
                Ok((Cursor { pos: p + 1, ..c }, false, None))
            }
        } else {
            Ok((c, true, None))
        }
    } else if kind == 0x50 {
        if n == 0 || n == 4 || n == 0x0B || n == 0x0D { skip_data_byte(data, c) } else { Ok((c, true, None)) }
    } else if kind == 0x40 {
        skip_data_byte(data, c)
    } else if kind == 0x30 || kind == 0x10 {
        if 4 <= n { skip_data_byte(data, c) } else { Ok((c, true, None)) }
    } else if kind == 0x00 {
        if n == 0 || n == 1 || n == 7 || n == 0x0A { skip_data_byte(data, c) } else { Ok((c, true, None)) }
    } else {
        Ok((c, true, None))
    }
}

fn read_event(data: &[u8], division: u16, c: Cursor) -> (r: Result<(Cursor, bool, Option<MidiEvent>), ParseError>)
    requires
        c.pos < data@.len(),
    ensures
        step_agrees(r, event_step(data@, division, c@)),
{
    let (k, delta) = match read_vlq(data, c.pos) {
        Ok(x) => x,
        Err(e) => return Err(e),
    };
    proof {
        lemma_vlq_u64_from_forward(data@, c.pos as int, (data@[c.pos as int] & 0x7F) as u64);
        assert(k < data@.len());
    }
    if division == 0 {
        return Err(ParseError::ZeroDivision);
    }
    let per: u64 = c.tempo / (division as u64);
    let prod = match delta.checked_mul(per) {
        Some(x) => x,
        None => return Err(ParseError::Overflow),
    };
    let ct = match c.current_time.checked_add(prod / 1000) {
        Some(x) => x,
        None => return Err(ParseError::Overflow),
    };
    let len = data.len();
    assert(k < len);
    let p = k + 1;
    if p >= data.len() {
        return Err(ParseError::Truncated);
    }
    let cc = if !c.running_status || data[p] >= 0x80 {
        data[p]
    } else {
        c.code_channel
    };
    let c1 = Cursor { pos: p, code_channel: cc, current_time: ct, ..c };
    let kind = cc & 0b1111_0000;
    if kind == 0xF0 {
        read_meta_event(data, c1)
    } else if kind == 0x90 || kind == 0x80 {
        read_note_event(data, c1, delta)
    } else {
        read_control_event(data, c1, kind)
    }
}

/// Reads the events of one track chunk's data.
fn read_track(data: &[u8], division: u16, tempo: u64) -> (r: Result<(Cursor, Vec<MidiEvent>), ParseError>)
    ensures
        match r {
            Ok((c, events)) => run_track(data@, division, track_start(tempo), seq![]) == Ok::<
                (ReadState, Seq<EventView>),
                ParseError,
            >((c@, events@.map_values(|e: MidiEvent| e@))),
            Err(e) => run_track(data@, division, track_start(tempo), seq![]) == Err::<
                (ReadState, Seq<EventView>),
                ParseError,
            >(e),
        },
{
    let mut c = Cursor { pos: 0, running_status: false, code_channel: 0, current_time: 0, tempo };
    let mut events: Vec<MidiEvent> = Vec::new();
    assert(events@.map_values(|e: MidiEvent| e@) =~= seq![]);
    while c.pos < data.len()
        invariant
            run_track(data@, division, track_start(tempo), seq![]) == run_track(
                data@,
                division,
                c@,
                events@.map_values(|e: MidiEvent| e@),
            ),
        decreases data@.len() - c.pos,
    {
        let ghost before = events@.map_values(|e: MidiEvent| e@);
        proof {
            lemma_event_step_advances(data@, division, c@);
        }
        match read_event(data, division, c) {
            Err(e) => return Err(e),
            Ok((c2, stop, ev)) => {
                match ev {
                    Some(e) => {
                        events.push(e);
                        assert(events@.map_values(|e: MidiEvent| e@) =~= before.push(e@));
                    },
                    None => {},
                }
                c = c2;
                if stop {
                    return Ok((c, events));
                }
            },
        }
    }
    Ok((c, events))
}

impl MidiFile {
    /// Reads a file from its bytes. The header is taken from bytes 4 to 13
    /// (the chunk tag and header length are not checked); the tracks follow
    /// from byte 14. Fails exactly where the bytes run out before a read,
    /// an arithmetic step overflows, or an event time is needed with a zero
    /// time division, as `midi_file_of` states.
    pub fn new(buffer: &[u8]) -> (r: Result<MidiFile, ParseError>)
        ensures
            match r {
                Ok(f) => midi_file_of(buffer@) == Ok::<MidiFileView, ParseError>(f@),
                Err(e) => midi_file_of(buffer@) == Err::<MidiFileView, ParseError>(e),
            },
    {
        if buffer.len() < 14 {
            return Err(ParseError::Truncated);
        }
        let header = MidiHeader {
            length: as_u32_be(&[buffer[4], buffer[5], buffer[6], buffer[7]]),
            format: as_u16_be(&[buffer[8], buffer[9]]),
            n_tracks: as_u16_be(&[buffer[10], buffer[11]]),
            division: as_u16_be(&[buffer[12], buffer[13]]),
        };
        assert(header == header_of(buffer@));
        let division = header.division;
        let mut tracks: Vec<MidiTrack> = Vec::new();
        let mut messages: Vec<Message> = Vec::new();
        let mut tempo: u64 = 0;
        let mut j: usize = 14;
        assert(tracks@.map_values(|t: MidiTrack| t@) =~= seq![]);
        assert(messages@.map_values(|m: Message| m@) =~= seq![]);
        while j < buffer.len()
            invariant
                division == header_of(buffer@).division,
                parse_tracks(buffer@, division, 14, 0, seq![]) == parse_tracks(
                    buffer@,
                    division,
                    j as int,
                    tempo,
                    tracks@.map_values(|t: MidiTrack| t@),
                ),
                messages@.map_values(|m: Message| m@) == sort_by_time(
                    all_messages(tracks@.map_values(|t: MidiTrack| t@)),
                ),
            decreases if j < buffer@.len() { buffer@.len() - j } else { 0 },
        {
            if buffer.len() - j <= 3 {
                return Err(ParseError::Truncated);
            }
            if j > usize::MAX - 8 {
                return Err(ParseError::Overflow);
            }
            let j8 = j + 8;
            if j8 > buffer.len() {
                return Err(ParseError::Truncated);
            }
            let length = as_u32_be(&[buffer[j + 4], buffer[j + 5], buffer[j + 6], buffer[j + 7]]);
            let jt = j8 as u32;
            let end32 = match length.checked_add(jt) {
                Some(x) => x,
                None => return Err(ParseError::Overflow),
            };
            let end = end32 as usize;
            if j8 > end || end > buffer.len() {
                return Err(ParseError::Truncated);
            }
            let data = &buffer[j8..end];
            let (c, events) = match read_track(data, division, tempo) {
                Ok(x) => x,
                Err(e) => return Err(e),
            };
            if c.pos < 1 {
                return Err(ParseError::Overflow);
            }
            if j8 > usize::MAX - (c.pos - 1) {
                return Err(ParseError::Overflow);
            }
            let ghost done = all_messages(tracks@.map_values(|t: MidiTrack| t@));
            let ghost evs = events@.map_values(|e: MidiEvent| e@);
            let mut k: usize = 0;
            assert(done + event_messages(evs.take(0)) =~= done);
            while k < events.len()
                invariant
                    k <= events@.len(),
                    evs == events@.map_values(|e: MidiEvent| e@),
                    messages@.map_values(|m: Message| m@) == sort_by_time(done + event_messages(evs.take(k as int))),
                decreases events@.len() - k,
            {
                let m = events[k].event;
                insert_message_by_time(&mut messages, m);
                proof {
                    let before = done + event_messages(evs.take(k as int));
                    let after = done + event_messages(evs.take(k + 1));
                    assert(after.drop_last() =~= before);
                    assert(after.last() == m@);
                }
                k = k + 1;
            }
            let ghost old_tracks = tracks@.map_values(|t: MidiTrack| t@);
            let track = MidiTrack { length, events };
            tracks.push(track);
            proof {
                let new_tracks = tracks@.map_values(|t: MidiTrack| t@);
                assert(new_tracks =~= old_tracks.push(TrackView { length, events: evs }));
                assert(new_tracks.drop_last() =~= old_tracks);
                assert(evs.take(evs.len() as int) =~= evs);
            }
            tempo = c.tempo;
            j = j8 + (c.pos - 1);
        }
        Ok(MidiFile { filename: String::new(), header, tracks, messages })
    }
}

/// A note event is a note-off exactly when its velocity is zero, and a
/// note-on otherwise.
pub open spec fn note_event_ok(e: EventView) -> bool {
    e.event.status == (if e.event.velocity == 0 { Status::NoteOff } else { Status::NoteOn })
}

/// The events are in order of play time, none later than `t`, and each is
/// a well-formed note event.
pub open spec fn events_in_time(events: Seq<EventView>, t: u64) -> bool {
    &&& forall|a: int, b: int|
        0 <= a <= b < events.len() ==> #[trigger] events[a].event.play_at_ms <= #[trigger] events[b].event.play_at_ms
    &&& forall|a: int| 0 <= a < events.len() ==> #[trigger] events[a].event.play_at_ms <= t
    &&& forall|a: int| 0 <= a < events.len() ==> note_event_ok(#[trigger] events[a])
}

proof fn lemma_note_status(code_channel: u8, velocity: u8)
    ensures
        status_of(note_status(code_channel, velocity)) == (if velocity == 0 { Status::NoteOff } else { Status::NoteOn }),
{
    let x = code_channel;
    assert(((x & 0x0F) | 0x80) & 0xF0 == 0x80 && ((x & 0x0F) | 0x90) & 0xF0 == 0x90) by (bit_vector);
}

proof fn lemma_event_step_facts(data: Seq<u8>, division: u16, c: ReadState)
    requires
        0 <= c.pos < data.len(),
    ensures
        event_step(data, division, c) matches Ok(st) ==> {
            &&& st.cursor.current_time >= c.current_time
            &&& st.event matches Some(e) ==> note_event_ok(e) && e.event.play_at_ms == st.cursor.current_time
        },
{
    lemma_vlq_u64_from_forward(data, c.pos, (data[c.pos] & 0x7F) as u64);
    if let Ok((k, delta)) = vlq_u64(data, c.pos) {
        if let Ok(ct) = advance_time(c.current_time, delta, c.tempo, division) {
            let p = k + 1;
            if 0 <= p < data.len() {
                let cc = if !c.running_status || has_status_byte(data, p) {
                    data[p]
                } else {
                    c.code_channel
                };
                let own = has_status_byte(data, p);
                if (own && p + 2 < data.len()) || (!own && p + 1 < data.len()) {
                    let velocity = if own { data[p + 2] } else { data[p + 1] };
                    lemma_note_status(cc, velocity);
                }

            }
        }
    }
}

proof fn lemma_run_track_facts(data: Seq<u8>, division: u16, c: ReadState, events: Seq<EventView>)
    requires
        0 <= c.pos,
        events_in_time(events, c.current_time),
    ensures
        run_track(data, division, c, events) matches Ok((c2, evs)) ==> events_in_time(evs, c2.current_time),
    decreases data.len() - c.pos,
{
    if c.pos < data.len() {
        lemma_event_step_facts(data, division, c);
        lemma_event_step_advances(data, division, c);
        if let Ok(st) = event_step(data, division, c) {
            let evs = with_event(events, st.event);
            assert(events_in_time(evs, st.cursor.current_time)) by {
                if let Some(e) = st.event {
                    assert forall|a: int| 0 <= a < evs.len() implies note_event_ok(#[trigger] evs[a]) by {
                        if a < events.len() {
                            assert(evs[a] == events[a]);
                        }
                    }
                    assert forall|a: int, b: int| 0 <= a <= b < evs.len() implies
                        #[trigger] evs[a].event.play_at_ms <= #[trigger] evs[b].event.play_at_ms by {
                        if b < events.len() {
                            assert(evs[a] == events[a] && evs[b] == events[b]);
                        } else if a < events.len() {
                            assert(evs[a] == events[a]);
                            assert(events[a].event.play_at_ms <= c.current_time);
                        }
                    }
                    assert forall|a: int| 0 <= a < evs.len() implies
                        #[trigger] evs[a].event.play_at_ms <= st.cursor.current_time by {
                        if a < events.len() {
                            assert(evs[a] == events[a]);
                            assert(events[a].event.play_at_ms <= c.current_time);
                        }
                    }
                }
            }
            if !st.stop {
                lemma_run_track_facts(data, division, st.cursor, evs);
            }
        }
    }
}

proof fn lemma_parse_tracks_facts(buf: Seq<u8>, division: u16, j: int, tempo: u64, tracks: Seq<TrackView>)
    requires
        forall|t: int| 0 <= t < tracks.len() ==> events_in_time(#[trigger] tracks[t].events, u64::MAX),
    ensures
        parse_tracks(buf, division, j, tempo, tracks) matches Ok(ts) ==> forall|t: int|
            0 <= t < ts.len() ==> events_in_time(#[trigger] ts[t].events, u64::MAX),
    decreases if j < buf.len() { buf.len() - j } else { 0 },
{
    if j < buf.len() && j + 3 < buf.len() && j + 8 <= usize::MAX && j + 8 <= buf.len() {
        let j8 = j + 8;
        let length = be32(buf[j + 4], buf[j + 5], buf[j + 6], buf[j + 7]) as u32;
        let jt = j8 as u32;
        if length + jt <= u32::MAX && !(j8 > length + jt || length + jt > buf.len()) {
            let data = buf.subrange(j8, length + jt);
            lemma_run_track_facts(data, division, track_start(tempo), seq![]);
            if let Ok((c, events)) = run_track(data, division, track_start(tempo), seq![]) {
                if c.pos >= 1 && j8 + c.pos - 1 <= usize::MAX {
                    let nt = tracks.push(TrackView { length, events });
                    assert forall|t: int| 0 <= t < nt.len() implies events_in_time(#[trigger] nt[t].events, u64::MAX) by {
                        if t < tracks.len() {
                            assert(nt[t] == tracks[t]);
                        }
                    }
                    lemma_parse_tracks_facts(buf, division, j8 + c.pos - 1, c.tempo, nt);
                }
            }
        }
    }
}

/// Every note event of every track of a read file is a note-off when its
/// velocity is zero and a note-on otherwise, and the events of each track
/// come in order of play time.
pub proof fn law_track_events(buf: Seq<u8>)
    ensures
        midi_file_of(buf) matches Ok(f) ==> forall|t: int| 0 <= t < f.tracks.len() ==> {
            let evs = #[trigger] f.tracks[t].events;
            &&& forall|a: int| 0 <= a < evs.len() ==> note_event_ok(#[trigger] evs[a])
            &&& forall|a: int, b: int| 0 <= a <= b < evs.len()
                ==> #[trigger] evs[a].event.play_at_ms <= #[trigger] evs[b].event.play_at_ms
        },
{
    if buf.len() >= 14 {
        lemma_parse_tracks_facts(buf, header_of(buf).division, 14, 0, seq![]);
    }
}

/// The messages of a read file are the messages of all its tracks' events,
/// each once, in order of play time.
pub proof fn law_file_messages(buf: Seq<u8>)
    ensures
        midi_file_of(buf) matches Ok(f) ==> {
            &&& sorted_by_time(f.messages)
            &&& f.messages.to_multiset() =~= all_messages(f.tracks).to_multiset()
        },
{
    if let Ok(f) = midi_file_of(buf) {
        law_sort_by_time(all_messages(f.tracks));
    }
}

/// A delta time of one byte (below 0x80) is that byte, and the event's first
/// byte follows it.
proof fn lemma_short_delta(data: Seq<u8>, p: int)
    requires
        0 <= p < data.len(),
        data[p] < 0x80,
    ensures
        vlq_u64(data, p) == Ok::<(int, u64), ParseError>((p, data[p] as u64)),
{
    let b = data[p];
    assert(b & 0x80 == 0 && b & 0x7F == b) by (bit_vector)
        requires
            b < 0x80,
    ;
}

/// A key-signature meta event `FF 59 02 sf mi` (with `sf` not 0x80) after a
/// one-byte delta time is consumed whole: the reader's next event starts
/// right after its fifth byte, the clock moves on by the delta time, the
/// tempo and the running status stay, and no note is made. Reading a track
/// from such an event is therefore reading it from the byte after it, so a
/// key signature placed before the notes of a track leaves the notes read as
/// they were.
pub proof fn law_key_signature_event(data: Seq<u8>, division: u16, c: ReadState, events: Seq<EventView>)
    requires
        0 <= c.pos,
        c.pos + 6 <= data.len() <= usize::MAX,
        data[c.pos] < 0x80,
        data[c.pos + 1] == 0xFF,
        data[c.pos + 2] == 0x59,
        data[c.pos + 3] == 0x02,
        data[c.pos + 4] != 0x80,
    ensures
        advance_time(c.current_time, data[c.pos] as u64, c.tempo, division) matches Err(e) ==> {
            &&& event_step(data, division, c) == Err::<Step, ParseError>(e)
            &&& run_track(data, division, c, events) == Err::<(ReadState, Seq<EventView>), ParseError>(e)
        },
        advance_time(c.current_time, data[c.pos] as u64, c.tempo, division) matches Ok(ct) ==> {
            let next = (ReadState { pos: c.pos + 6, code_channel: 0xFF, current_time: ct, ..c });
            &&& event_step(data, division, c) == Ok::<Step, ParseError>(
                (Step { cursor: next, stop: false, event: None }),
            )
            &&& run_track(data, division, c, events) == run_track(data, division, next, events)
        },
{
    lemma_short_delta(data, c.pos);
    if let Ok(ct) = advance_time(c.current_time, data[c.pos] as u64, c.tempo, division) {
        let c1 = ReadState { pos: c.pos + 1, code_channel: 0xFF, current_time: ct, ..c };
        assert(has_status_byte(data, c.pos + 1));
        assert(0xFFu8 & 0xF0 == 0xF0) by (bit_vector);
        assert(meta_step(data, c1) == go_on(c1, c.pos + 6));
        assert(event_step(data, division, c) == meta_step(data, c1));
    }
}

/// A length of one byte (below 0x80) is that byte.
proof fn lemma_short_length(data: Seq<u8>, p: int)
    requires
        0 <= p < data.len(),
        data[p] < 0x80,
    ensures
        vlq_usize(data, p) == Ok::<(int, usize), ParseError>((p, data[p] as usize)),
{
    let b = data[p];
    assert(b & 0x80 == 0 && b & 0x7F == b) by (bit_vector)
        requires
            b < 0x80,
    ;
}

/// A tempo meta event `FF 51 03 t1 t2 t3` after a one-byte delta time sets
/// the tempo to the big-endian number `t1 t2 t3` (microseconds per quarter
/// note) and the reader's next event starts right after its sixth byte.
pub proof fn law_tempo_event(data: Seq<u8>, division: u16, c: ReadState)
    requires
        0 <= c.pos,
        c.pos + 7 <= data.len() <= usize::MAX,
        data[c.pos] < 0x80,
        data[c.pos + 1] == 0xFF,
        data[c.pos + 2] == 0x51,
    ensures
        advance_time(c.current_time, data[c.pos] as u64, c.tempo, division) matches Err(e)
            ==> event_step(data, division, c) == Err::<Step, ParseError>(e),
        advance_time(c.current_time, data[c.pos] as u64, c.tempo, division) matches Ok(ct)
            ==> event_step(data, division, c) == Ok::<Step, ParseError>(
            (Step {
                cursor: ReadState {
                    pos: c.pos + 7,
                    code_channel: 0xFF,
                    current_time: ct,
                    tempo: (data[c.pos + 4] * 65536 + data[c.pos + 5] * 256 + data[c.pos + 6]) as u64,
                    ..c
                },
                stop: false,
                event: None,
            }),
        ),
{
    lemma_short_delta(data, c.pos);
    assert(0xFFu8 & 0xF0 == 0xF0) by (bit_vector);
}

/// A time-signature meta event `FF 58 04 nn dd cc bb` (with `dd` below 8)
/// after a one-byte delta time is consumed whole: the reader's next event
/// starts right after its seventh byte.
pub proof fn law_time_signature_event(data: Seq<u8>, division: u16, c: ReadState)
    requires
        0 <= c.pos,
        c.pos + 8 <= data.len() <= usize::MAX,
        data[c.pos] < 0x80,
        data[c.pos + 1] == 0xFF,
        data[c.pos + 2] == 0x58,
        data[c.pos + 5] < 8,
    ensures
        advance_time(c.current_time, data[c.pos] as u64, c.tempo, division) matches Err(e)
            ==> event_step(data, division, c) == Err::<Step, ParseError>(e),
        advance_time(c.current_time, data[c.pos] as u64, c.tempo, division) matches Ok(ct)
            ==> event_step(data, division, c) == Ok::<Step, ParseError>(
            (Step {
                cursor: ReadState { pos: c.pos + 8, code_channel: 0xFF, current_time: ct, ..c },
                stop: false,
                event: None,
            }),
        ),
{
    lemma_short_delta(data, c.pos);
    assert(0xFFu8 & 0xF0 == 0xF0) by (bit_vector);
}

/// A text-like meta event `FF t L` followed by `L` bytes (`t` from 1 to 14,
/// or 0xCF, and `L` below 0x80) after a one-byte delta time is consumed
/// whole: the reader's next event starts right after its last text byte.
pub proof fn law_text_event(data: Seq<u8>, division: u16, c: ReadState)
    requires
        0 <= c.pos,
        c.pos + 4 <= data.len() <= usize::MAX,
        data[c.pos] < 0x80,
        data[c.pos + 1] == 0xFF,
        (1 <= data[c.pos + 2] <= 14) || data[c.pos + 2] == 0xCF,
        data[c.pos + 3] < 0x80,
        c.pos + 4 + data[c.pos + 3] <= data.len(),
    ensures
        advance_time(c.current_time, data[c.pos] as u64, c.tempo, division) matches Err(e)
            ==> event_step(data, division, c) == Err::<Step, ParseError>(e),
        advance_time(c.current_time, data[c.pos] as u64, c.tempo, division) matches Ok(ct)
            ==> event_step(data, division, c) == Ok::<Step, ParseError>(
            (Step {
                cursor: ReadState {
                    pos: c.pos + 4 + data[c.pos + 3],
                    code_channel: 0xFF,
                    current_time: ct,
                    ..c
                },
                stop: false,
                event: None,
            }),
        ),
{
    lemma_short_delta(data, c.pos);
    lemma_short_length(data, c.pos + 3);
    assert(0xFFu8 & 0xF0 == 0xF0) by (bit_vector);
}

/// An end-of-track meta event `FF 2F 00` after a one-byte delta time ends
/// the track: the reader stops right after its third byte with no running
/// status, and reading the track from there gives back the events read so
/// far.
pub proof fn law_end_of_track_event(data: Seq<u8>, division: u16, c: ReadState, events: Seq<EventView>)
    requires
        0 <= c.pos,
        c.pos + 3 <= data.len(),
        c.pos + 5 <= usize::MAX,
        data[c.pos] < 0x80,
        data[c.pos + 1] == 0xFF,
        data[c.pos + 2] == 0x2F,
    ensures
        advance_time(c.current_time, data[c.pos] as u64, c.tempo, division) matches Err(e)
            ==> run_track(data, division, c, events) == Err::<(ReadState, Seq<EventView>), ParseError>(e),
        advance_time(c.current_time, data[c.pos] as u64, c.tempo, division) matches Ok(ct)
            ==> run_track(data, division, c, events) == Ok::<(ReadState, Seq<EventView>), ParseError>(
            (
                ReadState {
                    pos: c.pos + 5,
                    running_status: false,
                    code_channel: 0xFF,
                    current_time: ct,
                    tempo: c.tempo,
                },
                events,
            ),
        ),
{
    lemma_short_delta(data, c.pos);
    assert(0xFFu8 & 0xF0 == 0xF0) by (bit_vector);
    if let Ok(ct) = advance_time(c.current_time, data[c.pos] as u64, c.tempo, division) {
        let c1 = ReadState { pos: c.pos + 1, code_channel: 0xFF, current_time: ct, ..c };
        assert(has_status_byte(data, c.pos + 1));
        assert(event_step(data, division, c) == meta_step(data, c1));
    }
}

/// A note event with its own status byte `s` (0x80 to 0x9F), note number
/// `n` and velocity `v` after a one-byte delta time `d` makes one event: a
/// note-on when `v` is not zero and a note-off when it is, on channel
/// `s % 16`, for note `n` at velocity `v`, due at the clock moved on by `d`;
/// that status stays in force for the events that follow, and the reader's
/// next event starts right after `v`.
pub proof fn law_note_event(data: Seq<u8>, division: u16, c: ReadState)
    requires
        0 <= c.pos,
        c.pos + 4 <= data.len() <= usize::MAX,
        data[c.pos] < 0x80,
        0x80 <= data[c.pos + 1] < 0xA0,
    ensures
        advance_time(c.current_time, data[c.pos] as u64, c.tempo, division) matches Err(e)
            ==> event_step(data, division, c) == Err::<Step, ParseError>(e),
        advance_time(c.current_time, data[c.pos] as u64, c.tempo, division) matches Ok(ct) ==> {
            let v = data[c.pos + 3];
            &&& event_step(data, division, c) matches Ok(st)
            &&& st.cursor == (ReadState {
                pos: c.pos + 4,
                running_status: true,
                code_channel: (data[c.pos + 1] % 16 + if v == 0 { 0x80int } else { 0x90int }) as u8,
                current_time: ct,
                tempo: c.tempo,
            })
            &&& !st.stop
            &&& st.event matches Some(e)
            &&& e.delta_time == data[c.pos] as u32
            &&& e.event.status == (if v == 0 { Status::NoteOff } else { Status::NoteOn })
            &&& e.event.channel == data[c.pos + 1] % 16
            &&& e.event.note == data[c.pos + 2]
            &&& e.event.velocity == v
            &&& e.event.play_at_ms == ct
        },
{
    lemma_short_delta(data, c.pos);
    let s = data[c.pos + 1];
    let v = data[c.pos + 3];
    lemma_note_status(s, v);
    assert(0x80 <= s < 0xA0 ==> (s & 0xF0 == 0x80 || s & 0xF0 == 0x90)) by (bit_vector);
    assert(((s & 0x0F) | 0x80) as int == s % 16 + 0x80 && ((s & 0x0F) | 0x90) as int == s % 16 + 0x90
        && ((s & 0x0F) | 0x80) & 0x0F == s % 16 && ((s & 0x0F) | 0x90) & 0x0F == s % 16) by (bit_vector);
}

/// A note event that borrows the running status (its first byte, the note
/// number `n`, below 0x80) after a one-byte delta time `d` makes one event
/// on the channel of the status in force, for note `n` at the velocity `v`
/// that follows, due at the clock moved on by `d`; the reader's next event
/// starts right after `v`.
pub proof fn law_running_status_note_event(data: Seq<u8>, division: u16, c: ReadState)
    requires
        0 <= c.pos,
        c.pos + 3 <= data.len() <= usize::MAX,
        data[c.pos] < 0x80,
        data[c.pos + 1] < 0x80,
        c.running_status,
        0x80 <= c.code_channel < 0xA0,
    ensures
        advance_time(c.current_time, data[c.pos] as u64, c.tempo, division) matches Err(e)
            ==> event_step(data, division, c) == Err::<Step, ParseError>(e),
        advance_time(c.current_time, data[c.pos] as u64, c.tempo, division) matches Ok(ct) ==> {
            let v = data[c.pos + 2];
            &&& event_step(data, division, c) matches Ok(st)
            &&& st.cursor == (ReadState {
                pos: c.pos + 3,
                running_status: true,
                code_channel: (c.code_channel % 16 + if v == 0 { 0x80int } else { 0x90int }) as u8,
                current_time: ct,
                tempo: c.tempo,
            })
            &&& !st.stop
            &&& st.event matches Some(e)
            &&& e.delta_time == data[c.pos] as u32
            &&& e.event.status == (if v == 0 { Status::NoteOff } else { Status::NoteOn })
            &&& e.event.channel == c.code_channel % 16
            &&& e.event.note == data[c.pos + 1]
            &&& e.event.velocity == v
            &&& e.event.play_at_ms == ct
        },
{
    lemma_short_delta(data, c.pos);
    let s = c.code_channel;
    let v = data[c.pos + 2];
    lemma_note_status(s, v);
    assert(0x80 <= s < 0xA0 ==> (s & 0xF0 == 0x80 || s & 0xF0 == 0x90)) by (bit_vector);
    assert(((s & 0x0F) | 0x80) as int == s % 16 + 0x80 && ((s & 0x0F) | 0x90) as int == s % 16 + 0x90
        && ((s & 0x0F) | 0x80) & 0x0F == s % 16 && ((s & 0x0F) | 0x90) & 0x0F == s % 16) by (bit_vector);
}

} // verus!
