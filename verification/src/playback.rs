//! Playing the notes of a song against the clock: which message is due,
//! which keys are held down, and how the keyboard is drawn.
use crate::message::{Message, MessageView, Status};
use vstd::prelude::*;

verus! {

/// The bit of the held-keys mask that stands for a note number (note 1 is
/// bit 0, note 128 is bit 127).
pub open spec fn note_mask(note: u8) -> u128 {
    1u128 << ((note - 1) as u128)
}

/// A note number that has a bit in the held-keys mask.
pub open spec fn note_has_key(note: u8) -> bool {
    1 <= note <= 128
}

/// The held-keys mask after a message is played: a note-on holds its key
/// down, a note-off lets it go, anything else leaves the mask alone.
pub open spec fn played_after(notes: u128, m: MessageView) -> u128 {
    match m.status {
        Status::NoteOn => notes | note_mask(m.note),
        Status::NoteOff => notes & !note_mask(m.note),
        Status::Unknown => notes,
    }
}

/// Whether key `key` (0 to 127) is held down in a mask.
pub open spec fn key_held(notes: u128, key: u32) -> bool {
    notes & (1u128 << key) == (1u128 << key)
}

/// What a message needs in order to be played: a note-on or note-off must
/// name a note that has a key.
pub open spec fn playable(m: MessageView) -> bool {
    m.status != Status::Unknown ==> note_has_key(m.note)
}

/// How a key of the keyboard is drawn.
#[derive(Clone, Copy, Debug, PartialEq, Eq, Structural)]
pub enum KeyShade {
    /// The key is held down.
    Held,
    /// An idle key at an even position.
    Dark,
    /// An idle key at an odd position.
    Light,
}

/// What one tick of playback did.
#[derive(Clone, Copy, Debug, PartialEq, Eq, Structural)]
pub enum Tick {
    /// The current message is not due yet.
    Wait,
    /// The message at `index` was played; `missed` tells that no key press
    /// was counted for it.
    Played { index: usize, missed: bool },
}

/// The state of playback: the next message to play, whether a key press
/// was counted for it, and the keys held down.
pub struct Playback {
    pub current_message: usize,
    pub note_hit: bool,
    pub notes_played: u128,
}

/// Playback state as mathematics sees it.
pub struct PlayState {
    pub current: int,
    pub note_hit: bool,
    pub notes: u128,
}

impl View for Playback {
    type V = PlayState;

    open spec fn view(&self) -> PlayState {
        PlayState { current: self.current_message as int, note_hit: self.note_hit, notes: self.notes_played }
    }
}

/// One tick at time `t`: the current message is played if it exists and is
/// due, and then the next one becomes current; the index played, if any.
pub open spec fn tick_state(s: PlayState, messages: Seq<MessageView>, t: u64) -> (PlayState, Option<int>) {
    if 0 <= s.current < messages.len() && messages[s.current].play_at_ms <= t {
        (
            PlayState {
                current: s.current + 1,
                note_hit: false,
                notes: played_after(s.notes, messages[s.current]),
            },
            Some(s.current),
        )
    } else {
        (s, None)
    }
}

/// A run of ticks at the times `times`: the final state, and each message
/// played with the time of the tick that played it.
pub open spec fn run_ticks(s: PlayState, messages: Seq<MessageView>, times: Seq<u64>) -> (PlayState, Seq<(int, u64)>)
    decreases times.len(),
{
    if times.len() == 0 {
        (s, seq![])
    } else {
        let (s1, o) = tick_state(s, messages, times[0]);
        let (s2, rest) = run_ticks(s1, messages, times.drop_first());
        (s2, match o {
            Some(k) => seq![(k, times[0])] + rest,
            None => rest,
        })
    }
}

/// Over any run of ticks, messages are played strictly in index order from
/// the current one, at most one per tick, each only at a tick at which it is
/// due; the current index ends just past the last message played.
pub proof fn law_ticks_in_order(s: PlayState, messages: Seq<MessageView>, times: Seq<u64>)
    requires
        0 <= s.current,
    ensures
        run_ticks(s, messages, times).1.len() <= times.len(),
        run_ticks(s, messages, times).0.current == s.current + run_ticks(s, messages, times).1.len(),
        forall|i: int| 0 <= i < run_ticks(s, messages, times).1.len() ==> {
            &&& (#[trigger] run_ticks(s, messages, times).1[i]).0 == s.current + i
            &&& messages[s.current + i].play_at_ms <= run_ticks(s, messages, times).1[i].1
        },
    decreases times.len(),
{
    if times.len() > 0 {
        let (s1, o) = tick_state(s, messages, times[0]);
        law_ticks_in_order(s1, messages, times.drop_first());
        let (s2, rest) = run_ticks(s1, messages, times.drop_first());
        let played = run_ticks(s, messages, times).1;
        if let Some(k) = o {
            assert forall|i: int| 0 <= i < played.len() implies {
                &&& (#[trigger] played[i]).0 == s.current + i
                &&& messages[s.current + i].play_at_ms <= played[i].1
            } by {
                if i > 0 {
                    assert(played[i] == rest[i - 1]);
                }
            }
        }
    }
}

/// Whether a message is due once `elapsed_ms` milliseconds of the song have
/// passed.
pub fn is_due(message: &Message, elapsed_ms: u64) -> (r: bool)
    ensures
        r == (message.play_at_ms <= elapsed_ms),
{
    message.play_at_ms <= elapsed_ms
}

/// What one pass of the console player does: the message to print, if any,
/// the next current message, and whether the song is over.
#[derive(Clone, Copy, Debug, PartialEq, Eq, Structural)]
pub struct ConsoleStep {
    pub print: Option<usize>,
    pub next: usize,
    pub finished: bool,
}

/// One pass of the console player at `elapsed_ms` milliseconds: the current
/// message is printed once due and the next becomes current; the song is
/// over once no message is left.
pub fn console_step(messages: &Vec<Message>, current: usize, elapsed_ms: u64) -> (r: ConsoleStep)
    requires
        current < messages@.len(),
    ensures
        messages@[current as int].play_at_ms <= elapsed_ms ==> r.print == Some(current) && r.next == current + 1,
        messages@[current as int].play_at_ms > elapsed_ms ==> r.print is None && r.next == current,
        r.finished == (r.next >= messages@.len()),
{
    let len = messages.len();
    if is_due(&messages[current], elapsed_ms) {
        ConsoleStep { print: Some(current), next: current + 1, finished: current + 1 >= len }
    } else {
        ConsoleStep { print: None, next: current, finished: current >= len }
    }
}

/// The held-keys mask after `message` is played.
pub fn update_notes_played(notes_played: u128, message: &Message) -> (r: u128)
    requires
        playable(message@),
    ensures
        r == played_after(notes_played, message@),
{
    match message.status {
        Status::NoteOn => notes_played | (1u128 << (message.note - 1)),
        Status::NoteOff => notes_played & !(1u128 << (message.note - 1)),
        Status::Unknown => notes_played,
    }
}

/// How key `key` is drawn: held keys stand out, idle keys alternate.
pub fn key_shade(notes_played: u128, key: u32) -> (r: KeyShade)
    requires
        key < 128,
    ensures
        key_held(notes_played, key) ==> r == KeyShade::Held,
        !key_held(notes_played, key) && key % 2 == 0 ==> r == KeyShade::Dark,
        !key_held(notes_played, key) && key % 2 == 1 ==> r == KeyShade::Light,
{
    let bit: u128 = 1u128 << key;
    if notes_played & bit == bit {
        KeyShade::Held
    } else if key % 2 == 0 {
        KeyShade::Dark
    } else {
        KeyShade::Light
    }
}

impl Playback {
    /// Playback at the start of a song: the first message, nothing counted,
    /// no key held.
    pub fn new() -> (r: Playback)
        ensures
            r.current_message == 0,
            !r.note_hit,
            r.notes_played == 0,
    {
        Playback { current_message: 0, note_hit: false, notes_played: 0 }
    }

    /// One tick of playback at `elapsed_ms` milliseconds into the song: if the
    /// current message is due, it is played (its key pressed or released),
    /// reported with whether it was missed, and the next one becomes current.
    pub fn tick(&mut self, messages: &Vec<Message>, elapsed_ms: u64) -> (r: Tick)
        requires
            old(self).current_message < messages@.len(),
            playable(messages@[old(self).current_message as int]@),
        ensures
            messages@[old(self).current_message as int].play_at_ms <= elapsed_ms ==> {
                &&& r == Tick::Played { index: old(self).current_message, missed: !old(self).note_hit }
                &&& final(self).current_message == old(self).current_message + 1
                &&& !final(self).note_hit
                &&& final(self).notes_played == played_after(
                    old(self).notes_played,
                    messages@[old(self).current_message as int]@,
                )
            },
            messages@[old(self).current_message as int].play_at_ms > elapsed_ms ==> {
                &&& r == Tick::Wait
                &&& final(self).current_message == old(self).current_message
                &&& final(self).note_hit == old(self).note_hit
                &&& final(self).notes_played == old(self).notes_played
            },
            final(self)@ == tick_state(old(self)@, messages@.map_values(|m: Message| m@), elapsed_ms).0,
    {
        let index = self.current_message;
        let len = messages.len();
        assert(index < len);
        if is_due(&messages[index], elapsed_ms) {
            let missed = !self.note_hit;
            self.notes_played = update_notes_played(self.notes_played, &messages[index]);
            self.note_hit = false;
            self.current_message = index + 1;
            Tick::Played { index, missed }
        } else {
            Tick::Wait
        }
    }
}

/// Playing a note-on holds its key down, and playing a note-off for the same
/// note lets it go; no other key changes either way.
pub proof fn law_note_on_off_keys(notes: u128, on: MessageView, off: MessageView, key: u32)
    requires
        on.status == Status::NoteOn,
        off.status == Status::NoteOff,
        on.note == off.note,
        note_has_key(on.note),
        key < 128,
    ensures
        key_held(played_after(notes, on), (on.note - 1) as u32),
        !key_held(played_after(played_after(notes, on), off), (on.note - 1) as u32),
        key != on.note - 1 ==> (key_held(played_after(notes, on), key) == key_held(notes, key)),
        key != on.note - 1 ==> (key_held(played_after(notes, off), key) == key_held(notes, key)),
{
    let n: u32 = (on.note - 1) as u32;
    assert(n < 128);
    assert(note_mask(on.note) == 1u128 << n);
    assert(
        (notes | (1u128 << n)) & (1u128 << n) == (1u128 << n)
        && ((notes | (1u128 << n)) & !(1u128 << n)) & (1u128 << n) != (1u128 << n)
        && (key != n ==> (((notes | (1u128 << n)) & (1u128 << key) == (1u128 << key)) == (notes & (1u128 << key) == (1u128 << key))))
        && (key != n ==> (((notes & !(1u128 << n)) & (1u128 << key) == (1u128 << key)) == (notes & (1u128 << key) == (1u128 << key))))
    ) by (bit_vector)
        requires
            n < 128,
            key < 128,
    ;
}

} // verus!
