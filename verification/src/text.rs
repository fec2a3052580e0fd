//! The line of text shown for a message.
use crate::message::{Message, MessageView, Status};
use crate::note::{note_name, there_has_to_be_a_better_way};
use std::time::{Duration, SystemTime};
use vstd::prelude::*;
use vstd::string::StringExecFns;

verus! {

/// The character of a decimal digit.
pub open spec fn digit_char(d: int) -> char {
    (48 + d) as char
}

/// The decimal text of a number, without leading zeros.
pub open spec fn decimal(n: nat) -> Seq<char>
    decreases n,
{
    if n < 10 {
        seq![digit_char(n as int)]
    } else {
        decimal(n / 10) + seq![digit_char((n % 10) as int)]
    }
}

/// The name under which a status is shown.
pub open spec fn status_text(s: Status) -> Seq<char> {
    match s {
        Status::NoteOn => "NoteOn"@,
        Status::NoteOff => "NoteOff"@,
        Status::Unknown => "Unknown"@,
    }
}

/// The debug rendering of a play time of `ms` milliseconds, as std's
/// `Debug` for `Duration` writes it ("0ns", "499ms", "2.998s").
pub uninterp spec fn play_time_debug(ms: u64) -> Seq<char>;

/// Renders `Duration::from_millis(ms)` with std's `Debug` for `Duration`.
/// The text is named, not spelled out: it is a function of `ms` alone.
#[verifier::external_body]
fn play_time_text(ms: u64) -> (r: String)
    ensures
        r@ == play_time_debug(ms),
{
    format!("{:?}", Duration::from_millis(ms))
}

/// Renders a wall-clock instant with std's `Debug` for `SystemTime`.
/// Nothing is claimed of the text: its form depends on the platform's
/// representation of the instant.
#[verifier::external_body]
fn instant_text(t: &SystemTime) -> String {
    format!("{:?}", t)
}

/// The line shown for a message, with `instant` as the text of its
/// wall-clock instant.
pub open spec fn message_text(m: MessageView, instant: Seq<char>) -> Seq<char> {
    "status: "@ + status_text(m.status) + "; channel: "@ + decimal(m.channel as nat) + "; note: "@
        + note_name(m.note) + "; velocity: "@ + decimal(m.velocity as nat) + "; pressed_at: "@ + instant
        + "; play_at: "@ + play_time_debug(m.play_at_ms)
}

fn digit_text(d: u8) -> (r: &'static str)
    requires
        d < 10,
    ensures
        r@ == seq![digit_char(d as int)],
{
    proof {
        reveal_strlit("0");
        reveal_strlit("1");
        reveal_strlit("2");
        reveal_strlit("3");
        reveal_strlit("4");
        reveal_strlit("5");
        reveal_strlit("6");
        reveal_strlit("7");
        reveal_strlit("8");
        reveal_strlit("9");
    }
    match d {
        0 => "0",
        1 => "1",
        2 => "2",
        3 => "3",
        4 => "4",
        5 => "5",
        6 => "6",
        7 => "7",
        8 => "8",
        _ => "9",
    }
}

/// The decimal text of a byte.
pub fn decimal_text(n: u8) -> (r: String)
    ensures
        r@ == decimal(n as nat),
{
    let mut s = String::new();
    if n >= 100 {
        s.append(digit_text(n / 100));
    }
    if n >= 10 {
        s.append(digit_text((n / 10) % 10));
    }
    s.append(digit_text(n % 10));
    proof {
        reveal_with_fuel(decimal, 3);
        if n >= 100 {
            assert(decimal((n / 10) as nat) == decimal((n / 100) as nat) + seq![digit_char(((n / 10) % 10) as int)]);
        }
    }
    s
}

impl Message {
    /// The line shown for this message, with `instant` as the text of its
    /// wall-clock instant.
    pub fn text_with_instant(&self, instant: &str) -> (r: String)
        ensures
            r@ == message_text(self@, instant@),
    {
        let mut s = String::new();
        s.append("status: ");
        s.append(self.status.label());
        s.append("; channel: ");
        s.append(decimal_text(self.channel).as_str());
        s.append("; note: ");
        s.append(there_has_to_be_a_better_way(self.note).as_str());
        s.append("; velocity: ");
        s.append(decimal_text(self.velocity).as_str());
        s.append("; pressed_at: ");
        s.append(instant);
        s.append("; play_at: ");
        s.append(play_time_text(self.play_at_ms).as_str());
        s
    }

    /// The line shown for this message, its instant rendered by std's
    /// `Debug` for `SystemTime`.
    pub fn text(&self) -> (r: String)
        ensures
            exists|instant: Seq<char>| r@ == message_text(self@, instant),
    {
        let instant = instant_text(&self.pressed_at);
        let r = self.text_with_instant(instant.as_str());
        assert(r@ == message_text(self@, instant@));
        r
    }
}

} // verus!
