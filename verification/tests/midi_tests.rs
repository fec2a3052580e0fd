use oregano::args::{convert_argument, try_convert_argument};
use oregano::bytes::{as_u16_be, as_u24_be, as_u32_be, read_vlq, read_vlq_usize, ParseError};
use oregano::message::{Message, Status};
use oregano::midi_file::MidiFile;
use oregano::note::there_has_to_be_a_better_way;
use oregano::order::insert_message_by_time;
use oregano::text::decimal_text;
use oregano::playback::{console_step, ConsoleStep, is_due, key_shade, update_notes_played, KeyShade, Playback, Tick};
use oregano::usb::{find_device, find_readable_endpoint, Endpoint, EndpointInfo, TransferKind};
use std::cmp::Ordering;
use std::time::SystemTime;

fn header(division: u16) -> Vec<u8> {
    let mut b = vec![0x4D, 0x54, 0x68, 0x64, 0, 0, 0, 6, 0, 0, 0, 1];
    b.push((division >> 8) as u8);
    b.push((division & 0xFF) as u8);
    b
}

fn track(data: &[u8]) -> Vec<u8> {
    let mut b = vec![0x4D, 0x54, 0x72, 0x6B];
    b.extend_from_slice(&(data.len() as u32).to_be_bytes());
    b.extend_from_slice(data);
    b
}

const TRACK_ONE: [u8; 25] = [
    0x00, 0xFF, 0x51, 0x03, 0x07, 0xA1, 0x20, // tempo 500000
    0x00, 0x90, 0x3C, 0x40, // note on 60
    0x60, 0x3C, 0x00, // running status: note 60, velocity 0
    0x00, 0x3E, 0x50, // running status: note on 62
    0x83, 0x60, 0x3E, 0x00, // delta 480: note 62 off
    0x00, 0xFF, 0x2F, 0x00, // end of track
];

const TRACK_TWO: [u8; 11] = [
    0x00, 0x90, 0x40, 0x40, // note on 64
    0x30, 0x40, 0x00, // delta 48: note 64 off
    0x00, 0xFF, 0x2F, 0x00, // end of track
];

#[test]
fn big_endian_values() {
    assert_eq!(as_u32_be(&[0x00, 0x00, 0x00, 0x06]), 6);
    assert_eq!(as_u32_be(&[0x12, 0x34, 0x56, 0x78]), 0x1234_5678);
    assert_eq!(as_u32_be(&[0xFF, 0xFF, 0xFF, 0xFF]), u32::MAX);
    assert_eq!(as_u16_be(&[0x01, 0xE0]), 480);
    assert_eq!(as_u16_be(&[0xFF, 0x00]), 0xFF00);
    assert_eq!(as_u24_be(&[0x07, 0xA1, 0x20]), 500_000);
    assert_eq!(as_u24_be(&[0xFF, 0xFF, 0xFF]), 0xFF_FFFF);
}

#[test]
fn variable_length_quantities() {
    assert_eq!(read_vlq(&[0xFF, 0xFF, 0xFF, 0x7F], 0), Ok((3, 0x0FFF_FFFF)));
    assert_eq!(read_vlq(&[0x00], 0), Ok((0, 0)));
    assert_eq!(read_vlq(&[0x7F], 0), Ok((0, 0x7F)));
    assert_eq!(read_vlq(&[0x81, 0x00], 0), Ok((1, 0x80)));
    assert_eq!(read_vlq(&[0x12, 0x83, 0x60, 0x99], 1), Ok((2, 480)));
    assert_eq!(read_vlq(&[0x81, 0x80], 0), Err(ParseError::Truncated));
    assert_eq!(read_vlq(&[0x10], 1), Err(ParseError::Truncated));
    assert_eq!(read_vlq_usize(&[0x82, 0x01], 0), Ok((1, 257)));
}

#[test]
fn note_names() {
    assert_eq!(there_has_to_be_a_better_way(60), "C4");
    assert_eq!(there_has_to_be_a_better_way(69), "A4");
    assert_eq!(there_has_to_be_a_better_way(61), "C#4/Db4");
    assert_eq!(there_has_to_be_a_better_way(70), "A#4/Bb4");
    assert_eq!(there_has_to_be_a_better_way(0), "C-1");
    assert_eq!(there_has_to_be_a_better_way(11), "B-1");
    assert_eq!(there_has_to_be_a_better_way(12), "C0");
    assert_eq!(there_has_to_be_a_better_way(127), "G9");
    assert_eq!(there_has_to_be_a_better_way(128), "G#9/Ab9");
    assert_eq!(there_has_to_be_a_better_way(129), "Unknown");
    assert_eq!(there_has_to_be_a_better_way(255), "Unknown");
}

#[test]
fn command_line_numbers() {
    assert_eq!(convert_argument("0x1F"), 31);
    assert_eq!(convert_argument("31"), 31);
    assert_eq!(convert_argument("0x0x10"), 16);
    assert_eq!(convert_argument("+7"), 7);
    assert_eq!(convert_argument("0xffff"), 65535);
    assert_eq!(convert_argument("65535"), 65535);
    assert_eq!(convert_argument("007"), 7);
    assert_eq!(try_convert_argument("0x"), None);
    assert_eq!(try_convert_argument(""), None);
    assert_eq!(try_convert_argument("+"), None);
    assert_eq!(try_convert_argument("-1"), None);
    assert_eq!(try_convert_argument("65536"), None);
    assert_eq!(try_convert_argument("0x10000"), None);
    assert_eq!(try_convert_argument("12a"), None);
    assert_eq!(try_convert_argument("0XFF"), None);
    assert_eq!(try_convert_argument("99999999999999999999"), None);
    assert_eq!(try_convert_argument("0x0x0x"), None);
}

#[test]
fn messages_from_events() {
    let on = Message::from_midi(0x93, 60, 100, 500);
    assert_eq!(on.status, Status::NoteOn);
    assert_eq!(on.channel, 3);
    assert_eq!(on.note, 60);
    assert_eq!(on.velocity, 100);
    assert_eq!(on.play_at_ms, 500);
    assert_eq!(on.shrug, 0);
    assert!(on.raw.iter().all(|b| *b == 0));
    let off = Message::from_midi(0x85, 61, 0, 0);
    assert_eq!(off.status, Status::NoteOff);
    assert_eq!(off.channel, 5);
    let other = Message::from_midi(0xB2, 7, 1, 0);
    assert_eq!(other.status, Status::Unknown);
    assert_eq!(other.channel, 2);
    assert_eq!(on.status.code() as u32 + on.channel as u32, 0x93);
}

#[test]
fn messages_from_packets() {
    let mut data = [0u8; 256];
    data[0] = 9;
    data[1] = 128;
    data[2] = 54;
    data[3] = 64;
    let now = SystemTime::now();
    let m = Message::new(data, now);
    assert_eq!(m.shrug, 9);
    assert_eq!(m.status, Status::NoteOff);
    assert_eq!(m.channel, 0);
    assert_eq!(m.note, 54);
    assert_eq!(m.velocity, 64);
    assert_eq!(m.play_at_ms, 0);
    assert_eq!(m.pressed_at, now);
    assert_eq!(m.raw, data);
    data[1] = 0x9A;
    let m2 = Message::new(data, now);
    assert_eq!(m2.status, Status::NoteOn);
    assert_eq!(m2.channel, 10);
}

#[test]
fn status_codes_and_labels() {
    assert_eq!(Status::NoteOn.code(), 144);
    assert_eq!(Status::NoteOff.code(), 128);
    assert_eq!(Status::Unknown.code(), 0);
    assert_eq!(Status::NoteOn.label(), "NoteOn");
    assert_eq!(Status::NoteOff.label(), "NoteOff");
    assert_eq!(Status::Unknown.label(), "Unknown");
    assert_eq!(Status::from_status_byte(0x9F), Status::NoteOn);
    assert_eq!(Status::from_status_byte(0x80), Status::NoteOff);
    assert_eq!(Status::from_status_byte(0xC0), Status::Unknown);
}

#[test]
fn compare_by_play_time() {
    let a = Message::from_midi(0x90, 60, 1, 10);
    let b = Message::from_midi(0x80, 20, 1, 20);
    let c = Message::from_midi(0x90, 99, 1, 10);
    assert_eq!(a.cmp(&b), Ordering::Less);
    assert_eq!(b.cmp(&a), Ordering::Greater);
    assert_eq!(a.cmp(&c), Ordering::Equal);
    assert_eq!(c.cmp(&a), Ordering::Equal);
}

fn summary(f: &MidiFile) -> Vec<(Status, u8, u8, u64)> {
    f.messages.iter().map(|m| (m.status, m.channel, m.note, m.play_at_ms)).collect()
}

#[test]
fn reads_one_track() {
    let mut buf = header(96);
    buf.extend(track(&TRACK_ONE));
    let f = MidiFile::new(&buf).unwrap();
    assert_eq!(f.filename, "");
    assert_eq!(f.header.length, 6);
    assert_eq!(f.header.format, 0);
    assert_eq!(f.header.n_tracks, 1);
    assert_eq!(f.header.division, 96);
    assert_eq!(f.tracks.len(), 1);
    assert_eq!(f.tracks[0].length, 25);
    let evs: Vec<(u32, Status, u8, u8, u64)> = f.tracks[0]
        .events
        .iter()
        .map(|e| (e.delta_time, e.event.status, e.event.note, e.event.velocity, e.event.play_at_ms))
        .collect();
    assert_eq!(
        evs,
        vec![
            (0, Status::NoteOn, 60, 0x40, 0),
            (96, Status::NoteOff, 60, 0, 499),
            (0, Status::NoteOn, 62, 0x50, 499),
            (480, Status::NoteOff, 62, 0, 2998),
        ]
    );
    assert_eq!(
        summary(&f),
        vec![
            (Status::NoteOn, 0, 60, 0),
            (Status::NoteOff, 0, 60, 499),
            (Status::NoteOn, 0, 62, 499),
            (Status::NoteOff, 0, 62, 2998),
        ]
    );
}

#[test]
fn sorts_messages_across_tracks() {
    let mut buf = header(96);
    buf.extend(track(&TRACK_ONE));
    buf.extend(track(&TRACK_TWO));
    let f = MidiFile::new(&buf).unwrap();
    assert_eq!(f.tracks.len(), 2);
    assert_eq!(f.tracks[1].events.len(), 2);
    assert_eq!(f.tracks[1].events[1].event.play_at_ms, 249);
    assert_eq!(
        summary(&f),
        vec![
            (Status::NoteOn, 0, 60, 0),
            (Status::NoteOn, 0, 64, 0),
            (Status::NoteOff, 0, 64, 249),
            (Status::NoteOff, 0, 60, 499),
            (Status::NoteOn, 0, 62, 499),
            (Status::NoteOff, 0, 62, 2998),
        ]
    );
    for w in f.messages.windows(2) {
        assert!(w[0].play_at_ms <= w[1].play_at_ms);
    }
}

#[test]
fn header_only_file() {
    let f = MidiFile::new(&header(480)).unwrap();
    assert_eq!(f.header.division, 480);
    assert!(f.tracks.is_empty());
    assert!(f.messages.is_empty());
}

#[test]
fn short_file_is_truncated() {
    assert_eq!(MidiFile::new(&[0u8; 13]).err(), Some(ParseError::Truncated));
    assert_eq!(MidiFile::new(&[]).err(), Some(ParseError::Truncated));
}

#[test]
fn zero_division_is_refused() {
    let mut buf = header(0);
    buf.extend(track(&TRACK_TWO));
    assert_eq!(MidiFile::new(&buf).err(), Some(ParseError::ZeroDivision));
}

#[test]
fn empty_track_overflows() {
    let mut buf = header(96);
    buf.extend(track(&[]));
    assert_eq!(MidiFile::new(&buf).err(), Some(ParseError::Overflow));
}

#[test]
fn track_longer_than_file_is_truncated() {
    let mut buf = header(96);
    buf.extend([0x4D, 0x54, 0x72, 0x6B, 0, 0, 0, 50, 0x00, 0x90]);
    assert_eq!(MidiFile::new(&buf).err(), Some(ParseError::Truncated));
}

#[test]
fn track_without_end_runs_into_truncation() {
    let mut buf = header(96);
    buf.extend(track(&[0x00, 0x90, 0x3C, 0x40]));
    assert_eq!(MidiFile::new(&buf).err(), Some(ParseError::Truncated));
}

#[test]
fn key_signature_of_minus_128_overflows() {
    let mut buf = header(96);
    buf.extend(track(&[0x00, 0xFF, 0x59, 0x02, 0x80, 0x00, 0x00, 0xFF, 0x2F, 0x00]));
    assert_eq!(MidiFile::new(&buf).err(), Some(ParseError::Overflow));
}

#[test]
fn time_signature_power_of_eight_overflows() {
    let mut buf = header(96);
    buf.extend(track(&[0x00, 0xFF, 0x58, 0x04, 0x04, 0x08, 0x18, 0x08, 0x00, 0xFF, 0x2F, 0x00]));
    assert_eq!(MidiFile::new(&buf).err(), Some(ParseError::Overflow));
    let mut ok = header(96);
    ok.extend(track(&[0x00, 0xFF, 0x58, 0x04, 0x04, 0x02, 0x18, 0x08, 0x00, 0xFF, 0x2F, 0x00]));
    assert!(MidiFile::new(&ok).is_ok());
}

#[test]
fn text_and_controller_events_are_skipped() {
    let mut buf = header(96);
    buf.extend(track(&[
        0x00, 0xFF, 0x03, 0x03, b'a', b'b', b'c', // track name
        0x00, 0xB0, 0x07, 0x64, // control change
        0x00, 0xC0, 0x05, 0x00, // program change
        0x00, 0x90, 0x45, 0x30, // note on 69
        0x00, 0xFF, 0x2F, 0x00,
    ]));
    let f = MidiFile::new(&buf).unwrap();
    assert_eq!(summary(&f), vec![(Status::NoteOn, 0, 69, 0)]);
}

#[test]
fn status_bytes_start_a_new_status() {
    let mut buf = header(96);
    buf.extend(track(&[
        0x00, 0x90, 0x3C, 0x40, // note on 60
        0x00, 0x80, 0x3C, 0x00, // its own status byte: note off 60
        0x00, 0x3E, 0x50, // running status (0x80) with velocity 0x50: note on 62
        0x00, 0xFF, 0x2F, 0x00,
    ]));
    let f = MidiFile::new(&buf).unwrap();
    let evs: Vec<(Status, u8, u8, u8)> = f.tracks[0]
        .events
        .iter()
        .map(|e| (e.event.status, e.event.channel, e.event.note, e.event.velocity))
        .collect();
    assert_eq!(
        evs,
        vec![
            (Status::NoteOn, 0, 60, 64),
            (Status::NoteOff, 0, 60, 0),
            (Status::NoteOn, 0, 62, 0x50),
        ]
    );
}

#[test]
fn note_on_then_note_off_with_own_status() {
    let mut buf = header(96);
    buf.extend(track(&[0x00, 0x90, 0x3C, 0x40, 0x00, 0x80, 0x3C, 0x00, 0x00, 0xFF, 0x2F, 0x00]));
    let f = MidiFile::new(&buf).unwrap();
    assert_eq!(f.tracks.len(), 1);
    let evs: Vec<(Status, u8, u8, u8)> = f.tracks[0]
        .events
        .iter()
        .map(|e| (e.event.status, e.event.channel, e.event.note, e.event.velocity))
        .collect();
    assert_eq!(evs, vec![(Status::NoteOn, 0, 60, 64), (Status::NoteOff, 0, 60, 0)]);
}

#[test]
fn unknown_status_after_a_note_stops_the_track() {
    let mut buf = header(96);
    buf.extend(track(&[0x00, 0x90, 0x45, 0x30, 0x00, 0xA0, 0x01, 0x02]));
    // 0xA0 is a status byte of a kind the reader does not know: the track
    // stops there and the next chunk is looked for one byte before it, where
    // too few bytes are left
    assert_eq!(MidiFile::new(&buf).err(), Some(ParseError::Truncated));
}

#[test]
fn unknown_event_ends_the_track() {
    let mut buf = header(96);
    // the first event has an unknown kind: the reader stops on its status
    // byte and looks for the next chunk one byte before it, at the start of
    // this track's data, which here happens to read as a chunk of its own
    buf.extend(track(&[0x00, 0xA0, 0x00, 0x00, 0x00, 0x00, 0x00, 0x04, 0x00, 0xFF, 0x2F, 0x00]));
    let f = MidiFile::new(&buf).unwrap();
    assert_eq!(f.tracks.len(), 2);
    assert_eq!(f.tracks[0].length, 12);
    assert!(f.tracks[0].events.is_empty());
    assert_eq!(f.tracks[1].length, 4);
    assert!(f.tracks[1].events.is_empty());
    assert!(f.messages.is_empty());
}

#[test]
fn playback_ticks() {
    let messages = vec![
        Message::from_midi(0x90, 60, 64, 0),
        Message::from_midi(0x80, 60, 0, 500),
    ];
    let mut p = Playback::new();
    assert_eq!(p.tick(&messages, 0), Tick::Played { index: 0, missed: true });
    assert_eq!(p.current_message, 1);
    assert_eq!(p.notes_played, 1u128 << 59);
    assert_eq!(key_shade(p.notes_played, 59), KeyShade::Held);
    p.note_hit = true;
    assert_eq!(p.tick(&messages, 499), Tick::Wait);
    assert_eq!(p.current_message, 1);
    assert!(p.note_hit);
    assert_eq!(p.tick(&messages, 500), Tick::Played { index: 1, missed: false });
    assert_eq!(p.current_message, 2);
    assert!(!p.note_hit);
    assert_eq!(p.notes_played, 0);
    assert_eq!(key_shade(p.notes_played, 59), KeyShade::Light);
}

#[test]
fn held_keys_and_shades() {
    let top = Message::from_midi(0x90, 128, 1, 0);
    let low = Message::from_midi(0x91, 1, 1, 0);
    let other = Message::from_midi(0xB0, 200, 1, 0);
    let n = update_notes_played(0, &top);
    assert_eq!(n, 1u128 << 127);
    let n = update_notes_played(n, &low);
    assert_eq!(n, (1u128 << 127) | 1);
    assert_eq!(update_notes_played(n, &other), n);
    assert_eq!(key_shade(n, 127), KeyShade::Held);
    assert_eq!(key_shade(n, 0), KeyShade::Held);
    assert_eq!(key_shade(n, 2), KeyShade::Dark);
    assert_eq!(key_shade(n, 3), KeyShade::Light);
    assert!(is_due(&top, 0));
    assert!(!is_due(&Message::from_midi(0x90, 1, 1, 5), 4));
}

#[test]
fn endpoint_search() {
    let eps = vec![
        EndpointInfo { config: 1, iface: 0, setting: 0, address: 0x01, direction_in: false, transfer: TransferKind::Bulk },
        EndpointInfo { config: 1, iface: 0, setting: 0, address: 0x81, direction_in: true, transfer: TransferKind::Interrupt },
        EndpointInfo { config: 1, iface: 1, setting: 0, address: 0x82, direction_in: true, transfer: TransferKind::Bulk },
        EndpointInfo { config: 2, iface: 0, setting: 1, address: 0x83, direction_in: true, transfer: TransferKind::Bulk },
    ];
    assert_eq!(
        find_readable_endpoint(&eps, TransferKind::Bulk),
        Some(Endpoint { config: 1, iface: 1, setting: 0, address: 0x82 })
    );
    assert_eq!(
        find_readable_endpoint(&eps, TransferKind::Interrupt),
        Some(Endpoint { config: 1, iface: 0, setting: 0, address: 0x81 })
    );
    assert_eq!(find_readable_endpoint(&eps, TransferKind::Isochronous), None);
    assert_eq!(find_readable_endpoint(&vec![], TransferKind::Bulk), None);
}

#[test]
fn device_search() {
    let ids = vec![None, Some((0x1234, 0x0001)), Some((0x0ABC, 0x00FF)), Some((0x0ABC, 0x00FF))];
    assert_eq!(find_device(&ids, 0x0ABC, 0x00FF), Some(2));
    assert_eq!(find_device(&ids, 0x1234, 0x0001), Some(1));
    assert_eq!(find_device(&ids, 0x1234, 0x0002), None);
}

#[test]
fn insertion_keeps_order_and_ties_stable() {
    let mut v = Vec::new();
    assert_eq!(insert_message_by_time(&mut v, Message::from_midi(0x90, 1, 1, 30)), 0);
    assert_eq!(insert_message_by_time(&mut v, Message::from_midi(0x90, 2, 1, 10)), 0);
    assert_eq!(insert_message_by_time(&mut v, Message::from_midi(0x90, 3, 1, 30)), 2);
    assert_eq!(insert_message_by_time(&mut v, Message::from_midi(0x90, 4, 1, 20)), 1);
    assert_eq!(insert_message_by_time(&mut v, Message::from_midi(0x90, 5, 1, 10)), 1);
    let notes: Vec<u8> = v.iter().map(|m| m.note).collect();
    assert_eq!(notes, vec![2, 5, 4, 1, 3]);
}

#[test]
fn message_with_given_instant() {
    let t = SystemTime::UNIX_EPOCH;
    let m = Message::from_midi_at(0x94, 61, 100, 2998, t);
    assert_eq!(m.pressed_at, t);
    assert_eq!(m.status, Status::NoteOn);
    assert_eq!(m.channel, 4);
    assert_eq!(m.play_at_ms, 2998);
}

#[test]
fn message_lines() {
    let m = Message::from_midi_at(0x94, 61, 100, 2998, SystemTime::UNIX_EPOCH);
    assert_eq!(
        m.text_with_instant("then"),
        "status: NoteOn; channel: 4; note: C#4/Db4; velocity: 100; pressed_at: then; play_at: 2.998s"
    );
    let off = Message::from_midi_at(0x80, 60, 0, 499, SystemTime::UNIX_EPOCH);
    assert_eq!(
        off.text(),
        format!(
            "status: NoteOff; channel: 0; note: C4; velocity: 0; pressed_at: {:?}; play_at: 499ms",
            SystemTime::UNIX_EPOCH
        )
    );
    assert_eq!(decimal_text(0), "0");
    assert_eq!(decimal_text(9), "9");
    assert_eq!(decimal_text(10), "10");
    assert_eq!(decimal_text(100), "100");
    assert_eq!(decimal_text(255), "255");
}

#[test]
fn console_player_steps() {
    let messages = vec![Message::from_midi(0x90, 60, 64, 0), Message::from_midi(0x80, 60, 0, 500)];
    assert_eq!(console_step(&messages, 0, 0), ConsoleStep { print: Some(0), next: 1, finished: false });
    assert_eq!(console_step(&messages, 1, 499), ConsoleStep { print: None, next: 1, finished: false });
    assert_eq!(console_step(&messages, 1, 500), ConsoleStep { print: Some(1), next: 2, finished: true });
}
