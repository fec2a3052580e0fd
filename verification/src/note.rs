//! The names of MIDI note numbers, as pitch and octave ("C4", "C#4/Db4").
use vstd::prelude::*;
use vstd::string::StringExecFns;

verus! {

/// The letter name of a pitch class, with its sharp when it has one.
pub open spec fn pitch_first(pc: int) -> Seq<char> {
    if pc == 0 {
        seq!['C']
    } else if pc == 1 {
        seq!['C', '#']
    } else if pc == 2 {
        seq!['D']
    } else if pc == 3 {
        seq!['D', '#']
    } else if pc == 4 {
        seq!['E']
    } else if pc == 5 {
        seq!['F']
    } else if pc == 6 {
        seq!['F', '#']
    } else if pc == 7 {
        seq!['G']
    } else if pc == 8 {
        seq!['G', '#']
    } else if pc == 9 {
        seq!['A']
    } else if pc == 10 {
        seq!['A', '#']
    } else {
        seq!['B']
    }
}

/// The flat spelling of a pitch class that lies between two letters,
/// introduced by a slash; none for the seven natural pitch classes.
pub open spec fn pitch_second(pc: int) -> Option<Seq<char>> {
    if pc == 1 {
        Some(seq!['/', 'D', 'b'])
    } else if pc == 3 {
        Some(seq!['/', 'E', 'b'])
    } else if pc == 6 {
        Some(seq!['/', 'G', 'b'])
    } else if pc == 8 {
        Some(seq!['/', 'A', 'b'])
    } else if pc == 10 {
        Some(seq!['/', 'B', 'b'])
    } else {
        None
    }
}

/// The octave of a note number as text: note 60 is in octave 4, so the
/// octave is `n / 12 - 1`, from "-1" up to "9".
pub open spec fn octave_text(n: int) -> Seq<char> {
    if n / 12 == 0 {
        seq!['-', '1']
    } else {
        seq![(('0' as int) + n / 12 - 1) as char]
    }
}

/// The name of a note number: its pitch class and octave, and for a black
/// key also its flat spelling ("C#4/Db4"). Numbers above 128 are "Unknown".
pub open spec fn note_name(n: u8) -> Seq<char> {
    if n <= 128 {
        match pitch_second(n as int % 12) {
            None => pitch_first(n as int % 12) + octave_text(n as int),
            Some(flat) => pitch_first(n as int % 12) + octave_text(n as int) + flat + octave_text(n as int),
        }
    } else {
        seq!['U', 'n', 'k', 'n', 'o', 'w', 'n']
    }
}

fn pitch_parts(pc: u8) -> (r: (&'static str, Option<&'static str>))
    requires
        pc < 12,
    ensures
        r.0@ == pitch_first(pc as int),
        match r.1 {
            Some(flat) => pitch_second(pc as int) == Some(flat@),
            None => pitch_second(pc as int) is None,
        },
{
    proof {
        reveal_strlit("C");
        reveal_strlit("C#");
        reveal_strlit("/Db");
        reveal_strlit("D");
        reveal_strlit("D#");
        reveal_strlit("/Eb");
        reveal_strlit("E");
        reveal_strlit("F");
        reveal_strlit("F#");
        reveal_strlit("/Gb");
        reveal_strlit("G");
        reveal_strlit("G#");
        reveal_strlit("/Ab");
        reveal_strlit("A");
        reveal_strlit("A#");
        reveal_strlit("/Bb");
        reveal_strlit("B");
    }
    match pc {
        0 => ("C", None),
        1 => ("C#", Some("/Db")),
        2 => ("D", None),
        3 => ("D#", Some("/Eb")),
        4 => ("E", None),
        5 => ("F", None),
        6 => ("F#", Some("/Gb")),
        7 => ("G", None),
        8 => ("G#", Some("/Ab")),
        9 => ("A", None),
        10 => ("A#", Some("/Bb")),
        _ => ("B", None),
    }
}

fn octave_label(n: u8) -> (r: &'static str)
    requires
        n <= 128,
    ensures
        r@ == octave_text(n as int),
{
    proof {
        reveal_strlit("-1");
        reveal_strlit("0");
        reveal_strlit("1");
        reveal_strlit("2");
        reveal_strlit("3");
        reveal_strlit("4");
        reveal_strlit("5");
        reveal_strlit("6");
        reveal_strlit("7");
        reveal_strlit("8");
        reveal_strlit("9");
    }
    let octave = n / 12;
    match octave {
        0 => "-1",
        1 => "0",
        2 => "1",
        3 => "2",
        4 => "3",
        5 => "4",
        6 => "5",
        7 => "6",
        8 => "7",
        9 => "8",
        _ => "9",
    }
}

/// The name of a note number, as `note_name` states: "C4" for 60, "A4" for
/// 69, "G#9/Ab9" for 128, "Unknown" above 128.
pub fn there_has_to_be_a_better_way(note_number: u8) -> (r: String)
    ensures
        r@ == note_name(note_number),
{
    if note_number > 128 {
        proof {
            reveal_strlit("Unknown");
        }
        return "Unknown".to_owned();
    }
    let (first, second) = pitch_parts(note_number % 12);
    let octave = octave_label(note_number);
    let mut name = String::new();
    name.append(first);
    name.append(octave);
    match second {
        Some(flat) => {
            name.append(flat);
            name.append(octave);
        },
        None => {},
    }
    name
}

/// Note names follow the keyboard: the white keys of an octave, at pitch
/// classes 0, 2, 4, 5, 7, 9, 11 counted from C, are named C, D, E, F, G, A, B
/// in that order followed by the octave; a black key between two white keys
/// is named as the lower one sharp and, after a slash, as the upper one flat,
/// each followed by the octave. The octave is "-1" for notes 0 to 11 and the
/// digit `n / 12 - 1` above (note 60 is "C4").
pub proof fn law_note_name_keyboard(n: u8)
    requires
        n <= 128,
    ensures
        ({
            let whites = seq![0int, 2, 4, 5, 7, 9, 11];
            let letters = seq!['C', 'D', 'E', 'F', 'G', 'A', 'B'];
            let digits = seq!['0', '1', '2', '3', '4', '5', '6', '7', '8', '9'];
            let octave = if n < 12 { seq!['-', '1'] } else { seq![digits[n / 12 - 1]] };
            &&& forall|w: int| 0 <= w < 7 && n % 12 == #[trigger] whites[w] ==>
                note_name(n) == seq![letters[w]] + octave
            &&& forall|w: int| 0 <= w < 6 && n % 12 == #[trigger] whites[w] + 1 && whites[w + 1] == whites[w] + 2 ==>
                note_name(n) == seq![letters[w], '#'] + octave + seq!['/', letters[w + 1], 'b'] + octave
        }),
{
    let whites = seq![0int, 2, 4, 5, 7, 9, 11];
    let letters = seq!['C', 'D', 'E', 'F', 'G', 'A', 'B'];
    let digits = seq!['0', '1', '2', '3', '4', '5', '6', '7', '8', '9'];
    let octave = if n < 12 { seq!['-', '1'] } else { seq![digits[n / 12 - 1]] };
    assert(octave_text(n as int) == octave) by {
        if n >= 12 {
            let o = n / 12 - 1;
            assert(0 <= o <= 9);
            assert(digits[o] == (48 + o) as char);
        }
    }
    assert forall|w: int| 0 <= w < 7 && n % 12 == #[trigger] whites[w] implies note_name(n) == seq![letters[w]] + octave by {
        assert(whites[w] == n % 12);
    }
    assert forall|w: int| 0 <= w < 6 && n % 12 == #[trigger] whites[w] + 1 && whites[w + 1] == whites[w] + 2 implies
        note_name(n) == seq![letters[w], '#'] + octave + seq!['/', letters[w + 1], 'b'] + octave by {
        assert(whites[w] + 1 == n % 12);
    }
}
} // verus!
