//! The computer keyboard: which key plays which note of Raag Bhairav, and which key
//! works which switch.

use crate::command::AudioCommand;
use crate::tuning::{height, is_in_tune, law_hundredths_ascend, lemma_notes_in_tune};
use crate::voice::{Pitch, VoiceId, Waveform};
use vstd::prelude::*;

verus! {

/// The tempo at the start, in beats per minute.
pub const START_BPM: u32 = 120;

/// How far one press of a tempo key goes.
pub const BPM_STEP: u32 = 5;

/// The slowest tempo that the keys reach.
pub const MIN_BPM: u32 = 40;

/// The fastest tempo that the keys reach.
pub const MAX_BPM: u32 = 300;

/// A key, as far as the synthesizer tells keys apart.
#[derive(Clone, Copy, Debug, PartialEq, Eq, Structural)]
pub enum Key {
    Esc,
    Char(char),
    Other,
}

/// What a key press asks for.
#[derive(Clone, Copy, Debug, PartialEq, Eq, Structural)]
pub enum Reaction {
    /// Leave the program.
    Quit,
    /// Send a command to the audio side.
    Send(AudioCommand),
    /// The tanpura is now on or off.
    Tanpura(bool),
    /// The metronome is now on or off.
    Metronome(bool),
    /// The tempo is now this.
    Tempo(u32),
    /// Nothing.
    Ignore,
}

/// The switches that the keyboard works.
#[derive(Clone, Copy, Debug, PartialEq, Eq, Structural)]
pub struct Controls {
    pub tanpura_active: bool,
    pub bpm_active: bool,
    pub current_bpm: u32,
}

/// The note of Raag Bhairav that a key plays, in hundredths of a hertz.
pub open spec fn note_of(key: char) -> Option<u32> {
    if key == 'a' {
        Some(26163)  // Sa, C4
    } else if key == 's' {
        Some(27718)  // komal Re, Db4
    } else if key == 'd' {
        Some(32963)  // shuddha Ga, E4
    } else if key == 'f' {
        Some(34923)  // shuddha Ma, F4
    } else if key == 'g' {
        Some(39200)  // Pa, G4
    } else if key == 'h' {
        Some(41530)  // komal Dha, Ab4
    } else if key == 'j' {
        Some(49388)  // shuddha Ni, B4
    } else if key == 'k' {
        Some(52325)  // Sa, C5
    } else {
        None
    }
}

/// The keys that play notes, in the order in which they lie.
pub open spec fn home_row() -> Seq<char> {
    seq!['a', 's', 'd', 'f', 'g', 'h', 'j', 'k']
}

/// The note that a key plays, in hundredths of a hertz.
pub fn key_note(key: char) -> (r: Option<u32>)
    ensures
        r == note_of(key),
{
    match key {
        'a' => Some(26163),
        's' => Some(27718),
        'd' => Some(32963),
        'f' => Some(34923),
        'g' => Some(39200),
        'h' => Some(41530),
        'j' => Some(49388),
        'k' => Some(52325),
        _ => None,
    }
}

/// How far a pitch lies from the note of a key, in hundredths of a hertz.
pub open spec fn distance(key: char, hundredths: u32) -> int {
    let note = note_of(key)->0;
    if note < hundredths {
        hundredths - note
    } else {
        note - hundredths
    }
}

/// Among the keys of the home row, the one at place `i` plays the note closest to a pitch,
/// and the lower one where two are equally close.
pub open spec fn is_closest(i: int, hundredths: u32) -> bool {
    let row = home_row();
    &&& 0 <= i < row.len()
    &&& forall|j: int|
        0 <= j < row.len() ==> distance(row[i], hundredths) <= distance(
            #[trigger] row[j],
            hundredths,
        )
    &&& forall|j: int|
        0 <= j < i ==> distance(row[i], hundredths) < distance(#[trigger] row[j], hundredths)
}

/// Snaps a pitch, in hundredths of a hertz, to the closest note of Raag Bhairav: returns
/// the key that plays it, and the one of the lower note where two are equally close.
pub fn closest_note(hundredths: u32) -> (r: char)
    ensures
        home_row().contains(r),
        forall|key: char| #[trigger]
            home_row().contains(key) ==> distance(r, hundredths) <= distance(key, hundredths),
        exists|i: int| #[trigger] is_closest(i, hundredths) && home_row()[i] == r,
{
    let row: [char; 8] = ['a', 's', 'd', 'f', 'g', 'h', 'j', 'k'];
    assert(row@ =~= home_row());
    let mut best: usize = 0;
    let mut best_distance: u32 = distance_to(row[0], hundredths);
    let mut i: usize = 1;
    while i < 8
        invariant
            row@ == home_row(),
            best < i <= 8,
            best_distance == distance(home_row()[best as int], hundredths),
            forall|j: int|
                0 <= j < i ==> best_distance <= distance(#[trigger] home_row()[j], hundredths),
            forall|j: int|
                0 <= j < best ==> best_distance < distance(#[trigger] home_row()[j], hundredths),
        decreases 8 - i,
    {
        proof {
            law_only_home_row_plays(home_row()[i as int]);
        }
        let d: u32 = distance_to(row[i], hundredths);
        if d < best_distance {
            best = i;
            best_distance = d;
        }
        i += 1;
    }
    assert(is_closest(best as int, hundredths));
    row[best]
}

/// The distance between a pitch and the note of a key that plays one.
fn distance_to(key: char, hundredths: u32) -> (r: u32)
    requires
        note_of(key) is Some,
    ensures
        r == distance(key, hundredths),
{
    match key_note(key) {
        Some(note) => if note < hundredths {
            hundredths - note
        } else {
            note - hundredths
        },
        None => 0,
    }
}

/// The tempo after a press of the slower key.
pub open spec fn slower(bpm: u32) -> u32 {
    if bpm < MIN_BPM + BPM_STEP {
        MIN_BPM
    } else {
        (bpm - BPM_STEP) as u32
    }
}

/// The tempo after a press of the faster key.
pub open spec fn faster(bpm: u32) -> u32 {
    if bpm > MAX_BPM - BPM_STEP {
        MAX_BPM
    } else {
        (bpm + BPM_STEP) as u32
    }
}

impl Controls {
    /// The tempo lies where the keys can take it.
    pub open spec fn tempo_in_range(self) -> bool {
        MIN_BPM <= self.current_bpm <= MAX_BPM && self.current_bpm % BPM_STEP == 0
    }

    /// What a key press asks for.
    pub open spec fn reaction_to(self, key: Key) -> Reaction {
        match key {
            Key::Esc => Reaction::Quit,
            Key::Other => Reaction::Ignore,
            Key::Char(c) => if c == '1' {
                Reaction::Send(AudioCommand::SetWaveform(Waveform::Sine))
            } else if c == '2' {
                Reaction::Send(AudioCommand::SetWaveform(Waveform::Square))
            } else if c == '3' {
                Reaction::Send(AudioCommand::SetWaveform(Waveform::Sawtooth))
            } else if c == 't' {
                Reaction::Tanpura(!self.tanpura_active)
            } else if c == 'b' {
                Reaction::Metronome(!self.bpm_active)
            } else if c == '[' {
                Reaction::Tempo(slower(self.current_bpm))
            } else if c == ']' {
                Reaction::Tempo(faster(self.current_bpm))
            } else if c == 'v' {
                Reaction::Send(AudioCommand::ToggleFilter)
            } else if c == 'r' {
                Reaction::Send(AudioCommand::ToggleRecording)
            } else {
                match note_of(c) {
                    Some(n) => Reaction::Send(
                        AudioCommand::NoteOn(VoiceId::Key(c), Pitch::Hundredths(n)),
                    ),
                    None => Reaction::Ignore,
                }
            },
        }
    }

    /// The switches after a reaction.
    pub open spec fn after(self, reaction: Reaction) -> Controls {
        match reaction {
            Reaction::Tanpura(on) => Controls { tanpura_active: on, ..self },
            Reaction::Metronome(on) => Controls { bpm_active: on, ..self },
            Reaction::Tempo(bpm) => Controls { current_bpm: bpm, ..self },
            _ => self,
        }
    }

    /// The switches at the start: all off.
    pub fn new() -> (r: Controls)
        ensures
            r == (Controls { tanpura_active: false, bpm_active: false, current_bpm: START_BPM }),
            r.tempo_in_range(),
    {
        Controls { tanpura_active: false, bpm_active: false, current_bpm: START_BPM }
    }

    /// Decides what a key event does, and keeps the switches up to date. Only presses
    /// count; releases and repeats do nothing.
    pub fn on_key(&mut self, key: Key, pressed: bool) -> (r: Reaction)
        ensures
            r == if pressed {
                old(self).reaction_to(key)
            } else {
                Reaction::Ignore
            },
            *final(self) == old(self).after(r),
    {
        if !pressed {
            return Reaction::Ignore;
        }
        let c: char = match key {
            Key::Esc => {
                return Reaction::Quit;
            },
            Key::Other => {
                return Reaction::Ignore;
            },
            Key::Char(c) => c,
        };
        match c {
            '1' => Reaction::Send(AudioCommand::SetWaveform(Waveform::Sine)),
            '2' => Reaction::Send(AudioCommand::SetWaveform(Waveform::Square)),
            '3' => Reaction::Send(AudioCommand::SetWaveform(Waveform::Sawtooth)),
            't' => {
                self.tanpura_active = !self.tanpura_active;
                Reaction::Tanpura(self.tanpura_active)
            },
            'b' => {
                self.bpm_active = !self.bpm_active;
                Reaction::Metronome(self.bpm_active)
            },
            '[' => {
                let less: u32 = self.current_bpm.saturating_sub(BPM_STEP);
                self.current_bpm = if less < MIN_BPM {
                    MIN_BPM
                } else {
                    less
                };
                Reaction::Tempo(self.current_bpm)
            },
            ']' => {
                let more: u32 = self.current_bpm.saturating_add(BPM_STEP);
                self.current_bpm = if more > MAX_BPM {
                    MAX_BPM
                } else {
                    more
                };
                Reaction::Tempo(self.current_bpm)
            },
            'v' => Reaction::Send(AudioCommand::ToggleFilter),
            'r' => Reaction::Send(AudioCommand::ToggleRecording),
            _ => match key_note(c) {
                Some(n) => {
                    Reaction::Send(AudioCommand::NoteOn(VoiceId::Key(c), Pitch::Hundredths(n)))
                },
                None => Reaction::Ignore,
            },
        }
    }
}

/// Along the home row each key plays a note, and each plays a higher one than the key
/// before it.
pub proof fn law_home_row_ascends(i: int, j: int)
    requires
        0 <= i < j < home_row().len(),
    ensures
        note_of(home_row()[i]) is Some,
        note_of(home_row()[j]) is Some,
        note_of(home_row()[i])->0 < note_of(home_row()[j])->0,
{
}

/// Only the keys of the home row play notes.
pub proof fn law_only_home_row_plays(key: char)
    ensures
        note_of(key) is Some <==> home_row().contains(key),
{
    let row = home_row();
    assert(row[0] == 'a' && row[1] == 's' && row[2] == 'd' && row[3] == 'f' && row[4] == 'g'
        && row[5] == 'h' && row[6] == 'j' && row[7] == 'k');
}

/// There is never a choice which note a pitch snaps to, and a note of the scale snaps to
/// itself.
pub proof fn law_snapping_is_definite(hundredths: u32, i: int, j: int)
    requires
        is_closest(i, hundredths),
        0 <= j < home_row().len(),
        is_closest(j, hundredths) || note_of(home_row()[j]) == Some(hundredths),
    ensures
        i == j,
{
    let row = home_row();
    assert(distance(row[i], hundredths) <= distance(row[j], hundredths));
    if i < j {
        law_home_row_ascends(i, j);
    } else if j < i {
        law_home_row_ascends(j, i);
    }
}

/// No key takes the tempo out of its range or off its steps.
pub proof fn law_tempo_stays_in_range(controls: Controls, key: Key)
    requires
        controls.tempo_in_range(),
    ensures
        controls.after(controls.reaction_to(key)).tempo_in_range(),
{
}

/// Away from the ends of the range, the two tempo keys undo each other.
pub proof fn law_tempo_keys_undo(bpm: u32)
    ensures
        MIN_BPM <= bpm <= MAX_BPM - BPM_STEP ==> slower(faster(bpm)) == bpm,
        MIN_BPM + BPM_STEP <= bpm <= MAX_BPM ==> faster(slower(bpm)) == bpm,
{
}

/// Pressing a switch key twice changes nothing.
pub proof fn law_switches_undo(controls: Controls, key: Key)
    requires
        key == Key::Char('t') || key == Key::Char('b'),
    ensures
        ({
            let once = controls.after(controls.reaction_to(key));
            once != controls && once.after(once.reaction_to(key)) == controls
        }),
{
}

/// The keys of the tanpura and of the metronome do not touch each other, nor does either
/// touch the tempo; and no other key touches a switch.
pub proof fn law_switches_independent(controls: Controls, key: Key)
    ensures
        ({
            let after = controls.after(controls.reaction_to(key));
            &&& key != Key::Char('t') ==> after.tanpura_active == controls.tanpura_active
            &&& key != Key::Char('b') ==> after.bpm_active == controls.bpm_active
            &&& key != Key::Char('[') && key != Key::Char(']') ==> after.current_bpm
                == controls.current_bpm
        }),
{
}

/// The notes of Raag Bhairav, in steps of the tempered scale above Sa.
pub open spec fn bhairav() -> Seq<u8> {
    seq![0, 1, 4, 5, 7, 8, 11, 12]
}

/// The home row plays Raag Bhairav from middle C, whatever the switches: each key, when it
/// is pressed, sends a note of its own name, tuned to the hundredth of a hertz to its place
/// in the tempered scale.
pub proof fn law_home_row_plays_bhairav(controls: Controls, i: int)
    requires
        0 <= i < 8,
    ensures
        home_row().len() == bhairav().len() == 8,
        ({
            let key = home_row()[i];
            &&& controls.reaction_to(Key::Char(key)) matches Reaction::Send(command)
            &&& command matches AudioCommand::NoteOn(id, pitch)
            &&& id == VoiceId::Key(key)
            &&& pitch matches Pitch::Hundredths(hundredths)
            &&& is_in_tune(hundredths, (60 + bhairav()[i]) as u8)
        }),
{
    lemma_notes_in_tune();
}

/// A key along the home row plays a higher note than any before it, whatever the switches
/// at either press.
pub proof fn law_home_row_rises(first: Controls, second: Controls, i: int, j: int)
    requires
        0 <= i < j < home_row().len(),
    ensures
        ({
            let low = first.reaction_to(Key::Char(home_row()[i]));
            let high = second.reaction_to(Key::Char(home_row()[j]));
            &&& low matches Reaction::Send(AudioCommand::NoteOn(a, p))
            &&& high matches Reaction::Send(AudioCommand::NoteOn(b, q))
            &&& a != b
            &&& height(p) < height(q)
        }),
{
    law_home_row_ascends(i, j);
    law_hundredths_ascend(note_of(home_row()[i])->0, note_of(home_row()[j])->0);
}

/// What a key does depends on the key alone, and, for a switch or the tempo, on how that one
/// stands: no switch keeps another key from working.
pub proof fn law_keys_do_not_depend_on_switches(a: Controls, b: Controls, key: Key)
    ensures
        ({
            let (ra, rb) = (a.reaction_to(key), b.reaction_to(key));
            match ra {
                Reaction::Tanpura(on) => rb is Tanpura && on != a.tanpura_active && (
                a.tanpura_active == b.tanpura_active ==> rb == ra),
                Reaction::Metronome(on) => rb is Metronome && on != a.bpm_active && (a.bpm_active
                    == b.bpm_active ==> rb == ra),
                Reaction::Tempo(_) => rb is Tempo && (a.current_bpm == b.current_bpm ==> rb == ra),
                _ => rb == ra,
            }
        }),
{
}

/// Which key is for what: leaving, the three timbres, the tanpura, the metronome, the tempo,
/// the filter and the recording have a key each, notes have the home row, and no other key
/// does anything.
pub proof fn law_every_key_has_its_use(controls: Controls, key: Key)
    ensures
        match controls.reaction_to(key) {
            Reaction::Quit => key == Key::Esc,
            Reaction::Send(AudioCommand::SetWaveform(waveform)) => match waveform {
                Waveform::Sine => key == Key::Char('1'),
                Waveform::Square => key == Key::Char('2'),
                Waveform::Sawtooth => key == Key::Char('3'),
            },
            Reaction::Send(AudioCommand::ToggleFilter) => key == Key::Char('v'),
            Reaction::Send(AudioCommand::ToggleRecording) => key == Key::Char('r'),
            Reaction::Send(AudioCommand::NoteOn(id, _)) => {
                &&& id matches VoiceId::Key(c)
                &&& key == Key::Char(c)
                &&& home_row().contains(c)
            },
            Reaction::Send(AudioCommand::NoteOff(_)) => false,
            Reaction::Tanpura(_) => key == Key::Char('t'),
            Reaction::Metronome(_) => key == Key::Char('b'),
            Reaction::Tempo(_) => key == Key::Char('[') || key == Key::Char(']'),
            Reaction::Ignore => {
                &&& key != Key::Esc
                &&& key matches Key::Char(c) ==> !home_row().contains(c) && !seq![
                    '1',
                    '2',
                    '3',
                    't',
                    'b',
                    '[',
                    ']',
                    'v',
                    'r',
                ].contains(c)
            },
        },
{
    if let Key::Char(c) = key {
        law_only_home_row_plays(c);
    }
}

/// The tempo keys go by five beats a minute, down to forty and up to three hundred and no
/// further, from any tempo.
pub proof fn law_tempo_goes_by_five(controls: Controls)
    ensures
        controls.reaction_to(Key::Char('[')) matches Reaction::Tempo(less) && less == (if
        controls.current_bpm >= 45 {
            controls.current_bpm - 5
        } else {
            40int
        }),
        controls.reaction_to(Key::Char(']')) matches Reaction::Tempo(more) && more == (if
        controls.current_bpm <= 295 {
            controls.current_bpm + 5
        } else {
            300int
        }),
{
}

/// The switches are as a key press has reported them, and what it has not reported is as it
/// was.
pub proof fn law_switches_are_as_reported(controls: Controls, reaction: Reaction)
    ensures
        ({
            let after = controls.after(reaction);
            &&& after.tanpura_active == (if reaction is Tanpura {
                reaction->Tanpura_0
            } else {
                controls.tanpura_active
            })
            &&& after.bpm_active == (if reaction is Metronome {
                reaction->Metronome_0
            } else {
                controls.bpm_active
            })
            &&& after.current_bpm == (if reaction is Tempo {
                reaction->Tempo_0
            } else {
                controls.current_bpm
            })
        }),
{
}

/// A pitch snaps to a note that no other note of the scale is closer to, measured either
/// way, and to the lower of two that are equally close.
pub proof fn law_snapping_takes_the_closest(hundredths: u32, i: int, j: int)
    requires
        is_closest(i, hundredths),
        0 <= j < home_row().len(),
    ensures
        ({
            let near = note_of(home_row()[i])->0 - hundredths;
            let other = note_of(home_row()[j])->0 - hundredths;
            &&& -other <= near <= other || other <= near <= -other
            &&& (near == other || near == -other) ==> note_of(home_row()[i])->0 <= note_of(
                home_row()[j],
            )->0
        }),
{
    let row = home_row();
    assert(distance(row[i], hundredths) <= distance(row[j], hundredths));
    if i < j {
        law_home_row_ascends(i, j);
    } else if j < i {
        law_home_row_ascends(j, i);
    }
}

} // verus!
