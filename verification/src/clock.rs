//! The two players that keep their own time: the tanpura drone and the metronome.
//!
//! Each is asked again and again what to do next. It answers with the note to send,
//! if one is due, and with how long to wait before it is asked again.

use crate::command::AudioCommand;
use crate::tuning::{is_in_tune, lemma_notes_in_tune};
use crate::voice::{Pitch, VoiceId};
use vstd::prelude::*;

verus! {

/// Time between the strings of the tanpura.
pub const STRING_MILLIS: u64 = 1500;

/// How often a silent tanpura looks whether it has been switched on.
pub const TANPURA_IDLE_MILLIS: u64 = 100;

/// How often a silent metronome looks whether it has been switched on.
pub const METRONOME_IDLE_MILLIS: u64 = 50;

/// The slowest beat that the metronome keeps, in beats per minute.
pub const SLOWEST_BPM: u32 = 30;

/// The number of milliseconds in a minute.
pub const MINUTE_MILLIS: u32 = 60_000;

/// The string of the tonic, C3, in hundredths of a hertz.
pub const SA_HUNDREDTHS: u32 = 13081;

/// The string of the fifth, G3, in hundredths of a hertz.
pub const PA_HUNDREDTHS: u32 = 19600;

/// The click, A5, in hundredths of a hertz.
pub const CLICK_HUNDREDTHS: u32 = 88000;

/// What a player does now, and how long it then waits.
#[derive(Clone, Copy, Debug, PartialEq, Eq, Structural)]
pub struct Beat {
    pub command: Option<AudioCommand>,
    pub sleep_millis: u64,
}

/// The tanpura, by the string that it plays next.
#[derive(Clone, Copy, Debug, PartialEq, Eq, Structural)]
pub enum Tanpura {
    Sa,
    Pa,
}

/// The note of the tonic string.
pub open spec fn sa() -> AudioCommand {
    AudioCommand::NoteOn(VoiceId::Drone('S'), Pitch::Hundredths(SA_HUNDREDTHS))
}

/// The note of the fifth's string.
pub open spec fn pa() -> AudioCommand {
    AudioCommand::NoteOn(VoiceId::Drone('P'), Pitch::Hundredths(PA_HUNDREDTHS))
}

/// The note of the metronome.
pub open spec fn click() -> AudioCommand {
    AudioCommand::NoteOn(VoiceId::Metronome, Pitch::Hundredths(CLICK_HUNDREDTHS))
}

impl Tanpura {
    /// The string that comes after being asked.
    pub open spec fn next(self, active: bool) -> Tanpura {
        if active && self == Tanpura::Sa {
            Tanpura::Pa
        } else {
            Tanpura::Sa
        }
    }

    /// What the tanpura does when asked.
    pub open spec fn beat(self, active: bool) -> Beat {
        match self {
            Tanpura::Sa => if active {
                Beat { command: Some(sa()), sleep_millis: STRING_MILLIS }
            } else {
                Beat { command: None, sleep_millis: TANPURA_IDLE_MILLIS }
            },
            Tanpura::Pa => if active {
                Beat { command: Some(pa()), sleep_millis: STRING_MILLIS }
            } else {
                Beat { command: None, sleep_millis: 0 }
            },
        }
    }

    /// A tanpura that begins with the tonic.
    pub fn new() -> (r: Tanpura)
        ensures
            r == Tanpura::Sa,
    {
        Tanpura::Sa
    }

    /// Asks the tanpura what to do, given whether it is switched on. Switched off
    /// between its two strings, it goes back to the first at once; switched off before
    /// the first, it waits.
    pub fn step(&mut self, active: bool) -> (r: Beat)
        ensures
            r == old(self).beat(active),
            *final(self) == old(self).next(active),
    {
        let string: Tanpura = *self;
        match string {
            Tanpura::Sa => if active {
                *self = Tanpura::Pa;
                Beat {
                    command: Some(
                        AudioCommand::NoteOn(
                            VoiceId::Drone('S'),
                            Pitch::Hundredths(SA_HUNDREDTHS),
                        ),
                    ),
                    sleep_millis: STRING_MILLIS,
                }
            } else {
                Beat { command: None, sleep_millis: TANPURA_IDLE_MILLIS }
            },
            Tanpura::Pa => {
                *self = Tanpura::Sa;
                if active {
                    Beat {
                        command: Some(
                            AudioCommand::NoteOn(
                                VoiceId::Drone('P'),
                                Pitch::Hundredths(PA_HUNDREDTHS),
                            ),
                        ),
                        sleep_millis: STRING_MILLIS,
                    }
                } else {
                    Beat { command: None, sleep_millis: 0 }
                }
            },
        }
    }
}

/// The time between two clicks.
pub open spec fn interval_millis(bpm: u32) -> int {
    MINUTE_MILLIS as int / (if bpm < SLOWEST_BPM {
        SLOWEST_BPM
    } else {
        bpm
    }) as int
}

/// Asks the metronome what to do, given whether it is switched on and its tempo.
pub fn metronome_beat(active: bool, bpm: u32) -> (r: Beat)
    ensures
        r.command == if active {
            Some(click())
        } else {
            None
        },
        r.sleep_millis == if active {
            interval_millis(bpm)
        } else {
            METRONOME_IDLE_MILLIS as int
        },
{
    if active {
        let kept: u32 = if bpm < SLOWEST_BPM {
            SLOWEST_BPM
        } else {
            bpm
        };
        let interval: u32 = MINUTE_MILLIS / kept;
        Beat {
            command: Some(
                AudioCommand::NoteOn(VoiceId::Metronome, Pitch::Hundredths(CLICK_HUNDREDTHS)),
            ),
            sleep_millis: interval as u64,
        }
    } else {
        Beat { command: None, sleep_millis: METRONOME_IDLE_MILLIS }
    }
}

/// The tanpura after it has been asked once for each of `active` in turn.
pub open spec fn tanpura_after(start: Tanpura, active: Seq<bool>) -> Tanpura
    decreases active.len(),
{
    if active.len() == 0 {
        start
    } else {
        tanpura_after(start, active.drop_last()).next(active.last())
    }
}

/// Switched on, the tanpura plays its two strings in turn, tonic first, and waits the
/// same time after each.
pub proof fn law_tanpura_alternates(active: Seq<bool>)
    requires
        forall|i: int| 0 <= i < active.len() ==> #[trigger] active[i],
    ensures
        tanpura_after(Tanpura::Sa, active).beat(true) == (Beat {
            command: Some(
                if active.len() % 2 == 0 {
                    sa()
                } else {
                    pa()
                },
            ),
            sleep_millis: STRING_MILLIS,
        }),
    decreases active.len(),
{
    if active.len() > 0 {
        let before = active.drop_last();
        assert forall|i: int| 0 <= i < before.len() implies #[trigger] before[i] by {
            assert(active[i]);
        }
        assert(active[active.len() - 1]);
        law_tanpura_alternates(before);
    }
}

/// Switched off, the tanpura sends nothing, and its next string is the tonic.
pub proof fn law_tanpura_rests(tanpura: Tanpura)
    ensures
        tanpura.beat(false).command is None,
        tanpura.next(false) == Tanpura::Sa,
{
}

/// The interval is the whole number of milliseconds closest below the exact one: as
/// many of them as there are beats in a minute fill the minute, and one more each would
/// not.
pub proof fn law_interval_precise(bpm: u32)
    requires
        bpm >= SLOWEST_BPM,
    ensures
        interval_millis(bpm) * bpm <= MINUTE_MILLIS < (interval_millis(bpm) + 1) * bpm,
{
    vstd::arithmetic::div_mod::lemma_fundamental_div_mod(MINUTE_MILLIS as int, bpm as int);
    let (q, b) = (interval_millis(bpm), bpm as int);
    assert(q * b == b * q && (q + 1) * b == b * q + b) by (nonlinear_arith);
}

/// A faster tempo never has the longer interval, and no tempo has one of more than
/// two seconds.
pub proof fn law_interval_falls_with_tempo(slow: u32, fast: u32)
    requires
        slow <= fast,
    ensures
        0 <= interval_millis(fast) <= interval_millis(slow) <= 2000,
{
    let s = if slow < SLOWEST_BPM {
        SLOWEST_BPM as int
    } else {
        slow as int
    };
    let f = if fast < SLOWEST_BPM {
        SLOWEST_BPM as int
    } else {
        fast as int
    };
    vstd::arithmetic::div_mod::lemma_div_is_ordered_by_denominator(MINUTE_MILLIS as int, s, f);
    vstd::arithmetic::div_mod::lemma_div_is_ordered_by_denominator(
        MINUTE_MILLIS as int,
        SLOWEST_BPM as int,
        s,
    );
    vstd::arithmetic::div_mod::lemma_div_pos_is_pos(MINUTE_MILLIS as int, f);
}

/// The strings of the tanpura are Sa and Pa of the octave below middle C, and the click is
/// the A two octaves and a sixth above that Sa: each is tuned to the hundredth of a hertz to
/// its place in the tempered scale, and belongs to the player that sends it.
pub proof fn law_players_are_in_tune()
    ensures
        sa() matches AudioCommand::NoteOn(VoiceId::Drone('S'), Pitch::Hundredths(n)) && is_in_tune(
            n,
            48,
        ),
        pa() matches AudioCommand::NoteOn(VoiceId::Drone('P'), Pitch::Hundredths(n)) && is_in_tune(
            n,
            55,
        ),
        click() matches AudioCommand::NoteOn(VoiceId::Metronome, Pitch::Hundredths(n))
            && is_in_tune(n, 81),
{
    lemma_notes_in_tune();
}

/// The tanpura plays a string exactly where it is switched on, the string that is next, and
/// gives each the same second and a half; its strings are two, so that two steps lead back.
/// Switched off, it looks again after a tenth of a second, or at once where it has stopped
/// between its strings.
pub proof fn law_tanpura_keeps_its_time(tanpura: Tanpura, active: bool)
    ensures
        tanpura.beat(active).command is Some <==> active,
        active ==> tanpura.beat(active).sleep_millis == 1500,
        !active ==> tanpura.beat(active).sleep_millis == (if tanpura is Sa {
            100int
        } else {
            0int
        }),
        active ==> tanpura.beat(active).command == Some(
            if tanpura is Sa {
                sa()
            } else {
                pa()
            },
        ),
        active ==> tanpura.next(active) != tanpura && tanpura.next(active).next(active) == tanpura,
{
}

/// Below the slowest tempo the metronome keeps two seconds.
pub proof fn law_slowest_interval(bpm: u32)
    requires
        bpm <= 30,
    ensures
        interval_millis(bpm) == 2000,
{
    law_interval_precise(30);
}

} // verus!
