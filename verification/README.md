# bhairav_synth

A polyphonic terminal synthesizer tuned to Raag Bhairav, with a tanpura drone, a
metronome, an echo, a swinging low-pass filter, MIDI input and recording to disk. The
control logic is a library verified with Verus; the program around it does the
floating-point arithmetic and the input and output.

## The library (`src/`)

- `single`: single-precision numbers by their bit patterns, and their numeric order.
- `rounding`: what single-precision arithmetic gives.
- `voice`: one voice, its envelope and the shape of its oscillator.
- `pool`: the twelve voices, and which of them a note gets.
- `command`: the commands to the audio side.
- `engine`: the audio side: voices, switches, recording, what the screen gets to see.
- `delay`: the delay line of the echo.
- `recorder`: cutting a recording into chunks, the way to the writer of the file, and what
  the writer does.
- `controls`: the computer keyboard, and the note of the scale closest to a pitch.
- `midi`: the messages of a MIDI keyboard.
- `clock`: the tanpura and the metronome.
- `ui`, `spectrum`, `decimal`: what the screen shows.
- `computed`: laws of the levels, phases and echoes as single-precision arithmetic makes
  them.

Each function states what it returns and changes; the functions named `law_..` state
what holds of several of them together.

## The program (`app/`)

`main` reads keys and draws the screen; the other files hold the output stream, the
arithmetic of the audio path, and the threads of the players, of the MIDI keyboard and
of the recording.

## Keys

| Key | Does |
| --- | --- |
| a s d f g h j k | Sa, komal Re, shuddha Ga, shuddha Ma, Pa, komal Dha, shuddha Ni, Sa |
| 1 2 3 | sine, square, sawtooth |
| t | tanpura on or off |
| v | filter on or off |
| b | metronome on or off |
| [ ] | slower, faster |
| r | start or stop recording to `synth_recording.wav` |
| Esc | quit |

A recording is written in chunks of 1024 samples; what does not fill a chunk when the
recording stops is not written.
