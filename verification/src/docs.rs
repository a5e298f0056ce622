//! MML and platform-command documentation tables, and lookups into them.
//!
//! Each table is an executable function whose contract is the table's
//! spec function, so a lookup's contract names the exact entry it returns.

use vstd::prelude::*;
use crate::strings::str_eq;

verus! {

/// One documented keyword, value or command.
#[derive(Debug, Clone, Copy)]
pub struct DocEntry {
    /// Lookup key. For commands this is the filter text (`"o"`, `"V"`,
    /// `"_{"`, `"notes"`); for keyword/value entries it is the literal
    /// token (`"#title"`, `"megadrive"`).
    pub key: &'static str,
    /// Display label shown in completion lists.
    pub label: &'static str,
    /// Snippet body to insert. Empty for label-only entries. A `$` in
    /// the body marks it as a snippet on the editor side.
    pub insert: &'static str,
    /// One-line summary.
    pub detail: &'static str,
    /// Long-form documentation (Markdown).
    pub doc: &'static str,
}

/// The `META_KEYWORDS` table.
pub open spec fn spec_meta_keywords() -> Seq<DocEntry> {
    seq![
        DocEntry {
            key: "#title",
            label: "#title",
            insert: "#title ",
            detail: "Song title.",
            doc: "Set the song title. Embedded in the compiled VGM/ROM header and shown in the license editor.\n\nExample:\n  #title Overture",
        },
        DocEntry {
            key: "#composer",
            label: "#composer",
            insert: "#composer ",
            detail: "Original composer.",
            doc: "Set the original composer name. For original works this is the author of both the music and the MML program. For transcriptions/arrangements, this is the original music composer (not the MML programmer).\n\nExample:\n  #composer J.S. Bach",
        },
        DocEntry {
            key: "#programmer",
            label: "#programmer",
            insert: "#programmer ",
            detail: "MML programmer.",
            doc: "Set the name of the person who wrote the MML program. Use this when the MML programmer differs from the original composer (e.g. transcriptions and arrangements). When #programmer is present, the license editor treats the work as a transcription.\n\nExample:\n  #programmer yourname",
        },
        DocEntry {
            key: "#author",
            label: "#author",
            insert: "#author ",
            detail: "Song metadata.",
            doc: "",
        },
        DocEntry {
            key: "#date",
            label: "#date",
            insert: "#date ",
            detail: "Song metadata.",
            doc: "",
        },
        DocEntry {
            key: "#comment",
            label: "#comment",
            insert: "#comment ",
            detail: "Song metadata.",
            doc: "",
        },
        DocEntry {
            key: "#platform",
            label: "#platform",
            insert: "#platform ",
            detail: "Choose the Mega Drive playback mode.",
            doc: "Choose the Mega Drive playback mode.\n\n`megadrive` uses raw VGM DAC stream playback, keeps VGM smaller, and does not support PCM mixing or PCM volume.\n\n`mdsdrv` simulates the MDSDRV PCM driver, adding PCM mixing and PCM volume, but using coarse PCM pitch steps.",
        },
        DocEntry {
            key: "#option",
            label: "#option",
            insert: "#option ",
            detail: "Sets platform options.",
            doc: "Set platform compatibility options. `noextpitch` disables extended pitch envelopes for older MML files.",
        },
        DocEntry {
            key: "#group",
            label: "#group",
            insert: "#group ",
            detail: "MDSDRV song group.",
            doc: "Set the MDSDRV/ROM song group. Use `bgm` for music and `se` for sound effects.",
        },
        DocEntry {
            key: "#game",
            label: "#game",
            insert: "#game ",
            detail: "Song metadata.",
            doc: "",
        },
        DocEntry {
            key: "#composerj",
            label: "#composerj",
            insert: "#composerj ",
            detail: "Song metadata.",
            doc: "",
        },
        DocEntry {
            key: "#license",
            label: "#license",
            insert: "#license ",
            detail: "License information.",
            doc: "Specify the license for this work.\n\nExamples:\n  #license CC BY-SA\n  #license CC BY-NC-SA (program only)\n  #license All Rights Reserved\n\nWhen the composer and programmer differ, add `(program only)` to indicate the license covers only the MML program.",
        },
        DocEntry {
            key: "#timesig",
            label: "#timesig",
            insert: "#timesig ",
            detail: "Time signature for piano roll.",
            doc: "Set the time signature for piano-roll measure and beat lines.\nUse `no` to hide measure lines and disable bar-line fill.\nInvalid values fall back to 4/4.\n\nExamples:\n  #timesig 3/4\n  #timesig 6/8\n  #timesig no",
        },
    ]
}

pub fn meta_keywords() -> (r: Vec<DocEntry>)
    ensures
        r@ == spec_meta_keywords(),
{
    vec![
        DocEntry {
            key: "#title",
            label: "#title",
            insert: "#title ",
            detail: "Song title.",
            doc: "Set the song title. Embedded in the compiled VGM/ROM header and shown in the license editor.\n\nExample:\n  #title Overture",
        },
        DocEntry {
            key: "#composer",
            label: "#composer",
            insert: "#composer ",
            detail: "Original composer.",
            doc: "Set the original composer name. For original works this is the author of both the music and the MML program. For transcriptions/arrangements, this is the original music composer (not the MML programmer).\n\nExample:\n  #composer J.S. Bach",
        },
        DocEntry {
            key: "#programmer",
            label: "#programmer",
            insert: "#programmer ",
            detail: "MML programmer.",
            doc: "Set the name of the person who wrote the MML program. Use this when the MML programmer differs from the original composer (e.g. transcriptions and arrangements). When #programmer is present, the license editor treats the work as a transcription.\n\nExample:\n  #programmer yourname",
        },
        DocEntry {
            key: "#author",
            label: "#author",
            insert: "#author ",
            detail: "Song metadata.",
            doc: "",
        },
        DocEntry {
            key: "#date",
            label: "#date",
            insert: "#date ",
            detail: "Song metadata.",
            doc: "",
        },
        DocEntry {
            key: "#comment",
            label: "#comment",
            insert: "#comment ",
            detail: "Song metadata.",
            doc: "",
        },
        DocEntry {
            key: "#platform",
            label: "#platform",
            insert: "#platform ",
            detail: "Choose the Mega Drive playback mode.",
            doc: "Choose the Mega Drive playback mode.\n\n`megadrive` uses raw VGM DAC stream playback, keeps VGM smaller, and does not support PCM mixing or PCM volume.\n\n`mdsdrv` simulates the MDSDRV PCM driver, adding PCM mixing and PCM volume, but using coarse PCM pitch steps.",
        },
        DocEntry {
            key: "#option",
            label: "#option",
            insert: "#option ",
            detail: "Sets platform options.",
            doc: "Set platform compatibility options. `noextpitch` disables extended pitch envelopes for older MML files.",
        },
        DocEntry {
            key: "#group",
            label: "#group",
            insert: "#group ",
            detail: "MDSDRV song group.",
            doc: "Set the MDSDRV/ROM song group. Use `bgm` for music and `se` for sound effects.",
        },
        DocEntry {
            key: "#game",
            label: "#game",
            insert: "#game ",
            detail: "Song metadata.",
            doc: "",
        },
        DocEntry {
            key: "#composerj",
            label: "#composerj",
            insert: "#composerj ",
            detail: "Song metadata.",
            doc: "",
        },
        DocEntry {
            key: "#license",
            label: "#license",
            insert: "#license ",
            detail: "License information.",
            doc: "Specify the license for this work.\n\nExamples:\n  #license CC BY-SA\n  #license CC BY-NC-SA (program only)\n  #license All Rights Reserved\n\nWhen the composer and programmer differ, add `(program only)` to indicate the license covers only the MML program.",
        },
        DocEntry {
            key: "#timesig",
            label: "#timesig",
            insert: "#timesig ",
            detail: "Time signature for piano roll.",
            doc: "Set the time signature for piano-roll measure and beat lines.\nUse `no` to hide measure lines and disable bar-line fill.\nInvalid values fall back to 4/4.\n\nExamples:\n  #timesig 3/4\n  #timesig 6/8\n  #timesig no",
        },
    ]
}

/// The `PLATFORM_VALUES` table.
pub open spec fn spec_platform_values() -> Seq<DocEntry> {
    seq![
        DocEntry {
            key: "megadrive",
            label: "megadrive",
            insert: "megadrive",
            detail: "Mega Drive / Genesis",
            doc: "Use raw VGM DAC stream playback for PCM. VGM stays smaller and works well for VGM/XGM-style workflows, but PCM mixing and PCM volume control are not available here.",
        },
        DocEntry {
            key: "mdsdrv",
            label: "mdsdrv",
            insert: "mdsdrv",
            detail: "MDSDRV sound driver",
            doc: "Simulate the MDSDRV PCM driver. PCM software mixing and PCM volume control are available, but PCM pitch is quantized to coarse driver steps.",
        },
    ]
}

pub fn platform_values() -> (r: Vec<DocEntry>)
    ensures
        r@ == spec_platform_values(),
{
    vec![
        DocEntry {
            key: "megadrive",
            label: "megadrive",
            insert: "megadrive",
            detail: "Mega Drive / Genesis",
            doc: "Use raw VGM DAC stream playback for PCM. VGM stays smaller and works well for VGM/XGM-style workflows, but PCM mixing and PCM volume control are not available here.",
        },
        DocEntry {
            key: "mdsdrv",
            label: "mdsdrv",
            insert: "mdsdrv",
            detail: "MDSDRV sound driver",
            doc: "Simulate the MDSDRV PCM driver. PCM software mixing and PCM volume control are available, but PCM pitch is quantized to coarse driver steps.",
        },
    ]
}

/// The `OPTION_VALUES` table.
pub open spec fn spec_option_values() -> Seq<DocEntry> {
    seq![
        DocEntry {
            key: "noextpitch",
            label: "noextpitch",
            insert: "noextpitch",
            detail: "Disable extended pitch envelopes",
            doc: "Disable extended pitch envelopes for compatibility with older MML files.",
        },
    ]
}

pub fn option_values() -> (r: Vec<DocEntry>)
    ensures
        r@ == spec_option_values(),
{
    vec![
        DocEntry {
            key: "noextpitch",
            label: "noextpitch",
            insert: "noextpitch",
            detail: "Disable extended pitch envelopes",
            doc: "Disable extended pitch envelopes for compatibility with older MML files.",
        },
    ]
}

/// The `TIMESIG_VALUES` table.
pub open spec fn spec_timesig_values() -> Seq<DocEntry> {
    seq![
        DocEntry {
            key: "3/4",
            label: "3/4",
            insert: "3/4",
            detail: "Three beats per measure.",
            doc: "Show piano-roll measure lines in 3/4.",
        },
        DocEntry {
            key: "4/4",
            label: "4/4",
            insert: "4/4",
            detail: "Four beats per measure (default).",
            doc: "Show piano-roll measure lines in 4/4.",
        },
        DocEntry {
            key: "5/4",
            label: "5/4",
            insert: "5/4",
            detail: "Five beats per measure.",
            doc: "Show piano-roll measure lines in 5/4.",
        },
        DocEntry {
            key: "6/8",
            label: "6/8",
            insert: "6/8",
            detail: "Six eighth-note beats per measure.",
            doc: "Show piano-roll measure lines in 6/8.",
        },
        DocEntry {
            key: "no",
            label: "no",
            insert: "no",
            detail: "No measure lines.",
            doc: "Hide piano-roll measure lines (beat grid remains). Also disables the `|` bar-line rest fill.",
        },
    ]
}

pub fn timesig_values() -> (r: Vec<DocEntry>)
    ensures
        r@ == spec_timesig_values(),
{
    vec![
        DocEntry {
            key: "3/4",
            label: "3/4",
            insert: "3/4",
            detail: "Three beats per measure.",
            doc: "Show piano-roll measure lines in 3/4.",
        },
        DocEntry {
            key: "4/4",
            label: "4/4",
            insert: "4/4",
            detail: "Four beats per measure (default).",
            doc: "Show piano-roll measure lines in 4/4.",
        },
        DocEntry {
            key: "5/4",
            label: "5/4",
            insert: "5/4",
            detail: "Five beats per measure.",
            doc: "Show piano-roll measure lines in 5/4.",
        },
        DocEntry {
            key: "6/8",
            label: "6/8",
            insert: "6/8",
            detail: "Six eighth-note beats per measure.",
            doc: "Show piano-roll measure lines in 6/8.",
        },
        DocEntry {
            key: "no",
            label: "no",
            insert: "no",
            detail: "No measure lines.",
            doc: "Hide piano-roll measure lines (beat grid remains). Also disables the `|` bar-line rest fill.",
        },
    ]
}

/// The `GROUP_VALUES` table.
pub open spec fn spec_group_values() -> Seq<DocEntry> {
    seq![
        DocEntry {
            key: "bgm",
            label: "bgm",
            insert: "bgm",
            detail: "Background music group.",
            doc: "Marks this song as BGM for MDSDRV/ROM grouping.",
        },
        DocEntry {
            key: "se",
            label: "se",
            insert: "se",
            detail: "Sound effect group.",
            doc: "Marks this song as SE for MDSDRV/ROM grouping.",
        },
    ]
}

pub fn group_values() -> (r: Vec<DocEntry>)
    ensures
        r@ == spec_group_values(),
{
    vec![
        DocEntry {
            key: "bgm",
            label: "bgm",
            insert: "bgm",
            detail: "Background music group.",
            doc: "Marks this song as BGM for MDSDRV/ROM grouping.",
        },
        DocEntry {
            key: "se",
            label: "se",
            insert: "se",
            detail: "Sound effect group.",
            doc: "Marks this song as SE for MDSDRV/ROM grouping.",
        },
    ]
}

/// The `INSTRUMENT_TYPES` table.
pub open spec fn spec_instrument_types() -> Seq<DocEntry> {
    seq![
        DocEntry {
            key: "pcm",
            label: "pcm",
            insert: "pcm ",
            detail: "PCM sample instrument",
            doc: "PCM samples are defined as instruments. The first parameter is the path to the sample, relative to the MML file. The sample rate from the WAV file is used. If the WAV file has more than one channel, only the first (left) channel is used.\n\n    @30 pcm \"path/to/sample.wav\"\n\nPCM samples can be played on channels `F`, `K`, and `L`. PCM uses the panning setting from FM channel 6 (`F`), and FM output on that channel is muted while PCM is playing.",
        },
        DocEntry {
            key: "fm",
            label: "fm",
            insert: "fm ",
            detail: "FM synthesis instrument",
            doc: "FM instruments are defined with ALG (algorithm), FB (feedback), and four operators (OP1-OP4). Each operator has: AR (attack rate), DR (decay rate), SR (sustain rate), RR (release rate), SL (sustain level), TL (total level), KS (key scale), ML (multiplier), DT (detune), and SSG (SSG-EG).\n\n    @1 fm\n    ; ALG FB\n        3   0\n    ;  AR  DR  SR  RR  SL  TL  KS  ML  DT SSG\n       31   0  19   5   0  23   0   0   0   0 ; OP1\n       31   6   0   4   3  19   0   0   0   0 ; OP2\n       31  15   0   5   4  38   0   4   0   0 ; OP3\n       31  27   0  11   1   0   0   1   0   0 ; OP4\n\nTo enable AM for an operator, add 100 to the SSG-EG value.",
        },
        DocEntry {
            key: "psg",
            label: "psg",
            insert: "psg ",
            detail: "PSG envelope instrument",
            doc: "PSG instruments (envelopes) are defined as a sequence of values. 15 is the maximum volume and 0 is silence.\n\n    @10 psg 15>10\n\nUse `>` to slide from one value to another (no space around `>`). Use `:` to set the length of each value in frames. Use `/` to set the sustain position or `|` to set the loop position.\n\n    @13 psg 15 14 / 13>0:7\n    @14 psg 0>14:7 | 15 10 5 0 5 10\n\nNote: there must be no space between values and the `>` or `:` commands.",
        },
        DocEntry {
            key: "2op",
            label: "2op",
            insert: "2op   ${1:2}   ${2:5}   ${3:5}   ${4:4}   ${5:4}   ${6:0}",
            detail: "2-operator FM instrument",
            doc: "Create a derived FM instrument from an existing FM patch by changing OP1-OP4 multiply ratios (ML) and adding a transpose. The result is still a normal FM instrument, so the audible operator pairs depend on the base patch's algorithm and levels.\n\nUse this with base patches designed as two 2-operator stacks.\n\n    ;         @ ML1 ML2 ML3 ML4 TRS\n    @24 2op   2   5   5   4   4   0 ; n+4\n    @25 2op   2   4   4   3   3   5 ; n+5",
        },
    ]
}

pub fn instrument_types() -> (r: Vec<DocEntry>)
    ensures
        r@ == spec_instrument_types(),
{
    vec![
        DocEntry {
            key: "pcm",
            label: "pcm",
            insert: "pcm ",
            detail: "PCM sample instrument",
            doc: "PCM samples are defined as instruments. The first parameter is the path to the sample, relative to the MML file. The sample rate from the WAV file is used. If the WAV file has more than one channel, only the first (left) channel is used.\n\n    @30 pcm \"path/to/sample.wav\"\n\nPCM samples can be played on channels `F`, `K`, and `L`. PCM uses the panning setting from FM channel 6 (`F`), and FM output on that channel is muted while PCM is playing.",
        },
        DocEntry {
            key: "fm",
            label: "fm",
            insert: "fm ",
            detail: "FM synthesis instrument",
            doc: "FM instruments are defined with ALG (algorithm), FB (feedback), and four operators (OP1-OP4). Each operator has: AR (attack rate), DR (decay rate), SR (sustain rate), RR (release rate), SL (sustain level), TL (total level), KS (key scale), ML (multiplier), DT (detune), and SSG (SSG-EG).\n\n    @1 fm\n    ; ALG FB\n        3   0\n    ;  AR  DR  SR  RR  SL  TL  KS  ML  DT SSG\n       31   0  19   5   0  23   0   0   0   0 ; OP1\n       31   6   0   4   3  19   0   0   0   0 ; OP2\n       31  15   0   5   4  38   0   4   0   0 ; OP3\n       31  27   0  11   1   0   0   1   0   0 ; OP4\n\nTo enable AM for an operator, add 100 to the SSG-EG value.",
        },
        DocEntry {
            key: "psg",
            label: "psg",
            insert: "psg ",
            detail: "PSG envelope instrument",
            doc: "PSG instruments (envelopes) are defined as a sequence of values. 15 is the maximum volume and 0 is silence.\n\n    @10 psg 15>10\n\nUse `>` to slide from one value to another (no space around `>`). Use `:` to set the length of each value in frames. Use `/` to set the sustain position or `|` to set the loop position.\n\n    @13 psg 15 14 / 13>0:7\n    @14 psg 0>14:7 | 15 10 5 0 5 10\n\nNote: there must be no space between values and the `>` or `:` commands.",
        },
        DocEntry {
            key: "2op",
            label: "2op",
            insert: "2op   ${1:2}   ${2:5}   ${3:5}   ${4:4}   ${5:4}   ${6:0}",
            detail: "2-operator FM instrument",
            doc: "Create a derived FM instrument from an existing FM patch by changing OP1-OP4 multiply ratios (ML) and adding a transpose. The result is still a normal FM instrument, so the audible operator pairs depend on the base patch's algorithm and levels.\n\nUse this with base patches designed as two 2-operator stacks.\n\n    ;         @ ML1 ML2 ML3 ML4 TRS\n    @24 2op   2   5   5   4   4   0 ; n+4\n    @25 2op   2   4   4   3   3   5 ; n+5",
        },
    ]
}

/// The `AT_META` table.
pub open spec fn spec_at_meta() -> Seq<DocEntry> {
    seq![
        DocEntry {
            key: "@<num>",
            label: "@<num>",
            insert: "${1:num}",
            detail: "Instrument definition",
            doc: "Define an instrument table. Use this for FM, PSG, PCM, or 2op instruments. The body depends on the selected instrument type.",
        },
        DocEntry {
            key: "@M<num>",
            label: "@M<num>",
            insert: "M${1:num}",
            detail: "Pitch envelope",
            doc: "Define a pitch envelope table. Use `M<num>` in a track to apply it; `M0` disables it.",
        },
    ]
}

pub fn at_meta() -> (r: Vec<DocEntry>)
    ensures
        r@ == spec_at_meta(),
{
    vec![
        DocEntry {
            key: "@<num>",
            label: "@<num>",
            insert: "${1:num}",
            detail: "Instrument definition",
            doc: "Define an instrument table. Use this for FM, PSG, PCM, or 2op instruments. The body depends on the selected instrument type.",
        },
        DocEntry {
            key: "@M<num>",
            label: "@M<num>",
            insert: "M${1:num}",
            detail: "Pitch envelope",
            doc: "Define a pitch envelope table. Use `M<num>` in a track to apply it; `M0` disables it.",
        },
    ]
}

/// The `RATE_OFFSET` table.
pub open spec fn spec_rate_offset() -> Seq<DocEntry> {
    seq![
        DocEntry {
            key: "rate=",
            label: "rate=<num>",
            insert: "rate=${1:<num>}",
            detail: "Override the sample rate.",
            doc: "Override the sample rate of a PCM instrument. By default the sample rate specified in the WAV file is used. In `mdsdrv` mode, the closest possible sample rate in ~2.2 kHz steps will be selected.\n\n    @30 pcm \"path/to/sample.wav\" rate=8000",
        },
        DocEntry {
            key: "offset=",
            label: "offset=<num>",
            insert: "offset=${1:<num>}",
            detail: "Adjust the start position.",
            doc: "Adjust the start position of a PCM instrument, skipping the specified number of samples from the beginning.\n\n    @30 pcm \"path/to/sample.wav\" offset=4000",
        },
    ]
}

pub fn rate_offset() -> (r: Vec<DocEntry>)
    ensures
        r@ == spec_rate_offset(),
{
    vec![
        DocEntry {
            key: "rate=",
            label: "rate=<num>",
            insert: "rate=${1:<num>}",
            detail: "Override the sample rate.",
            doc: "Override the sample rate of a PCM instrument. By default the sample rate specified in the WAV file is used. In `mdsdrv` mode, the closest possible sample rate in ~2.2 kHz steps will be selected.\n\n    @30 pcm \"path/to/sample.wav\" rate=8000",
        },
        DocEntry {
            key: "offset=",
            label: "offset=<num>",
            insert: "offset=${1:<num>}",
            detail: "Adjust the start position.",
            doc: "Adjust the start position of a PCM instrument, skipping the specified number of samples from the beginning.\n\n    @30 pcm \"path/to/sample.wav\" offset=4000",
        },
    ]
}

/// The `COMMAND_COMPLETIONS` table.
pub open spec fn spec_command_completions() -> Seq<DocEntry> {
    seq![
        DocEntry {
            key: "notes",
            label: "cdefgabh",
            insert: "c",
            detail: "Insert notes.",
            doc: "Insert notes. You can optionally add a duration after each note; otherwise the current `l` value is used.\n\nUse `+`, `-`, or `=` after the note letter to add a sharp, flat, or natural. In normal mode, `h` is the same pitch as `b` (B natural).\n\nExamples: `c4`, `f+8`, `b-16`, `h`, `c:12`.\n\nIn drum mode, `a`..`h` no longer mean pitches. They become 0..7 and call drum macro tracks from the current `D` base index.\n\nA trailing `.` after a duration is a dotted note: it multiplies the duration by 1.5. Multiple dots stack (e.g. `c4..` is `c4` × 1.75).",
        },
        DocEntry {
            key: "r",
            label: "r<duration>",
            insert: "r${1:duration}",
            detail: "Insert a rest.",
            doc: "Insert a rest. You can optionally add a duration after `r`; otherwise the current `l` value is used.\n\nExamples: `r4`, `r8.`, `r:12`.\n\nLike notes, numeric durations are based on the current whole-note length set by `C`.",
        },
        DocEntry {
            key: "o",
            label: "o<1..8>",
            insert: "o${1:1..8}",
            detail: "Set octave.",
            doc: "Set octave. In normal melodic tracks, notes below `o1 c` or above `o8 a` may fail ROM export.",
        },
        DocEntry {
            key: "l",
            label: "l<duration>",
            insert: "l${1:duration}",
            detail: "Set default duration.",
            doc: "Set default duration, used if not specified by notes, rests, `R` or `~` commands.",
        },
        DocEntry {
            key: "Q",
            label: "Q<1..8>",
            insert: "Q${1:1..8}",
            detail: "Quantize.",
            doc: "Quantize. Used to set articulation. Note length is `param / 8`. For example, `Q4` makes notes half length, and `Q8` keeps full length.",
        },
        DocEntry {
            key: "q",
            label: "q<1..8>",
            insert: "q${1:1..8}",
            detail: "Set early release.",
            doc: "Set early release. This makes notes release before their full written length, which can make phrases feel more detached or percussive.\n\nUnlike `Q`, which keeps only a fraction of the note, `q` subtracts a small amount from the end of each note. Higher values release earlier. If the early release would be too large, it is clamped so the note still has at least 1 tick of sounding time.\n\nA simple way to think about it: `Q4` makes a note play for about half its length, while `q4` keeps the note mostly full length but lets go a little early.",
        },
        DocEntry {
            key: "s",
            label: "s<ticks>",
            insert: "s${1:ticks}",
            detail: "Set shuffle.",
            doc: "Set shuffle. The specified number of ticks will be added to the the next note, rest or tie, then subtracted from the next.",
        },
        DocEntry {
            key: "C",
            label: "C<ticks>",
            insert: "C${1:ticks}",
            detail: "Set whole-note length in ticks.",
            doc: "Set the whole-note length in ticks. The default is 96.\n\nThis changes how numeric durations are interpreted: `c4`, `l8`, `r16` and similar values are calculated from this base. Example: with `C96`, `c4` = 24 ticks. With `C192`, `c4` = 48 ticks.\n\nUse this only when you need a non-standard timing base. `:ticks` durations are not affected. BPM calculation currently assumes `C96`, so other values may make tempo readouts inaccurate.",
        },
        DocEntry {
            key: "R",
            label: "R<duration>",
            insert: "R${1:duration}",
            detail: "Reverse rest.",
            doc: "Reverse rest. This subtracts the value from the previous note or rest.",
        },
        DocEntry {
            key: "t",
            label: "t<bpm>",
            insert: "t${1:bpm}",
            detail: "Set tempo (BPM).",
            doc: "Set tempo in BPM. This is global to all channels.",
        },
        DocEntry {
            key: "T",
            label: "T<value>",
            insert: "T${1:value}",
            detail: "Set tempo (native).",
            doc: "Set tempo using the platform's native timer values. This is global to all channels.",
        },
        DocEntry {
            key: "v",
            label: "v<0..15>",
            insert: "v${1:0..15}",
            detail: "Set volume.",
            doc: "Set volume.",
        },
        DocEntry {
            key: "V",
            label: "V<0..127>",
            insert: "V${1:0..127}",
            detail: "Set volume (fine).",
            doc: "Set volume (fine), or modify volume (fine) depending on parameter range.\n\nNote: `0` is maximum volume; higher values attenuate (the parameter maps to the YM2612 TL register convention).",
        },
        DocEntry {
            key: "V",
            label: "V<-128..+127>",
            insert: "V${1:-128..+127}",
            detail: "Modify volume (fine).",
            doc: "Set volume (fine), or modify volume (fine) depending on parameter range.\n\nNote: `0` is maximum volume; higher values attenuate (the parameter maps to the YM2612 TL register convention).",
        },
        DocEntry {
            key: "p",
            label: "p<-128..127>",
            insert: "p${1:-128..+127}",
            detail: "Set panning.",
            doc: "Set panning.\n\nPanning using the `p` command is only allowed for FM channels and the accepted range is 0-3. Bit 1 enables the right channel, bit 2 enables the left channel.",
        },
        DocEntry {
            key: "k",
            label: "k<-128..127>",
            insert: "k${1:-128..+127}",
            detail: "Set transpose.",
            doc: "Set transpose. Default behavior is the same as the `_` command.",
        },
        DocEntry {
            key: "K",
            label: "K<-128..127>",
            insert: "K${1:-128..+127}",
            detail: "Set detune.",
            doc: "Set detune.",
        },
        DocEntry {
            key: "M",
            label: "M<0..255>",
            insert: "M${1:0..255}",
            detail: "Set pitch envelope.",
            doc: "Set the pitch envelope number for this track. Use a table defined with `@M<num>`. `M0` disables the pitch envelope.",
        },
        DocEntry {
            key: "G",
            label: "G<0..255>",
            insert: "G${1:0..255}",
            detail: "Set portamento.",
            doc: "Set the portamento table for this track. Use a table defined with `@<num>` for portamento data. `G0` disables portamento.",
        },
        DocEntry {
            key: "D",
            label: "D<0..255>",
            insert: "D${1:0..255}",
            detail: "Set drum mode.",
            doc: "Enable drum mode and set its base index. `D0` disables drum mode. In drum mode, notes `a`..`h` become 0..7 and call macro tracks starting at the base index. The called macro runs up to its first note, and that note uses the duration from the calling track.",
        },
        DocEntry {
            key: "L",
            label: "L",
            insert: "L",
            detail: "Loop point.",
            doc: "Set loop point (segno). If this is present, playback resumes at this point when the end of the track is reached. This is set per channel / track.",
        },
        DocEntry {
            key: "(",
            label: "(",
            insert: "(",
            detail: "Volume down.",
            doc: "Volume down. Decrease coarse volume by 1, or by the following number if provided.",
        },
        DocEntry {
            key: ")",
            label: ")",
            insert: ")",
            detail: "Volume up.",
            doc: "Volume up. Increase coarse volume by 1, or by the following number if provided.",
        },
        DocEntry {
            key: "^",
            label: "^",
            insert: "^",
            detail: "Tie.",
            doc: "Tie. Extends duration of previous note.",
        },
        DocEntry {
            key: "&",
            label: "&",
            insert: "&",
            detail: "Slur.",
            doc: "Slur. Used to connect two notes (legato).",
        },
        DocEntry {
            key: "\\=",
            label: "\\=<delay>,<volume>",
            insert: "\\=${1:delay},${2:volume}",
            detail: "Echo macro setup.",
            doc: "Set echo macro parameters. The first value is how many notes or rests to backtrack, and the second is the volume reduction for the echoed note.",
        },
        DocEntry {
            key: "\\",
            label: "\\<duration>",
            insert: "\\${1:duration}",
            detail: "Echo note.",
            doc: "Insert an echo note using the parameters previously set by `\\=`. The duration follows the same rules as other note lengths.",
        },
        DocEntry {
            key: "_",
            label: "_<-128..127>",
            insert: "_${1:-128..+127}",
            detail: "Set transpose.",
            doc: "Set transpose.",
        },
        DocEntry {
            key: "__",
            label: "__<-128..127>",
            insert: "__${1:-128..+127}",
            detail: "Set relative transpose.",
            doc: "Set relative transpose.",
        },
        DocEntry {
            key: "_{",
            label: "_{<key signature>}",
            insert: "_{${1:key signature}}",
            detail: "Set key signature.",
            doc: "Set key signature. The default is C major / A minor with no sharps or flats.\n\nExamples: `_{D}` sets D major, `_{c}` sets C minor, `_{+cfg}` sharpens C/F/G without clearing the current signature, `_{-b}` flats B, and `_{=f}` makes F natural while keeping the rest of the current signature.",
        },
        DocEntry {
            key: ">",
            label: ">",
            insert: ">",
            detail: "Octave up.",
            doc: "Increase the current octave by 1.",
        },
        DocEntry {
            key: "<",
            label: "<",
            insert: "<",
            detail: "Octave down.",
            doc: "Decrease the current octave by 1.",
        },
        DocEntry {
            key: "[",
            label: "[ ]",
            insert: "[ ]",
            detail: "Repeat block.",
            doc: "Repeat block. `[` starts the block and `]` ends it. Add `/` inside the block to mark the section skipped on the last repetition.",
        },
        DocEntry {
            key: "]",
            label: "[ ... ] end",
            insert: "]",
            detail: "Repeat bracket end.",
            doc: "End of a loop block. The matching `[` starts the repeated section.",
        },
        DocEntry {
            key: "/",
            label: "/",
            insert: "/",
            detail: "Repeat break / conditional separator.",
            doc: "Inside `[ ... ]`, marks the section skipped on the last repetition. Inside `{ ... }`, separates per-track alternatives.",
        },
        DocEntry {
            key: "{",
            label: "{ / }",
            insert: "{",
            detail: "Conditional block.",
            doc: "Conditional block. `{` starts the block and `}` ends it. When multiple tracks are selected, each `/`-separated branch is assigned in channel order.",
        },
        DocEntry {
            key: "}",
            label: "{ ... / ... } end",
            insert: "}",
            detail: "Conditional block end.",
            doc: "End of a conditional block. Use `/` inside the braces to separate the per-track branches.",
        },
    ]
}

pub fn command_completions() -> (r: Vec<DocEntry>)
    ensures
        r@ == spec_command_completions(),
{
    vec![
        DocEntry {
            key: "notes",
            label: "cdefgabh",
            insert: "c",
            detail: "Insert notes.",
            doc: "Insert notes. You can optionally add a duration after each note; otherwise the current `l` value is used.\n\nUse `+`, `-`, or `=` after the note letter to add a sharp, flat, or natural. In normal mode, `h` is the same pitch as `b` (B natural).\n\nExamples: `c4`, `f+8`, `b-16`, `h`, `c:12`.\n\nIn drum mode, `a`..`h` no longer mean pitches. They become 0..7 and call drum macro tracks from the current `D` base index.\n\nA trailing `.` after a duration is a dotted note: it multiplies the duration by 1.5. Multiple dots stack (e.g. `c4..` is `c4` × 1.75).",
        },
        DocEntry {
            key: "r",
            label: "r<duration>",
            insert: "r${1:duration}",
            detail: "Insert a rest.",
            doc: "Insert a rest. You can optionally add a duration after `r`; otherwise the current `l` value is used.\n\nExamples: `r4`, `r8.`, `r:12`.\n\nLike notes, numeric durations are based on the current whole-note length set by `C`.",
        },
        DocEntry {
            key: "o",
            label: "o<1..8>",
            insert: "o${1:1..8}",
            detail: "Set octave.",
            doc: "Set octave. In normal melodic tracks, notes below `o1 c` or above `o8 a` may fail ROM export.",
        },
        DocEntry {
            key: "l",
            label: "l<duration>",
            insert: "l${1:duration}",
            detail: "Set default duration.",
            doc: "Set default duration, used if not specified by notes, rests, `R` or `~` commands.",
        },
        DocEntry {
            key: "Q",
            label: "Q<1..8>",
            insert: "Q${1:1..8}",
            detail: "Quantize.",
            doc: "Quantize. Used to set articulation. Note length is `param / 8`. For example, `Q4` makes notes half length, and `Q8` keeps full length.",
        },
        DocEntry {
            key: "q",
            label: "q<1..8>",
            insert: "q${1:1..8}",
            detail: "Set early release.",
            doc: "Set early release. This makes notes release before their full written length, which can make phrases feel more detached or percussive.\n\nUnlike `Q`, which keeps only a fraction of the note, `q` subtracts a small amount from the end of each note. Higher values release earlier. If the early release would be too large, it is clamped so the note still has at least 1 tick of sounding time.\n\nA simple way to think about it: `Q4` makes a note play for about half its length, while `q4` keeps the note mostly full length but lets go a little early.",
        },
        DocEntry {
            key: "s",
            label: "s<ticks>",
            insert: "s${1:ticks}",
            detail: "Set shuffle.",
            doc: "Set shuffle. The specified number of ticks will be added to the the next note, rest or tie, then subtracted from the next.",
        },
        DocEntry {
            key: "C",
            label: "C<ticks>",
            insert: "C${1:ticks}",
            detail: "Set whole-note length in ticks.",
            doc: "Set the whole-note length in ticks. The default is 96.\n\nThis changes how numeric durations are interpreted: `c4`, `l8`, `r16` and similar values are calculated from this base. Example: with `C96`, `c4` = 24 ticks. With `C192`, `c4` = 48 ticks.\n\nUse this only when you need a non-standard timing base. `:ticks` durations are not affected. BPM calculation currently assumes `C96`, so other values may make tempo readouts inaccurate.",
        },
        DocEntry {
            key: "R",
            label: "R<duration>",
            insert: "R${1:duration}",
            detail: "Reverse rest.",
            doc: "Reverse rest. This subtracts the value from the previous note or rest.",
        },
        DocEntry {
            key: "t",
            label: "t<bpm>",
            insert: "t${1:bpm}",
            detail: "Set tempo (BPM).",
            doc: "Set tempo in BPM. This is global to all channels.",
        },
        DocEntry {
            key: "T",
            label: "T<value>",
            insert: "T${1:value}",
            detail: "Set tempo (native).",
            doc: "Set tempo using the platform's native timer values. This is global to all channels.",
        },
        DocEntry {
            key: "v",
            label: "v<0..15>",
            insert: "v${1:0..15}",
            detail: "Set volume.",
            doc: "Set volume.",
        },
        DocEntry {
            key: "V",
            label: "V<0..127>",
            insert: "V${1:0..127}",
            detail: "Set volume (fine).",
            doc: "Set volume (fine), or modify volume (fine) depending on parameter range.\n\nNote: `0` is maximum volume; higher values attenuate (the parameter maps to the YM2612 TL register convention).",
        },
        DocEntry {
            key: "V",
            label: "V<-128..+127>",
            insert: "V${1:-128..+127}",
            detail: "Modify volume (fine).",
            doc: "Set volume (fine), or modify volume (fine) depending on parameter range.\n\nNote: `0` is maximum volume; higher values attenuate (the parameter maps to the YM2612 TL register convention).",
        },
        DocEntry {
            key: "p",
            label: "p<-128..127>",
            insert: "p${1:-128..+127}",
            detail: "Set panning.",
            doc: "Set panning.\n\nPanning using the `p` command is only allowed for FM channels and the accepted range is 0-3. Bit 1 enables the right channel, bit 2 enables the left channel.",
        },
        DocEntry {
            key: "k",
            label: "k<-128..127>",
            insert: "k${1:-128..+127}",
            detail: "Set transpose.",
            doc: "Set transpose. Default behavior is the same as the `_` command.",
        },
        DocEntry {
            key: "K",
            label: "K<-128..127>",
            insert: "K${1:-128..+127}",
            detail: "Set detune.",
            doc: "Set detune.",
        },
        DocEntry {
            key: "M",
            label: "M<0..255>",
            insert: "M${1:0..255}",
            detail: "Set pitch envelope.",
            doc: "Set the pitch envelope number for this track. Use a table defined with `@M<num>`. `M0` disables the pitch envelope.",
        },
        DocEntry {
            key: "G",
            label: "G<0..255>",
            insert: "G${1:0..255}",
            detail: "Set portamento.",
            doc: "Set the portamento table for this track. Use a table defined with `@<num>` for portamento data. `G0` disables portamento.",
        },
        DocEntry {
            key: "D",
            label: "D<0..255>",
            insert: "D${1:0..255}",
            detail: "Set drum mode.",
            doc: "Enable drum mode and set its base index. `D0` disables drum mode. In drum mode, notes `a`..`h` become 0..7 and call macro tracks starting at the base index. The called macro runs up to its first note, and that note uses the duration from the calling track.",
        },
        DocEntry {
            key: "L",
            label: "L",
            insert: "L",
            detail: "Loop point.",
            doc: "Set loop point (segno). If this is present, playback resumes at this point when the end of the track is reached. This is set per channel / track.",
        },
        DocEntry {
            key: "(",
            label: "(",
            insert: "(",
            detail: "Volume down.",
            doc: "Volume down. Decrease coarse volume by 1, or by the following number if provided.",
        },
        DocEntry {
            key: ")",
            label: ")",
            insert: ")",
            detail: "Volume up.",
            doc: "Volume up. Increase coarse volume by 1, or by the following number if provided.",
        },
        DocEntry {
            key: "^",
            label: "^",
            insert: "^",
            detail: "Tie.",
            doc: "Tie. Extends duration of previous note.",
        },
        DocEntry {
            key: "&",
            label: "&",
            insert: "&",
            detail: "Slur.",
            doc: "Slur. Used to connect two notes (legato).",
        },
        DocEntry {
            key: "\\=",
            label: "\\=<delay>,<volume>",
            insert: "\\=${1:delay},${2:volume}",
            detail: "Echo macro setup.",
            doc: "Set echo macro parameters. The first value is how many notes or rests to backtrack, and the second is the volume reduction for the echoed note.",
        },
        DocEntry {
            key: "\\",
            label: "\\<duration>",
            insert: "\\${1:duration}",
            detail: "Echo note.",
            doc: "Insert an echo note using the parameters previously set by `\\=`. The duration follows the same rules as other note lengths.",
        },
        DocEntry {
            key: "_",
            label: "_<-128..127>",
            insert: "_${1:-128..+127}",
            detail: "Set transpose.",
            doc: "Set transpose.",
        },
        DocEntry {
            key: "__",
            label: "__<-128..127>",
            insert: "__${1:-128..+127}",
            detail: "Set relative transpose.",
            doc: "Set relative transpose.",
        },
        DocEntry {
            key: "_{",
            label: "_{<key signature>}",
            insert: "_{${1:key signature}}",
            detail: "Set key signature.",
            doc: "Set key signature. The default is C major / A minor with no sharps or flats.\n\nExamples: `_{D}` sets D major, `_{c}` sets C minor, `_{+cfg}` sharpens C/F/G without clearing the current signature, `_{-b}` flats B, and `_{=f}` makes F natural while keeping the rest of the current signature.",
        },
        DocEntry {
            key: ">",
            label: ">",
            insert: ">",
            detail: "Octave up.",
            doc: "Increase the current octave by 1.",
        },
        DocEntry {
            key: "<",
            label: "<",
            insert: "<",
            detail: "Octave down.",
            doc: "Decrease the current octave by 1.",
        },
        DocEntry {
            key: "[",
            label: "[ ]",
            insert: "[ ]",
            detail: "Repeat block.",
            doc: "Repeat block. `[` starts the block and `]` ends it. Add `/` inside the block to mark the section skipped on the last repetition.",
        },
        DocEntry {
            key: "]",
            label: "[ ... ] end",
            insert: "]",
            detail: "Repeat bracket end.",
            doc: "End of a loop block. The matching `[` starts the repeated section.",
        },
        DocEntry {
            key: "/",
            label: "/",
            insert: "/",
            detail: "Repeat break / conditional separator.",
            doc: "Inside `[ ... ]`, marks the section skipped on the last repetition. Inside `{ ... }`, separates per-track alternatives.",
        },
        DocEntry {
            key: "{",
            label: "{ / }",
            insert: "{",
            detail: "Conditional block.",
            doc: "Conditional block. `{` starts the block and `}` ends it. When multiple tracks are selected, each `/`-separated branch is assigned in channel order.",
        },
        DocEntry {
            key: "}",
            label: "{ ... / ... } end",
            insert: "}",
            detail: "Conditional block end.",
            doc: "End of a conditional block. Use `/` inside the braces to separate the per-track branches.",
        },
    ]
}

/// The `HELP_ONLY_COMMANDS` table.
pub open spec fn spec_help_only_commands() -> Seq<DocEntry> {
    seq![
        DocEntry {
            key: "+",
            label: "+",
            insert: "+",
            detail: "Sharp accidental.",
            doc: "Use `+` after a note letter to make that note sharp. This overrides the current key signature for that note.",
        },
        DocEntry {
            key: "-",
            label: "-",
            insert: "-",
            detail: "Flat accidental.",
            doc: "Use `-` after a note letter to make that note flat. This overrides the current key signature for that note.",
        },
        DocEntry {
            key: "=",
            label: "=",
            insert: "=",
            detail: "Natural accidental.",
            doc: "Use `=` after a note letter to force a natural. This overrides the current key signature for that note.",
        },
    ]
}

pub fn help_only_commands() -> (r: Vec<DocEntry>)
    ensures
        r@ == spec_help_only_commands(),
{
    vec![
        DocEntry {
            key: "+",
            label: "+",
            insert: "+",
            detail: "Sharp accidental.",
            doc: "Use `+` after a note letter to make that note sharp. This overrides the current key signature for that note.",
        },
        DocEntry {
            key: "-",
            label: "-",
            insert: "-",
            detail: "Flat accidental.",
            doc: "Use `-` after a note letter to make that note flat. This overrides the current key signature for that note.",
        },
        DocEntry {
            key: "=",
            label: "=",
            insert: "=",
            detail: "Natural accidental.",
            doc: "Use `=` after a note letter to force a natural. This overrides the current key signature for that note.",
        },
    ]
}

/// The `PLATFORM_COMMANDS` table.
pub open spec fn spec_platform_commands() -> Seq<DocEntry> {
    seq![
        DocEntry {
            key: "_",
            label: "_<-128..127>",
            insert: "_0",
            detail: "Set transpose.",
            doc: "Set transpose.",
        },
        DocEntry {
            key: "__",
            label: "__<-128..127>",
            insert: "__0",
            detail: "Set relative transpose.",
            doc: "Set relative transpose.",
        },
        DocEntry {
            key: "_{",
            label: "_{<key signature>}",
            insert: "_{c}",
            detail: "Set key signature.",
            doc: "Set key signature. The default is C major / A minor with no sharps or flats.\n\nExamples: `_{D}` sets D major, `_{c}` sets C minor, `_{+cfg}` sharpens C/F/G without clearing the current signature, `_{-b}` flats B, and `_{=f}` makes F natural while keeping the rest of the current signature.",
        },
        DocEntry {
            key: "fm3",
            label: "fm3 <mask>",
            insert: "fm3 0000",
            detail: "FM3 special mode.",
            doc: "Mega Drive / MDSDRV command. Enable FM3 special mode for selected operators. Mask order is OP4 OP3 OP2 OP1, so 0001=OP1 and 0011=OP1+OP2. Use 1111 to disable special mode. Each bit assigns that operator to this track's independent pitch control. Usually combine C with helper tracks such as MNOP; I and L can also be used.",
        },
        DocEntry {
            key: "lfo",
            label: "lfo <0..3> <0..7>",
            insert: "lfo 0 0",
            detail: "Hardware LFO.",
            doc: "Set hardware LFO AM sensitivity (first) and PM sensitivity (second). These sensitivity settings are per channel. The hardware LFO rate itself is shared globally.",
        },
        DocEntry {
            key: "lforate",
            label: "lforate <0..9>",
            insert: "lforate 0",
            detail: "Hardware LFO rate.",
            doc: "Set hardware LFO rate. 0 disables; 1..9 increase speed (last two are much faster). This is global to all channels.",
        },
        DocEntry {
            key: "carry",
            label: "carry",
            insert: "carry",
            detail: "Macro carry mode.",
            doc: "Mega Drive / MDSDRV command. Keep macro track position after new notes. Use at the start of a macro track.",
        },
        DocEntry {
            key: "mode",
            label: "mode <0..2>",
            insert: "mode 0",
            detail: "PSG noise mode.",
            doc: "PSG noise mode for channel `J`.\n\n\
`mode 0` uses the chip's normal noise register. Notes do not behave like a normal scale here: only the low 3 bits are used, selecting one of eight noise settings.\n\n\
0 = periodic noise, fixed clock (divider 512)\n\
1 = periodic noise, fixed clock (divider 1024)\n\
2 = periodic noise, fixed clock (divider 2048)\n\
3 = periodic noise, source = tone 3\n\
4 = white noise, fixed clock (divider 512)\n\
5 = white noise, fixed clock (divider 1024)\n\
6 = white noise, fixed clock (divider 2048)\n\
7 = white noise, source = tone 3\n\n\
`mode 1` uses tone channel `I` as the frequency source for white noise, so `J` follows PSG3 pitch. Controlling both channels can conflict.\n\n\
`mode 2` uses tone channel `I` as the frequency source for periodic noise.",
        },
        DocEntry {
            key: "pcmmode",
            label: "pcmmode <2..3>",
            insert: "pcmmode 2",
            detail: "PCM playback mode.",
            doc: "Mega Drive / MDSDRV command. Select PCM mixing mode: 2 = 2-channel PCM up to 17.5 kHz, 3 = 3-channel PCM up to about 13 kHz. In `mdsdrv` this matches the ROM driver. In `megadrive` it changes the simulator / VGM DAC playback mode.",
        },
        DocEntry {
            key: "pcmrate",
            label: "pcmrate <1..8>",
            insert: "pcmrate 1",
            detail: "PCM sample rate.",
            doc: "Mega Drive / MDSDRV command. Change PCM pitch in temporary 1..8 steps until the next instrument change. In `mdsdrv`, these are the driver's coarse PCM pitch steps.",
        },
        DocEntry {
            key: "write",
            label: "write <register> <data>",
            insert: "write 00 00",
            detail: "Direct register write.",
            doc: "Write YM2612 FM registers directly. Aliases: dtml*, ksar*, amdr*, sr*, slrr*, ssg*, fbal (use operator number for *). The effect is temporary until the next instrument change. In `megadrive` / VGM this becomes raw YM2612 register writes. XGM / XGM2 converters generally preserve the usual FM operator/channel register range used by these aliases, but arbitrary unrelated YM writes may not survive conversion.",
        },
        DocEntry {
            key: "fbal",
            label: "fbal <value>",
            insert: "fbal 00",
            detail: "Feedback / Algorithm.",
            doc: "Override feedback and algorithm. Value = (FB << 3) | ALG. Temporary until next instrument change.",
        },
        DocEntry {
            key: "tl1",
            label: "tl1 <value>",
            insert: "tl1 0",
            detail: "TL operator 1.",
            doc: "Set total level. Supports +/- for relative. OP1. Temporary until next instrument change.",
        },
        DocEntry {
            key: "tl2",
            label: "tl2 <value>",
            insert: "tl2 0",
            detail: "TL operator 2.",
            doc: "Set total level. Supports +/- for relative. OP2. Temporary until next instrument change.",
        },
        DocEntry {
            key: "tl3",
            label: "tl3 <value>",
            insert: "tl3 0",
            detail: "TL operator 3.",
            doc: "Set total level. Supports +/- for relative. OP3. Temporary until next instrument change.",
        },
        DocEntry {
            key: "tl4",
            label: "tl4 <value>",
            insert: "tl4 0",
            detail: "TL operator 4.",
            doc: "Set total level. Supports +/- for relative. OP4. Temporary until next instrument change.",
        },
        DocEntry {
            key: "dtml1",
            label: "dtml1 <value>",
            insert: "dtml1 00",
            detail: "DT/MUL operator 1.",
            doc: "Override detune and multiplier. Value = (DT << 4) | MUL. OP1. Temporary until next instrument change.",
        },
        DocEntry {
            key: "dtml2",
            label: "dtml2 <value>",
            insert: "dtml2 00",
            detail: "DT/MUL operator 2.",
            doc: "Override detune and multiplier. Value = (DT << 4) | MUL. OP2. Temporary until next instrument change.",
        },
        DocEntry {
            key: "dtml3",
            label: "dtml3 <value>",
            insert: "dtml3 00",
            detail: "DT/MUL operator 3.",
            doc: "Override detune and multiplier. Value = (DT << 4) | MUL. OP3. Temporary until next instrument change.",
        },
        DocEntry {
            key: "dtml4",
            label: "dtml4 <value>",
            insert: "dtml4 00",
            detail: "DT/MUL operator 4.",
            doc: "Override detune and multiplier. Value = (DT << 4) | MUL. OP4. Temporary until next instrument change.",
        },
        DocEntry {
            key: "ksar1",
            label: "ksar1 <value>",
            insert: "ksar1 31",
            detail: "KS/AR operator 1.",
            doc: "Override key scale and attack rate. Value = (KS << 6) | AR. OP1. Temporary until next instrument change.",
        },
        DocEntry {
            key: "ksar2",
            label: "ksar2 <value>",
            insert: "ksar2 31",
            detail: "KS/AR operator 2.",
            doc: "Override key scale and attack rate. Value = (KS << 6) | AR. OP2. Temporary until next instrument change.",
        },
        DocEntry {
            key: "ksar3",
            label: "ksar3 <value>",
            insert: "ksar3 31",
            detail: "KS/AR operator 3.",
            doc: "Override key scale and attack rate. Value = (KS << 6) | AR. OP3. Temporary until next instrument change.",
        },
        DocEntry {
            key: "ksar4",
            label: "ksar4 <value>",
            insert: "ksar4 31",
            detail: "KS/AR operator 4.",
            doc: "Override key scale and attack rate. Value = (KS << 6) | AR. OP4. Temporary until next instrument change.",
        },
        DocEntry {
            key: "amdr1",
            label: "amdr1 <value>",
            insert: "amdr1 00",
            detail: "AM/DR operator 1.",
            doc: "Override AM enable and decay rate. Value = (AM << 7) | DR. OP1. Temporary until next instrument change.",
        },
        DocEntry {
            key: "amdr2",
            label: "amdr2 <value>",
            insert: "amdr2 00",
            detail: "AM/DR operator 2.",
            doc: "Override AM enable and decay rate. Value = (AM << 7) | DR. OP2. Temporary until next instrument change.",
        },
        DocEntry {
            key: "amdr3",
            label: "amdr3 <value>",
            insert: "amdr3 00",
            detail: "AM/DR operator 3.",
            doc: "Override AM enable and decay rate. Value = (AM << 7) | DR. OP3. Temporary until next instrument change.",
        },
        DocEntry {
            key: "amdr4",
            label: "amdr4 <value>",
            insert: "amdr4 00",
            detail: "AM/DR operator 4.",
            doc: "Override AM enable and decay rate. Value = (AM << 7) | DR. OP4. Temporary until next instrument change.",
        },
        DocEntry {
            key: "sr1",
            label: "sr1 <value>",
            insert: "sr1 0",
            detail: "Sustain rate operator 1.",
            doc: "Override sustain rate (0..31). OP1. Temporary until next instrument change.",
        },
        DocEntry {
            key: "sr2",
            label: "sr2 <value>",
            insert: "sr2 0",
            detail: "Sustain rate operator 2.",
            doc: "Override sustain rate (0..31). OP2. Temporary until next instrument change.",
        },
        DocEntry {
            key: "sr3",
            label: "sr3 <value>",
            insert: "sr3 0",
            detail: "Sustain rate operator 3.",
            doc: "Override sustain rate (0..31). OP3. Temporary until next instrument change.",
        },
        DocEntry {
            key: "sr4",
            label: "sr4 <value>",
            insert: "sr4 0",
            detail: "Sustain rate operator 4.",
            doc: "Override sustain rate (0..31). OP4. Temporary until next instrument change.",
        },
        DocEntry {
            key: "slrr1",
            label: "slrr1 <value>",
            insert: "slrr1 00",
            detail: "SL/RR operator 1.",
            doc: "Override sustain level and release rate. Value = (SL << 4) | RR. OP1. Temporary until next instrument change.",
        },
        DocEntry {
            key: "slrr2",
            label: "slrr2 <value>",
            insert: "slrr2 00",
            detail: "SL/RR operator 2.",
            doc: "Override sustain level and release rate. Value = (SL << 4) | RR. OP2. Temporary until next instrument change.",
        },
        DocEntry {
            key: "slrr3",
            label: "slrr3 <value>",
            insert: "slrr3 00",
            detail: "SL/RR operator 3.",
            doc: "Override sustain level and release rate. Value = (SL << 4) | RR. OP3. Temporary until next instrument change.",
        },
        DocEntry {
            key: "slrr4",
            label: "slrr4 <value>",
            insert: "slrr4 00",
            detail: "SL/RR operator 4.",
            doc: "Override sustain level and release rate. Value = (SL << 4) | RR. OP4. Temporary until next instrument change.",
        },
        DocEntry {
            key: "ssg1",
            label: "ssg1 <value>",
            insert: "ssg1 0",
            detail: "SSG-EG operator 1.",
            doc: "Override SSG-EG mode (0..15). OP1. Temporary until next instrument change.",
        },
        DocEntry {
            key: "ssg2",
            label: "ssg2 <value>",
            insert: "ssg2 0",
            detail: "SSG-EG operator 2.",
            doc: "Override SSG-EG mode (0..15). OP2. Temporary until next instrument change.",
        },
        DocEntry {
            key: "ssg3",
            label: "ssg3 <value>",
            insert: "ssg3 0",
            detail: "SSG-EG operator 3.",
            doc: "Override SSG-EG mode (0..15). OP3. Temporary until next instrument change.",
        },
        DocEntry {
            key: "ssg4",
            label: "ssg4 <value>",
            insert: "ssg4 0",
            detail: "SSG-EG operator 4.",
            doc: "Override SSG-EG mode (0..15). OP4. Temporary until next instrument change.",
        },
    ]
}

pub fn platform_commands() -> (r: Vec<DocEntry>)
    ensures
        r@ == spec_platform_commands(),
{
    vec![
        DocEntry {
            key: "_",
            label: "_<-128..127>",
            insert: "_0",
            detail: "Set transpose.",
            doc: "Set transpose.",
        },
        DocEntry {
            key: "__",
            label: "__<-128..127>",
            insert: "__0",
            detail: "Set relative transpose.",
            doc: "Set relative transpose.",
        },
        DocEntry {
            key: "_{",
            label: "_{<key signature>}",
            insert: "_{c}",
            detail: "Set key signature.",
            doc: "Set key signature. The default is C major / A minor with no sharps or flats.\n\nExamples: `_{D}` sets D major, `_{c}` sets C minor, `_{+cfg}` sharpens C/F/G without clearing the current signature, `_{-b}` flats B, and `_{=f}` makes F natural while keeping the rest of the current signature.",
        },
        DocEntry {
            key: "fm3",
            label: "fm3 <mask>",
            insert: "fm3 0000",
            detail: "FM3 special mode.",
            doc: "Mega Drive / MDSDRV command. Enable FM3 special mode for selected operators. Mask order is OP4 OP3 OP2 OP1, so 0001=OP1 and 0011=OP1+OP2. Use 1111 to disable special mode. Each bit assigns that operator to this track's independent pitch control. Usually combine C with helper tracks such as MNOP; I and L can also be used.",
        },
        DocEntry {
            key: "lfo",
            label: "lfo <0..3> <0..7>",
            insert: "lfo 0 0",
            detail: "Hardware LFO.",
            doc: "Set hardware LFO AM sensitivity (first) and PM sensitivity (second). These sensitivity settings are per channel. The hardware LFO rate itself is shared globally.",
        },
        DocEntry {
            key: "lforate",
            label: "lforate <0..9>",
            insert: "lforate 0",
            detail: "Hardware LFO rate.",
            doc: "Set hardware LFO rate. 0 disables; 1..9 increase speed (last two are much faster). This is global to all channels.",
        },
        DocEntry {
            key: "carry",
            label: "carry",
            insert: "carry",
            detail: "Macro carry mode.",
            doc: "Mega Drive / MDSDRV command. Keep macro track position after new notes. Use at the start of a macro track.",
        },
        DocEntry {
            key: "mode",
            label: "mode <0..2>",
            insert: "mode 0",
            detail: "PSG noise mode.",
            doc: "PSG noise mode for channel `J`.\n\n\
`mode 0` uses the chip's normal noise register. Notes do not behave like a normal scale here: only the low 3 bits are used, selecting one of eight noise settings.\n\n\
0 = periodic noise, fixed clock (divider 512)\n\
1 = periodic noise, fixed clock (divider 1024)\n\
2 = periodic noise, fixed clock (divider 2048)\n\
3 = periodic noise, source = tone 3\n\
4 = white noise, fixed clock (divider 512)\n\
5 = white noise, fixed clock (divider 1024)\n\
6 = white noise, fixed clock (divider 2048)\n\
7 = white noise, source = tone 3\n\n\
`mode 1` uses tone channel `I` as the frequency source for white noise, so `J` follows PSG3 pitch. Controlling both channels can conflict.\n\n\
`mode 2` uses tone channel `I` as the frequency source for periodic noise.",
        },
        DocEntry {
            key: "pcmmode",
            label: "pcmmode <2..3>",
            insert: "pcmmode 2",
            detail: "PCM playback mode.",
            doc: "Mega Drive / MDSDRV command. Select PCM mixing mode: 2 = 2-channel PCM up to 17.5 kHz, 3 = 3-channel PCM up to about 13 kHz. In `mdsdrv` this matches the ROM driver. In `megadrive` it changes the simulator / VGM DAC playback mode.",
        },
        DocEntry {
            key: "pcmrate",
            label: "pcmrate <1..8>",
            insert: "pcmrate 1",
            detail: "PCM sample rate.",
            doc: "Mega Drive / MDSDRV command. Change PCM pitch in temporary 1..8 steps until the next instrument change. In `mdsdrv`, these are the driver's coarse PCM pitch steps.",
        },
        DocEntry {
            key: "write",
            label: "write <register> <data>",
            insert: "write 00 00",
            detail: "Direct register write.",
            doc: "Write YM2612 FM registers directly. Aliases: dtml*, ksar*, amdr*, sr*, slrr*, ssg*, fbal (use operator number for *). The effect is temporary until the next instrument change. In `megadrive` / VGM this becomes raw YM2612 register writes. XGM / XGM2 converters generally preserve the usual FM operator/channel register range used by these aliases, but arbitrary unrelated YM writes may not survive conversion.",
        },
        DocEntry {
            key: "fbal",
            label: "fbal <value>",
            insert: "fbal 00",
            detail: "Feedback / Algorithm.",
            doc: "Override feedback and algorithm. Value = (FB << 3) | ALG. Temporary until next instrument change.",
        },
        DocEntry {
            key: "tl1",
            label: "tl1 <value>",
            insert: "tl1 0",
            detail: "TL operator 1.",
            doc: "Set total level. Supports +/- for relative. OP1. Temporary until next instrument change.",
        },
        DocEntry {
            key: "tl2",
            label: "tl2 <value>",
            insert: "tl2 0",
            detail: "TL operator 2.",
            doc: "Set total level. Supports +/- for relative. OP2. Temporary until next instrument change.",
        },
        DocEntry {
            key: "tl3",
            label: "tl3 <value>",
            insert: "tl3 0",
            detail: "TL operator 3.",
            doc: "Set total level. Supports +/- for relative. OP3. Temporary until next instrument change.",
        },
        DocEntry {
            key: "tl4",
            label: "tl4 <value>",
            insert: "tl4 0",
            detail: "TL operator 4.",
            doc: "Set total level. Supports +/- for relative. OP4. Temporary until next instrument change.",
        },
        DocEntry {
            key: "dtml1",
            label: "dtml1 <value>",
            insert: "dtml1 00",
            detail: "DT/MUL operator 1.",
            doc: "Override detune and multiplier. Value = (DT << 4) | MUL. OP1. Temporary until next instrument change.",
        },
        DocEntry {
            key: "dtml2",
            label: "dtml2 <value>",
            insert: "dtml2 00",
            detail: "DT/MUL operator 2.",
            doc: "Override detune and multiplier. Value = (DT << 4) | MUL. OP2. Temporary until next instrument change.",
        },
        DocEntry {
            key: "dtml3",
            label: "dtml3 <value>",
            insert: "dtml3 00",
            detail: "DT/MUL operator 3.",
            doc: "Override detune and multiplier. Value = (DT << 4) | MUL. OP3. Temporary until next instrument change.",
        },
        DocEntry {
            key: "dtml4",
            label: "dtml4 <value>",
            insert: "dtml4 00",
            detail: "DT/MUL operator 4.",
            doc: "Override detune and multiplier. Value = (DT << 4) | MUL. OP4. Temporary until next instrument change.",
        },
        DocEntry {
            key: "ksar1",
            label: "ksar1 <value>",
            insert: "ksar1 31",
            detail: "KS/AR operator 1.",
            doc: "Override key scale and attack rate. Value = (KS << 6) | AR. OP1. Temporary until next instrument change.",
        },
        DocEntry {
            key: "ksar2",
            label: "ksar2 <value>",
            insert: "ksar2 31",
            detail: "KS/AR operator 2.",
            doc: "Override key scale and attack rate. Value = (KS << 6) | AR. OP2. Temporary until next instrument change.",
        },
        DocEntry {
            key: "ksar3",
            label: "ksar3 <value>",
            insert: "ksar3 31",
            detail: "KS/AR operator 3.",
            doc: "Override key scale and attack rate. Value = (KS << 6) | AR. OP3. Temporary until next instrument change.",
        },
        DocEntry {
            key: "ksar4",
            label: "ksar4 <value>",
            insert: "ksar4 31",
            detail: "KS/AR operator 4.",
            doc: "Override key scale and attack rate. Value = (KS << 6) | AR. OP4. Temporary until next instrument change.",
        },
        DocEntry {
            key: "amdr1",
            label: "amdr1 <value>",
            insert: "amdr1 00",
            detail: "AM/DR operator 1.",
            doc: "Override AM enable and decay rate. Value = (AM << 7) | DR. OP1. Temporary until next instrument change.",
        },
        DocEntry {
            key: "amdr2",
            label: "amdr2 <value>",
            insert: "amdr2 00",
            detail: "AM/DR operator 2.",
            doc: "Override AM enable and decay rate. Value = (AM << 7) | DR. OP2. Temporary until next instrument change.",
        },
        DocEntry {
            key: "amdr3",
            label: "amdr3 <value>",
            insert: "amdr3 00",
            detail: "AM/DR operator 3.",
            doc: "Override AM enable and decay rate. Value = (AM << 7) | DR. OP3. Temporary until next instrument change.",
        },
        DocEntry {
            key: "amdr4",
            label: "amdr4 <value>",
            insert: "amdr4 00",
            detail: "AM/DR operator 4.",
            doc: "Override AM enable and decay rate. Value = (AM << 7) | DR. OP4. Temporary until next instrument change.",
        },
        DocEntry {
            key: "sr1",
            label: "sr1 <value>",
            insert: "sr1 0",
            detail: "Sustain rate operator 1.",
            doc: "Override sustain rate (0..31). OP1. Temporary until next instrument change.",
        },
        DocEntry {
            key: "sr2",
            label: "sr2 <value>",
            insert: "sr2 0",
            detail: "Sustain rate operator 2.",
            doc: "Override sustain rate (0..31). OP2. Temporary until next instrument change.",
        },
        DocEntry {
            key: "sr3",
            label: "sr3 <value>",
            insert: "sr3 0",
            detail: "Sustain rate operator 3.",
            doc: "Override sustain rate (0..31). OP3. Temporary until next instrument change.",
        },
        DocEntry {
            key: "sr4",
            label: "sr4 <value>",
            insert: "sr4 0",
            detail: "Sustain rate operator 4.",
            doc: "Override sustain rate (0..31). OP4. Temporary until next instrument change.",
        },
        DocEntry {
            key: "slrr1",
            label: "slrr1 <value>",
            insert: "slrr1 00",
            detail: "SL/RR operator 1.",
            doc: "Override sustain level and release rate. Value = (SL << 4) | RR. OP1. Temporary until next instrument change.",
        },
        DocEntry {
            key: "slrr2",
            label: "slrr2 <value>",
            insert: "slrr2 00",
            detail: "SL/RR operator 2.",
            doc: "Override sustain level and release rate. Value = (SL << 4) | RR. OP2. Temporary until next instrument change.",
        },
        DocEntry {
            key: "slrr3",
            label: "slrr3 <value>",
            insert: "slrr3 00",
            detail: "SL/RR operator 3.",
            doc: "Override sustain level and release rate. Value = (SL << 4) | RR. OP3. Temporary until next instrument change.",
        },
        DocEntry {
            key: "slrr4",
            label: "slrr4 <value>",
            insert: "slrr4 00",
            detail: "SL/RR operator 4.",
            doc: "Override sustain level and release rate. Value = (SL << 4) | RR. OP4. Temporary until next instrument change.",
        },
        DocEntry {
            key: "ssg1",
            label: "ssg1 <value>",
            insert: "ssg1 0",
            detail: "SSG-EG operator 1.",
            doc: "Override SSG-EG mode (0..15). OP1. Temporary until next instrument change.",
        },
        DocEntry {
            key: "ssg2",
            label: "ssg2 <value>",
            insert: "ssg2 0",
            detail: "SSG-EG operator 2.",
            doc: "Override SSG-EG mode (0..15). OP2. Temporary until next instrument change.",
        },
        DocEntry {
            key: "ssg3",
            label: "ssg3 <value>",
            insert: "ssg3 0",
            detail: "SSG-EG operator 3.",
            doc: "Override SSG-EG mode (0..15). OP3. Temporary until next instrument change.",
        },
        DocEntry {
            key: "ssg4",
            label: "ssg4 <value>",
            insert: "ssg4 0",
            detail: "SSG-EG operator 4.",
            doc: "Override SSG-EG mode (0..15). OP4. Temporary until next instrument change.",
        },
    ]
}

/// The `FM_PARAM_DOCS` table.
pub open spec fn spec_fm_param_docs() -> Seq<DocEntry> {
    seq![
        DocEntry {
            key: "ALG",
            label: "Algorithm (0..7)",
            insert: "",
            detail: "",
            doc: "",
        },
        DocEntry {
            key: "FB",
            label: "Feedback (0..7)",
            insert: "",
            detail: "",
            doc: "",
        },
        DocEntry {
            key: "AR",
            label: "Attack Rate (0..31)",
            insert: "",
            detail: "",
            doc: "",
        },
        DocEntry {
            key: "DR",
            label: "Decay Rate (0..31)",
            insert: "",
            detail: "",
            doc: "",
        },
        DocEntry {
            key: "SR",
            label: "Sustain Rate (0..31)",
            insert: "",
            detail: "",
            doc: "",
        },
        DocEntry {
            key: "RR",
            label: "Release Rate (0..15)",
            insert: "",
            detail: "",
            doc: "",
        },
        DocEntry {
            key: "SL",
            label: "Sustain Level (0..15)",
            insert: "",
            detail: "",
            doc: "",
        },
        DocEntry {
            key: "TL",
            label: "Total Level (0..127)",
            insert: "",
            detail: "",
            doc: "",
        },
        DocEntry {
            key: "KS",
            label: "Key Scale (0..3)",
            insert: "",
            detail: "",
            doc: "",
        },
        DocEntry {
            key: "ML",
            label: "Multiple (0..15)",
            insert: "",
            detail: "",
            doc: "1 is normal, 2 is 2x, 3 is 3x, 0 is 0.5x.",
        },
        DocEntry {
            key: "DT",
            label: "Detune (0..7)",
            insert: "",
            detail: "",
            doc: "",
        },
        DocEntry {
            key: "SSG",
            label: "SSG-EG",
            insert: "",
            detail: "",
            doc: "SSG-EG type: 0..7, enabled: +8, AM enabled: +100.",
        },
        DocEntry {
            key: "TRS",
            label: "Transpose (-24..24)",
            insert: "",
            detail: "",
            doc: "",
        },
    ]
}

pub fn fm_param_docs() -> (r: Vec<DocEntry>)
    ensures
        r@ == spec_fm_param_docs(),
{
    vec![
        DocEntry {
            key: "ALG",
            label: "Algorithm (0..7)",
            insert: "",
            detail: "",
            doc: "",
        },
        DocEntry {
            key: "FB",
            label: "Feedback (0..7)",
            insert: "",
            detail: "",
            doc: "",
        },
        DocEntry {
            key: "AR",
            label: "Attack Rate (0..31)",
            insert: "",
            detail: "",
            doc: "",
        },
        DocEntry {
            key: "DR",
            label: "Decay Rate (0..31)",
            insert: "",
            detail: "",
            doc: "",
        },
        DocEntry {
            key: "SR",
            label: "Sustain Rate (0..31)",
            insert: "",
            detail: "",
            doc: "",
        },
        DocEntry {
            key: "RR",
            label: "Release Rate (0..15)",
            insert: "",
            detail: "",
            doc: "",
        },
        DocEntry {
            key: "SL",
            label: "Sustain Level (0..15)",
            insert: "",
            detail: "",
            doc: "",
        },
        DocEntry {
            key: "TL",
            label: "Total Level (0..127)",
            insert: "",
            detail: "",
            doc: "",
        },
        DocEntry {
            key: "KS",
            label: "Key Scale (0..3)",
            insert: "",
            detail: "",
            doc: "",
        },
        DocEntry {
            key: "ML",
            label: "Multiple (0..15)",
            insert: "",
            detail: "",
            doc: "1 is normal, 2 is 2x, 3 is 3x, 0 is 0.5x.",
        },
        DocEntry {
            key: "DT",
            label: "Detune (0..7)",
            insert: "",
            detail: "",
            doc: "",
        },
        DocEntry {
            key: "SSG",
            label: "SSG-EG",
            insert: "",
            detail: "",
            doc: "SSG-EG type: 0..7, enabled: +8, AM enabled: +100.",
        },
        DocEntry {
            key: "TRS",
            label: "Transpose (-24..24)",
            insert: "",
            detail: "",
            doc: "",
        },
    ]
}

/// The `TWO_OP_PARAM_DOCS` table.
pub open spec fn spec_two_op_param_docs() -> Seq<DocEntry> {
    seq![
        DocEntry {
            key: "",
            label: "FM Instrument Number",
            insert: "",
            detail: "",
            doc: "FM instrument number to duplicate.",
        },
        DocEntry {
            key: "",
            label: "OP1 Multiple (0..15)",
            insert: "",
            detail: "",
            doc: "1 is normal, 2 is 2x, 3 is 3x, 0 is 0.5x.",
        },
        DocEntry {
            key: "",
            label: "OP2 Multiple (0..15)",
            insert: "",
            detail: "",
            doc: "1 is normal, 2 is 2x, 3 is 3x, 0 is 0.5x.",
        },
        DocEntry {
            key: "",
            label: "OP3 Multiple (0..15)",
            insert: "",
            detail: "",
            doc: "1 is normal, 2 is 2x, 3 is 3x, 0 is 0.5x.",
        },
        DocEntry {
            key: "",
            label: "OP4 Multiple (0..15)",
            insert: "",
            detail: "",
            doc: "1 is normal, 2 is 2x, 3 is 3x, 0 is 0.5x.",
        },
        DocEntry {
            key: "",
            label: "Transpose (-24..24)",
            insert: "",
            detail: "",
            doc: "Transpose in semitones (-24..24).",
        },
    ]
}

pub fn two_op_param_docs() -> (r: Vec<DocEntry>)
    ensures
        r@ == spec_two_op_param_docs(),
{
    vec![
        DocEntry {
            key: "",
            label: "FM Instrument Number",
            insert: "",
            detail: "",
            doc: "FM instrument number to duplicate.",
        },
        DocEntry {
            key: "",
            label: "OP1 Multiple (0..15)",
            insert: "",
            detail: "",
            doc: "1 is normal, 2 is 2x, 3 is 3x, 0 is 0.5x.",
        },
        DocEntry {
            key: "",
            label: "OP2 Multiple (0..15)",
            insert: "",
            detail: "",
            doc: "1 is normal, 2 is 2x, 3 is 3x, 0 is 0.5x.",
        },
        DocEntry {
            key: "",
            label: "OP3 Multiple (0..15)",
            insert: "",
            detail: "",
            doc: "1 is normal, 2 is 2x, 3 is 3x, 0 is 0.5x.",
        },
        DocEntry {
            key: "",
            label: "OP4 Multiple (0..15)",
            insert: "",
            detail: "",
            doc: "1 is normal, 2 is 2x, 3 is 3x, 0 is 0.5x.",
        },
        DocEntry {
            key: "",
            label: "Transpose (-24..24)",
            insert: "",
            detail: "",
            doc: "Transpose in semitones (-24..24).",
        },
    ]
}

pub open spec fn spec_meta_keywords_trigger_suggest() -> Seq<&'static str> {
    seq!["#platform", "#option", "#group", "#timesig"]
}

pub fn meta_keywords_trigger_suggest() -> (r: Vec<&'static str>)
    ensures
        r@ == spec_meta_keywords_trigger_suggest(),
{
    vec!["#platform", "#option", "#group", "#timesig"]
}

pub open spec fn spec_instrument_types_trigger_suggest() -> Seq<&'static str> {
    seq!["fm", "pcm"]
}

pub fn instrument_types_trigger_suggest() -> (r: Vec<&'static str>)
    ensures
        r@ == spec_instrument_types_trigger_suggest(),
{
    vec!["fm", "pcm"]
}

pub open spec fn spec_at_meta_completion_labels() -> Seq<&'static str> {
    seq!["@<num>", "@M<num>"]
}

pub fn at_meta_completion_labels() -> (r: Vec<&'static str>)
    ensures
        r@ == spec_at_meta_completion_labels(),
{
    vec!["@<num>", "@M<num>"]
}

pub open spec fn spec_fm_default_template() -> &'static str {
    " ; ${1:default}\n; ALG  FB\n    ${2:3}   ${3:4}\n;  AR  DR  SR  RR  SL  TL  KS  ML  DT SSG\n   ${4:31}   ${5:0}   ${6:0}   ${7:5}   ${8:0}   ${9:48}   ${10:0}   ${11:1}   ${12:3}   ${13:0} ; OP1\n   ${14:31}   ${15:0}   ${16:0}   ${17:5}   ${18:0}   ${19:36}   ${20:0}   ${21:1}   ${22:3}   ${23:0} ; OP2\n   ${24:31}   ${25:0}   ${26:0}   ${27:5}   ${28:0}   ${29:24}   ${30:0}   ${31:1}   ${32:3}   ${33:0} ; OP3\n   ${34:31}   ${35:0}   ${36:0}   ${37:5}   ${38:0}   ${39:12}   ${40:0}   ${41:1}   ${42:4}   ${43:0} ; OP4\n"
}

pub fn fm_default_template() -> (r: &'static str)
    ensures
        r == spec_fm_default_template(),
{
    " ; ${1:default}\n; ALG  FB\n    ${2:3}   ${3:4}\n;  AR  DR  SR  RR  SL  TL  KS  ML  DT SSG\n   ${4:31}   ${5:0}   ${6:0}   ${7:5}   ${8:0}   ${9:48}   ${10:0}   ${11:1}   ${12:3}   ${13:0} ; OP1\n   ${14:31}   ${15:0}   ${16:0}   ${17:5}   ${18:0}   ${19:36}   ${20:0}   ${21:1}   ${22:3}   ${23:0} ; OP2\n   ${24:31}   ${25:0}   ${26:0}   ${27:5}   ${28:0}   ${29:24}   ${30:0}   ${31:1}   ${32:3}   ${33:0} ; OP3\n   ${34:31}   ${35:0}   ${36:0}   ${37:5}   ${38:0}   ${39:12}   ${40:0}   ${41:1}   ${42:4}   ${43:0} ; OP4\n"
}

pub open spec fn spec_track_doc_numeric() -> &'static str {
    "Select track by number.\n\n\
`A`..`Z` are shorthand for `*0`..`*25`.\n\n\
On Mega Drive, `*0`..`*15` are the channel/dummy tracks.\n\
`*32` and above are typically used as macro/subroutine tracks."
}

pub fn track_doc_numeric() -> (r: &'static str)
    ensures
        r == spec_track_doc_numeric(),
{
    "Select track by number.\n\n\
`A`..`Z` are shorthand for `*0`..`*25`.\n\n\
On Mega Drive, `*0`..`*15` are the channel/dummy tracks.\n\
`*32` and above are typically used as macro/subroutine tracks."
}

pub open spec fn spec_track_doc_letters() -> &'static str {
    "Select tracks.\n\n\
`A`..`Z` are shorthand for `*0`..`*25`.\n\
`*32` and above are typically used as macro/subroutine tracks.\n\n\
Channel mapping:\n\
- FM = `ABCDEF`\n\
- PSG tone = `GHI`\n\
- PSG noise = `J`\n\
- PCM = `FKL` (shares FM6)\n\
- FM3 Special = `C` + helper tracks\n\
- Usually `MNOP`; `I` and `L` may also be used"
}

pub fn track_doc_letters() -> (r: &'static str)
    ensures
        r == spec_track_doc_letters(),
{
    "Select tracks.\n\n\
`A`..`Z` are shorthand for `*0`..`*25`.\n\
`*32` and above are typically used as macro/subroutine tracks.\n\n\
Channel mapping:\n\
- FM = `ABCDEF`\n\
- PSG tone = `GHI`\n\
- PSG noise = `J`\n\
- PCM = `FKL` (shares FM6)\n\
- FM3 Special = `C` + helper tracks\n\
- Usually `MNOP`; `I` and `L` may also be used"
}

/// Title used for track-selector hovers, naming both selector forms.
pub fn track_help_label() -> (r: &'static str)
    ensures
        r@ == "A..Z / *<num>"@,
{
    "A..Z / *<num>"
}

// ---------------------------------------------------------------------------
// Lookup helpers
// ---------------------------------------------------------------------------

/// Index of the first entry of `t` at or after `i` whose key is `key`,
/// or `t.len()`.
pub open spec fn key_index(t: Seq<DocEntry>, key: Seq<char>, i: int) -> int
    decreases t.len() - i,
{
    if i < 0 || i >= t.len() {
        t.len() as int
    } else if t[i].key@ == key {
        i
    } else {
        key_index(t, key, i + 1)
    }
}

/// Index of the first entry of `t` at or after `i` whose label is
/// `label`, or `t.len()`.
pub open spec fn label_index(t: Seq<DocEntry>, label: Seq<char>, i: int) -> int
    decreases t.len() - i,
{
    if i < 0 || i >= t.len() {
        t.len() as int
    } else if t[i].label@ == label {
        i
    } else {
        label_index(t, label, i + 1)
    }
}

/// The first entry of `t` whose key is `key`.
pub open spec fn entry_for_key(t: Seq<DocEntry>, key: Seq<char>) -> Option<DocEntry> {
    let k = key_index(t, key, 0);
    if k < t.len() { Some(t[k]) } else { None }
}

/// The first entry of `t` whose label is `label`.
pub open spec fn entry_for_label(t: Seq<DocEntry>, label: Seq<char>) -> Option<DocEntry> {
    let k = label_index(t, label, 0);
    if k < t.len() { Some(t[k]) } else { None }
}

/// `s`, unless it is empty.
pub open spec fn nonempty_doc(s: &'static str) -> Option<&'static str> {
    if s@.len() == 0 { None } else { Some(s) }
}

/// The non-empty documentation of the first entry of `t` keyed `key`.
pub open spec fn doc_for_key(t: Seq<DocEntry>, key: Seq<char>) -> Option<&'static str> {
    match entry_for_key(t, key) {
        Some(e) => nonempty_doc(e.doc),
        None => None,
    }
}

proof fn lemma_key_index_bounds(t: Seq<DocEntry>, key: Seq<char>, i: int)
    requires
        0 <= i <= t.len(),
    ensures
        i <= key_index(t, key, i) <= t.len(),
    decreases t.len() - i,
{
    if i < t.len() && t[i].key@ != key {
        lemma_key_index_bounds(t, key, i + 1);
    }
}

pub(crate) fn find_key(t: &[DocEntry], key: &str) -> (r: Option<usize>)
    ensures
        match r {
            Some(k) => k < t@.len() && key_index(t@, key@, 0) == k,
            None => key_index(t@, key@, 0) == t@.len(),
        },
{
    let mut i: usize = 0;
    while i < t.len()
        invariant
            i <= t@.len(),
            key_index(t@, key@, 0) == key_index(t@, key@, i as int),
        decreases t@.len() - i,
    {
        if str_eq(t[i].key, key) {
            return Some(i);
        }
        i += 1;
    }
    None
}

pub(crate) fn find_label(t: &[DocEntry], label: &str) -> (r: Option<usize>)
    ensures
        match r {
            Some(k) => k < t@.len() && label_index(t@, label@, 0) == k,
            None => label_index(t@, label@, 0) == t@.len(),
        },
{
    let mut i: usize = 0;
    while i < t.len()
        invariant
            i <= t@.len(),
            label_index(t@, label@, 0) == label_index(t@, label@, i as int),
        decreases t@.len() - i,
    {
        if str_eq(t[i].label, label) {
            return Some(i);
        }
        i += 1;
    }
    None
}

fn nonempty(s: &'static str) -> (r: Option<&'static str>)
    ensures
        r == nonempty_doc(s),
{
    if s.is_empty() {
        None
    } else {
        Some(s)
    }
}

fn lookup_doc(table: &[DocEntry], key: &str) -> (r: Option<&'static str>)
    ensures
        r == doc_for_key(table@, key@),
{
    match find_key(table, key) {
        Some(k) => nonempty(table[k].doc),
        None => None,
    }
}

fn lookup_doc_by_label(table: &[DocEntry], label: &str) -> (r: Option<&'static str>)
    ensures
        r == (match entry_for_label(table@, label@) {
            Some(e) => nonempty_doc(e.doc),
            None => None,
        }),
{
    match find_label(table, label) {
        Some(k) => nonempty(table[k].doc),
        None => None,
    }
}

/// Display label of the command completion keyed `key`.
pub fn command_completion_label(key: &str) -> (r: Option<&'static str>)
    ensures
        r == (match entry_for_key(spec_command_completions(), key@) {
            Some(e) => Some(e.label),
            None => None,
        }),
{
    let t = command_completions();
    match find_key(t.as_slice(), key) {
        Some(k) => Some(t[k].label),
        None => None,
    }
}

/// Documentation of the meta keyword `label`: its long doc, or its
/// one-line summary when it has none.
pub fn meta_doc(label: &str) -> (r: Option<&'static str>)
    ensures
        r == (match entry_for_key(spec_meta_keywords(), label@) {
            Some(e) => Some(if e.doc@.len() == 0 { e.detail } else { e.doc }),
            None => None,
        }),
{
    let t = meta_keywords();
    match find_key(t.as_slice(), label) {
        Some(k) => Some(if t[k].doc.is_empty() { t[k].detail } else { t[k].doc }),
        None => None,
    }
}

/// Documentation of a `#platform` value.
pub fn platform_value_doc(label: &str) -> (r: Option<&'static str>)
    ensures
        r == doc_for_key(spec_platform_values(), label@),
{
    lookup_doc(platform_values().as_slice(), label)
}

/// Documentation of an `#option` value.
pub fn option_value_doc(label: &str) -> (r: Option<&'static str>)
    ensures
        r == doc_for_key(spec_option_values(), label@),
{
    lookup_doc(option_values().as_slice(), label)
}

/// Documentation of a `#timesig` value.
pub fn timesig_value_doc(label: &str) -> (r: Option<&'static str>)
    ensures
        r == doc_for_key(spec_timesig_values(), label@),
{
    lookup_doc(timesig_values().as_slice(), label)
}

/// Documentation of a `#group` value.
pub fn group_value_doc(label: &str) -> (r: Option<&'static str>)
    ensures
        r == doc_for_key(spec_group_values(), label@),
{
    lookup_doc(group_values().as_slice(), label)
}

/// Documentation of an instrument type keyword (`fm`, `psg`, `pcm`, `2op`).
pub fn instrument_doc(label: &str) -> (r: Option<&'static str>)
    ensures
        r == doc_for_key(spec_instrument_types(), label@),
{
    lookup_doc(instrument_types().as_slice(), label)
}

/// Documentation of a PCM `rate=` / `offset=` parameter.
pub fn rate_offset_doc(label: &str) -> (r: Option<&'static str>)
    ensures
        r == doc_for_key(spec_rate_offset(), label@),
{
    lookup_doc(rate_offset().as_slice(), label)
}

/// Display label of a PCM `rate=` / `offset=` parameter.
pub fn rate_offset_label(label: &str) -> (r: Option<&'static str>)
    ensures
        r == (match entry_for_key(spec_rate_offset(), label@) {
            Some(e) => Some(e.label),
            None => None,
        }),
{
    let t = rate_offset();
    match find_key(t.as_slice(), label) {
        Some(k) => Some(t[k].label),
        None => None,
    }
}

/// Documentation of the track command keyed `label`.
pub fn command_doc(label: &str) -> (r: Option<&'static str>)
    ensures
        r == doc_for_key(spec_command_completions(), label@),
{
    lookup_doc(command_completions().as_slice(), label)
}

/// `s` contains `<-`.
pub open spec fn has_signed_marker(s: Seq<char>) -> bool {
    exists|i: int| 0 <= i && i + 1 < s.len() && s[i] == '<' && #[trigger] s[i + 1] == '-'
}

/// Index of the last entry of `t` before `n` keyed `key` whose label
/// contains `<-`, or `-1`.
pub open spec fn last_signed_index(t: Seq<DocEntry>, key: Seq<char>, n: int) -> int
    decreases n,
{
    if n <= 0 || n > t.len() {
        -1
    } else if t[n - 1].key@ == key && has_signed_marker(t[n - 1].label@) {
        n - 1
    } else {
        last_signed_index(t, key, n - 1)
    }
}

/// The entry `command_entry` picks: for `signed`, the last entry keyed
/// `key` whose label contains `<-`, else the first entry keyed `key`.
pub open spec fn command_entry_pick(t: Seq<DocEntry>, key: Seq<char>, signed: bool) -> Option<DocEntry> {
    let s = last_signed_index(t, key, t.len() as int);
    if signed && s >= 0 { Some(t[s]) } else { entry_for_key(t, key) }
}

fn contains_signed_marker(s: &str) -> (r: bool)
    ensures
        r == has_signed_marker(s@),
{
    let c = crate::strings::str_chars(s);
    let mut i: usize = 0;
    while i < c.len() && i + 1 < c.len()
        invariant
            c@ == s@,
            i <= c@.len(),
            forall|k: int| 0 <= k < i && k + 1 < c@.len() ==> !(c@[k] == '<' && #[trigger] c@[k + 1] == '-'),
        decreases c@.len() - i,
    {
        if c[i] == '<' && c[i + 1] == '-' {
            return true;
        }
        i += 1;
    }
    false
}

/// Resolve a command entry, preferring the signed variant when `signed`.
/// Several commands (`V`, `p`, `k`, `K`) ship two entries with the same
/// key: an unsigned form (`V<0..127>`) and a signed one
/// (`V<-128..+127>`). When the call site saw an explicit `+`/`-` on the
/// operand it wants the signed variant. Returns `(label, doc)`, or `None`
/// when the chosen entry has no documentation.
pub fn command_entry(key: &str, signed: bool) -> (r: Option<(&'static str, &'static str)>)
    ensures
        r == (match command_entry_pick(spec_command_completions(), key@, signed) {
            Some(e) => if e.doc@.len() == 0 { None } else { Some((e.label, e.doc)) },
            None => None,
        }),
{
    let t = command_completions();
    let ghost ts = t@;
    let mut first: Option<usize> = None;
    let mut signed_match: Option<usize> = None;
    let mut i: usize = 0;
    while i < t.len()
        invariant
            ts == t@,
            ts == spec_command_completions(),
            i <= ts.len(),
            match first {
                Some(k) => k < ts.len() && key_index(ts, key@, 0) == k,
                None => key_index(ts, key@, 0) == key_index(ts, key@, i as int),
            },
            match signed_match {
                Some(k) => k < ts.len() && last_signed_index(ts, key@, i as int) == k,
                None => last_signed_index(ts, key@, i as int) == -1,
            },
        decreases ts.len() - i,
    {
        if str_eq(t[i].key, key) {
            if first.is_none() {
                first = Some(i);
            }
            if contains_signed_marker(t[i].label) {
                signed_match = Some(i);
            }
        }
        i += 1;
    }
    proof {
        lemma_key_index_bounds(ts, key@, 0);
    }
    let pick = if signed && signed_match.is_some() { signed_match } else { first };
    match pick {
        Some(k) => {
            if t[k].doc.is_empty() {
                None
            } else {
                Some((t[k].label, t[k].doc))
            }
        },
        None => None,
    }
}

/// Documentation of the `@` meta entry labelled `label`.
pub fn at_meta_doc(label: &str) -> (r: Option<&'static str>)
    ensures
        r == (match entry_for_label(spec_at_meta(), label@) {
            Some(e) => nonempty_doc(e.doc),
            None => None,
        }),
{
    lookup_doc_by_label(at_meta().as_slice(), label)
}

/// Documentation of the platform command keyed `key`.
pub fn platform_command_doc(key: &str) -> (r: Option<&'static str>)
    ensures
        r == doc_for_key(spec_platform_commands(), key@),
{
    lookup_doc(platform_commands().as_slice(), key)
}

/// Display label of the platform command keyed `key`.
pub fn platform_command_label(key: &str) -> (r: Option<&'static str>)
    ensures
        r == (match entry_for_key(spec_platform_commands(), key@) {
            Some(e) => Some(e.label),
            None => None,
        }),
{
    let t = platform_commands();
    match find_key(t.as_slice(), key) {
        Some(k) => Some(t[k].label),
        None => None,
    }
}

/// `(label, doc)` of the FM parameter keyed `key`.
pub fn fm_param_doc(key: &str) -> (r: Option<(&'static str, &'static str)>)
    ensures
        r == (match entry_for_key(spec_fm_param_docs(), key@) {
            Some(e) => Some((e.label, e.doc)),
            None => None,
        }),
{
    let t = fm_param_docs();
    match find_key(t.as_slice(), key) {
        Some(k) => Some((t[k].label, t[k].doc)),
        None => None,
    }
}

/// `(label, doc)` of the `index`-th 2op parameter.
pub fn two_op_param_doc(index: usize) -> (r: Option<(&'static str, &'static str)>)
    ensures
        r == (if index < spec_two_op_param_docs().len() {
            Some((spec_two_op_param_docs()[index as int].label, spec_two_op_param_docs()[index as int].doc))
        } else {
            None
        }),
{
    let t = two_op_param_docs();
    if index < t.len() {
        Some((t[index].label, t[index].doc))
    } else {
        None
    }
}

/// `*` followed by one or more ASCII digits.
pub open spec fn is_numeric_track_label(s: Seq<char>) -> bool {
    s.len() > 1 && s[0] == '*' && forall|i: int| 1 <= i < s.len() ==> crate::strings::is_digit_char(#[trigger] s[i])
}

/// One or more ASCII uppercase letters.
pub open spec fn is_letter_track_label(s: Seq<char>) -> bool {
    s.len() > 0 && forall|i: int| 0 <= i < s.len() ==> 'A' <= #[trigger] s[i] <= 'Z'
}

/// Documentation for a track selector token: `*<digits>` or a run of
/// uppercase letters.
pub fn track_doc(label: &str) -> (r: Option<&'static str>)
    ensures
        r == (if is_numeric_track_label(label@) {
            Some(spec_track_doc_numeric())
        } else if is_letter_track_label(label@) {
            Some(spec_track_doc_letters())
        } else {
            None
        }),
{
    let c = crate::strings::str_chars(label);
    if c.len() > 1 && c[0] == '*' {
        let mut i: usize = 1;
        let mut ok = true;
        while i < c.len() && ok
            invariant
                c@ == label@,
                1 <= i <= c@.len(),
                ok ==> forall|k: int| 1 <= k < i ==> crate::strings::is_digit_char(#[trigger] c@[k]),
                !ok ==> i >= 2 && !crate::strings::is_digit_char(c@[i - 1]),
            decreases c@.len() - i + (if ok { 1int } else { 0int }),
        {
            if !('0' <= c[i] && c[i] <= '9') {
                ok = false;
            }
            i += 1;
        }
        if ok {
            return Some(track_doc_numeric());
        }
        assert(!crate::strings::is_digit_char(label@[i - 1]));
    }
    assert(!is_numeric_track_label(label@));
    if c.len() == 0 {
        return None;
    }
    let mut i: usize = 0;
    while i < c.len()
        invariant
            c@ == label@,
            i <= c@.len(),
            !is_numeric_track_label(label@),
            forall|k: int| 0 <= k < i ==> 'A' <= #[trigger] c@[k] <= 'Z',
        decreases c@.len() - i,
    {
        if !('A' <= c[i] && c[i] <= 'Z') {
            assert(!('A' <= label@[i as int] <= 'Z'));
            return None;
        }
        i += 1;
    }
    Some(track_doc_letters())
}

/// Every documentation table, for hosts that render help panels.
pub struct AllDocs {
    pub meta_keywords: Vec<DocEntry>,
    pub meta_keywords_trigger_suggest: Vec<&'static str>,
    pub platform_values: Vec<DocEntry>,
    pub option_values: Vec<DocEntry>,
    pub timesig_values: Vec<DocEntry>,
    pub group_values: Vec<DocEntry>,
    pub instrument_types: Vec<DocEntry>,
    pub instrument_types_trigger_suggest: Vec<&'static str>,
    pub at_meta: Vec<DocEntry>,
    pub at_meta_completion_labels: Vec<&'static str>,
    pub rate_offset: Vec<DocEntry>,
    pub commands: Vec<DocEntry>,
    pub help_only_commands: Vec<DocEntry>,
    pub platform_commands: Vec<DocEntry>,
    pub fm_params: Vec<DocEntry>,
    pub two_op_params: Vec<DocEntry>,
    pub track_doc_numeric: &'static str,
    pub track_doc_letters: &'static str,
    pub fm_default_template: &'static str,
}

/// All documentation tables at once.
pub fn all_docs() -> (r: AllDocs)
    ensures
        r.meta_keywords@ == spec_meta_keywords(),
        r.meta_keywords_trigger_suggest@ == spec_meta_keywords_trigger_suggest(),
        r.platform_values@ == spec_platform_values(),
        r.option_values@ == spec_option_values(),
        r.timesig_values@ == spec_timesig_values(),
        r.group_values@ == spec_group_values(),
        r.instrument_types@ == spec_instrument_types(),
        r.instrument_types_trigger_suggest@ == spec_instrument_types_trigger_suggest(),
        r.at_meta@ == spec_at_meta(),
        r.at_meta_completion_labels@ == spec_at_meta_completion_labels(),
        r.rate_offset@ == spec_rate_offset(),
        r.commands@ == spec_command_completions(),
        r.help_only_commands@ == spec_help_only_commands(),
        r.platform_commands@ == spec_platform_commands(),
        r.fm_params@ == spec_fm_param_docs(),
        r.two_op_params@ == spec_two_op_param_docs(),
        r.track_doc_numeric == spec_track_doc_numeric(),
        r.track_doc_letters == spec_track_doc_letters(),
        r.fm_default_template == spec_fm_default_template(),
{
    AllDocs {
        meta_keywords: meta_keywords(),
        meta_keywords_trigger_suggest: meta_keywords_trigger_suggest(),
        platform_values: platform_values(),
        option_values: option_values(),
        timesig_values: timesig_values(),
        group_values: group_values(),
        instrument_types: instrument_types(),
        instrument_types_trigger_suggest: instrument_types_trigger_suggest(),
        at_meta: at_meta(),
        at_meta_completion_labels: at_meta_completion_labels(),
        rate_offset: rate_offset(),
        commands: command_completions(),
        help_only_commands: help_only_commands(),
        platform_commands: platform_commands(),
        fm_params: fm_param_docs(),
        two_op_params: two_op_param_docs(),
        track_doc_numeric: track_doc_numeric(),
        track_doc_letters: track_doc_letters(),
        fm_default_template: fm_default_template(),
    }
}


} // verus!
