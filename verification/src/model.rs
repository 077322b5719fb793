//! What the mixer is, as opposed to how it looks.
//!
//! A bus mode is a good place to start because the split is unusually clear
//! in it: which twelve modes exist, what they are called on the wire and how
//! they are numbered in a settings file are all facts about the mixer, while
//! the caption that wraps to two lines and the colour it is drawn in are
//! facts about the window. Only the first half is here.

use vstd::prelude::*;

use crate::text;

verus! {

/// Mix mode of an output bus. The caption is what the button shows.
#[derive(Debug, Clone, Copy, PartialEq, Eq, Structural)]
pub enum Mode {
    Normal,
    Amix,
    Bmix,
    Repeat,
    Composite,
    TvMix,
    UpMix21,
    UpMix41,
    UpMix61,
    CenterOnly,
    LfeOnly,
    RearOnly,
}

/// Every mode, in the order the remote API numbers them.
///
/// Not a guess: the API lists exactly these twelve in this order, and the
/// indicator grid on the button is twelve cells lighting the one at the
/// mode's own index, which is how the two were checked against each other.
/// `BusMode` in a settings file is an index into this.
pub const MODES: [Mode; 12] = [
    Mode::Normal,
    Mode::Amix,
    Mode::Bmix,
    Mode::Repeat,
    Mode::Composite,
    Mode::TvMix,
    Mode::UpMix21,
    Mode::UpMix41,
    Mode::UpMix61,
    Mode::CenterOnly,
    Mode::LfeOnly,
    Mode::RearOnly,
];

/// What a mode is called on the wire.
pub open spec fn wire_name(mode: Mode) -> Seq<char> {
    match mode {
        Mode::Normal => "normal"@,
        Mode::Amix => "amix"@,
        Mode::Bmix => "bmix"@,
        Mode::Repeat => "repeat"@,
        Mode::Composite => "composite"@,
        Mode::TvMix => "tvmix"@,
        Mode::UpMix21 => "upmix21"@,
        Mode::UpMix41 => "upmix41"@,
        Mode::UpMix61 => "upmix61"@,
        Mode::CenterOnly => "centeronly"@,
        Mode::LfeOnly => "lfeonly"@,
        Mode::RearOnly => "rearonly"@,
    }
}

/// A mode's number.
pub open spec fn number(mode: Mode) -> int {
    match mode {
        Mode::Normal => 0,
        Mode::Amix => 1,
        Mode::Bmix => 2,
        Mode::Repeat => 3,
        Mode::Composite => 4,
        Mode::TvMix => 5,
        Mode::UpMix21 => 6,
        Mode::UpMix41 => 7,
        Mode::UpMix61 => 8,
        Mode::CenterOnly => 9,
        Mode::LfeOnly => 10,
        Mode::RearOnly => 11,
    }
}

/// The mode of a number, and the normal one where there is none.
pub open spec fn numbered(index: int) -> Mode {
    if 0 <= index < 12 {
        MODES@[index]
    } else {
        Mode::Normal
    }
}

/// The next mode round.
pub open spec fn after(mode: Mode) -> Mode {
    numbered((number(mode) + 1) % 12)
}

impl Mode {
    /// The next mode round, which is what clicking the button does.
    ///
    /// Cycling order is the order of `MODES`, so it matches the grid of
    /// dots the button draws and a settings file's numbering.
    #[must_use]
    pub fn next(self) -> (mode: Mode)
        ensures
            mode == after(self),
    {
        MODES[(self.index() as usize + 1) % 12]
    }

    /// What the mode is called on the wire.
    pub fn remote_name(self) -> (name: &'static str)
        ensures
            name@ == wire_name(self),
    {
        match self {
            Mode::Normal => "normal",
            Mode::Amix => "amix",
            Mode::Bmix => "bmix",
            Mode::Repeat => "repeat",
            Mode::Composite => "composite",
            Mode::TvMix => "tvmix",
            Mode::UpMix21 => "upmix21",
            Mode::UpMix41 => "upmix41",
            Mode::UpMix61 => "upmix61",
            Mode::CenterOnly => "centeronly",
            Mode::LfeOnly => "lfeonly",
            Mode::RearOnly => "rearonly",
        }
    }

    /// The mode that is called something on the wire, whatever the case of
    /// its letters.
    pub fn from_remote_name(name: &str) -> (mode: Option<Mode>)
        ensures
            match mode {
                Some(m) => wire_name(m) == text::small_text(name@),
                None => forall|m: Mode| #[trigger] wire_name(m) != text::small_text(name@),
            },
    {
        let wanted = text::to_small(name);
        for i in 0..12usize
            invariant
                wanted@ == text::small_text(name@),
                forall|j: int| 0 <= j < i ==> wire_name(#[trigger] MODES@[j]) != wanted@,
        {
            let mode = MODES[i];
            if text::same(mode.remote_name(), wanted.as_str()) {
                return Some(mode);
            }
        }
        proof {
            assert forall|m: Mode| #[trigger] wire_name(m) != wanted@ by {
                assert(MODES@[number(m)] == m);
            }
        }
        None
    }

    /// The mode of a number in a settings file.
    pub fn from_index(index: u32) -> (mode: Mode)
        ensures
            mode == numbered(index as int),
    {
        if index < 12 {
            MODES[index as usize]
        } else {
            Mode::Normal
        }
    }

    /// How many channels the mode has.
    ///
    /// Composite and TV Mix are down-mixes onto a stereo pair, and the three
    /// extract modes carry one channel spread over the pair, so all of them
    /// read as stereo.
    pub fn channels(self) -> (n: usize)
        ensures
            n == (match self {
                Mode::UpMix21 => 3int,
                Mode::UpMix41 => 5,
                Mode::UpMix61 => 7,
                _ => 2,
            }),
    {
        match self {
            Mode::UpMix21 => 3,
            Mode::UpMix41 => 5,
            Mode::UpMix61 => 7,
            _ => 2,
        }
    }

    /// The mode's number in a settings file.
    pub fn index(self) -> (n: u32)
        ensures
            n == number(self),
            n < 12,
    {
        match self {
            Mode::Normal => 0,
            Mode::Amix => 1,
            Mode::Bmix => 2,
            Mode::Repeat => 3,
            Mode::Composite => 4,
            Mode::TvMix => 5,
            Mode::UpMix21 => 6,
            Mode::UpMix41 => 7,
            Mode::UpMix61 => 8,
            Mode::CenterOnly => 9,
            Mode::LfeOnly => 10,
            Mode::RearOnly => 11,
        }
    }
}

// ---------------------------------------------------------------------
// Laws

/// Every mode reads back from its number, and every number below twelve is
/// that of one mode.
pub proof fn numbers_round_trip(mode: Mode, index: int)
    ensures
        numbered(number(mode)) == mode,
        0 <= index < 12 ==> number(numbered(index)) == index,
{
}

/// No two modes are called the same, so every mode reads back from its name.
pub proof fn names_round_trip(a: Mode, b: Mode)
    ensures
        wire_name(a) == wire_name(b) ==> a == b,
        text::small_text(wire_name(a)) == wire_name(a),
{
    reveal_strlit("normal");
    reveal_strlit("amix");
    reveal_strlit("bmix");
    reveal_strlit("repeat");
    reveal_strlit("composite");
    reveal_strlit("tvmix");
    reveal_strlit("upmix21");
    reveal_strlit("upmix41");
    reveal_strlit("upmix61");
    reveal_strlit("centeronly");
    reveal_strlit("lfeonly");
    reveal_strlit("rearonly");
    let mark = |s: Seq<char>| (s.len(), s[0], s[s.len() - 2]);
    assert(a != b ==> mark(wire_name(a)) != mark(wire_name(b)));
    assert(text::small_text(wire_name(a)) =~= wire_name(a));
}

/// Some steps round the modes.
pub open spec fn steps(mode: Mode, n: nat) -> Mode
    decreases n,
{
    if n == 0 {
        mode
    } else {
        after(steps(mode, (n - 1) as nat))
    }
}

/// Where some steps lead.
pub proof fn stepping_counts(mode: Mode, n: nat)
    ensures
        number(steps(mode, n)) == (number(mode) + n) % 12,
    decreases n,
{
    if n > 0 {
        stepping_counts(mode, (n - 1) as nat);
    }
}

/// Twelve steps come back round, and no fewer do.
pub proof fn twelve_clicks_come_back_round(mode: Mode, n: nat)
    requires
        0 < n < 12,
    ensures
        steps(mode, 12) == mode,
        steps(mode, n) != mode,
{
    stepping_counts(mode, 12);
    stepping_counts(mode, n);
    numbers_round_trip(mode, 0);
    numbers_round_trip(steps(mode, 12), 0);
}

/// The modes go by these names on the wire, in the order of their numbers,
/// and a number that none of them has is the first one's.
pub proof fn modes_are_named_in_order(index: int)
    ensures
        ({
            let listed = seq![
                "normal"@,
                "amix"@,
                "bmix"@,
                "repeat"@,
                "composite"@,
                "tvmix"@,
                "upmix21"@,
                "upmix41"@,
                "upmix61"@,
                "centeronly"@,
                "lfeonly"@,
                "rearonly"@,
            ];
            &&& 0 <= index < 12 ==> wire_name(numbered(index)) == listed[index]
            &&& !(0 <= index < 12) ==> numbered(index) == Mode::Normal
            &&& number(Mode::Normal) == 0 && number(Mode::Amix) == 1 && number(Mode::Bmix) == 2
            &&& number(Mode::Repeat) == 3 && number(Mode::Composite) == 4
            &&& number(Mode::TvMix) == 5 && number(Mode::UpMix21) == 6
            &&& number(Mode::UpMix41) == 7 && number(Mode::UpMix61) == 8
            &&& number(Mode::CenterOnly) == 9 && number(Mode::LfeOnly) == 10
            &&& number(Mode::RearOnly) == 11
        }),
{
}

/// A click goes to the next number, and from the last to the first.
pub proof fn a_click_goes_one_further(mode: Mode)
    ensures
        number(mode) < 11 ==> number(after(mode)) == number(mode) + 1,
        number(mode) == 11 ==> after(mode) == Mode::Normal,
{
    numbers_round_trip(mode, (number(mode) + 1) % 12);
}

/// A mode has two channels, and an upmix as many as its name says: so many
/// and the low one.
pub proof fn an_upmix_has_as_many_as_it_says(mode: Mode, n: usize)
    requires
        call_ensures(Mode::channels, (mode,), n),
    ensures
        mode == Mode::UpMix21 ==> n == 2 + 1,
        mode == Mode::UpMix41 ==> n == 4 + 1,
        mode == Mode::UpMix61 ==> n == 6 + 1,
        mode != Mode::UpMix21 && mode != Mode::UpMix41 && mode != Mode::UpMix61 ==> n == 2,
{
}

} // verus!
