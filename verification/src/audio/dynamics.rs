//! The noise gate, compressor, limiter and denoiser: what their controls are
//! called and where the denoiser is looked for.
//!
//! Apart from `eq` because they are a different vocabulary that happens to
//! live in the same chains.

use vstd::prelude::*;

use crate::lists;
use crate::single::Single;
use crate::text;

verus! {

/// The brickwall limiter at the end of every strip graph.
///
/// `clamp`, not a compressor. A compressor was tried first and rejected
/// for a specific reason: its threshold is not absolute. Measured against
/// one tone it tracked its dial nicely, and against a tone 3 dB quieter
/// the same setting did nothing at all, so the number could never mean
/// what a limiter promises: that the signal "is never going over the
/// threshold". A clamp means exactly that, and measured exactly that:
/// +-0.5 held a loud tone at -6.02 dBFS and +-0.25 at -12.04, which are
/// the arithmetic answers to the hundredth.
///
/// It clips rather than ducking, so it distorts when it acts. That is the
/// honest trade for a guarantee, and a limiter that is doing its job is
/// one you have already set too low.
pub const LIMIT_NODE: &'static str = "lim";

/// Its two controls, as filter-chain addresses them.
pub const LIMIT_MAX: &'static str = "lim:Max";

pub const LIMIT_MIN: &'static str = "lim:Min";

/// The compressor's threshold and output gain, as filter-chain addresses
/// them.
pub const COMP_THRESHOLD: &'static str = "comp:threshold";

pub const COMP_GAIN: &'static str = "comp:gain (dB)";

/// The controls the AUDIBILITY knobs drive, as filter-chain addresses them.
pub const GATE_CONTROL: &'static str = "gate:open (dB)";

pub const COMP_CONTROL: &'static str = "comp:strength";

/// The noise gate's attack, as filter-chain addresses it. The plugin takes
/// milliseconds, like the settings file, but only up to five.
pub const GATE_ATTACK: &'static str = "gate:attack (ms)";

/// Where the noise gate actually shuts.
///
/// `open (dB)` is where it lets go and `close (dB)` is where it clamps
/// down, and it is the second that decides whether anything is gated at
/// all. This was fixed at -80 dB, which nothing reaches, so the noise gate
/// opened on the first sound and never closed again: measured against a
/// staircase it passed all ten steps from -33 to -6 dBFS untouched. With
/// a close threshold four decibels under the open one it gates what it
/// should: -33 silenced, the rest through.
pub const GATE_CLOSE: &'static str = "gate:close (dB)";

/// The denoiser, when one is installed.
///
/// `noise-suppression-for-voice`, which wraps `RNNoise` as a LADSPA plugin.
/// Chosen by measurement: against a signal alternating noise with a
/// voice-shaped harmonic stack it took the noise-only stretches from -30.8
/// to -90.3 dBFS while leaving the voice at -19.6 against -19.0, separation
/// from 11.8 dB to 70.7. Its only rival, `noise-repellent`, is LV2, and
/// `PipeWire` here has no LV2 loader at all.
///
/// It is GPL-3.0, so it is loaded if the user has installed it and never
/// shipped with us.
pub const DENOISER_PLUGIN: &'static str = "librnnoise_ladspa";

pub const DENOISER_LABEL: &'static str = "noise_suppressor_mono";

/// Its dry and wet sides, blended so the knob is an amount rather than a
/// switch: the plugin itself has no depth control.
pub const DENOISER_DRY: &'static str = "dmix:Gain 1";

pub const DENOISER_WET: &'static str = "dmix:Gain 2";

/// The noise gate's dry blend, which is how a floor is made.
///
/// `caps` Noisegate has no depth control, it shuts fully or not at all, so
/// the floor comes from mixing the ungated signal back in. Damping in
/// decibels becomes the dry side's gain.
pub const GATE_DRY: &'static str = "gmix:Gain 1";

pub const GATE_WET: &'static str = "gmix:Gain 2";

/// Where a LADSPA plugin might be, including the user's own directory.
pub open spec fn search_paths(from_env: Seq<char>, home: Seq<char>) -> Seq<Seq<char>> {
    text::pieces(from_env, ':').filter(|p: Seq<char>| p.len() > 0) + seq![
        text::joined(home, ".ladspa"@),
        "/usr/lib64/ladspa"@,
        "/usr/lib/ladspa"@,
    ]
}

/// The file the denoiser is in, in each of the places it might be.
pub open spec fn denoiser_places(from_env: Seq<char>, home: Seq<char>) -> Seq<Seq<char>> {
    search_paths(from_env, home).map_values(
        |dir: Seq<char>| text::joined(dir, DENOISER_PLUGIN@ + ".so"@),
    )
}

/// Where a LADSPA plugin might be: what `LADSPA_PATH` lists, the user's own
/// directory, and the system's two.
pub fn denoiser_search_paths(from_env: &str, home: &str) -> (paths: Vec<String>)
    ensures
        text::texts(paths@) == search_paths(from_env@, home@),
{
    let chars = text::chars_of(from_env);
    let listed = text::split(chars.as_slice(), ':');
    let ghost all = text::pieces(from_env@, ':');
    let ghost keep = |p: Seq<char>| p.len() > 0;
    let mut paths = text::blank();
    proof {
        lists::filter_none(all, keep);
        assert(listed@.len() == text::views(listed@).len());
    }
    for i in 0..listed.len()
        invariant
            all == text::views(listed@),
            all.len() == listed@.len(),
            keep == (|p: Seq<char>| p.len() > 0),
            text::texts(paths@) == all.take(i as int).filter(keep),
    {
        if listed[i].len() > 0 {
            text::write(&mut paths, text::string_of(listed[i].as_slice()));
        }
        proof {
            assert(all[i as int] == listed@[i as int]@);
            lists::filter_step(all, i as int, keep);
        }
    }
    proof {
        assert(all.take(all.len() as int) =~= all);
    }
    text::write(&mut paths, text::join(home, ".ladspa"));
    text::write(&mut paths, "/usr/lib64/ladspa".to_owned());
    text::write(&mut paths, "/usr/lib/ladspa".to_owned());
    proof {
        assert(text::texts(paths@) =~= search_paths(from_env@, home@));
    }
    paths
}

/// What a helper's `LADSPA_PATH` is set to.
///
/// The denoiser usually lives in the user's own directory rather than the
/// system one, and a spawned helper does not inherit a path we never set.
/// Without this the chain cannot find it and refuses to start, taking the
/// strip with it.
pub fn ladspa_path(from_env: &str, home: &str) -> (r: String)
    ensures
        r@ == text::strung(search_paths(from_env@, home@), ":"@),
{
    let paths = denoiser_search_paths(from_env, home);
    text::string_together(&paths, ":")
}

/// The files to look for, one for each of the places.
pub fn denoiser_files(from_env: &str, home: &str) -> (files: Vec<String>)
    ensures
        text::texts(files@) == denoiser_places(from_env@, home@),
{
    let paths = denoiser_search_paths(from_env, home);
    let name = text::cat2(DENOISER_PLUGIN, ".so");
    let ghost all = denoiser_places(from_env@, home@);
    let mut files = text::blank();
    proof {
        assert(paths@.len() == text::texts(paths@).len());
    }
    for i in 0..paths.len()
        invariant
            text::texts(paths@) == search_paths(from_env@, home@),
            paths@.len() == text::texts(paths@).len(),
            name@ == DENOISER_PLUGIN@ + ".so"@,
            all == denoiser_places(from_env@, home@),
            text::texts(files@) == all.take(i as int),
    {
        text::write(&mut files, text::join(paths[i].as_str(), name.as_str()));
        proof {
            assert(search_paths(from_env@, home@)[i as int] == paths@[i as int]@);
            assert(all.take(i + 1) =~= all.take(i as int).push(all[i as int]));
        }
    }
    proof {
        assert(all.take(all.len() as int) =~= all);
    }
    files
}

/// Whether the denoiser is installed, given which of its files exist.
///
/// A chain naming a plugin that is not there fails to start at all, which
/// would take the whole strip with it, so the graph asks first.
#[must_use]
pub fn denoiser_available(exists: &Vec<bool>) -> (r: bool)
    ensures
        r == exists@.contains(true),
{
    for i in 0..exists.len()
        invariant
            forall|j: int| 0 <= j < i ==> !#[trigger] exists@[j],
    {
        if exists[i] {
            proof {
                assert(exists@[i as int]);
            }
            return true;
        }
    }
    false
}

/// The Comp knob is the compressor's strength directly, both being 0..1.
#[must_use]
pub fn comp_strength(knob: Single) -> (strength: Single)
    ensures
        strength == knob.held_to_unit(),
{
    knob.clamp_unit()
}

/// The denoiser is looked for where the environment says first, in that
/// order, then at home, then in the two places that systems have for it.
pub proof fn the_environment_is_searched_first(
    dirs: Seq<Seq<char>>,
    home: Seq<char>,
    i: int,
)
    requires
        forall|k: int|
            0 <= k < dirs.len() ==> !(#[trigger] dirs[k]).contains(':') && dirs[k].len() > 0,
    ensures
        ({
            let fixed = seq![
                text::joined(home, ".ladspa"@),
                "/usr/lib64/ladspa"@,
                "/usr/lib/ladspa"@,
            ];
            let from_env = if dirs.len() == 0 {
                Seq::<char>::empty()
            } else {
                text::strung(dirs, seq![':'])
            };
            &&& search_paths(from_env, home) == dirs + fixed
            &&& denoiser_places(from_env, home).len() == dirs.len() + 3
            &&& 0 <= i < dirs.len() + 3 ==> denoiser_places(from_env, home)[i] == text::joined(
                (dirs + fixed)[i],
                "librnnoise_ladspa.so"@,
            )
        }),
{
    let keep = |p: Seq<char>| p.len() > 0;
    if dirs.len() == 0 {
        let none = Seq::<char>::empty();
        assert(text::pieces(none, ':') == seq![none]);
        crate::lists::filter_at(seq![none], 0, keep, true);
        assert(seq![none].filter(keep) =~= dirs);
    } else {
        text::splitting_undoes_stringing(dirs, ':');
        crate::lists::all_kept(dirs, keep);
    }
    reveal_strlit("librnnoise_ladspa");
    reveal_strlit(".so");
    reveal_strlit("librnnoise_ladspa.so");
    assert(DENOISER_PLUGIN@ + ".so"@ =~= "librnnoise_ladspa.so"@);
}

/// Directories that the environment leaves empty are passed over.
pub proof fn empty_places_are_passed_over(from_env: Seq<char>, home: Seq<char>, dir: Seq<char>)
    ensures
        ({
            let all = search_paths(from_env, home);
            let said = all.take(all.len() - 3);
            &&& all.len() >= 3
            &&& said.contains(dir) == (text::pieces(from_env, ':').contains(dir) && dir.len() > 0)
        }),
{
    let keep = |p: Seq<char>| p.len() > 0;
    let said = text::pieces(from_env, ':').filter(keep);
    crate::lists::filter_contains(text::pieces(from_env, ':'), keep, dir);
    let all = search_paths(from_env, home);
    assert(all.take(all.len() - 3) =~= said);
}

/// A control is addressed by the filter it belongs to and its own name.
pub proof fn controls_name_their_filters()
    ensures
        LIMIT_NODE@ == "lim"@,
        LIMIT_MAX@ == "lim:Max"@,
        LIMIT_MIN@ == "lim:Min"@,
        COMP_THRESHOLD@ == "comp:threshold"@,
        COMP_GAIN@ == "comp:gain (dB)"@,
        COMP_CONTROL@ == "comp:strength"@,
        GATE_CONTROL@ == "gate:open (dB)"@,
        GATE_ATTACK@ == "gate:attack (ms)"@,
        GATE_CLOSE@ == "gate:close (dB)"@,
        GATE_DRY@ == "gmix:Gain 1"@,
        GATE_WET@ == "gmix:Gain 2"@,
        DENOISER_DRY@ == "dmix:Gain 1"@,
        DENOISER_WET@ == "dmix:Gain 2"@,
        DENOISER_PLUGIN@ == "librnnoise_ladspa"@,
        DENOISER_LABEL@ == "noise_suppressor_mono"@,
{
}

/// The denoiser is available exactly where one of its places holds it, and
/// the compressor's knob is its strength, held between nothing and one.
pub proof fn one_place_is_enough(
    exists_at: Vec<bool>,
    i: int,
    r: bool,
    knob: Single,
    strength: Single,
)
    requires
        call_ensures(denoiser_available, (&exists_at,), r),
        call_ensures(comp_strength, (knob,), strength),
    ensures
        0 <= i < exists_at@.len() && exists_at@[i] ==> r,
        (forall|k: int| 0 <= k < exists_at@.len() ==> !#[trigger] exists_at@[k]) ==> !r,
        !knob.is_nan() ==> 0 <= strength.rank() <= 0x3f80_0000,
        !knob.is_nan() && 0 <= knob.rank() <= 0x3f80_0000 ==> strength == knob,
{
    if 0 <= i < exists_at@.len() && exists_at@[i] {
        assert(exists_at@.contains(true));
    }
}

} // verus!
