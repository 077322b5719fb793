//! Holding the system's default devices on ours.
//!
//! Voicemeeter's virtual cables are only useful if applications actually
//! reach them, and on a desktop that means being the default sink and
//! source. Something else moves those all the time (plugging in a
//! headset, a session manager deciding it knows better) so this both
//! sets them and puts them back.
//!
//! Through `pw-metadata` rather than the metadata API: the same route
//! `wpctl set-default` takes, it is the documented way to express a
//! *configured* default rather than a guessed one, and the mixer already
//! shells out to `pipewire` for its filter chains. What is worked out here
//! is what to tell that program and what its reports say.

use vstd::prelude::*;
use vstd::slice::slice_subrange;

use crate::text;

verus! {

/// The keys `PipeWire` keeps the configured defaults under.
///
/// `configured` rather than plain `default.audio.sink`: the plain one is
/// what the session manager worked out, and writing it is a suggestion
/// that gets overwritten. The configured one is a person's choice, which
/// is what a ticked box in a menu is.
pub const SINK_KEY: &'static str = "default.configured.audio.sink";

pub const SOURCE_KEY: &'static str = "default.configured.audio.source";

/// What the defaults were before we touched them.
#[derive(Debug, Clone, PartialEq, Eq)]
pub struct Saved {
    pub sink: Option<String>,
    pub source: Option<String>,
}

impl Default for Saved {
    fn default() -> (saved: Saved)
        ensures
            saved.sink is None,
            saved.source is None,
    {
        Saved { sink: None, source: None }
    }
}

/// A text that may not be there, as the contracts see it.
pub open spec fn view_of(s: Option<String>) -> Option<Seq<char>> {
    match s {
        Some(s) => Some(s@),
        None => None,
    }
}

/// How a report marks the line of a key.
pub open spec fn needle(key: Seq<char>) -> Seq<char> {
    "key:'"@ + key + "'"@
}

/// The first line that holds a text.
pub open spec fn line_with(lines: Seq<Seq<char>>, piece: Seq<char>) -> Option<Seq<char>>
    decreases lines.len(),
{
    if lines.len() == 0 {
        None
    } else if text::occurs(lines[0], piece) {
        Some(lines[0])
    } else {
        line_with(lines.skip(1), piece)
    }
}

/// The name a line gives: what stands in the first quotes behind `"name"`,
/// unless that is nothing.
pub open spec fn name_in(line: Seq<char>) -> Option<Seq<char>> {
    match text::first(line, "\"name\""@) {
        None => None,
        Some(at) => {
            let rest = line.skip(at + 6);
            let open = text::up_to(rest, '"');
            let tail = rest.skip(open + 1);
            let close = text::up_to(tail, '"');
            if open >= rest.len() || close >= tail.len() || close == 0 {
                None
            } else {
                Some(tail.take(close))
            }
        },
    }
}

/// The name a report gives for a key.
pub open spec fn name_for(report: Seq<char>, key: Seq<char>) -> Option<Seq<char>> {
    match line_with(text::lines(report), needle(key)) {
        Some(line) => name_in(line),
        None => None,
    }
}

/// The name a report gives for a key. Nothing where there is no report.
pub open spec fn reading(report: Option<Seq<char>>, key: Seq<char>) -> Option<Seq<char>> {
    match report {
        Some(r) => name_for(r, key),
        None => None,
    }
}

/// A text that may not be there, as the contracts see it.
pub open spec fn given(s: Option<&str>) -> Option<Seq<char>> {
    match s {
        Some(s) => Some(s@),
        None => None,
    }
}

fn read_name(line: &[char]) -> (name: Option<String>)
    ensures
        match name {
            Some(n) => name_in(line@) == Some(n@),
            None => name_in(line@) is None,
        },
{
    let mark = text::chars_of("\"name\"");
    proof {
        reveal_strlit("\"name\"");
        text::first_is_first(line@, mark@);
    }
    let at = match text::find(line, mark.as_slice()) {
        Some(at) => at,
        None => {
            return None;
        },
    };
    let end = line.len();
    let rest = slice_subrange(line, at + 6, end);
    proof {
        assert(rest@ =~= line@.skip(at + 6));
        text::up_to_is_first(rest@, '"');
    }
    let open = text::position(rest, '"');
    if open >= rest.len() {
        return None;
    }
    let tail = slice_subrange(rest, open + 1, rest.len());
    proof {
        assert(tail@ =~= rest@.skip(open + 1));
    }
    let close = text::position(tail, '"');
    if close >= tail.len() || close == 0 {
        return None;
    }
    proof {
        assert(tail@.subrange(0, close as int) =~= tail@.take(close as int));
    }
    Some(text::string_of(slice_subrange(tail, 0, close)))
}

/// Pull one key's node name out of `pw-metadata`'s report.
///
/// Asking for a key does *not* narrow the output: it prints every key it
/// has, and the first `"name"` in that dump belongs to
/// `default.audio.sink` whatever was asked for. So the line has to be
/// found by its key first: reading the first name would have answered
/// every question with the sink's value.
#[must_use]
pub fn parse_name(report: &str, key: &str) -> (name: Option<String>)
    ensures
        match name {
            Some(n) => name_for(report@, key@) == Some(n@),
            None => name_for(report@, key@) is None,
        },
{
    let wanted = text::chars_of(text::cat3("key:'", key, "'").as_str());
    let chars = text::chars_of(report);
    let lines = text::lines_of(chars.as_slice());
    let ghost all = text::lines(report@);
    proof {
        assert(all.skip(0) =~= all);
        assert(lines@.len() == text::views(lines@).len());
    }
    for i in 0..lines.len()
        invariant
            wanted@ == needle(key@),
            all == text::views(lines@),
            all.len() == lines@.len(),
            all == text::lines(report@),
            line_with(all, wanted@) == line_with(all.skip(i as int), wanted@),
    {
        proof {
            assert(all.skip(i as int)[0] == lines@[i as int]@);
            assert(all.skip(i as int).skip(1) =~= all.skip(i + 1));
        }
        if text::contains(lines[i].as_slice(), wanted.as_slice()) {
            return read_name(lines[i].as_slice());
        }
    }
    None
}

/// The node name currently set for a key, if any, by what `pw-metadata`
/// reported. Nothing where it could not be asked.
#[must_use]
pub fn configured(report: Option<&str>, key: &str) -> (name: Option<String>)
    ensures
        view_of(name) == reading(given(report), key@),
{
    match report {
        Some(r) => parse_name(r, key),
        None => None,
    }
}

/// What `pw-metadata` is told to report on a key.
pub fn ask(key: &str) -> (args: Vec<String>)
    ensures
        text::texts(args@) == seq!["-n"@, "default"@, key@],
{
    let mut args = text::blank();
    text::write(&mut args, "-n".to_owned());
    text::write(&mut args, "default".to_owned());
    text::write(&mut args, key.to_owned());
    proof {
        assert(text::texts(args@) =~= seq!["-n"@, "default"@, key@]);
    }
    args
}

/// What both defaults are right now, to be put back later.
#[must_use]
pub fn snapshot(sink_report: Option<&str>, source_report: Option<&str>) -> (saved: Saved)
    ensures
        view_of(saved.sink) == reading(given(sink_report), SINK_KEY@),
        view_of(saved.source) == reading(given(source_report), SOURCE_KEY@),
{
    Saved {
        sink: configured(sink_report, SINK_KEY),
        source: configured(source_report, SOURCE_KEY),
    }
}

/// How a default is written.
pub open spec fn value_for(node: Option<Seq<char>>) -> Seq<char> {
    match node {
        Some(n) => "{ \"name\": \""@ + n + "\" }"@,
        None => "null"@,
    }
}

/// What `pw-metadata` is told to point a key at a node.
pub open spec fn setting(key: Seq<char>, node: Option<Seq<char>>) -> Seq<Seq<char>> {
    seq!["-n"@, "default"@, "0"@, key, value_for(node)]
}

/// Point a key at a node, or clear it when given nothing.
///
/// The `0` is the subject id and is not optional: without it
/// `pw-metadata` reads the key as the id, reports the write in its own
/// output, and changes nothing.
///
/// Clearing matters for the restore: a machine that had no *configured*
/// default before should go back to having none, rather than being left
/// pinned to whatever happened to be in use when the mixer started.
pub fn set(key: &str, node: Option<&str>) -> (args: Vec<String>)
    ensures
        text::texts(args@) == setting(key@, given(node)),
{
    let value = match node {
        Some(n) => text::cat3("{ \"name\": \"", n, "\" }"),
        None => "null".to_owned(),
    };
    let mut args = text::blank();
    text::write(&mut args, "-n".to_owned());
    text::write(&mut args, "default".to_owned());
    text::write(&mut args, "0".to_owned());
    text::write(&mut args, key.to_owned());
    text::write(&mut args, value);
    proof {
        assert(text::texts(args@) =~= setting(key@, given(node)));
    }
    args
}

/// Make our devices the defaults: what `pw-metadata` is told, first for the
/// sink and then for the source.
pub fn claim(sink: &str, source: &str) -> (runs: (Vec<String>, Vec<String>))
    ensures
        text::texts(runs.0@) == setting(SINK_KEY@, Some(sink@)),
        text::texts(runs.1@) == setting(SOURCE_KEY@, Some(source@)),
{
    (set(SINK_KEY, Some(sink)), set(SOURCE_KEY, Some(source)))
}

fn set_saved(key: &str, node: &Option<String>) -> (args: Vec<String>)
    ensures
        text::texts(args@) == setting(key@, view_of(*node)),
{
    match node {
        Some(n) => set(key, Some(n.as_str())),
        None => set(key, None),
    }
}

/// Put back what was there before.
pub fn restore(saved: &Saved) -> (runs: (Vec<String>, Vec<String>))
    ensures
        text::texts(runs.0@) == setting(SINK_KEY@, view_of(saved.sink)),
        text::texts(runs.1@) == setting(SOURCE_KEY@, view_of(saved.source)),
{
    (set_saved(SINK_KEY, &saved.sink), set_saved(SOURCE_KEY, &saved.source))
}

fn is_set_to(report: Option<&str>, key: &str, node: &str) -> (r: bool)
    ensures
        r == (reading(given(report), key@) == Some(node@)),
{
    match configured(report, key) {
        Some(name) => text::same(name.as_str(), node),
        None => false,
    }
}

/// Whether the defaults still point at ours.
#[must_use]
pub fn held(
    sink_report: Option<&str>,
    source_report: Option<&str>,
    sink: &str,
    source: &str,
) -> (r: bool)
    ensures
        r == (reading(given(sink_report), SINK_KEY@) == Some(sink@) && reading(
            given(source_report),
            SOURCE_KEY@,
        ) == Some(source@)),
{
    is_set_to(sink_report, SINK_KEY, sink) && is_set_to(source_report, SOURCE_KEY, source)
}

// ---------------------------------------------------------------------
// Laws

/// A default that was written reads back, wherever in a line it stands, as
/// long as nothing before it is marked as a name and the node's own name has
/// no quotes in it.
pub proof fn a_written_default_reads_back(before: Seq<char>, node: Seq<char>, behind: Seq<char>)
    requires
        !text::occurs(before, "\"name\""@),
        node.len() > 0,
        !node.contains('"'),
    ensures
        name_in(before + value_for(Some(node)) + behind) == Some(node),
{
    reveal_strlit("\"name\"");
    reveal_strlit("{ \"name\": \"");
    reveal_strlit("\" }");
    let mark = "\"name\""@;
    let line = before + value_for(Some(node)) + behind;
    let n = before.len() as int;
    assert(line[n] == '{');
    assert(line[n + 1] == ' ');
    assert(line.subrange(n + 2, n + 8) =~= mark);
    assert(text::occurs_at(line, mark, n + 2));
    text::first_is_first(line, mark);
    let at = text::first(line, mark)->Some_0;
    assert(at == n + 2) by {
        if at < n + 2 {
            let piece = line.subrange(at, at + 6);
            assert(piece == mark);
            if at + 6 <= n {
                assert(before.subrange(at, at + 6) =~= piece);
                assert(text::occurs_at(before, mark, at));
            } else if at <= n {
                assert(piece[n - at] == '{');
                assert(mark[n - at] == '{');
            } else {
                assert(piece[0] == ' ');
            }
        }
    }
    let rest = line.skip(at + 6);
    assert(rest[0] == ':' && rest[1] == ' ' && rest[2] == '"');
    text::up_to_is_first(rest, '"');
    let open = text::up_to(rest, '"');
    assert(open == 2);
    let tail = rest.skip(3);
    assert(tail.take(node.len() as int) =~= node);
    assert(tail[node.len() as int] == '"');
    text::up_to_is_first(tail, '"');
    let close = text::up_to(tail, '"');
    if close < node.len() {
        assert(node[close] == '"');
    }
    assert(close == node.len());
}

/// A default that was cleared reads as nothing, wherever in a line it
/// stands, as long as nothing else on the line is marked as a name.
pub proof fn a_cleared_default_reads_as_nothing(before: Seq<char>, behind: Seq<char>)
    requires
        !text::occurs(before, "\"name\""@),
        !text::occurs(behind, "\"name\""@),
    ensures
        name_in(before + value_for(None) + behind) is None,
{
    reveal_strlit("\"name\"");
    reveal_strlit("null");
    let mark = "\"name\""@;
    let line = before + value_for(None) + behind;
    let n = before.len() as int;
    assert(line[n] == 'n' && line[n + 1] == 'u' && line[n + 2] == 'l' && line[n + 3] == 'l');
    text::first_is_first(line, mark);
    if let Some(at) = text::first(line, mark) {
        let piece = line.subrange(at, at + 6);
        assert(piece == mark);
        if at + 6 <= n {
            assert(before.subrange(at, at + 6) =~= piece);
            assert(text::occurs_at(before, mark, at));
        } else if at >= n + 4 {
            assert(behind.subrange(at - n - 4, at - n + 2) =~= piece);
            assert(text::occurs_at(behind, mark, at - n - 4));
        } else if at >= n {
            assert(piece[0] == line[at]);
        } else if at + 6 <= n + 4 {
            assert(piece[5] == line[at + 5]);
        } else {
            assert(piece[n - at] == 'n' && piece[n - at + 1] == 'u');
        }
    }
}

/// A name that was read is one that can be written.
proof fn what_is_read_is_a_name(line: Seq<char>)
    ensures
        name_in(line) matches Some(n) ==> n.len() > 0 && !n.contains('"'),
{
    if let Some(at) = text::first(line, "\"name\""@) {
        let rest = line.skip(at + 6);
        let tail = rest.skip(text::up_to(rest, '"') + 1);
        text::up_to_is_first(tail, '"');
        let close = text::up_to(tail, '"');
        if name_in(line) is Some && tail.take(close).contains('"') {
            let i = choose|i: int| 0 <= i < close && tail.take(close)[i] == '"';
            assert(tail[i] == '"');
        }
    }
}

/// What every key was last set to.
pub type Store = Map<Seq<char>, Seq<char>>;

/// The store after a run of `pw-metadata` that sets a key.
pub open spec fn after_run(store: Store, args: Seq<Seq<char>>) -> Store {
    if args.len() == 5 && args[0] == "-n"@ && args[1] == "default"@ && args[2] == "0"@ {
        store.insert(args[3], args[4])
    } else {
        store
    }
}

/// Whether a line shows a value, with nothing else on it marked as a name.
pub open spec fn shows(line: Seq<char>, value: Seq<char>) -> bool {
    exists|before: Seq<char>, behind: Seq<char>|
        {
            &&& line == #[trigger] (before + value + behind)
            &&& !text::occurs(before, "\"name\""@)
            &&& !text::occurs(behind, "\"name\""@)
        }
}

/// Whether a report tells truly of a key: by a line with the key's value, or
/// by none where the key is cleared or was never set.
pub open spec fn tells(report: Seq<char>, store: Store, key: Seq<char>) -> bool {
    match line_with(text::lines(report), needle(key)) {
        Some(line) => store.contains_key(key) && shows(line, store[key]),
        None => !store.contains_key(key) || store[key] == value_for(None),
    }
}

/// The store after what was saved was put back.
pub open spec fn put_back(store: Store, saved: Saved) -> Store {
    after_run(
        after_run(store, setting(SINK_KEY@, view_of(saved.sink))),
        setting(SOURCE_KEY@, view_of(saved.source)),
    )
}

/// A true report of a key that was set reads as what it was set to.
proof fn a_true_report_reads_as_set(
    report: Seq<char>,
    store: Store,
    key: Seq<char>,
    node: Option<Seq<char>>,
)
    requires
        tells(report, store, key),
        store.contains_key(key),
        store[key] == value_for(node),
        node matches Some(n) ==> n.len() > 0 && !n.contains('"'),
    ensures
        name_for(report, key) == node,
{
    reveal_strlit("{ \"name\": \"");
    reveal_strlit("null");
    if let Some(n) = node {
        assert(value_for(node)[0] == '{');
        assert(value_for(None)[0] == 'n');
    }
    if let Some(line) = line_with(text::lines(report), needle(key)) {
        let (before, behind) = choose|before: Seq<char>, behind: Seq<char>|
            {
                &&& line == #[trigger] (before + store[key] + behind)
                &&& !text::occurs(before, "\"name\""@)
                &&& !text::occurs(behind, "\"name\""@)
            };
        match node {
            Some(n) => a_written_default_reads_back(before, n, behind),
            None => a_cleared_default_reads_as_nothing(before, behind),
        }
    }
}

/// Putting back what was saved gives back what was read when it was saved,
/// whatever was written in between: both defaults read as they did, one that
/// was not set is cleared rather than left pinned, and no other key is
/// touched.
pub proof fn restoring_gives_back_what_was_read(
    sink_report: Option<Seq<char>>,
    source_report: Option<Seq<char>>,
    saved: Saved,
    between: Store,
    later: Seq<char>,
)
    requires
        view_of(saved.sink) == reading(sink_report, SINK_KEY@),
        view_of(saved.source) == reading(source_report, SOURCE_KEY@),
    ensures
        ({
            let after = put_back(between, saved);
            &&& tells(later, after, SINK_KEY@) ==> reading(Some(later), SINK_KEY@) == reading(
                sink_report,
                SINK_KEY@,
            )
            &&& tells(later, after, SOURCE_KEY@) ==> reading(Some(later), SOURCE_KEY@) == reading(
                source_report,
                SOURCE_KEY@,
            )
            &&& after.contains_pair(SINK_KEY@, value_for(reading(sink_report, SINK_KEY@)))
            &&& after.contains_pair(SOURCE_KEY@, value_for(reading(source_report, SOURCE_KEY@)))
            &&& forall|key: Seq<char>|
                key != SINK_KEY@ && key != SOURCE_KEY@ ==> (#[trigger] after.contains_key(key)
                    == between.contains_key(key) && after[key] == between[key])
        }),
{
    reveal_strlit("default.configured.audio.sink");
    reveal_strlit("default.configured.audio.source");
    let after = put_back(between, saved);
    reading_is_a_name(sink_report, SINK_KEY@);
    reading_is_a_name(source_report, SOURCE_KEY@);
    if tells(later, after, SINK_KEY@) {
        a_true_report_reads_as_set(later, after, SINK_KEY@, view_of(saved.sink));
    }
    if tells(later, after, SOURCE_KEY@) {
        a_true_report_reads_as_set(later, after, SOURCE_KEY@, view_of(saved.source));
    }
}

proof fn reading_is_a_name(report: Option<Seq<char>>, key: Seq<char>)
    ensures
        reading(report, key) matches Some(n) ==> n.len() > 0 && !n.contains('"'),
{
    if let Some(r) = report {
        if let Some(line) = line_with(text::lines(r), needle(key)) {
            what_is_read_is_a_name(line);
        }
    }
}

/// A default is set by five words: no waiting, which store, which subject,
/// the key, and the node's name in braces or nothing.
pub proof fn a_default_is_set_by_five_words(key: Seq<char>, node: Seq<char>)
    ensures
        setting(key, Some(node)) == seq![
            "-n"@,
            "default"@,
            "0"@,
            key,
            "{ \"name\": \""@ + node + "\" }"@,
        ],
        setting(key, None) == seq!["-n"@, "default"@, "0"@, key, "null"@],
        SINK_KEY@ == "default.configured.audio.sink"@,
        SOURCE_KEY@ == "default.configured.audio.source"@,
{
}

/// A key's value is read from the first line that names the key in quotes,
/// and from no other.
pub proof fn the_first_line_of_a_key_counts(report: Seq<char>, key: Seq<char>, k: int)
    requires
        0 <= k <= text::lines(report).len(),
        forall|j: int|
            0 <= j < k ==> !text::occurs(
                #[trigger] text::lines(report)[j],
                "key:'"@ + key + "'"@,
            ),
        k < text::lines(report).len() ==> text::occurs(
            text::lines(report)[k],
            "key:'"@ + key + "'"@,
        ),
    ensures
        reading(None, key) is None,
        reading(Some(report), key) == (if k < text::lines(report).len() {
            name_in(text::lines(report)[k])
        } else {
            None
        }),
{
    first_line_with(text::lines(report), needle(key), k);
}

/// The first line with a piece is found.
proof fn first_line_with(lines: Seq<Seq<char>>, piece: Seq<char>, k: int)
    requires
        0 <= k <= lines.len(),
        forall|j: int| 0 <= j < k ==> !text::occurs(#[trigger] lines[j], piece),
        k < lines.len() ==> text::occurs(lines[k], piece),
    ensures
        line_with(lines, piece) == (if k < lines.len() {
            Some(lines[k])
        } else {
            None
        }),
    decreases lines.len(),
{
    if k > 0 {
        let rest = lines.skip(1);
        assert forall|j: int| 0 <= j < k - 1 implies !text::occurs(#[trigger] rest[j], piece) by {
            assert(rest[j] == lines[j + 1]);
        }
        assert(k < lines.len() ==> rest[k - 1] == lines[k]);
        assert(!text::occurs(lines[0], piece));
        first_line_with(rest, piece, k - 1);
    }
}

/// A name is what stands in quotes behind its word, whatever stands between
/// and behind; an empty one is none.
pub proof fn a_name_stands_in_quotes_behind_its_word(
    before: Seq<char>,
    gap: Seq<char>,
    name: Seq<char>,
    behind: Seq<char>,
)
    requires
        text::first(
            before + "\"name\""@ + gap + seq!['"'] + name + seq!['"'] + behind,
            "\"name\""@,
        ) == Some(before.len() as int),
        !gap.contains('"'),
        !name.contains('"'),
    ensures
        ({
            let line = before + "\"name\""@ + gap + seq!['"'] + name + seq!['"'] + behind;
            name_in(line) == (if name.len() > 0 {
                Some(name)
            } else {
                None
            })
        }),
{
    reveal_strlit("\"name\"");
    let line = before + "\"name\""@ + gap + seq!['"'] + name + seq!['"'] + behind;
    let at = before.len() as int;
    let rest = line.skip(at + 6);
    assert("\"name\""@.len() == 6);
    assert(rest =~= gap + seq!['"'] + name + seq!['"'] + behind);
    text::up_to_is_first(rest, '"');
    let open = text::up_to(rest, '"');
    assert(rest[gap.len() as int] == '"');
    if open < gap.len() {
        assert(gap[open] == rest[open]);
        assert(gap.contains('"'));
    }
    assert(open == gap.len());
    let tail = rest.skip(open + 1);
    assert(tail =~= name + seq!['"'] + behind);
    text::up_to_is_first(tail, '"');
    let close = text::up_to(tail, '"');
    assert(tail[name.len() as int] == '"');
    if close < name.len() {
        assert(name[close] == tail[close]);
        assert(name.contains('"'));
    }
    assert(close == name.len());
    assert(tail.take(close) =~= name);
}

/// What was claimed is held exactly as long as both reports still show it.
pub proof fn a_claim_is_held_while_both_show_it(
    sink_report: Option<&str>,
    source_report: Option<&str>,
    sink: &str,
    source: &str,
    r: bool,
)
    requires
        call_ensures(held, (sink_report, source_report, sink, source), r),
    ensures
        r ==> reading(given(sink_report), "default.configured.audio.sink"@) == Some(sink@),
        r ==> reading(given(source_report), "default.configured.audio.source"@) == Some(source@),
        !r ==> reading(given(sink_report), "default.configured.audio.sink"@) != Some(sink@)
            || reading(given(source_report), "default.configured.audio.source"@) != Some(source@),
        sink_report is None || source_report is None ==> !r,
{
}

/// Claiming sets both defaults, each to its own node, and restoring sets
/// each to what was saved of it.
pub proof fn each_default_is_set_by_its_own_key(
    sink: &str,
    source: &str,
    saved: Saved,
    claimed: (Vec<String>, Vec<String>),
    restored: (Vec<String>, Vec<String>),
)
    requires
        call_ensures(claim, (sink, source), claimed),
        call_ensures(restore, (&saved,), restored),
    ensures
        text::texts(claimed.0@)[3] == "default.configured.audio.sink"@,
        text::texts(claimed.0@)[4] == "{ \"name\": \""@ + sink@ + "\" }"@,
        text::texts(claimed.1@)[3] == "default.configured.audio.source"@,
        text::texts(claimed.1@)[4] == "{ \"name\": \""@ + source@ + "\" }"@,
        text::texts(restored.0@)[3] == "default.configured.audio.sink"@,
        text::texts(restored.1@)[3] == "default.configured.audio.source"@,
        saved.sink is None ==> text::texts(restored.0@)[4] == "null"@,
        saved.source is None ==> text::texts(restored.1@)[4] == "null"@,
        saved.sink matches Some(n) ==> text::texts(restored.0@)[4] == "{ \"name\": \""@ + n@
            + "\" }"@,
        saved.source matches Some(n) ==> text::texts(restored.1@)[4] == "{ \"name\": \""@ + n@
            + "\" }"@,
{
}

/// A line without the word, or with nothing in closed quotes behind it, has
/// no name.
pub proof fn no_name_without_its_quotes(before: Seq<char>, gap: Seq<char>, rest: Seq<char>)
    requires
        !gap.contains('"'),
        !rest.contains('"'),
    ensures
        !text::occurs(before, "\"name\""@) ==> name_in(before) is None,
        text::first(before + "\"name\""@ + gap, "\"name\""@) == Some(before.len() as int)
            ==> name_in(before + "\"name\""@ + gap) is None,
        text::first(before + "\"name\""@ + gap + seq!['"'] + rest, "\"name\""@) == Some(
            before.len() as int,
        ) ==> name_in(before + "\"name\""@ + gap + seq!['"'] + rest) is None,
{
    reveal_strlit("\"name\"");
    assert("\"name\""@.len() == 6);
    let at = before.len() as int;
    text::first_is_first(before, "\"name\""@);
    if text::first(before, "\"name\""@) is Some {
        assert(text::occurs_at(
            before,
            "\"name\""@,
            text::first(before, "\"name\""@)->Some_0,
        ));
    }
    let bare = before + "\"name\""@ + gap;
    assert(bare.skip(at + 6) =~= gap);
    text::up_to_is_first(gap, '"');
    if text::up_to(gap, '"') < gap.len() {
        assert(gap.contains('"'));
    }
    let open = before + "\"name\""@ + gap + seq!['"'] + rest;
    let behind = open.skip(at + 6);
    assert(behind =~= gap + seq!['"'] + rest);
    text::up_to_is_first(behind, '"');
    let k = text::up_to(behind, '"');
    assert(behind[gap.len() as int] == '"');
    if k < gap.len() {
        assert(gap[k] == behind[k]);
        assert(gap.contains('"'));
    }
    assert(k == gap.len());
    assert(behind.skip(k + 1) =~= rest);
    text::up_to_is_first(rest, '"');
    if text::up_to(rest, '"') < rest.len() {
        assert(rest.contains('"'));
    }
}

/// Each default is saved as its own report shows it, and as nothing where
/// there is no report.
pub proof fn each_default_is_saved_from_its_own_report(
    sink_report: Option<&str>,
    source_report: Option<&str>,
    saved: Saved,
)
    requires
        call_ensures(snapshot, (sink_report, source_report), saved),
    ensures
        sink_report matches Some(r) ==> view_of(saved.sink) == name_for(
            r@,
            "default.configured.audio.sink"@,
        ),
        source_report matches Some(r) ==> view_of(saved.source) == name_for(
            r@,
            "default.configured.audio.source"@,
        ),
        sink_report is None ==> saved.sink is None,
        source_report is None ==> saved.source is None,
{
}

} // verus!
