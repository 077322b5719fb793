//! Keeping the virtual buses' monitors at unity.
//!
//! A B bus is a sink and what an application records is its monitor, so
//! the monitor's own volume is the bus's output level, and nothing in
//! the mixer shows it. One of them was found sitting at 51%, which is
//! -17.76 dB, and everything recorded from that bus was quietly that much
//! down while the fader read 0 dB and the meter agreed with the fader.
//!
//! The session manager restores that volume whenever the node reappears,
//! so setting it once is not enough; this is done on the same slow tick
//! as the default-device hold.
//!
//! `pactl` rather than the node's own Props: the monitor is a source in
//! its own right, with a volume the sink's `channelVolumes` does not
//! reach, and `pactl` is the documented way to address it.

use vstd::prelude::*;
use vstd::slice::slice_subrange;

use crate::text;

verus! {

/// What a monitor should read.
pub const UNITY: &'static str = "100%";

/// What a sink's monitor is called.
pub fn monitor_of(sink: &str) -> (source: String)
    ensures
        source@ == sink@ + ".monitor"@,
{
    text::cat2(sink, ".monitor")
}

/// The first line that gives a volume.
pub open spec fn volume_line(lines: Seq<Seq<char>>) -> Option<Seq<char>>
    decreases lines.len(),
{
    if lines.len() == 0 {
        None
    } else if text::begins(text::trimmed_start(lines[0], text::Trim::Space), "Volume:"@) {
        Some(lines[0])
    } else {
        volume_line(lines.skip(1))
    }
}

/// The lines of a block: those before the next source's begins.
pub open spec fn block(lines: Seq<Seq<char>>) -> Seq<Seq<char>>
    decreases lines.len(),
{
    if lines.len() == 0 || text::begins(lines[0], "Source #"@) {
        seq![]
    } else {
        seq![lines[0]] + block(lines.skip(1))
    }
}

/// The percentage a volume line gives: what stands between its first two
/// slashes.
pub open spec fn percent_in(line: Seq<char>) -> Option<u32> {
    let parts = text::pieces(line, '/');
    if parts.len() < 2 {
        None
    } else {
        let shown = text::trimmed_end(
            text::trimmed(parts[1], text::Trim::Space),
            text::Trim::Just('%'),
        );
        match text::parsed(text::trimmed(shown, text::Trim::Space), u32::MAX as nat) {
            Some(n) => Some(n as u32),
            None => None,
        }
    }
}

/// The first volume percentage reported for a source, in the block that its
/// name stands in. Another source's is none of its own.
pub open spec fn percent_of(listing: Seq<char>, source: Seq<char>) -> Option<u32> {
    match text::first(listing, "Name: "@ + source + "\n"@) {
        None => None,
        Some(at) => match volume_line(block(text::lines(listing.skip(at)))) {
            None => None,
            Some(line) => percent_in(line),
        },
    }
}

fn find_volume(lines: &Vec<Vec<char>>) -> (at: Option<usize>)
    ensures
        match at {
            Some(i) => i < lines@.len() && volume_line(block(text::views(lines@))) == Some(
                lines@[i as int]@,
            ),
            None => volume_line(block(text::views(lines@))) is None,
        },
{
    let mark = text::chars_of("Volume:");
    let head = text::chars_of("Source #");
    let ghost all = text::views(lines@);
    proof {
        assert(all.skip(0) =~= all);
    }
    for i in 0..lines.len()
        invariant
            mark@ == "Volume:"@,
            head@ == "Source #"@,
            all == text::views(lines@),
            volume_line(block(all)) == volume_line(block(all.skip(i as int))),
    {
        proof {
            assert(all.skip(i as int)[0] == lines@[i as int]@);
            assert(all.skip(i as int).skip(1) =~= all.skip(i + 1));
        }
        if text::starts_with(lines[i].as_slice(), head.as_slice()) {
            return None;
        }
        proof {
            assert(block(all.skip(i as int)).skip(1) =~= block(all.skip(i + 1)));
        }
        if text::starts_with(
            text::trim_start(lines[i].as_slice(), text::Trim::Space),
            mark.as_slice(),
        ) {
            return Some(i);
        }
    }
    None
}

/// The first volume percentage reported for `source`.
///
/// `pactl` prints a block per source and the volume line sits a few lines
/// under the name. A block without one says nothing, whatever the next one
/// says.
#[must_use]
pub fn volume_percent(listing: &str, source: &str) -> (percent: Option<u32>)
    ensures
        percent == percent_of(listing@, source@),
{
    let chars = text::chars_of(listing);
    let name = text::chars_of(text::cat3("Name: ", source, "\n").as_str());
    let at = match text::find(chars.as_slice(), name.as_slice()) {
        Some(at) => at,
        None => {
            return None;
        },
    };
    proof {
        text::first_is_first(chars@, name@);
        assert(chars@.subrange(at as int, chars@.len() as int) =~= chars@.skip(at as int));
    }
    let lines = text::lines_of(slice_subrange(chars.as_slice(), at, chars.len()));
    let line = match find_volume(&lines) {
        Some(i) => i,
        None => {
            return None;
        },
    };
    let parts = text::split(lines[line].as_slice(), '/');
    proof {
        assert(parts@.len() == text::views(parts@).len());
    }
    if parts.len() < 2 {
        return None;
    }
    proof {
        assert(text::views(parts@)[1] == parts@[1]@);
    }
    let shown = text::trim_end(
        text::trim(parts[1].as_slice(), text::Trim::Space),
        text::Trim::Just('%'),
    );
    text::parse_u32(text::trim(shown, text::Trim::Space))
}

/// Whether a monitor is already at unity, to avoid writing every tick. One
/// that is not listed, or where there is no listing, is left alone.
pub fn reads_unity(listing: Option<&str>, source: &str) -> (r: bool)
    ensures
        r == (match listing {
            Some(l) => percent_of(l@, source@) is None || percent_of(l@, source@) == Some(100u32),
            None => true,
        }),
{
    match listing {
        Some(l) => match volume_percent(l, source) {
            Some(percent) => percent == 100,
            None => true,
        },
        None => true,
    }
}

/// What `pactl` is to be told to put a sink's monitor back to unity, given
/// what it lists. Nothing where the monitor has not drifted.
pub fn hold_at_unity(listing: Option<&str>, sink: &str) -> (args: Option<Vec<String>>)
    ensures
        ({
            let drifted = match listing {
                Some(l) => match percent_of(l@, sink@ + ".monitor"@) {
                    Some(percent) => percent != 100,
                    None => false,
                },
                None => false,
            };
            &&& args is Some == drifted
            &&& args matches Some(list) ==> text::texts(list@) == seq![
                "set-source-volume"@,
                sink@ + ".monitor"@,
                UNITY@,
            ]
        }),
{
    let source = monitor_of(sink);
    if reads_unity(listing, source.as_str()) {
        return None;
    }
    let mut args = text::blank();
    text::write(&mut args, "set-source-volume".to_owned());
    text::write(&mut args, source);
    text::write(&mut args, UNITY.to_owned());
    proof {
        assert(text::texts(args@) =~= seq![
            "set-source-volume"@,
            sink@ + ".monitor"@,
            UNITY@,
        ]);
    }
    Some(args)
}

// ---------------------------------------------------------------------
// Laws

/// What the next source's block says does not matter: the volume read from
/// some lines is the same whatever follows the line that another block
/// begins with.
pub proof fn another_source_does_not_matter(
    own: Seq<Seq<char>>,
    head: Seq<char>,
    rest: Seq<Seq<char>>,
)
    requires
        text::begins(head, "Source #"@),
    ensures
        block(own + seq![head] + rest) == block(own),
        volume_line(block(own + seq![head] + rest)) == volume_line(block(own)),
    decreases own.len(),
{
    let all = own + seq![head] + rest;
    if own.len() == 0 {
        assert(all[0] == head);
    } else {
        assert(all[0] == own[0]);
        assert(all.skip(1) =~= own.skip(1) + seq![head] + rest);
        another_source_does_not_matter(own.skip(1), head, rest);
    }
}

/// A source's own lines end before the next source's begin.
pub proof fn a_block_ends_at_the_next_source(lines: Seq<Seq<char>>, k: int)
    requires
        0 <= k <= lines.len(),
        forall|j: int| 0 <= j < k ==> !text::begins(#[trigger] lines[j], "Source #"@),
        k < lines.len() ==> text::begins(lines[k], "Source #"@),
    ensures
        block(lines) == lines.take(k),
    decreases lines.len(),
{
    if k > 0 {
        let rest = lines.skip(1);
        assert forall|j: int| 0 <= j < k - 1 implies !text::begins(
            #[trigger] rest[j],
            "Source #"@,
        ) by {
            assert(rest[j] == lines[j + 1]);
        }
        assert(k < lines.len() ==> rest[k - 1] == lines[k]);
        a_block_ends_at_the_next_source(rest, k - 1);
        assert(seq![lines[0]] + rest.take(k - 1) =~= lines.take(k));
    } else {
        assert(lines.take(0) =~= seq![]);
    }
}

/// The volume is given by the first line that begins with it, blanks aside.
pub proof fn the_first_volume_counts(lines: Seq<Seq<char>>, k: int)
    requires
        0 <= k <= lines.len(),
        forall|j: int|
            0 <= j < k ==> !text::begins(
                text::trimmed_start(#[trigger] lines[j], text::Trim::Space),
                "Volume:"@,
            ),
        k < lines.len() ==> text::begins(
            text::trimmed_start(lines[k], text::Trim::Space),
            "Volume:"@,
        ),
    ensures
        k < lines.len() ==> volume_line(lines) == Some(lines[k]),
        k == lines.len() ==> volume_line(lines) is None,
    decreases lines.len(),
{
    if k > 0 {
        let rest = lines.skip(1);
        assert forall|j: int| 0 <= j < k - 1 implies !text::begins(
            text::trimmed_start(#[trigger] rest[j], text::Trim::Space),
            "Volume:"@,
        ) by {
            assert(rest[j] == lines[j + 1]);
        }
        assert(k < lines.len() ==> rest[k - 1] == lines[k]);
        assert(!text::begins(text::trimmed_start(lines[0], text::Trim::Space), "Volume:"@));
        the_first_volume_counts(rest, k - 1);
    }
}

/// A volume is read behind the first stroke of its line, up to the next or to
/// the end, blanks and the signs behind it aside.
pub proof fn a_percentage_stands_between_strokes(
    head: Seq<char>,
    left: Seq<char>,
    n: u32,
    gap: Seq<char>,
    signs: Seq<char>,
    right: Seq<char>,
    tail: Seq<char>,
)
    requires
        !head.contains('/'),
        forall|k: int| 0 <= k < left.len() ==> text::is_space(#[trigger] left[k]),
        forall|k: int| 0 <= k < gap.len() ==> text::is_space(#[trigger] gap[k]),
        forall|k: int| 0 <= k < signs.len() ==> #[trigger] signs[k] == '%',
        forall|k: int| 0 <= k < right.len() ==> text::is_space(#[trigger] right[k]),
        signs.len() > 0 || gap.len() == 0,
    ensures
        ({
            let part = left + (text::decimal(n as nat) + gap + signs) + right;
            &&& percent_in(head + seq!['/'] + part + seq!['/'] + tail) == Some(n)
            &&& percent_in(head + seq!['/'] + part) == Some(n)
            &&& percent_in(head) is None
        }),
{
    let digits = text::decimal(n as nat);
    let shown = digits + gap + signs;
    let part = left + shown + right;
    let line = head + seq!['/'] + part + seq!['/'] + tail;
    text::decimal_reads_back(n as nat);
    assert(text::is_digit(digits[0]) && text::is_digit(digits.last()));
    assert(shown[0] == digits[0]);
    assert(shown.last() == if signs.len() > 0 {
        '%'
    } else {
        digits.last()
    });
    assert forall|k: int| 0 <= k < shown.len() implies #[trigger] shown[k] != '/' by {
        if k < digits.len() {
            assert(shown[k] == digits[k]);
            assert(text::is_digit(digits[k]));
        } else if k < digits.len() + gap.len() {
            assert(shown[k] == gap[k - digits.len()]);
        } else {
            assert(shown[k] == signs[k - digits.len() - gap.len()]);
        }
    }
    assert forall|k: int| 0 <= k < part.len() implies #[trigger] part[k] != '/' by {
        if k < left.len() {
            assert(part[k] == left[k]);
        } else if k < left.len() + shown.len() {
            assert(part[k] == shown[k - left.len()]);
        } else {
            assert(part[k] == right[k - left.len() - shown.len()]);
        }
    }
    assert(!part.contains('/'));
    cut_once(head, part + seq!['/'] + tail);
    cut_once(part, tail);
    assert(head + seq!['/'] + (part + seq!['/'] + tail) =~= line);
    assert(text::pieces(line, '/')[1] == part);
    a_shown_number_reads_back(left, n, gap, signs, right);
    cut_once(head, part);
    text::up_to_is_first(part, '/');
    if text::up_to(part, '/') < part.len() {
        assert(part.contains('/'));
    }
    assert(text::pieces(part, '/') =~= seq![part]);
    assert(text::pieces(head + seq!['/'] + part, '/')[1] == part);
    text::up_to_is_first(head, '/');
    if text::up_to(head, '/') < head.len() {
        assert(head.contains('/'));
    }
    assert(text::pieces(head, '/') =~= seq![head]);
}

/// A number with blanks round it and signs behind it is read as the number.
proof fn a_shown_number_reads_back(
    left: Seq<char>,
    n: u32,
    gap: Seq<char>,
    signs: Seq<char>,
    right: Seq<char>,
)
    requires
        forall|k: int| 0 <= k < left.len() ==> text::is_space(#[trigger] left[k]),
        forall|k: int| 0 <= k < gap.len() ==> text::is_space(#[trigger] gap[k]),
        forall|k: int| 0 <= k < signs.len() ==> #[trigger] signs[k] == '%',
        forall|k: int| 0 <= k < right.len() ==> text::is_space(#[trigger] right[k]),
        signs.len() > 0 || gap.len() == 0,
    ensures
        ({
            let part = left + (text::decimal(n as nat) + gap + signs) + right;
            let shown = text::trimmed_end(
                text::trimmed(part, text::Trim::Space),
                text::Trim::Just('%'),
            );
            text::parsed(text::trimmed(shown, text::Trim::Space), u32::MAX as nat) == Some(
                n as nat,
            )
        }),
{
    let digits = text::decimal(n as nat);
    let shown = digits + gap + signs;
    let nothing = Seq::<char>::empty();
    text::decimal_reads_back(n as nat);
    text::written_numbers_parse(n as nat, u32::MAX as nat);
    assert(text::is_digit(digits[0]) && text::is_digit(digits.last()));
    assert(shown[0] == digits[0]);
    if signs.len() > 0 {
        assert(shown.last() == signs.last());
    } else {
        assert(shown =~= digits);
    }
    text::what_is_trimmed_comes_out(left, shown, right, text::Trim::Space);
    let inner = digits + gap;
    assert(inner[0] == digits[0]);
    if gap.len() > 0 {
        assert(inner.last() == gap.last());
        assert(text::is_space(gap[gap.len() - 1]));
    } else {
        assert(inner =~= digits);
    }
    text::what_is_trimmed_comes_out(nothing, inner, signs, text::Trim::Just('%'));
    text::what_is_trimmed_comes_out(nothing, digits, gap, text::Trim::Space);
    assert(nothing + digits + gap =~= inner);
}

/// A text is cut at its first stroke.
proof fn cut_once(head: Seq<char>, rest: Seq<char>)
    requires
        !head.contains('/'),
    ensures
        text::pieces(head + seq!['/'] + rest, '/') == seq![head] + text::pieces(rest, '/'),
        text::pieces(rest, '/').len() > 0,
{
    let all = head + seq!['/'] + rest;
    let at = text::up_to(all, '/');
    text::up_to_is_first(all, '/');
    assert(all[head.len() as int] == '/');
    if at < head.len() {
        assert(head[at] == all[at]);
        assert(head.contains('/'));
    }
    assert(at == head.len());
    assert(all.take(at) =~= head);
    assert(all.skip(at + 1) =~= rest);
    text::stringing_undoes_splitting(rest, '/');
}

/// A monitor's volume is read from the listing's first block that has its
/// name, up to the next source: the percentage that the block's first volume
/// line shows, and nothing where the block has no such line.
pub proof fn a_listing_reads_back(
    front: Seq<char>,
    source: Seq<char>,
    own: Seq<Seq<char>>,
    k: int,
    others: Seq<Seq<char>>,
)
    requires
        !source.contains('\n'),
        source.len() > 0 ==> source.last() != '\r',
        forall|i: int|
            0 <= i < own.len() ==> !(#[trigger] own[i]).contains('\n') && (own[i].len() > 0
                ==> own[i].last() != '\r') && !text::begins(own[i], "Source #"@),
        forall|i: int|
            0 <= i < others.len() ==> !(#[trigger] others[i]).contains('\n') && (others[i].len() > 0
                ==> others[i].last() != '\r'),
        others.len() > 0 ==> text::begins(others[0], "Source #"@),
        0 <= k <= own.len(),
        forall|j: int|
            0 <= j < k ==> !text::begins(
                text::trimmed_start(#[trigger] own[j], text::Trim::Space),
                "Volume:"@,
            ),
        k < own.len() ==> text::begins(
            text::trimmed_start(own[k], text::Trim::Space),
            "Volume:"@,
        ),
        text::first(
            front + ("Name: "@ + source + "\n"@) + text::ended(own + others),
            "Name: "@ + source + "\n"@,
        ) == Some(front.len() as int),
    ensures
        percent_of(
            front + ("Name: "@ + source + "\n"@) + text::ended(own + others),
            source,
        ) == (if k < own.len() {
            percent_in(own[k])
        } else {
            None
        }),
{
    reveal_strlit("Name: ");
    reveal_strlit("\n");
    reveal_strlit("Volume:");
    reveal_strlit("Source #");
    let title = "Name: "@ + source;
    let lines = own + others;
    let listing = front + ("Name: "@ + source + "\n"@) + text::ended(lines);
    let rest = listing.skip(front.len() as int);
    assert("\n"@ =~= seq!['\n']);
    assert(rest =~= title + seq!['\n'] + text::ended(lines));
    assert forall|i: int| 0 <= i < title.len() implies #[trigger] title[i] != '\n' by {
        if i >= 6 {
            assert(title[i] == source[i - 6]);
        }
    }
    assert(title.len() > 6 ==> title.last() == source.last());
    text::lines_end_at_newlines(title, text::ended(lines));
    assert forall|i: int|
        0 <= i < lines.len() implies !(#[trigger] lines[i]).contains('\n') && (lines[i].len() > 0
        ==> lines[i].last() != '\r') by {
        if i < own.len() {
            assert(lines[i] == own[i]);
        } else {
            assert(lines[i] == others[i - own.len()]);
        }
    }
    text::written_lines_read_back(lines);
    let all = seq![title] + lines;
    assert(text::lines(rest) == all);
    assert(title[0] == 'N');
    assert(!text::begins(title, "Source #"@)) by {
        if text::begins(title, "Source #"@) {
            assert(title.subrange(0, 8)[0] == "Source #"@[0]);
        }
    }
    let n = own.len() + 1;
    assert forall|j: int| 0 <= j < n implies !text::begins(#[trigger] all[j], "Source #"@) by {
        if j > 0 {
            assert(all[j] == own[j - 1]);
        }
    }
    if n < all.len() {
        assert(all[n as int] == others[0]);
    }
    a_block_ends_at_the_next_source(all, n as int);
    let mine = all.take(n as int);
    let untouched = text::trimmed_start(title, text::Trim::Space);
    assert(untouched == title);
    assert(!text::begins(title, "Volume:"@)) by {
        if text::begins(title, "Volume:"@) {
            assert(title.subrange(0, 7)[0] == "Volume:"@[0]);
        }
    }
    assert forall|j: int| 0 <= j < k + 1 implies !text::begins(
        text::trimmed_start(#[trigger] mine[j], text::Trim::Space),
        "Volume:"@,
    ) by {
        if j > 0 {
            assert(mine[j] == own[j - 1]);
        }
    }
    if k < own.len() {
        assert(mine[k + 1] == own[k]);
    }
    the_first_volume_counts(mine, k + 1);
}

/// What a monitor is put back to is what it is held to: a hundred percent.
pub proof fn unity_is_a_hundred_percent()
    ensures
        UNITY@ == text::decimal(100) + "%"@,
{
    reveal_strlit("100%");
    reveal_strlit("%");
    reveal_with_fuel(text::decimal, 4);
    assert(text::decimal(100) =~= seq!['1', '0', '0']);
    assert(UNITY@ =~= text::decimal(100) + "%"@);
}

/// A monitor is put back to unity exactly where the listing shows it
/// elsewhere, and is told so by its own name.
pub proof fn only_what_drifted_is_put_back(
    listing: Option<&str>,
    sink: &str,
    source: &str,
    steady: bool,
    args: Option<Vec<String>>,
)
    requires
        source@ == sink@ + ".monitor"@,
        call_ensures(reads_unity, (listing, source), steady),
        call_ensures(hold_at_unity, (listing, sink), args),
    ensures
        args is Some == !steady,
        listing is None ==> steady,
        listing matches Some(l) ==> (percent_of(l@, source@) matches Some(n) ==> steady == (n
            == 100)),
        listing matches Some(l) ==> (percent_of(l@, source@) is None ==> steady),
        args matches Some(list) ==> text::texts(list@) == seq![
            "set-source-volume"@,
            sink@ + ".monitor"@,
            "100%"@,
        ],
{
}

/// A source that is not listed has no volume.
pub proof fn what_is_not_listed_has_no_volume(listing: Seq<char>, source: Seq<char>)
    requires
        !text::occurs(listing, "Name: "@ + source + "\n"@),
    ensures
        percent_of(listing, source) is None,
{
    let mark = "Name: "@ + source + "\n"@;
    text::first_is_first(listing, mark);
    if text::first(listing, mark) is Some {
        assert(text::occurs_at(listing, mark, text::first(listing, mark)->Some_0));
    }
}

} // verus!
