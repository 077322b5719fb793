//! Plain text, as sequences of characters.
//!
//! The settings, the graph descriptions and the reports of other programs
//! are all text, and every one of them is read or written here with the
//! same few operations. Each has a model over `Seq<char>` beside it.

use vstd::prelude::*;
use vstd::slice::slice_subrange;

verus! {

/// `String::push` of the standard library: the character goes on the end
/// and nothing else changes.
pub assume_specification[ String::push ](s: &mut String, c: char)
    ensures
        final(s)@ == old(s)@.push(c),
;

/// The characters of a string, in order.
pub fn chars_of(text: &str) -> (chars: Vec<char>)
    ensures
        chars@ == text@,
{
    let mut chars: Vec<char> = Vec::new();
    for c in it: text.chars()
        invariant
            it.seq() == text@,
            chars@ == text@.take(it.index() as int),
    {
        chars.push(c);
    }
    chars
}

/// A string of the given characters.
pub fn string_of(chars: &[char]) -> (text: String)
    ensures
        text@ == chars@,
{
    let mut text = String::new();
    for i in 0..chars.len()
        invariant
            text@ == chars@.take(i as int),
    {
        text.push(chars[i]);
    }
    text
}

/// Whether two runs of characters are the same.
pub fn same_chars(a: &[char], b: &[char]) -> (same: bool)
    ensures
        same == (a@ == b@),
{
    if a.len() != b.len() {
        return false;
    }
    for i in 0..a.len()
        invariant
            a@.len() == b@.len(),
            a@.take(i as int) == b@.take(i as int),
    {
        if a[i] != b[i] {
            return false;
        }
        proof {
            assert(a@.take(i + 1) =~= a@.take(i as int).push(a@[i as int]));
            assert(b@.take(i + 1) =~= b@.take(i as int).push(b@[i as int]));
        }
    }
    proof {
        assert(a@.take(a@.len() as int) =~= a@);
        assert(b@.take(a@.len() as int) =~= b@);
    }
    true
}

/// Whether two strings are the same.
pub fn same(a: &str, b: &str) -> (same: bool)
    ensures
        same == (a@ == b@),
{
    let a = chars_of(a);
    let b = chars_of(b);
    same_chars(a.as_slice(), b.as_slice())
}

// ---------------------------------------------------------------------
// Order

/// Whether `a` comes strictly before `b`, character by character and by
/// code point, a prefix before anything that extends it.
pub open spec fn before(a: Seq<char>, b: Seq<char>) -> bool
    decreases a.len(),
{
    if b.len() == 0 {
        false
    } else if a.len() == 0 {
        true
    } else if a[0] == b[0] {
        before(a.drop_first(), b.drop_first())
    } else {
        a[0] < b[0]
    }
}

/// Nothing comes before itself.
pub proof fn before_is_irreflexive(a: Seq<char>)
    ensures
        !before(a, a),
    decreases a.len(),
{
    if a.len() > 0 {
        before_is_irreflexive(a.drop_first());
    }
}

/// The order is transitive.
pub proof fn before_is_transitive(a: Seq<char>, b: Seq<char>, c: Seq<char>)
    requires
        before(a, b),
        before(b, c),
    ensures
        before(a, c),
    decreases a.len(),
{
    if a.len() > 0 && a[0] == b[0] && b[0] == c[0] {
        before_is_transitive(a.drop_first(), b.drop_first(), c.drop_first());
    }
}

/// Of two different texts one comes before the other.
pub proof fn before_is_total(a: Seq<char>, b: Seq<char>)
    ensures
        a == b || before(a, b) || before(b, a),
    decreases a.len(),
{
    if a.len() == 0 {
        assert(b.len() == 0 ==> a =~= b);
    } else if b.len() > 0 && a[0] == b[0] {
        before_is_total(a.drop_first(), b.drop_first());
        if a.drop_first() == b.drop_first() {
            assert(a =~= seq![a[0]] + a.drop_first());
            assert(b =~= seq![b[0]] + b.drop_first());
        }
    }
}

fn lower(x: char, y: char) -> (r: bool)
    ensures
        r == (x < y),
{
    x < y
}

/// Whether `a` comes strictly before `b`.
pub fn comes_before(a: &str, b: &str) -> (r: bool)
    ensures
        r == before(a@, b@),
{
    let left = chars_of(a);
    let right = chars_of(b);
    let mut i: usize = 0;
    proof {
        assert(left@.skip(0) =~= left@);
        assert(right@.skip(0) =~= right@);
    }
    while i < left.len() && i < right.len()
        invariant
            left@ == a@,
            right@ == b@,
            i <= left@.len(),
            i <= right@.len(),
            before(left@, right@) == before(left@.skip(i as int), right@.skip(i as int)),
        decreases left@.len() - i,
    {
        if left[i] != right[i] {
            return lower(left[i], right[i]);
        }
        proof {
            assert(left@.skip(i as int).drop_first() =~= left@.skip(i + 1));
            assert(right@.skip(i as int).drop_first() =~= right@.skip(i + 1));
        }
        i = i + 1;
    }
    i < right.len()
}

/// A character with the 26 Latin capitals made small.
pub open spec fn small(c: char) -> char {
    if 65 <= c as int <= 90 {
        (c as int + 32) as char
    } else {
        c
    }
}

/// A text with the 26 Latin capitals made small.
pub open spec fn small_text(text: Seq<char>) -> Seq<char> {
    text.map_values(|c: char| small(c))
}

fn make_small(c: char) -> (r: char)
    ensures
        r == small(c),
{
    let n: u32 = c as u32;
    if 65 <= n && n <= 90 {
        (n as u8 + 32) as char
    } else {
        c
    }
}

/// Make the 26 Latin capitals small.
pub fn to_small(text: &str) -> (r: String)
    ensures
        r@ == small_text(text@),
{
    let chars = chars_of(text);
    let mut r = String::new();
    for i in 0..chars.len()
        invariant
            chars@ == text@,
            r@ == small_text(text@).take(i as int),
    {
        r.push(make_small(chars[i]));
        proof {
            assert(small_text(text@).take(i + 1) =~= small_text(text@).take(i as int).push(
                small(text@[i as int]),
            ));
        }
    }
    proof {
        assert(small_text(text@).take(text@.len() as int) =~= small_text(text@));
    }
    r
}

// ---------------------------------------------------------------------
// Searching

/// Whether `piece` stands in `text` at `i`.
pub open spec fn occurs_at(text: Seq<char>, piece: Seq<char>, i: int) -> bool {
    &&& 0 <= i
    &&& i + piece.len() <= text.len()
    &&& text.subrange(i, i + piece.len()) == piece
}

/// Whether `piece` stands anywhere in `text`.
pub open spec fn occurs(text: Seq<char>, piece: Seq<char>) -> bool {
    exists|i: int| occurs_at(text, piece, i)
}

/// The first place at or after `i` where `piece` stands in `text`.
pub open spec fn first_from(text: Seq<char>, piece: Seq<char>, i: int) -> Option<int>
    decreases text.len() + 1 - i,
{
    if i + piece.len() > text.len() {
        None
    } else if occurs_at(text, piece, i) {
        Some(i)
    } else {
        first_from(text, piece, i + 1)
    }
}

/// The first place where `piece` stands in `text`.
pub open spec fn first(text: Seq<char>, piece: Seq<char>) -> Option<int> {
    first_from(text, piece, 0)
}

/// What [`first`] finds is an occurrence with none before it, and it finds
/// one wherever there is one.
pub proof fn first_is_first(text: Seq<char>, piece: Seq<char>)
    ensures
        match first(text, piece) {
            Some(at) => occurs_at(text, piece, at) && forall|j: int|
                0 <= j < at ==> !occurs_at(text, piece, j),
            None => !occurs(text, piece),
        },
{
    first_from_is_first(text, piece, 0);
}

proof fn first_from_is_first(text: Seq<char>, piece: Seq<char>, i: int)
    requires
        0 <= i,
    ensures
        match first_from(text, piece, i) {
            Some(at) => at >= i && occurs_at(text, piece, at) && forall|j: int|
                i <= j < at ==> !occurs_at(text, piece, j),
            None => forall|j: int| i <= j ==> !occurs_at(text, piece, j),
        },
    decreases text.len() + 1 - i,
{
    if i + piece.len() <= text.len() && !occurs_at(text, piece, i) {
        first_from_is_first(text, piece, i + 1);
    }
}

/// Whether `piece` stands in `text` at `i`.
pub fn is_at(text: &[char], piece: &[char], i: usize) -> (r: bool)
    ensures
        r == occurs_at(text@, piece@, i as int),
{
    if i > text.len() || text.len() - i < piece.len() {
        return false;
    }
    same_chars(slice_subrange(text, i, i + piece.len()), piece)
}

/// The first place where `piece` stands in `text`.
pub fn find(text: &[char], piece: &[char]) -> (at: Option<usize>)
    ensures
        match at {
            Some(i) => first(text@, piece@) == Some(i as int),
            None => first(text@, piece@) is None,
        },
{
    let mut i: usize = 0;
    while i <= text.len() && text.len() - i >= piece.len()
        invariant
            i <= text@.len() + 1,
            first(text@, piece@) == first_from(text@, piece@, i as int),
        decreases text@.len() + 1 - i,
    {
        if is_at(text, piece, i) {
            return Some(i);
        }
        if i == text.len() {
            proof {
                assert(text@.subrange(i as int, i as int) =~= piece@);
            }
            return None;
        }
        i = i + 1;
    }
    None
}

/// Whether `piece` stands anywhere in `text`.
pub fn contains(text: &[char], piece: &[char]) -> (r: bool)
    ensures
        r == occurs(text@, piece@),
{
    proof {
        first_is_first(text@, piece@);
    }
    find(text, piece).is_some()
}

/// Whether `text` begins with `head`.
pub open spec fn begins(text: Seq<char>, head: Seq<char>) -> bool {
    occurs_at(text, head, 0)
}

/// Whether `text` ends with `tail`.
pub open spec fn ends(text: Seq<char>, tail: Seq<char>) -> bool {
    occurs_at(text, tail, text.len() - tail.len())
}

/// Whether `text` begins with `head`.
pub fn starts_with(text: &[char], head: &[char]) -> (r: bool)
    ensures
        r == begins(text@, head@),
{
    is_at(text, head, 0)
}

/// Whether `text` ends with `tail`.
pub fn ends_with(text: &[char], tail: &[char]) -> (r: bool)
    ensures
        r == ends(text@, tail@),
{
    if text.len() < tail.len() {
        return false;
    }
    is_at(text, tail, text.len() - tail.len())
}

// ---------------------------------------------------------------------
// Trimming

/// Whether a character is white space, as Unicode lists it.
pub open spec fn is_space(c: char) -> bool {
    ||| 0x9 <= c as int <= 0xd
    ||| c as int == 0x20
    ||| c as int == 0x85
    ||| c as int == 0xa0
    ||| c as int == 0x1680
    ||| 0x2000 <= c as int <= 0x200a
    ||| c as int == 0x2028
    ||| c as int == 0x2029
    ||| c as int == 0x202f
    ||| c as int == 0x205f
    ||| c as int == 0x3000
}

fn space(c: char) -> (r: bool)
    ensures
        r == is_space(c),
{
    let n: u32 = c as u32;
    (0x9 <= n && n <= 0xd) || n == 0x20 || n == 0x85 || n == 0xa0 || n == 0x1680 || (0x2000 <= n && n
        <= 0x200a) || n == 0x2028 || n == 0x2029 || n == 0x202f || n == 0x205f || n == 0x3000
}

/// Which characters to trim.
#[derive(Debug, Clone, Copy)]
pub enum Trim {
    /// White space.
    Space,
    /// One particular character.
    Just(char),
}

impl Trim {
    /// Whether a character is one of them.
    pub open spec fn takes(self, c: char) -> bool {
        match self {
            Trim::Space => is_space(c),
            Trim::Just(d) => c == d,
        }
    }

    fn accepts(self, c: char) -> (r: bool)
        ensures
            r == self.takes(c),
    {
        match self {
            Trim::Space => space(c),
            Trim::Just(d) => c == d,
        }
    }
}

/// `text` without the trimmed characters it begins with.
pub open spec fn trimmed_start(text: Seq<char>, what: Trim) -> Seq<char>
    decreases text.len(),
{
    if text.len() > 0 && what.takes(text[0]) {
        trimmed_start(text.drop_first(), what)
    } else {
        text
    }
}

/// `text` without the trimmed characters it ends with.
pub open spec fn trimmed_end(text: Seq<char>, what: Trim) -> Seq<char>
    decreases text.len(),
{
    if text.len() > 0 && what.takes(text.last()) {
        trimmed_end(text.drop_last(), what)
    } else {
        text
    }
}

/// `text` trimmed at both ends.
pub open spec fn trimmed(text: Seq<char>, what: Trim) -> Seq<char> {
    trimmed_end(trimmed_start(text, what), what)
}

/// Leave out what `text` begins with.
pub fn trim_start(text: &[char], what: Trim) -> (r: &[char])
    ensures
        r@ == trimmed_start(text@, what),
{
    let mut i: usize = 0;
    proof {
        assert(text@.subrange(0, text@.len() as int) =~= text@);
    }
    while i < text.len()
        invariant
            i <= text@.len(),
            trimmed_start(text@, what) == trimmed_start(
                text@.subrange(i as int, text@.len() as int),
                what,
            ),
        decreases text@.len() - i,
    {
        if !what.accepts(text[i]) {
            return slice_subrange(text, i, text.len());
        }
        proof {
            assert(text@.subrange(i as int, text@.len() as int).drop_first() =~= text@.subrange(
                i + 1,
                text@.len() as int,
            ));
        }
        i = i + 1;
    }
    slice_subrange(text, i, text.len())
}

/// Leave out what `text` ends with.
pub fn trim_end(text: &[char], what: Trim) -> (r: &[char])
    ensures
        r@ == trimmed_end(text@, what),
{
    let mut n: usize = text.len();
    proof {
        assert(text@.subrange(0, text@.len() as int) =~= text@);
    }
    while n > 0
        invariant
            n <= text@.len(),
            trimmed_end(text@, what) == trimmed_end(text@.subrange(0, n as int), what),
        decreases n,
    {
        if !what.accepts(text[n - 1]) {
            return slice_subrange(text, 0, n);
        }
        proof {
            assert(text@.subrange(0, n as int).drop_last() =~= text@.subrange(0, n - 1));
        }
        n = n - 1;
    }
    slice_subrange(text, 0, n)
}

/// Leave out what `text` begins and ends with.
pub fn trim(text: &[char], what: Trim) -> (r: &[char])
    ensures
        r@ == trimmed(text@, what),
{
    trim_end(trim_start(text, what), what)
}

// ---------------------------------------------------------------------
// Splitting

/// Where the first `c` stands in `text`, or its length if there is none.
pub open spec fn up_to(text: Seq<char>, c: char) -> int
    decreases text.len(),
{
    if text.len() == 0 || text[0] == c {
        0
    } else {
        1 + up_to(text.drop_first(), c)
    }
}

/// Before `up_to` there is no `c`, and at it there is one unless the text
/// ends there.
pub proof fn up_to_is_first(text: Seq<char>, c: char)
    ensures
        0 <= up_to(text, c) <= text.len(),
        up_to(text, c) < text.len() ==> text[up_to(text, c)] == c,
        forall|i: int| 0 <= i < up_to(text, c) ==> text[i] != c,
    decreases text.len(),
{
    if text.len() > 0 && text[0] != c {
        up_to_is_first(text.drop_first(), c);
        assert forall|i: int| 0 <= i < up_to(text, c) implies text[i] != c by {
            if i > 0 {
                assert(text[i] == text.drop_first()[i - 1]);
            }
        }
    }
}

/// Where the first `c` stands in `text`, or its length if there is none.
pub fn position(text: &[char], c: char) -> (at: usize)
    ensures
        at == up_to(text@, c),
        at <= text@.len(),
{
    let mut i: usize = 0;
    proof {
        assert(text@.skip(0) =~= text@);
    }
    while i < text.len()
        invariant
            i <= text@.len(),
            up_to(text@, c) == i + up_to(text@.skip(i as int), c),
        decreases text@.len() - i,
    {
        if text[i] == c {
            return i;
        }
        proof {
            assert(text@.skip(i as int).drop_first() =~= text@.skip(i + 1));
        }
        i = i + 1;
    }
    i
}

/// The pieces of `text` between one `c` and the next.
pub open spec fn pieces(text: Seq<char>, c: char) -> Seq<Seq<char>>
    decreases text.len(),
    via pieces_decreases
{
    let at = up_to(text, c);
    if at >= text.len() {
        seq![text]
    } else {
        seq![text.take(at)] + pieces(text.skip(at + 1), c)
    }
}

#[via_fn]
proof fn pieces_decreases(text: Seq<char>, c: char) {
    up_to_is_first(text, c);
}

/// A line without the carriage return that stood before its newline.
pub open spec fn without_return(line: Seq<char>) -> Seq<char> {
    if line.len() > 0 && line.last() == '\r' {
        line.drop_last()
    } else {
        line
    }
}

/// The lines of `text`: what stands before each newline, and what follows
/// the last one if anything does.
pub open spec fn lines(text: Seq<char>) -> Seq<Seq<char>>
    decreases text.len(),
    via lines_decreases
{
    let at = up_to(text, '\n');
    if text.len() == 0 {
        seq![]
    } else if at >= text.len() {
        seq![text]
    } else {
        seq![without_return(text.take(at))] + lines(text.skip(at + 1))
    }
}

#[via_fn]
proof fn lines_decreases(text: Seq<char>) {
    up_to_is_first(text, '\n');
}

/// The characters of each entry of a list.
pub open spec fn views(list: Seq<Vec<char>>) -> Seq<Seq<char>> {
    list.map_values(|entry: Vec<char>| entry@)
}

/// The pieces of `text` between one `c` and the next.
pub fn split(text: &[char], c: char) -> (list: Vec<Vec<char>>)
    ensures
        views(list@) == pieces(text@, c),
{
    let mut list: Vec<Vec<char>> = Vec::new();
    let mut i: usize = 0;
    proof {
        assert(text@.skip(0) =~= text@);
        assert(views(list@) + pieces(text@, c) =~= pieces(text@, c));
    }
    loop
        invariant
            i <= text@.len(),
            views(list@) + pieces(text@.skip(i as int), c) == pieces(text@, c),
        decreases text@.len() - i,
    {
        let ghost before_push = views(list@);
        let rest = slice_subrange(text, i, text.len());
        let at = position(rest, c);
        proof {
            assert(rest@ =~= text@.skip(i as int));
        }
        if at >= rest.len() {
            list.push(vstd::slice::slice_to_vec(rest));
            proof {
                assert(views(list@) =~= before_push.push(rest@));
                assert(before_push + seq![rest@] =~= before_push.push(rest@));
            }
            return list;
        }
        list.push(vstd::slice::slice_to_vec(slice_subrange(rest, 0, at)));
        proof {
            assert(rest@.take(at as int) =~= rest@.subrange(0, at as int));
            assert(views(list@) =~= before_push.push(rest@.take(at as int)));
            assert(rest@.skip(at + 1) =~= text@.skip(i + at + 1));
            assert(before_push + (seq![rest@.take(at as int)] + pieces(rest@.skip(at + 1), c))
                =~= before_push.push(rest@.take(at as int)) + pieces(rest@.skip(at + 1), c));
        }
        i = i + at + 1;
    }
}

/// The lines of `text`.
pub fn lines_of(text: &[char]) -> (list: Vec<Vec<char>>)
    ensures
        views(list@) == lines(text@),
{
    let mut list: Vec<Vec<char>> = Vec::new();
    let mut i: usize = 0;
    proof {
        assert(text@.skip(0) =~= text@);
        assert(views(list@) + lines(text@) =~= lines(text@));
    }
    while i < text.len()
        invariant
            i <= text@.len(),
            views(list@) + lines(text@.skip(i as int)) == lines(text@),
        decreases text@.len() - i,
    {
        let ghost before_push = views(list@);
        let rest = slice_subrange(text, i, text.len());
        let at = position(rest, '\n');
        proof {
            assert(rest@ =~= text@.skip(i as int));
        }
        if at >= rest.len() {
            list.push(vstd::slice::slice_to_vec(rest));
            proof {
                assert(views(list@) =~= before_push.push(rest@));
                assert(before_push + seq![rest@] =~= before_push.push(rest@));
            }
            return list;
        }
        let end = if at > 0 && rest[at - 1] == '\r' {
            at - 1
        } else {
            at
        };
        list.push(vstd::slice::slice_to_vec(slice_subrange(rest, 0, end)));
        proof {
            assert(rest@.subrange(0, end as int) =~= without_return(rest@.take(at as int)));
            assert(views(list@) =~= before_push.push(without_return(rest@.take(at as int))));
            assert(rest@.skip(at + 1) =~= text@.skip(i + at + 1));
            assert(before_push + (seq![without_return(rest@.take(at as int))] + lines(
                rest@.skip(at + 1),
            )) =~= before_push.push(without_return(rest@.take(at as int))) + lines(
                rest@.skip(at + 1),
            ));
        }
        i = i + at + 1;
    }
    proof {
        assert(text@.skip(i as int) =~= Seq::empty());
        assert(views(list@) + lines(text@.skip(i as int)) =~= views(list@));
    }
    list
}

// ---------------------------------------------------------------------
// Numbers

/// The digit for a number below ten.
pub open spec fn digit(n: nat) -> char {
    (48 + n) as char
}

/// A number as decimal digits, without leading zeros.
pub open spec fn decimal(n: nat) -> Seq<char>
    decreases n,
{
    if n < 10 {
        seq![digit(n)]
    } else {
        decimal(n / 10).push(digit(n % 10))
    }
}

/// A number as decimal digits, with a minus sign where it is negative.
pub open spec fn signed_decimal(n: int) -> Seq<char> {
    if n < 0 {
        seq!['-'] + decimal((-n) as nat)
    } else {
        decimal(n as nat)
    }
}

/// Write a number out.
pub fn number(n: u64) -> (text: String)
    ensures
        text@ == decimal(n as nat),
    decreases n,
{
    let last: char = (48 + (n % 10) as u8) as char;
    let mut text = if n < 10 {
        String::new()
    } else {
        number(n / 10)
    };
    text.push(last);
    proof {
        assert(n < 10 ==> Seq::<char>::empty().push(digit(n as nat)) =~= seq![digit(n as nat)]);
    }
    text
}

/// Write a number out, with its sign.
pub fn signed_number(n: i64) -> (text: String)
    requires
        n > i64::MIN,
    ensures
        text@ == signed_decimal(n as int),
{
    if n < 0 {
        let mut text = String::new();
        text.push('-');
        text.append(number((-n) as u64).as_str());
        proof {
            assert(Seq::<char>::empty().push('-') =~= seq!['-']);
        }
        text
    } else {
        number(n as u64)
    }
}

/// Whether a character is a decimal digit.
pub open spec fn is_digit(c: char) -> bool {
    48 <= c as int <= 57
}

/// Whether every character is a decimal digit.
pub open spec fn all_digits(text: Seq<char>) -> bool {
    forall|i: int| 0 <= i < text.len() ==> is_digit(#[trigger] text[i])
}

/// The number that a run of decimal digits stands for.
pub open spec fn value(text: Seq<char>) -> nat
    decreases text.len(),
{
    if text.len() == 0 {
        0
    } else {
        value(text.drop_last()) * 10 + (text.last() as int - 48) as nat
    }
}

/// What a text says as a number no greater than `most`: one or more
/// digits, with a plus sign allowed before them.
pub open spec fn parsed(text: Seq<char>, most: nat) -> Option<nat> {
    let digits = if text.len() > 0 && text[0] == '+' {
        text.drop_first()
    } else {
        text
    };
    if digits.len() > 0 && all_digits(digits) && value(digits) <= most {
        Some(value(digits))
    } else {
        None
    }
}

/// What a text says as a number between `-most - 1` and `most`.
pub open spec fn parsed_signed(text: Seq<char>, most: nat) -> Option<int> {
    if text.len() > 0 && text[0] == '-' {
        let digits = text.drop_first();
        if digits.len() > 0 && all_digits(digits) && value(digits) <= most + 1 {
            Some(-(value(digits) as int))
        } else {
            None
        }
    } else {
        match parsed(text, most) {
            Some(n) => Some(n as int),
            None => None,
        }
    }
}

/// A longer run of digits never stands for a smaller number.
proof fn value_grows(text: Seq<char>, n: int)
    requires
        all_digits(text),
        0 <= n <= text.len(),
    ensures
        value(text.take(n)) <= value(text),
    decreases text.len(),
{
    if n == text.len() {
        assert(text.take(n) =~= text);
    } else {
        let shorter = text.drop_last();
        assert(shorter.take(n) =~= text.take(n));
        assert(all_digits(shorter));
        value_grows(shorter, n);
    }
}

/// A digit of its own value reads back.
pub proof fn digit_reads_back(n: nat)
    requires
        n < 10,
    ensures
        is_digit(digit(n)),
        digit(n) as int - 48 == n,
{
}

/// A number written out is all digits, at least one, and stands for the
/// number.
pub proof fn decimal_reads_back(n: nat)
    ensures
        decimal(n).len() > 0,
        all_digits(decimal(n)),
        value(decimal(n)) == n,
    decreases n,
{
    digit_reads_back(n % 10);
    if n >= 10 {
        decimal_reads_back(n / 10);
        assert(decimal(n).drop_last() =~= decimal(n / 10));
    } else {
        assert(decimal(n).drop_last() =~= Seq::empty());
        assert(value(Seq::<char>::empty()) == 0);
    }
}

/// Reading a number that was written out gives the number.
pub proof fn written_numbers_parse(n: nat, most: nat)
    requires
        n <= most,
    ensures
        parsed(decimal(n), most) == Some(n),
{
    decimal_reads_back(n);
    assert(is_digit(decimal(n)[0]));
}

/// Two different numbers are written differently.
pub proof fn decimal_is_injective(a: nat, b: nat)
    requires
        decimal(a) == decimal(b),
    ensures
        a == b,
{
    decimal_reads_back(a);
    decimal_reads_back(b);
}

fn digit_of(c: char) -> (d: Option<u64>)
    ensures
        d is Some == is_digit(c),
        d matches Some(n) ==> n == c as int - 48 && n < 10,
{
    let n: u32 = c as u32;
    if 48 <= n && n <= 57 {
        Some((n - 48) as u64)
    } else {
        None
    }
}

fn parse_digits(text: &[char], most: u64) -> (r: Option<u64>)
    requires
        most <= u32::MAX,
    ensures
        r == (if text@.len() > 0 && all_digits(text@) && value(text@) <= most {
            Some(value(text@) as u64)
        } else {
            None
        }),
{
    if text.len() == 0 {
        return None;
    }
    let mut n: u64 = 0;
    let mut i: usize = 0;
    while i < text.len()
        invariant
            i <= text@.len(),
            most <= u32::MAX,
            n <= most,
            all_digits(text@.take(i as int)),
            n == value(text@.take(i as int)),
        decreases text@.len() - i,
    {
        let ghost taken = text@.take(i as int);
        let ghost longer = text@.take(i + 1);
        proof {
            assert(longer =~= taken.push(text@[i as int]));
            assert(longer.drop_last() =~= taken);
        }
        match digit_of(text[i]) {
            None => {
                return None;
            },
            Some(d) => {
                n = n * 10 + d;
            },
        }
        proof {
            assert(all_digits(longer)) by {
                assert forall|j: int| 0 <= j < longer.len() implies is_digit(
                    #[trigger] longer[j],
                ) by {
                    if j < i {
                        assert(is_digit(taken[j]));
                    }
                }
            }
            assert(n == value(longer));
        }
        if n > most {
            proof {
                if all_digits(text@) {
                    value_grows(text@, i + 1);
                }
            }
            return None;
        }
        i = i + 1;
    }
    proof {
        assert(text@.take(i as int) =~= text@);
    }
    Some(n)
}

fn parse_up_to(text: &[char], most: u64) -> (r: Option<u64>)
    requires
        most <= u32::MAX,
    ensures
        match r {
            Some(n) => parsed(text@, most as nat) == Some(n as nat),
            None => parsed(text@, most as nat) is None,
        },
{
    if text.len() > 0 && text[0] == '+' {
        proof {
            assert(text@.subrange(1, text@.len() as int) =~= text@.drop_first());
        }
        parse_digits(slice_subrange(text, 1, text.len()), most)
    } else {
        parse_digits(text, most)
    }
}

/// Read a number.
pub fn parse_u32(text: &[char]) -> (r: Option<u32>)
    ensures
        match r {
            Some(n) => parsed(text@, u32::MAX as nat) == Some(n as nat),
            None => parsed(text@, u32::MAX as nat) is None,
        },
{
    match parse_up_to(text, u32::MAX as u64) {
        Some(n) => Some(n as u32),
        None => None,
    }
}

/// Read a number that may be negative.
pub fn parse_i32(text: &[char]) -> (r: Option<i32>)
    ensures
        match r {
            Some(n) => parsed_signed(text@, i32::MAX as nat) == Some(n as int),
            None => parsed_signed(text@, i32::MAX as nat) is None,
        },
{
    if text.len() > 0 && text[0] == '-' {
        proof {
            assert(text@.subrange(1, text@.len() as int) =~= text@.drop_first());
        }
        match parse_digits(slice_subrange(text, 1, text.len()), 0x8000_0000) {
            Some(n) => Some((-(n as i64)) as i32),
            None => None,
        }
    } else {
        match parse_up_to(text, 0x7fff_ffff) {
            Some(n) => Some(n as i32),
            None => None,
        }
    }
}

// ---------------------------------------------------------------------
// Putting together

/// `n` spaces.
pub open spec fn spaces(n: int) -> Seq<char> {
    Seq::new(
        if n > 0 {
            n as nat
        } else {
            0
        },
        |i: int| ' ',
    )
}

/// `text` with spaces after it up to a width.
pub open spec fn padded_right(text: Seq<char>, width: int) -> Seq<char> {
    text + spaces(width - text.len())
}

/// `text` with spaces before it up to a width.
pub open spec fn padded_left(text: Seq<char>, width: int) -> Seq<char> {
    spaces(width - text.len()) + text
}

fn blanks(text: &str, width: usize) -> (r: String)
    ensures
        r@ == spaces(width - text@.len()),
{
    let taken = chars_of(text).len();
    let mut r = String::new();
    let mut n: usize = taken;
    proof {
        assert(r@ =~= spaces(0));
    }
    while n < width
        invariant
            taken == text@.len(),
            n >= taken,
            n <= width || n == taken,
            r@ == spaces(n - taken),
        decreases width - n,
    {
        r.push(' ');
        n = n + 1;
        proof {
            assert(spaces(n - 1 - taken).push(' ') =~= spaces(n - taken));
        }
    }
    proof {
        assert(spaces(n - taken) =~= spaces(width - taken));
    }
    r
}

/// Put spaces after `text` up to a width.
pub fn pad_right(text: &str, width: usize) -> (r: String)
    ensures
        r@ == padded_right(text@, width as int),
{
    let mut r = text.to_owned();
    r.append(blanks(text, width).as_str());
    r
}

/// Put spaces before `text` up to a width.
pub fn pad_left(text: &str, width: usize) -> (r: String)
    ensures
        r@ == padded_left(text@, width as int),
{
    let mut r = blanks(text, width);
    r.append(text);
    r
}

/// `text` with every `piece` in it, found from the left, replaced.
pub open spec fn replaced(text: Seq<char>, piece: Seq<char>, with: Seq<char>) -> Seq<char>
    decreases text.len(),
    via replaced_decreases
{
    match first(text, piece) {
        Some(at) if piece.len() > 0 => text.take(at) + with + replaced(
            text.skip(at + piece.len()),
            piece,
            with,
        ),
        _ => text,
    }
}

#[via_fn]
proof fn replaced_decreases(text: Seq<char>, piece: Seq<char>, with: Seq<char>) {
    first_is_first(text, piece);
}

/// Replace every `piece` in `text`, found from the left.
pub fn replace(text: &[char], piece: &[char], with: &str) -> (r: String)
    requires
        piece@.len() > 0,
    ensures
        r@ == replaced(text@, piece@, with@),
{
    let mut r = String::new();
    let mut i: usize = 0;
    proof {
        assert(text@.skip(0) =~= text@);
        assert(Seq::<char>::empty() + replaced(text@, piece@, with@) =~= replaced(
            text@,
            piece@,
            with@,
        ));
    }
    loop
        invariant
            piece@.len() > 0,
            i <= text@.len(),
            r@ + replaced(text@.skip(i as int), piece@, with@) == replaced(text@, piece@, with@),
        decreases text@.len() - i,
    {
        let ghost so_far = r@;
        let rest = slice_subrange(text, i, text.len());
        proof {
            assert(rest@ =~= text@.skip(i as int));
            first_is_first(rest@, piece@);
        }
        match find(rest, piece) {
            None => {
                r.append(string_of(rest).as_str());
                return r;
            },
            Some(at) => {
                r.append(string_of(slice_subrange(rest, 0, at)).as_str());
                r.append(with);
                proof {
                    assert(rest@.take(at as int) =~= rest@.subrange(0, at as int));
                    assert(rest@.skip(at + piece@.len()) =~= text@.skip(i + at + piece@.len()));
                    let tail = replaced(rest@.skip(at + piece@.len()), piece@, with@);
                    assert(so_far + (rest@.take(at as int) + with@ + tail) =~= (so_far
                        + rest@.take(at as int) + with@) + tail);
                }
                i = i + at + piece.len();
            },
        }
    }
}

/// A path with one more name on its end. A name that is a path from the
/// root stands for itself.
pub open spec fn joined(dir: Seq<char>, name: Seq<char>) -> Seq<char> {
    if dir.len() == 0 || (name.len() > 0 && name[0] == '/') {
        name
    } else if dir.last() == '/' {
        dir + name
    } else {
        dir + seq!['/'] + name
    }
}

/// Put one more name on the end of a path.
pub fn join(dir: &str, name: &str) -> (path: String)
    ensures
        path@ == joined(dir@, name@),
{
    let chars = chars_of(dir);
    let named = chars_of(name);
    if chars.len() == 0 || (named.len() > 0 && named[0] == '/') {
        return name.to_owned();
    }
    let mut path = dir.to_owned();
    if chars[chars.len() - 1] != '/' {
        path.push('/');
        proof {
            assert(dir@.push('/') =~= dir@ + seq!['/']);
        }
    }
    path.append(name);
    path
}

/// Texts one after the other, with `between` standing between each two.
pub open spec fn strung(list: Seq<Seq<char>>, between: Seq<char>) -> Seq<char>
    decreases list.len(),
{
    if list.len() == 0 {
        seq![]
    } else if list.len() == 1 {
        list[0]
    } else {
        strung(list.drop_last(), between) + between + list.last()
    }
}

/// The texts of a list of strings.
pub open spec fn texts(list: Seq<String>) -> Seq<Seq<char>> {
    list.map_values(|entry: String| entry@)
}

/// String a list of texts together.
pub fn string_together(list: &Vec<String>, between: &str) -> (r: String)
    ensures
        r@ == strung(texts(list@), between@),
{
    let mut r = String::new();
    let ghost all = texts(list@);
    proof {
        assert(all.take(0) =~= Seq::empty());
    }
    for i in 0..list.len()
        invariant
            all == texts(list@),
            r@ == strung(all.take(i as int), between@),
    {
        if i > 0 {
            r.append(between);
        }
        r.append(list[i].as_str());
        proof {
            assert(all.take(i + 1).drop_last() =~= all.take(i as int));
            assert(all.take(i + 1).last() == list@[i as int]@);
            if i == 0 {
                assert(Seq::<char>::empty() + list@[0]@ =~= list@[0]@);
            }
        }
    }
    proof {
        assert(all.take(list@.len() as int) =~= all);
    }
    r
}

/// Whether a list holds a text.
pub fn lists(list: &Vec<String>, text: &str) -> (r: bool)
    ensures
        r == texts(list@).contains(text@),
{
    for i in 0..list.len()
        invariant
            forall|j: int| 0 <= j < i ==> (#[trigger] list@[j])@ != text@,
    {
        if same(list[i].as_str(), text) {
            proof {
                assert(texts(list@)[i as int] == text@);
            }
            return true;
        }
    }
    proof {
        assert forall|j: int| 0 <= j < texts(list@).len() implies texts(list@)[j] != text@ by {
            assert(list@[j]@ != text@);
        }
    }
    false
}

/// Two texts, one after the other.
pub fn cat2(a: &str, b: &str) -> (r: String)
    ensures
        r@ == a@ + b@,
{
    let mut r = a.to_owned();
    r.append(b);
    r
}

/// Three texts, one after the other.
pub fn cat3(a: &str, b: &str, c: &str) -> (r: String)
    ensures
        r@ == a@ + b@ + c@,
{
    let mut r = a.to_owned();
    r.append(b);
    r.append(c);
    r
}

/// Five texts, one after the other.
pub fn cat5(a: &str, b: &str, c: &str, d: &str, e: &str) -> (r: String)
    ensures
        r@ == a@ + b@ + c@ + d@ + e@,
{
    let mut r = cat3(a, b, c);
    r.append(d);
    r.append(e);
    r
}

/// A page of no lines.
pub fn blank() -> (page: Vec<String>)
    ensures
        texts(page@) == Seq::<Seq<char>>::empty(),
{
    let page: Vec<String> = Vec::new();
    proof {
        assert(texts(page@) =~= Seq::<Seq<char>>::empty());
    }
    page
}

/// Put one more line on a page.
pub fn write(page: &mut Vec<String>, line: String)
    ensures
        texts(final(page)@) == texts(old(page)@).push(line@),
{
    let ghost before = texts(page@);
    let ghost this = line@;
    page.push(line);
    proof {
        assert(texts(page@) =~= before.push(this));
    }
}

/// Put the lines of one page at the end of another.
pub fn write_all(page: &mut Vec<String>, lines: &Vec<String>)
    ensures
        texts(final(page)@) == texts(old(page)@) + texts(lines@),
{
    let ghost before = texts(page@);
    proof {
        assert(before + texts(lines@).take(0) =~= before);
    }
    for i in 0..lines.len()
        invariant
            texts(page@) == before + texts(lines@).take(i as int),
    {
        write(page, lines[i].clone());
        proof {
            assert(texts(lines@).take(i + 1) =~= texts(lines@).take(i as int).push(
                lines@[i as int]@,
            ));
            assert((before + texts(lines@).take(i as int)).push(lines@[i as int]@) =~= before
                + texts(lines@).take(i as int).push(lines@[i as int]@));
        }
    }
    proof {
        assert(texts(lines@).take(lines@.len() as int) =~= texts(lines@));
    }
}

/// Lines one after the other, each with a newline at its end.
pub open spec fn ended(lines: Seq<Seq<char>>) -> Seq<char>
    decreases lines.len(),
{
    if lines.len() == 0 {
        seq![]
    } else {
        ended(lines.drop_last()) + lines.last() + seq!['\n']
    }
}

/// A piece without a newline stands in ended lines where it stands in one of
/// them.
pub proof fn a_piece_stands_in_one_line(lines: Seq<Seq<char>>, piece: Seq<char>)
    requires
        piece.len() > 0,
        !piece.contains('\n'),
    ensures
        occurs(ended(lines), piece) == (exists|k: int|
            0 <= k < lines.len() && #[trigger] occurs(lines[k], piece)),
    decreases lines.len(),
{
    let whole = ended(lines);
    if lines.len() == 0 {
        assert forall|i: int| !occurs_at(whole, piece, i) by {}
    } else {
        let shorter = lines.drop_last();
        let before = ended(shorter);
        let last = lines.last();
        let n = before.len() as int;
        let end = n + last.len();
        a_piece_stands_in_one_line(shorter, piece);
        assert(whole[end] == '\n');
        if occurs(whole, piece) {
            let i = choose|i: int| occurs_at(whole, piece, i);
            assert forall|j: int| i <= j < i + piece.len() implies whole[j] != '\n' by {
                assert(piece[j - i] == whole.subrange(i, i + piece.len())[j - i]);
                assert(piece.contains(piece[j - i]));
            }
            if i >= n {
                assert(i + piece.len() <= end);
                assert(last.subrange(i - n, i - n + piece.len()) =~= piece);
                assert(occurs_at(last, piece, i - n));
                assert(occurs(lines[lines.len() - 1], piece));
            } else {
                if i + piece.len() > n {
                    assert(n > 0);
                    assert(before.last() == '\n');
                    assert(whole[n - 1] == '\n');
                }
                assert(before.subrange(i, i + piece.len()) =~= piece);
                assert(occurs_at(before, piece, i));
                let k = choose|k: int| 0 <= k < shorter.len() && #[trigger] occurs(
                    shorter[k],
                    piece,
                );
                assert(occurs(lines[k], piece));
            }
        }
        if exists|k: int| 0 <= k < lines.len() && #[trigger] occurs(lines[k], piece) {
            let k = choose|k: int| 0 <= k < lines.len() && #[trigger] occurs(lines[k], piece);
            if k < shorter.len() {
                assert(occurs(shorter[k], piece));
                let i = choose|i: int| occurs_at(before, piece, i);
                assert(whole.subrange(i, i + piece.len()) =~= piece);
                assert(occurs_at(whole, piece, i));
            } else {
                let i = choose|i: int| occurs_at(last, piece, i);
                assert(whole.subrange(n + i, n + i + piece.len()) =~= piece);
                assert(occurs_at(whole, piece, n + i));
            }
        }
    }
}

/// A page as one text, with a newline at the end of each line.
pub fn end_lines(page: &Vec<String>) -> (r: String)
    ensures
        r@ == ended(texts(page@)),
{
    let mut r = String::new();
    let ghost all = texts(page@);
    for i in 0..page.len()
        invariant
            all == texts(page@),
            r@ == ended(all.take(i as int)),
    {
        let ghost so_far = r@;
        r.append(page[i].as_str());
        r.push('\n');
        proof {
            assert(all.take(i + 1).drop_last() =~= all.take(i as int));
            assert(all.take(i + 1).last() == page@[i as int]@);
            assert((so_far + page@[i as int]@).push('\n') =~= so_far + page@[i as int]@
                + seq!['\n']);
        }
    }
    proof {
        assert(all.take(page@.len() as int) =~= all);
    }
    r
}

/// Texts strung together by a character that none of them holds come apart
/// again as they were.
pub proof fn splitting_undoes_stringing(list: Seq<Seq<char>>, c: char)
    requires
        list.len() > 0,
        forall|i: int| 0 <= i < list.len() ==> !(#[trigger] list[i]).contains(c),
    ensures
        pieces(strung(list, seq![c]), c) == list,
    decreases list.len(),
{
    let whole = strung(list, seq![c]);
    let at = up_to(whole, c);
    up_to_is_first(whole, c);
    if list.len() == 1 {
        if at < whole.len() {
            assert(list[0].contains(c));
        }
        assert(pieces(whole, c) =~= list);
    } else {
        strung_from_the_front(list, seq![c]);
        let rest = list.skip(1);
        let tail = strung(rest, seq![c]);
        assert(whole == list[0] + seq![c] + tail);
        assert(whole[list[0].len() as int] == c);
        if at < list[0].len() {
            assert(list[0][at] == whole[at]);
            assert(list[0].contains(c));
        }
        assert(at == list[0].len());
        assert(whole.take(at) =~= list[0]);
        assert(whole.skip(at + 1) =~= tail);
        assert forall|i: int| 0 <= i < rest.len() implies !(#[trigger] rest[i]).contains(c) by {
            assert(rest[i] == list[i + 1]);
        }
        splitting_undoes_stringing(rest, c);
        assert(pieces(whole, c) =~= seq![list[0]] + rest);
        assert(seq![list[0]] + rest =~= list);
    }
}

/// A string of texts begins with the first of them.
pub proof fn strung_from_the_front(list: Seq<Seq<char>>, between: Seq<char>)
    requires
        list.len() > 1,
    ensures
        strung(list, between) == list[0] + between + strung(list.skip(1), between),
    decreases list.len(),
{
    let rest = list.skip(1);
    if list.len() == 2 {
        assert(list.drop_last() =~= seq![list[0]]);
        assert(rest =~= seq![list[1]]);
        assert(strung(list.drop_last(), between) == list[0]);
        assert(strung(rest, between) == list[1]);
    } else {
        strung_from_the_front(list.drop_last(), between);
        assert(list.drop_last().skip(1) =~= rest.drop_last());
        assert(strung(list, between) =~= list[0] + between + (strung(rest.drop_last(), between)
            + between + list.last()));
    }
}

/// Texts are ordered by the first character in which they differ, and a text
/// comes before every longer one that begins with it.
pub proof fn the_first_difference_decides(a: Seq<char>, b: Seq<char>, k: int)
    requires
        0 <= k <= a.len(),
        k <= b.len(),
        forall|i: int| 0 <= i < k ==> a[i] == b[i],
    ensures
        k < a.len() && k < b.len() && a[k] != b[k] ==> before(a, b) == (a[k] < b[k]),
        k == a.len() && k < b.len() ==> before(a, b),
        k == b.len() ==> !before(a, b),
    decreases k,
{
    if k > 0 {
        let x = a.drop_first();
        let y = b.drop_first();
        assert forall|i: int| 0 <= i < k - 1 implies x[i] == y[i] by {
            assert(a[i + 1] == b[i + 1]);
        }
        the_first_difference_decides(x, y, k - 1);
    }
}

/// Only the twenty-six large letters have small ones, each its own.
pub proof fn large_letters_become_small(c: char)
    ensures
        'A' <= c <= 'Z' ==> small(c) as int - 'a' as int == c as int - 'A' as int,
        !('A' <= c <= 'Z') ==> small(c) == c,
        small(small(c)) == small(c),
{
}

/// Trimming takes what is to be taken off both edges, all of it, and nothing
/// from between.
pub proof fn trimming_takes_only_the_edges(text: Seq<char>, what: Trim)
    ensures
        exists|i: int, j: int|
            #![trigger text.subrange(i, j)]
            0 <= i <= j <= text.len() && trimmed(text, what) == text.subrange(i, j) && (forall|
                k: int,
            |
                0 <= k < i || j <= k < text.len() ==> what.takes(#[trigger] text[k])) && (i < j
                ==> !what.takes(text[i]) && !what.takes(text[j - 1])),
{
    let inner = trimmed_start(text, what);
    let i = trimmed_start_is_a_tail(text, what);
    let m = trimmed_end_is_a_head(inner, what);
    let j = i + m;
    assert(trimmed(text, what) =~= text.subrange(i, j));
    assert forall|k: int| 0 <= k < i || j <= k < text.len() implies what.takes(
        #[trigger] text[k],
    ) by {
        if j <= k {
            assert(text[k] == inner[k - i]);
        }
    }
    if i < j {
        assert(text[i] == inner[0]);
        assert(text[j - 1] == inner[m - 1]);
    }
}

/// What is left of a text trimmed at its start is its tail from the first
/// character that stays.
pub proof fn trimmed_start_is_a_tail(text: Seq<char>, what: Trim) -> (i: int)
    ensures
        0 <= i <= text.len(),
        trimmed_start(text, what) == text.skip(i),
        forall|k: int| 0 <= k < i ==> what.takes(#[trigger] text[k]),
        i < text.len() ==> !what.takes(text[i]),
    decreases text.len(),
{
    if text.len() > 0 && what.takes(text[0]) {
        let rest = text.drop_first();
        let n = trimmed_start_is_a_tail(rest, what);
        assert(rest.skip(n) =~= text.skip(n + 1));
        assert forall|k: int| 0 <= k < n + 1 implies what.takes(#[trigger] text[k]) by {
            if k > 0 {
                assert(rest[k - 1] == text[k]);
            }
        }
        n + 1
    } else {
        assert(text.skip(0) =~= text);
        0
    }
}

/// What is left of a text trimmed at its end is its head up to the last
/// character that stays.
pub proof fn trimmed_end_is_a_head(text: Seq<char>, what: Trim) -> (m: int)
    ensures
        0 <= m <= text.len(),
        trimmed_end(text, what) == text.take(m),
        forall|k: int| m <= k < text.len() ==> what.takes(#[trigger] text[k]),
        m > 0 ==> !what.takes(text[m - 1]),
    decreases text.len(),
{
    if text.len() > 0 && what.takes(text.last()) {
        let rest = text.drop_last();
        let n = trimmed_end_is_a_head(rest, what);
        assert(rest.take(n) =~= text.take(n));
        assert forall|k: int| n <= k < text.len() implies what.takes(#[trigger] text[k]) by {
            if k < text.len() - 1 {
                assert(rest[k] == text[k]);
            }
        }
        n
    } else {
        assert(text.take(text.len() as int) =~= text);
        text.len() as int
    }
}

/// A text with nothing to take at its edges is left alone, and so is what
/// stands between the edges of one that has.
pub proof fn what_is_trimmed_comes_out(
    left: Seq<char>,
    middle: Seq<char>,
    right: Seq<char>,
    what: Trim,
)
    requires
        forall|k: int| 0 <= k < left.len() ==> what.takes(#[trigger] left[k]),
        forall|k: int| 0 <= k < right.len() ==> what.takes(#[trigger] right[k]),
        middle.len() > 0 ==> !what.takes(middle[0]) && !what.takes(middle.last()),
    ensures
        trimmed(left + middle + right, what) == middle,
        trimmed_start(left + middle, what) == middle,
        trimmed_end(middle + right, what) == middle,
{
    let all = left + middle + right;
    let inner = trimmed_start(all, what);
    let i = trimmed_start_is_a_tail(all, what);
    let m = trimmed_end_is_a_head(inner, what);
    if middle.len() > 0 {
        assert(all[left.len() as int] == middle[0]);
        if i < left.len() {
            assert(all[i] == left[i]);
        }
        assert(i == left.len());
        assert(inner[middle.len() - 1] == middle.last());
        if m > middle.len() {
            assert(inner[m - 1] == right[m - 1 - middle.len()]);
        }
        assert(m == middle.len());
    } else {
        if i < all.len() {
            assert(all[i] == (left + right)[i]);
            assert(i < left.len() ==> all[i] == left[i]);
            assert(i >= left.len() ==> all[i] == right[i - left.len()]);
        }
        assert(i == all.len());
    }
    assert(trimmed(all, what) =~= middle);
    let front = left + middle;
    let a = trimmed_start_is_a_tail(front, what);
    if middle.len() > 0 {
        assert(front[left.len() as int] == middle[0]);
    }
    if a < left.len() {
        assert(front[a] == left[a]);
    }
    assert(front.skip(a) =~= middle);
    let back = middle + right;
    let b = trimmed_end_is_a_head(back, what);
    if middle.len() > 0 {
        assert(back[middle.len() - 1] == middle.last());
    }
    if b > middle.len() {
        assert(back[b - 1] == right[b - 1 - middle.len()]);
    }
    assert(back.take(b) =~= middle);
}

/// The pieces of a text, strung together again, are the text, and none of
/// them holds what it was cut at.
pub proof fn stringing_undoes_splitting(text: Seq<char>, c: char)
    ensures
        strung(pieces(text, c), seq![c]) == text,
        pieces(text, c).len() > 0,
        forall|i: int|
            0 <= i < pieces(text, c).len() ==> !(#[trigger] pieces(text, c)[i]).contains(c),
    decreases text.len(),
{
    let at = up_to(text, c);
    up_to_is_first(text, c);
    let all = pieces(text, c);
    if at < text.len() {
        let rest = text.skip(at + 1);
        stringing_undoes_splitting(rest, c);
        let tail = pieces(rest, c);
        assert(all == seq![text.take(at)] + tail);
        assert(all.skip(1) =~= tail);
        strung_from_the_front(all, seq![c]);
        assert(text.take(at) + seq![c] + rest =~= text);
        assert forall|i: int| 0 <= i < all.len() implies !(#[trigger] all[i]).contains(c) by {
            if i > 0 {
                assert(all[i] == tail[i - 1]);
            }
        }
    } else {
        assert(all == seq![text]);
    }
}

/// A text is read line by line: each line ends at its newline, a return
/// before it is dropped, and a last line without one still counts.
pub proof fn lines_end_at_newlines(line: Seq<char>, rest: Seq<char>)
    requires
        !line.contains('\n'),
    ensures
        lines(Seq::empty()).len() == 0,
        line.len() > 0 ==> lines(line) == seq![line],
        lines(line + seq!['\n'] + rest) == seq![
            if line.len() > 0 && line.last() == '\r' {
                line.drop_last()
            } else {
                line
            },
        ] + lines(rest),
{
    up_to_is_first(line, '\n');
    let all = line + seq!['\n'] + rest;
    let at = up_to(all, '\n');
    up_to_is_first(all, '\n');
    assert(all[line.len() as int] == '\n');
    if at < line.len() {
        assert(line[at] == all[at]);
        assert(line.contains('\n'));
    }
    assert(at == line.len());
    assert(all.take(at) =~= line);
    assert(all.skip(at + 1) =~= rest);
    if up_to(line, '\n') < line.len() {
        assert(line.contains('\n'));
    }
}

/// Lines that are written out are read in again as they were.
pub proof fn written_lines_read_back(list: Seq<Seq<char>>)
    requires
        forall|i: int|
            0 <= i < list.len() ==> !(#[trigger] list[i]).contains('\n') && (list[i].len() > 0
                ==> list[i].last() != '\r'),
    ensures
        lines(ended(list)) == list,
    decreases list.len(),
{
    if list.len() == 0 {
        assert(lines(ended(list)) =~= list);
    } else {
        let rest = list.skip(1);
        ended_from_the_front(list);
        assert forall|i: int|
            0 <= i < rest.len() implies !(#[trigger] rest[i]).contains('\n') && (rest[i].len() > 0
            ==> rest[i].last() != '\r') by {
            assert(rest[i] == list[i + 1]);
        }
        written_lines_read_back(rest);
        lines_end_at_newlines(list[0], ended(rest));
        assert(seq![list[0]] + rest =~= list);
    }
}

/// A page begins with its first line.
pub proof fn ended_from_the_front(list: Seq<Seq<char>>)
    requires
        list.len() > 0,
    ensures
        ended(list) == list[0] + seq!['\n'] + ended(list.skip(1)),
    decreases list.len(),
{
    let rest = list.skip(1);
    if list.len() == 1 {
        assert(list.drop_last() =~= Seq::<Seq<char>>::empty());
        assert(rest =~= Seq::<Seq<char>>::empty());
        assert(ended(list) =~= list[0] + seq!['\n'] + ended(rest));
    } else {
        ended_from_the_front(list.drop_last());
        assert(list.drop_last().skip(1) =~= rest.drop_last());
        assert(ended(list) =~= list[0] + seq!['\n'] + (ended(rest.drop_last()) + list.last()
            + seq!['\n']));
    }
}

/// Whatever is written with a sign reads back with it.
pub proof fn signed_numbers_parse(n: int, most: nat)
    requires
        -most - 1 <= n <= most,
    ensures
        parsed_signed(signed_decimal(n), most) == Some(n),
{
    if n < 0 {
        let digits = decimal((-n) as nat);
        decimal_reads_back((-n) as nat);
        assert(signed_decimal(n).drop_first() =~= digits);
    } else {
        decimal_reads_back(n as nat);
        written_numbers_parse(n as nat, most);
        assert(is_digit(decimal(n as nat)[0]));
    }
}

/// A number is read where there are digits and nothing else, a plus before
/// them at most, and it is not too large.
pub proof fn only_digits_are_a_number(text: Seq<char>, most: nat)
    ensures
        text.len() == 0 ==> parsed(text, most) is None,
        parsed(text, most) matches Some(n) ==> n <= most && (forall|i: int|
            0 <= i < text.len() ==> '0' <= #[trigger] text[i] <= '9' || (i == 0 && text[i] == '+')),
        parsed(text, most) is Some && text[0] == '+' ==> text.len() > 1,
        text.len() > 0 && '0' <= text[0] <= '9' ==> parsed(seq!['+'] + text, most) == parsed(
            text,
            most,
        ),
{
    let digits = if text.len() > 0 && text[0] == '+' {
        text.drop_first()
    } else {
        text
    };
    if parsed(text, most) is Some {
        assert forall|i: int| 0 <= i < text.len() implies '0' <= #[trigger] text[i] <= '9' || (i
            == 0 && text[i] == '+') by {
            if text[0] == '+' && i > 0 {
                assert(is_digit(digits[i - 1]));
            } else if text[0] != '+' {
                assert(is_digit(digits[i]));
            }
        }
    }
    assert((seq!['+'] + text).drop_first() =~= text);
}

/// A number's value is read digit by digit, ten to one.
pub proof fn ten_to_one(text: Seq<char>, c: char)
    requires
        '0' <= c <= '9',
    ensures
        value(text.push(c)) == 10 * value(text) + (c as int - '0' as int),
        value(Seq::empty()) == 0,
{
    assert(text.push(c).drop_last() =~= text);
}

/// A padded text is the text, and blanks on the other side as far as it was
/// to be; a text as wide or wider is left alone.
pub proof fn padding_fills_up_with_blanks(text: Seq<char>, width: nat, i: int)
    ensures
        ({
            let wide = if text.len() < width {
                width
            } else {
                text.len()
            };
            let left = padded_left(text, width as int);
            let right = padded_right(text, width as int);
            &&& left.len() == wide
            &&& right.len() == wide
            &&& right.subrange(0, text.len() as int) == text
            &&& left.subrange(wide - text.len(), wide as int) == text
            &&& text.len() <= i < wide ==> right[i] == ' '
            &&& 0 <= i < wide - text.len() ==> left[i] == ' '
        }),
{
    let wide = if text.len() < width {
        width
    } else {
        text.len()
    };
    assert(padded_right(text, width as int).subrange(0, text.len() as int) =~= text);
    assert(padded_left(text, width as int).subrange(wide - text.len(), wide as int) =~= text);
}

/// Replacing changes a text where the piece occurs, from the front, and
/// nowhere else.
pub proof fn replacing_goes_from_the_front(
    head: Seq<char>,
    piece: Seq<char>,
    tail: Seq<char>,
    with: Seq<char>,
)
    requires
        piece.len() > 0,
    ensures
        !occurs(head, piece) ==> replaced(head, piece, with) == head,
        first(head + piece + tail, piece) == Some(head.len() as int) ==> replaced(
            head + piece + tail,
            piece,
            with,
        ) == head + with + replaced(tail, piece, with),
{
    first_is_first(head, piece);
    if first(head, piece) is Some {
        assert(occurs_at(head, piece, first(head, piece)->Some_0));
    }
    let all = head + piece + tail;
    if first(all, piece) == Some(head.len() as int) {
        assert(all.take(head.len() as int) =~= head);
        assert(all.skip((head.len() + piece.len()) as int) =~= tail);
    }
}

/// A path is put under a directory with one stroke between them. One that
/// starts with a stroke stands by itself.
pub proof fn a_path_has_one_stroke_between(dir: Seq<char>, name: Seq<char>)
    ensures
        name.len() > 0 && name[0] == '/' ==> joined(dir, name) == name,
        dir.len() == 0 ==> joined(dir, name) == name,
        dir.len() > 0 && dir.last() != '/' && !(name.len() > 0 && name[0] == '/') ==> joined(
            dir,
            name,
        ) == dir + seq!['/'] + name,
        !(name.len() > 0 && name[0] == '/') ==> joined(dir + seq!['/'], name) == dir + seq!['/']
            + name,
{
}

/// White space is what Unicode counts as it, and nothing else.
pub proof fn white_space_is_this(c: char)
    ensures
        is_space(c) == seq![
            0x9int,
            0xa,
            0xb,
            0xc,
            0xd,
            0x20,
            0x85,
            0xa0,
            0x1680,
            0x2000,
            0x2001,
            0x2002,
            0x2003,
            0x2004,
            0x2005,
            0x2006,
            0x2007,
            0x2008,
            0x2009,
            0x200a,
            0x2028,
            0x2029,
            0x202f,
            0x205f,
            0x3000,
        ].contains(c as int),
{
    let all = seq![
        0x9int,
        0xa,
        0xb,
        0xc,
        0xd,
        0x20,
        0x85,
        0xa0,
        0x1680,
        0x2000,
        0x2001,
        0x2002,
        0x2003,
        0x2004,
        0x2005,
        0x2006,
        0x2007,
        0x2008,
        0x2009,
        0x200a,
        0x2028,
        0x2029,
        0x202f,
        0x205f,
        0x3000,
    ];
    if is_space(c) {
        let n = c as int;
        let k = if n <= 0xd {
            n - 0x9
        } else if n == 0x20 {
            5
        } else if n == 0x85 {
            6
        } else if n == 0xa0 {
            7
        } else if n == 0x1680 {
            8
        } else if n <= 0x200a {
            n - 0x2000 + 9
        } else if n == 0x2028 {
            20
        } else if n == 0x2029 {
            21
        } else if n == 0x202f {
            22
        } else if n == 0x205f {
            23
        } else {
            24
        };
        assert(all[k] == n);
    }
}

/// A text begins with what was put first in it, ends with what was put last,
/// and holds what was put between; and one that begins or ends with
/// something was put together like that.
pub proof fn what_was_put_in_is_there(a: Seq<char>, b: Seq<char>, c: Seq<char>)
    ensures
        begins(a + b, a),
        ends(a + b, b),
        occurs(a + b + c, b),
        begins(c, a) ==> c == a + c.skip(a.len() as int),
        ends(c, b) ==> c == c.take(c.len() - b.len()) + b,
        occurs(c, b) ==> exists|i: int|
            0 <= i <= c.len() - b.len() && #[trigger] c.subrange(i, i + b.len()) == b,
{
    assert((a + b).subrange(0, a.len() as int) =~= a);
    assert((a + b).subrange(a.len() as int, (a + b).len() as int) =~= b);
    assert((a + b + c).subrange(a.len() as int, a.len() + b.len() as int) =~= b);
    assert(occurs_at(a + b + c, b, a.len() as int));
    if begins(c, a) {
        assert(c =~= c.subrange(0, a.len() as int) + c.skip(a.len() as int));
    }
    if ends(c, b) {
        assert(c =~= c.take(c.len() - b.len()) + c.subrange(c.len() - b.len(), c.len() as int));
    }
    if occurs(c, b) {
        let i = choose|i: int| occurs_at(c, b, i);
        assert(c.subrange(i, i + b.len()) == b);
    }
}

/// A number is written without a nought before it.
pub proof fn no_nought_before_a_number(n: nat)
    ensures
        n > 0 ==> decimal(n)[0] != '0',
        decimal(0) == seq!['0'],
        n < 10 ==> decimal(n).len() == 1,
        n >= 10 ==> decimal(n).len() == decimal(n / 10).len() + 1,
    decreases n,
{
    if n >= 10 {
        no_nought_before_a_number(n / 10);
        decimal_reads_back(n / 10);
        assert(decimal(n)[0] == decimal(n / 10)[0]);
    }
}

/// A number with a sign is read within its bounds only, and a sign alone is
/// none.
pub proof fn signed_numbers_have_bounds(text: Seq<char>, most: nat)
    ensures
        parsed_signed(text, most) matches Some(n) ==> -most - 1 <= n <= most,
        text == seq!['-'] ==> parsed_signed(text, most) is None,
        text.len() > 0 && text[0] != '-' ==> (parsed(text, most) matches Some(n) ==> parsed_signed(
            text,
            most,
        ) == Some(n as int)),
        text.len() > 0 && text[0] != '-' && parsed(text, most) is None ==> parsed_signed(
            text,
            most,
        ) is None,
{
}

/// What is to be trimmed is white space, or the one character that was
/// given, and nothing else.
pub proof fn trimming_takes_what_it_was_given(c: char, d: char)
    ensures
        (Trim::Just(c)).takes(d) == (d == c),
        (Trim::Space).takes(d) == is_space(d),
{
}

} // verus!
