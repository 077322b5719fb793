//! Where the mixer keeps its files.
//!
//! Apart from the settings reader because the device list wants it too, and
//! neither should have to ask the other.

use vstd::prelude::*;
use vstd::slice::slice_subrange;

use crate::text;

verus! {

/// What stands before the directory in the desktop's own file.
pub const DOCUMENTS: &'static str = "XDG_DOCUMENTS_DIR=";

/// What a line of the desktop's file gives as the Documents directory.
pub open spec fn given_by(line: Seq<char>, home: Seq<char>) -> Option<Seq<char>> {
    let shown = text::trimmed(line, text::Trim::Space);
    if text::begins(shown, DOCUMENTS@) {
        let value = text::trimmed(
            text::trimmed(shown.skip(DOCUMENTS@.len() as int), text::Trim::Space),
            text::Trim::Just('"'),
        );
        Some(text::replaced(value, "$HOME"@, home))
    } else {
        None
    }
}

/// What the first of some lines that gives one gives as the Documents
/// directory.
pub open spec fn given_in(lines: Seq<Seq<char>>, home: Seq<char>) -> Option<Seq<char>>
    decreases lines.len(),
{
    if lines.len() == 0 {
        None
    } else if given_by(lines[0], home) is Some {
        given_by(lines[0], home)
    } else {
        given_in(lines.skip(1), home)
    }
}

/// The user's Documents directory.
pub open spec fn documents(
    xdg: Option<Seq<char>>,
    home: Option<Seq<char>>,
    user_dirs: Option<Seq<char>>,
) -> Option<Seq<char>> {
    if xdg is Some {
        xdg
    } else {
        match (home, user_dirs) {
            (Some(home), Some(file)) => match given_in(text::lines(file), home) {
                Some(dir) => Some(dir),
                None => Some(home),
            },
            _ => home,
        }
    }
}

/// A text that may not be there, as the contracts see it.
pub open spec fn view_of(s: Option<&str>) -> Option<Seq<char>> {
    match s {
        Some(s) => Some(s@),
        None => None,
    }
}

/// Where the desktop says which directories the user has.
pub fn user_dirs_file(home: &str) -> (path: String)
    ensures
        path@ == text::joined(text::joined(home@, ".config"@), "user-dirs.dirs"@),
{
    text::join(text::join(home, ".config").as_str(), "user-dirs.dirs")
}

fn read_line(line: &Vec<char>, home: &str) -> (dir: Option<String>)
    ensures
        match dir {
            Some(d) => given_by(line@, home@) == Some(d@),
            None => given_by(line@, home@) is None,
        },
{
    let mark = text::chars_of(DOCUMENTS);
    let variable = text::chars_of("$HOME");
    let shown = text::trim(line.as_slice(), text::Trim::Space);
    if !text::starts_with(shown, mark.as_slice()) {
        return None;
    }
    proof {
        reveal_strlit("$HOME");
        assert(shown@.subrange(mark@.len() as int, shown@.len() as int) =~= shown@.skip(
            mark@.len() as int,
        ));
    }
    let value = text::trim(
        text::trim(slice_subrange(shown, mark.len(), shown.len()), text::Trim::Space),
        text::Trim::Just('"'),
    );
    Some(text::replace(value, variable.as_slice(), home))
}

/// The user's Documents directory, or their home if the desktop has not
/// defined one separately.
///
/// `xdg` and `home` are what the environment says, and `user_dirs` is what
/// stands in [`user_dirs_file`], if it can be read.
#[must_use]
pub fn documents_dir(
    xdg: Option<&str>,
    home: Option<&str>,
    user_dirs: Option<&str>,
) -> (dir: Option<String>)
    ensures
        match dir {
            Some(d) => documents(view_of(xdg), view_of(home), view_of(user_dirs)) == Some(d@),
            None => documents(view_of(xdg), view_of(home), view_of(user_dirs)) is None,
        },
{
    if let Some(dir) = xdg {
        return Some(dir.to_owned());
    }
    let base = match home {
        Some(base) => base,
        None => {
            return None;
        },
    };
    if let Some(file) = user_dirs {
        let chars = text::chars_of(file);
        let lines = text::lines_of(chars.as_slice());
        let ghost all = text::lines(file@);
        proof {
            assert(all.skip(0) =~= all);
            assert(lines@.len() == text::views(lines@).len());
        }
        for i in 0..lines.len()
            invariant
                all == text::views(lines@),
                all.len() == lines@.len(),
                all == text::lines(file@),
                given_in(all, base@) == given_in(all.skip(i as int), base@),
                view_of(xdg) is None,
                view_of(home) == Some(base@),
                view_of(user_dirs) == Some(file@),
        {
            proof {
                assert(all.skip(i as int)[0] == lines@[i as int]@);
                assert(all.skip(i as int).skip(1) =~= all.skip(i + 1));
            }
            if let Some(dir) = read_line(&lines[i], base) {
                return Some(dir);
            }
        }
    }
    Some(base.to_owned())
}

/// A line that sets the documents directory gives what it sets it to, with
/// or without quotes and with blanks round it, and the home directory where
/// it speaks of it.
pub proof fn a_setting_gives_its_directory(
    left: Seq<char>,
    gap: Seq<char>,
    dir: Seq<char>,
    right: Seq<char>,
    home: Seq<char>,
    quoted: bool,
)
    requires
        forall|k: int| 0 <= k < left.len() ==> text::is_space(#[trigger] left[k]),
        forall|k: int| 0 <= k < gap.len() ==> text::is_space(#[trigger] gap[k]),
        forall|k: int| 0 <= k < right.len() ==> text::is_space(#[trigger] right[k]),
        dir.len() > 0,
        dir[0] != '"' && dir.last() != '"',
        !text::is_space(dir[0]) && !text::is_space(dir.last()),
    ensures
        ({
            let mark = if quoted {
                seq!['"']
            } else {
                seq![]
            };
            let line = left + ("XDG_DOCUMENTS_DIR="@ + gap + (mark + dir + mark)) + right;
            &&& given_by(line, home) == Some(text::replaced(dir, "$HOME"@, home))
            &&& !text::occurs(dir, "$HOME"@) ==> given_by(line, home) == Some(dir)
        }),
{
    reveal_strlit("XDG_DOCUMENTS_DIR=");
    reveal_strlit("$HOME");
    let mark = if quoted {
        seq!['"']
    } else {
        Seq::<char>::empty()
    };
    let key = "XDG_DOCUMENTS_DIR="@;
    let value = mark + dir + mark;
    let middle = key + gap + value;
    let line = left + middle + right;
    assert(value.len() > 0 && !text::is_space(value[0]) && !text::is_space(value.last()));
    assert(middle[0] == 'X');
    assert(middle.last() == value.last());
    text::what_is_trimmed_comes_out(left, middle, right, text::Trim::Space);
    assert(middle.subrange(0, key.len() as int) =~= key);
    let rest = middle.skip(key.len() as int);
    let nothing = Seq::<char>::empty();
    assert(rest =~= gap + value + nothing);
    text::what_is_trimmed_comes_out(gap, value, nothing, text::Trim::Space);
    text::what_is_trimmed_comes_out(mark, dir, mark, text::Trim::Just('"'));
    text::replacing_goes_from_the_front(dir, "$HOME"@, nothing, home);
}

/// The first line that sets the directory counts, and a line that sets
/// something else does not.
pub proof fn the_first_setting_counts(lines: Seq<Seq<char>>, home: Seq<char>)
    ensures
        match given_in(lines, home) {
            Some(dir) => exists|k: int|
                0 <= k < lines.len() && #[trigger] given_by(lines[k], home) == Some(dir)
                    && forall|j: int| 0 <= j < k ==> #[trigger] given_by(lines[j], home) is None,
            None => forall|j: int| 0 <= j < lines.len() ==> #[trigger] given_by(
                lines[j],
                home,
            ) is None,
        },
    decreases lines.len(),
{
    if lines.len() > 0 {
        if given_by(lines[0], home) is None {
            let rest = lines.skip(1);
            the_first_setting_counts(rest, home);
            assert forall|j: int| 1 <= j < lines.len() implies #[trigger] lines[j] == rest[j
                - 1] by {}
            if given_in(rest, home) is Some {
                let dir = given_in(rest, home)->Some_0;
                let k = choose|k: int|
                    0 <= k < rest.len() && #[trigger] given_by(rest[k], home) == Some(dir)
                        && forall|j: int| 0 <= j < k ==> #[trigger] given_by(rest[j], home) is None;
                assert(given_by(lines[k + 1], home) == Some(dir));
                assert forall|j: int| 0 <= j < k + 1 implies #[trigger] given_by(
                    lines[j],
                    home,
                ) is None by {
                    if j > 0 {
                        assert(given_by(rest[j - 1], home) is None);
                    }
                }
            } else {
                assert forall|j: int| 0 <= j < lines.len() implies #[trigger] given_by(
                    lines[j],
                    home,
                ) is None by {
                    if j > 0 {
                        assert(given_by(rest[j - 1], home) is None);
                    }
                }
            }
        } else {
            assert(given_by(lines[0], home) == given_in(lines, home));
        }
    }
}

/// The environment decides before the desktop, and the desktop before the
/// home directory; without a home nothing but the environment does.
pub proof fn the_environment_decides_before_the_desktop(
    xdg: Seq<char>,
    home: Seq<char>,
    file: Seq<char>,
)
    ensures
        documents(Some(xdg), Some(home), Some(file)) == Some(xdg),
        documents(Some(xdg), None, None) == Some(xdg),
        documents(None, None, Some(file)) is None,
        documents(None, None, None) is None,
        documents(None, Some(home), None) == Some(home),
        given_in(text::lines(file), home) is Some ==> documents(None, Some(home), Some(file))
            == given_in(text::lines(file), home),
        given_in(text::lines(file), home) is None ==> documents(None, Some(home), Some(file))
            == Some(home),
{
}

/// A line that sets something else gives no directory.
pub proof fn other_settings_give_nothing(line: Seq<char>, home: Seq<char>)
    requires
        !text::begins(text::trimmed(line, text::Trim::Space), "XDG_DOCUMENTS_DIR="@),
    ensures
        given_by(line, home) is None,
{
}

} // verus!
