//! Properties: the named texts that everything in the graph is described by.

use vstd::prelude::*;

use crate::text;

verus! {

/// A list of properties as the contracts see it.
pub open spec fn pairs(list: Seq<(String, String)>) -> Seq<(Seq<char>, Seq<char>)> {
    list.map_values(|p: (String, String)| (p.0@, p.1@))
}

/// The first property of a name.
pub open spec fn value_of(list: Seq<(Seq<char>, Seq<char>)>, key: Seq<char>) -> Option<Seq<char>>
    decreases list.len(),
{
    if list.len() == 0 {
        None
    } else if list[0].0 == key {
        Some(list[0].1)
    } else {
        value_of(list.skip(1), key)
    }
}

/// Reading a property gives the value of the first pair of that name, and
/// nothing exactly where no pair has it.
pub proof fn the_first_of_a_name_counts(list: Seq<(Seq<char>, Seq<char>)>, key: Seq<char>)
    ensures
        match value_of(list, key) {
            Some(value) => exists|i: int|
                0 <= i < list.len() && #[trigger] list[i] == (key, value) && forall|j: int|
                    0 <= j < i ==> (#[trigger] list[j]).0 != key,
            None => forall|j: int| 0 <= j < list.len() ==> (#[trigger] list[j]).0 != key,
        },
    decreases list.len(),
{
    if list.len() > 0 && list[0].0 != key {
        let rest = list.skip(1);
        the_first_of_a_name_counts(rest, key);
        assert forall|j: int| 0 <= j < list.len() && j != 0 implies #[trigger] list[j] == rest[j
            - 1] by {}
        match value_of(list, key) {
            Some(value) => {
                let i = choose|i: int|
                    0 <= i < rest.len() && #[trigger] rest[i] == (key, value) && forall|j: int|
                        0 <= j < i ==> (#[trigger] rest[j]).0 != key;
                assert(list[i + 1] == (key, value));
            },
            None => {},
        }
    } else if list.len() > 0 {
        assert(list[0] == (key, list[0].1));
    }
}

/// What is put at the end of a list is read back where nothing before it had
/// that name, and changes what is read of no other name.
pub proof fn putting_adds_one(
    list: Seq<(Seq<char>, Seq<char>)>,
    key: Seq<char>,
    value: Seq<char>,
    other: Seq<char>,
)
    ensures
        value_of(list, key) is None ==> value_of(list.push((key, value)), key) == Some(value),
        value_of(list, key) is Some ==> value_of(list.push((key, value)), key) == value_of(
            list,
            key,
        ),
        other != key ==> value_of(list.push((key, value)), other) == value_of(list, other),
    decreases list.len(),
{
    let longer = list.push((key, value));
    if list.len() == 0 {
        assert(longer.skip(1) =~= list);
    } else {
        putting_adds_one(list.skip(1), key, value, other);
        assert(longer.skip(1) =~= list.skip(1).push((key, value)));
    }
}

/// Put one more property at the end of a list.
pub fn put(list: &mut Vec<(String, String)>, key: &str, value: &str)
    ensures
        pairs(final(list)@) == pairs(old(list)@).push((key@, value@)),
{
    let ghost before = pairs(list@);
    list.push((key.to_owned(), value.to_owned()));
    proof {
        assert(pairs(list@) =~= before.push((key@, value@)));
    }
}

/// Start a list of properties.
pub fn none() -> (list: Vec<(String, String)>)
    ensures
        pairs(list@) == Seq::<(Seq<char>, Seq<char>)>::empty(),
{
    let list: Vec<(String, String)> = Vec::new();
    proof {
        assert(pairs(list@) =~= Seq::<(Seq<char>, Seq<char>)>::empty());
    }
    list
}

/// The first property of a name.
pub fn get<'a>(list: &'a Vec<(String, String)>, key: &str) -> (value: Option<&'a String>)
    ensures
        match value {
            Some(v) => value_of(pairs(list@), key@) == Some(v@),
            None => value_of(pairs(list@), key@) is None,
        },
{
    let ghost all = pairs(list@);
    proof {
        assert(all.skip(0) =~= all);
    }
    for i in 0..list.len()
        invariant
            all == pairs(list@),
            value_of(all, key@) == value_of(all.skip(i as int), key@),
    {
        proof {
            assert(all.skip(i as int)[0] == all[i as int]);
            assert(all.skip(i as int).skip(1) =~= all.skip(i + 1));
        }
        if text::same(list[i].0.as_str(), key) {
            return Some(&list[i].1);
        }
    }
    None
}

/// A property is read where it stands first under its name.
pub proof fn stands_first(list: Seq<(Seq<char>, Seq<char>)>, i: int)
    requires
        0 <= i < list.len(),
        forall|j: int| 0 <= j < i ==> (#[trigger] list[j]).0 != list[i].0,
    ensures
        value_of(list, list[i].0) == Some(list[i].1),
{
    the_first_of_a_name_counts(list, list[i].0);
}

} // verus!
