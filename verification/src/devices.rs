//! Every device the mixer has ever seen.
//!
//! A hardware out assigned to a headset stops existing the moment the headset
//! is unplugged, and a mixer that only knows what is plugged in right now
//! forgets the assignment with it, so the strip reads "Select Input Device"
//! and the routing quietly goes nowhere.
//!
//! So devices are remembered by name. An assignment to one that is not here
//! is kept, shown in red, and starts working again by itself the moment the
//! device comes back. The picker offers the absent ones too, greyed, because
//! you should be able to set up a headset's routing while it is charging.
//!
//! The list is not stored here. It goes in the settings file with
//! everything else, under `PipemeterSeenDevices`, because a device history
//! that can drift out of step with the assignments referring to it is
//! worse than no history, and because one settings file is enough. This
//! module keeps the list in memory and leaves the writing to whoever owns
//! that file.

use vstd::prelude::*;

use crate::audio::Direction;
use crate::lists;
use crate::order;
use crate::text;

verus! {

/// A device the mixer knows of, present or not.
#[derive(Debug, Clone, PartialEq, Eq)]
pub struct Known {
    /// The `PipeWire` node name, which is what an assignment stores.
    pub name: String,
    /// What to show a person.
    pub description: String,
    pub direction: Direction,
    /// Whether it is in the graph right now.
    pub present: bool,
}

/// A known device as the contracts see it.
pub struct KnownText {
    pub name: Seq<char>,
    pub description: Seq<char>,
    pub direction: Direction,
    pub present: bool,
}

impl View for Known {
    type V = KnownText;

    open spec fn view(&self) -> KnownText {
        KnownText {
            name: self.name@,
            description: self.description@,
            direction: self.direction,
            present: self.present,
        }
    }
}

/// Everything seen, by node name.
#[derive(Debug, Clone)]
pub struct Registry {
    /// Sorted, so the picker's order does not shuffle between launches.
    seen: Vec<Known>,
}

/// A list of devices as the contracts see it.
pub open spec fn views(list: Seq<Known>) -> Seq<KnownText> {
    list.map_values(|k: Known| k@)
}

/// A list of references to devices as the contracts see it.
pub open spec fn refs(list: Seq<&Known>) -> Seq<KnownText> {
    list.map_values(|k: &Known| k@)
}

/// Each device stands once, and before all whose names come after its own.
pub open spec fn by_name(list: Seq<KnownText>) -> bool {
    forall|i: int, j: int|
        0 <= i < j < list.len() ==> text::before(
            (#[trigger] list[i]).name,
            (#[trigger] list[j]).name,
        )
}

/// Whether a device of a name is remembered.
pub open spec fn knows(list: Seq<KnownText>, name: Seq<char>) -> bool {
    exists|i: int| 0 <= i < list.len() && (#[trigger] list[i]).name == name
}

/// The device of a name.
pub open spec fn of_name(list: Seq<KnownText>, name: Seq<char>) -> KnownText {
    list[choose|i: int| 0 <= i < list.len() && (#[trigger] list[i]).name == name]
}

/// The devices whose names come before one.
pub open spec fn earlier(name: Seq<char>) -> spec_fn(KnownText) -> bool {
    |k: KnownText| text::before(k.name, name)
}

/// The devices whose names come after one.
pub open spec fn later(name: Seq<char>) -> spec_fn(KnownText) -> bool {
    |k: KnownText| text::before(name, k.name)
}

/// The devices of other names.
pub open spec fn others(name: Seq<char>) -> spec_fn(KnownText) -> bool {
    |k: KnownText| k.name != name
}

/// The devices with one among them, in place of any of the same name.
pub open spec fn with(list: Seq<KnownText>, known: KnownText) -> Seq<KnownText> {
    list.filter(earlier(known.name)) + seq![known] + list.filter(later(known.name))
}

/// What is remembered of a device that is in the graph now: an empty
/// description does not replace what is known.
pub open spec fn noted(
    list: Seq<KnownText>,
    name: Seq<char>,
    description: Seq<char>,
    direction: Direction,
) -> KnownText {
    if knows(list, name) {
        let known = of_name(list, name);
        KnownText {
            present: true,
            description: if description.len() == 0 {
                known.description
            } else {
                description
            },
            ..known
        }
    } else {
        KnownText { name, description, direction, present: true }
    }
}

/// The devices that are not plugged in right now.
pub open spec fn not_here() -> spec_fn(KnownText) -> bool {
    |k: KnownText| !k.present
}

/// The devices that are.
pub open spec fn here() -> spec_fn(KnownText) -> bool {
    |k: KnownText| k.present
}

/// The devices of one direction.
pub open spec fn facing(direction: Direction) -> spec_fn(KnownText) -> bool {
    |k: KnownText| k.direction == direction
}

/// How the picker ranks devices, given each one's description in lower
/// case: the present ones first, and then by that.
pub open spec fn picker_ranks(
    list: Seq<KnownText>,
    lowered: Seq<Seq<char>>,
) -> Seq<order::Rank> {
    Seq::new(list.len(), |i: int| order::Rank { late: !list[i].present, text: lowered[i] })
}

/// What a text is in lower case.
pub uninterp spec fn lowercase(s: Seq<char>) -> Seq<char>;

/// `str::to_lowercase` of the standard library. The result is a function of
/// the text alone, by Unicode's tables; what it is for a given text is left
/// unsaid.
#[verifier::external_body]
fn lowered(s: &str) -> (r: String)
    ensures
        r@ == lowercase(s@),
{
    s.to_lowercase()
}

/// The descriptions of some devices in lower case.
pub open spec fn lowercases(list: Seq<KnownText>) -> Seq<Seq<char>> {
    list.map_values(|k: KnownText| lowercase(k.description))
}

/// Put devices in the order the picker shows them, given each one's
/// description in lower case.
///
/// Present first because that is what someone is usually reaching for,
/// and burying a plugged-in headset under six that are not is the sort
/// of list that makes people give up on a picker.
pub fn picker_order<'a>(list: &Vec<&'a Known>, lowered: &Vec<String>) -> (sorted: Vec<&'a Known>)
    requires
        list@.len() == lowered@.len(),
    ensures
        refs(sorted@) == order::sorted(
            refs(list@),
            picker_ranks(refs(list@), text::texts(lowered@)),
        ),
{
    let ghost all = refs(list@);
    let ghost ranks = picker_ranks(all, text::texts(lowered@));
    let mut keys: Vec<order::Key> = Vec::new();
    for i in 0..list.len()
        invariant
            list@.len() == lowered@.len(),
            all == refs(list@),
            keys@.len() == i,
            forall|j: int|
                0 <= j < i ==> (#[trigger] keys@[j])@ == (order::Rank {
                    late: !all[j].present,
                    text: lowered@[j]@,
                }),
    {
        keys.push(order::Key { late: !list[i].present, text: lowered[i].clone() });
    }
    proof {
        assert(order::ranks(keys@) =~= ranks);
    }
    let places = order::order(&keys);
    let mut sorted: Vec<&'a Known> = Vec::new();
    for p in 0..places.len()
        invariant
            places@.len() == list@.len(),
            forall|q: int| 0 <= q < places@.len() ==> #[trigger] places@[q] < list@.len(),
            sorted@.len() == p,
            forall|q: int| 0 <= q < p ==> #[trigger] sorted@[q] == list@[places@[q] as int],
    {
        sorted.push(list[places[p]]);
    }
    proof {
        let want = order::sorted(all, ranks);
        assert forall|q: int| 0 <= q < sorted@.len() implies refs(sorted@)[q] == want[q] by {
            assert(places@.map_values(|i: usize| i as int)[q] == places@[q] as int);
        }
        assert(refs(sorted@) =~= want);
    }
    sorted
}

/// In a list by name nothing else has a device's name.
proof fn names_stand_once(list: Seq<KnownText>, i: int, j: int)
    requires
        by_name(list),
        0 <= i < list.len(),
        0 <= j < list.len(),
        list[i].name == list[j].name,
    ensures
        i == j,
{
    text::before_is_irreflexive(list[i].name);
}

/// Where a name belongs in a list by name.
proof fn splits_at(list: Seq<KnownText>, at: int, name: Seq<char>)
    requires
        by_name(list),
        0 <= at <= list.len(),
        forall|j: int| 0 <= j < at ==> text::before((#[trigger] list[j]).name, name),
        at < list.len() ==> !text::before(list[at].name, name),
    ensures
        list.filter(earlier(name)) == list.take(at),
        list.filter(later(name)) == (if at < list.len() && list[at].name == name {
            list.skip(at + 1)
        } else {
            list.skip(at)
        }),
        knows(list, name) == (at < list.len() && list[at].name == name),
{
    let here = at < list.len() && list[at].name == name;
    let next = if here { at + 1 } else { at };
    text::before_is_irreflexive(name);
    assert forall|j: int| at <= j < list.len() implies !text::before(
        (#[trigger] list[j]).name,
        name,
    ) by {
        if j > at && text::before(list[j].name, name) {
            assert(text::before(list[at].name, list[j].name));
            text::before_is_transitive(list[at].name, list[j].name, name);
        }
    }
    lists::filter_at(list, at, earlier(name), true);
    assert forall|j: int| 0 <= j < next implies !text::before(name, (#[trigger] list[j]).name) by {
        if j < at && text::before(name, list[j].name) {
            text::before_is_transitive(name, list[j].name, name);
        }
    }
    assert forall|j: int| next <= j < list.len() implies text::before(
        name,
        (#[trigger] list[j]).name,
    ) by {
        assert(!text::before(list[at].name, name));
        text::before_is_total(list[j].name, name);
        if list[j].name == name {
            if j > at {
                assert(text::before(list[at].name, list[j].name));
            }
        }
    }
    lists::filter_at(list, next, later(name), false);
    if knows(list, name) {
        let i = choose|i: int| 0 <= i < list.len() && (#[trigger] list[i]).name == name;
        if i < at {
            assert(text::before(list[i].name, name));
        } else if i > at {
            assert(text::before(list[at].name, list[i].name));
        }
    }
}

/// A device put in its place keeps the list by name.
proof fn with_keeps_order(list: Seq<KnownText>, known: KnownText, at: int)
    requires
        by_name(list),
        0 <= at <= list.len(),
        forall|j: int| 0 <= j < at ==> text::before((#[trigger] list[j]).name, known.name),
        at < list.len() ==> !text::before(list[at].name, known.name),
    ensures
        by_name(with(list, known)),
{
    splits_at(list, at, known.name);
    let after = with(list, known);
    let skipped = list.filter(later(known.name));
    let shift = list.len() - at - skipped.len();
    assert forall|i: int, j: int| 0 <= i < j < after.len() implies text::before(
        (#[trigger] after[i]).name,
        (#[trigger] after[j]).name,
    ) by {
        if j > at {
            let b = j - 1 + shift;
            assert(after[j] == list[b]);
            assert(skipped[j - at - 1] == list[b]);
            assert(skipped.contains(list[b]));
            lists::filter_contains(list, later(known.name), list[b]);
            if i < at {
                assert(after[i] == list[i]);
                assert(text::before(list[i].name, list[b].name));
            } else if i > at {
                let a = i - 1 + shift;
                assert(after[i] == list[a]);
                assert(text::before(list[a].name, list[b].name));
            }
        } else {
            assert(after[i] == list[i]);
            if j < at {
                assert(after[j] == list[j]);
                assert(text::before(list[i].name, list[j].name));
            }
        }
    }
}

impl Default for Registry {
    fn default() -> (registry: Registry)
        ensures
            registry.wf(),
            registry@ == Seq::<KnownText>::empty(),
    {
        let registry = Registry { seen: Vec::new() };
        proof {
            assert(registry@ =~= Seq::<KnownText>::empty());
        }
        registry
    }
}

impl View for Registry {
    type V = Seq<KnownText>;

    /// The devices, by name.
    closed spec fn view(&self) -> Seq<KnownText> {
        views(self.seen@)
    }
}

impl Registry {
    /// Each device stands once, in its place by name.
    pub open spec fn wf(&self) -> bool {
        by_name(self@)
    }

    fn place(&self, name: &str) -> (at: usize)
        requires
            self.wf(),
        ensures
            at <= self@.len(),
            self@.len() == self.seen@.len(),
            forall|j: int| 0 <= j < at ==> text::before((#[trigger] self@[j]).name, name@),
            at < self@.len() ==> !text::before(self@[at as int].name, name@),
    {
        let mut i: usize = 0;
        while i < self.seen.len()
            invariant
                i <= self.seen@.len(),
                forall|j: int| 0 <= j < i ==> text::before((#[trigger] self@[j]).name, name@),
            ensures
                i < self.seen@.len() ==> !text::before(self@[i as int].name, name@),
            decreases self.seen@.len() - i,
        {
            if !text::comes_before(self.seen[i].name.as_str(), name) {
                break ;
            }
            i = i + 1;
        }
        i
    }

    /// The device of a name.
    fn find(&self, name: &str) -> (at: Option<usize>)
        requires
            self.wf(),
        ensures
            self@.len() == self.seen@.len(),
            match at {
                Some(i) => i < self@.len() && knows(self@, name@) && self@[i as int] == of_name(
                    self@,
                    name@,
                ) && self@[i as int].name == name@,
                None => !knows(self@, name@),
            },
    {
        let at = self.place(name);
        proof {
            splits_at(self@, at as int, name@);
        }
        if at < self.seen.len() && text::same(self.seen[at].name.as_str(), name) {
            proof {
                let i = choose|i: int|
                    0 <= i < self@.len() && (#[trigger] self@[i]).name == name@;
                names_stand_once(self@, at as int, i);
            }
            Some(at)
        } else {
            None
        }
    }

    fn put(&mut self, known: Known)
        requires
            old(self).wf(),
        ensures
            final(self).wf(),
            final(self)@ == with(old(self)@, known@),
    {
        let ghost before = self@;
        let ghost this = known@;
        let at = self.place(known.name.as_str());
        proof {
            splits_at(before, at as int, known.name@);
            with_keeps_order(before, this, at as int);
        }
        if at < self.seen.len() && text::same(
            self.seen[at].name.as_str(),
            known.name.as_str(),
        ) {
            self.seen[at] = known;
        } else {
            self.seen.insert(at, known);
        }
        proof {
            assert(self@ =~= with(before, this));
        }
    }

    /// Note a device that is in the graph now.
    ///
    /// Returns whether that changed what is to be written back out: it is
    /// the first time it has been seen, or it has another description now.
    pub fn remember(&mut self, name: &str, description: &str, direction: Direction) -> (news: bool)
        requires
            old(self).wf(),
        ensures
            final(self).wf(),
            final(self)@ == with(
                old(self)@,
                noted(old(self)@, name@, description@, direction),
            ),
            news == (!knows(old(self)@, name@) || (description@.len() > 0 && of_name(
                old(self)@,
                name@,
            ).description != description@)),
    {
        match self.find(name) {
            Some(i) => {
                let worse = description.is_empty();
                let same = text::same(self.seen[i].description.as_str(), description);
                let known = Known {
                    name: self.seen[i].name.clone(),
                    description: if worse {
                        self.seen[i].description.clone()
                    } else {
                        description.to_owned()
                    },
                    direction: self.seen[i].direction,
                    present: true,
                };
                self.put(known);
                !worse && !same
            },
            None => {
                self.put(
                    Known {
                        name: name.to_owned(),
                        description: description.to_owned(),
                        direction,
                        present: true,
                    },
                );
                true
            },
        }
    }

    /// Mark everything absent, before a fresh sweep marks what is back.
    pub fn mark_all_absent(&mut self)
        requires
            old(self).wf(),
        ensures
            final(self).wf(),
            final(self)@ == old(self)@.map_values(
                |k: KnownText| KnownText { present: false, ..k },
            ),
    {
        let ghost before = self@;
        let n = self.seen.len();
        for i in 0..n
            invariant
                n == before.len(),
                self.seen@.len() == n,
                forall|j: int|
                    0 <= j < i ==> (#[trigger] self.seen@[j])@ == (KnownText {
                        present: false,
                        ..before[j]
                    }),
                forall|j: int| i <= j < n ==> (#[trigger] self.seen@[j])@ == before[j],
        {
            self.seen[i].present = false;
        }
        proof {
            let after = before.map_values(|k: KnownText| KnownText { present: false, ..k });
            assert(self@ =~= after);
            assert forall|i: int, j: int| 0 <= i < j < after.len() implies text::before(
                (#[trigger] after[i]).name,
                (#[trigger] after[j]).name,
            ) by {
                assert(text::before(before[i].name, before[j].name));
            }
        }
    }

    /// Whether a device is in the graph right now.
    #[must_use]
    pub fn is_present(&self, name: &str) -> (r: bool)
        requires
            self.wf(),
        ensures
            r == (knows(self@, name@) && of_name(self@, name@).present),
    {
        match self.find(name) {
            Some(i) => self.seen[i].present,
            None => false,
        }
    }

    /// What to show a person for a node name, present or not.
    #[must_use]
    pub fn description_of(&self, name: &str) -> (description: Option<&str>)
        requires
            self.wf(),
        ensures
            match description {
                Some(d) => knows(self@, name@) && d@ == of_name(self@, name@).description,
                None => !knows(self@, name@),
            },
    {
        match self.find(name) {
            Some(i) => Some(self.seen[i].description.as_str()),
            None => None,
        }
    }

    fn those_facing(&self, direction: Direction) -> (list: Vec<&Known>)
        ensures
            refs(list@) == self@.filter(facing(direction)),
    {
        let ghost all = self@;
        let mut list: Vec<&Known> = Vec::new();
        proof {
            lists::filter_none(all, facing(direction));
            assert(refs(list@) =~= Seq::empty());
        }
        for i in 0..self.seen.len()
            invariant
                all == views(self.seen@),
                refs(list@) == all.take(i as int).filter(facing(direction)),
        {
            let known = &self.seen[i];
            let ghost so_far = refs(list@);
            if known.direction == direction {
                list.push(known);
                proof {
                    assert(refs(list@) =~= so_far.push(known@));
                }
            }
            proof {
                assert(all[i as int] == known@);
                lists::filter_step(all, i as int, facing(direction));
            }
        }
        proof {
            assert(all.take(all.len() as int) =~= all);
        }
        list
    }

    /// Everything of one direction, present first and absent after, each
    /// half by description without regard to case.
    #[must_use]
    pub fn of(&self, direction: Direction) -> (list: Vec<&Known>)
        ensures
            ({
                let those = self@.filter(facing(direction));
                refs(list@) == order::sorted(those, picker_ranks(those, lowercases(those)))
            }),
    {
        let those = self.those_facing(direction);
        let ghost want = lowercases(refs(those@));
        let mut descriptions = text::blank();
        for i in 0..those.len()
            invariant
                want == lowercases(refs(those@)),
                text::texts(descriptions@) == want.take(i as int),
        {
            text::write(&mut descriptions, lowered(those[i].description.as_str()));
            proof {
                assert(want.take(i + 1) =~= want.take(i as int).push(want[i as int]));
            }
        }
        proof {
            assert(want.take(want.len() as int) =~= want);
            assert(text::texts(descriptions@).len() == descriptions@.len());
        }
        picker_order(&those, &descriptions)
    }

    /// Forget a device outright. Only the menu and the picker do this.
    pub fn forget(&mut self, name: &str)
        requires
            old(self).wf(),
        ensures
            final(self).wf(),
            final(self)@ == old(self)@.filter(others(name@)),
    {
        let ghost before = self@;
        match self.find(name) {
            Some(i) => {
                self.seen.remove(i);
                proof {
                    assert forall|j: int| 0 <= j < before.len() && j != i implies others(name@)(
                        #[trigger] before[j],
                    ) by {
                        if before[j].name == name@ {
                            names_stand_once(before, i as int, j);
                        }
                    }
                    lists::all_but_one(before, i as int, others(name@));
                    assert(self@ =~= before.remove(i as int));
                    assert forall|a: int, b: int| 0 <= a < b < self@.len() implies text::before(
                        (#[trigger] self@[a]).name,
                        (#[trigger] self@[b]).name,
                    ) by {
                        let p = if a < i { a } else { a + 1 };
                        let q = if b < i { b } else { b + 1 };
                        assert(text::before(before[p].name, before[q].name));
                    }
                }
            },
            None => {
                proof {
                    lists::all_kept(before, others(name@));
                }
            },
        }
    }

    /// Everything not plugged in right now, in the order it is stored.
    ///
    /// What the Forget Old Devices window offers: a person cannot decide
    /// what to drop without seeing it, and the count alone never said
    /// which ones were about to go.
    #[must_use]
    pub fn absent(&self) -> (list: Vec<&Known>)
        ensures
            refs(list@) == self@.filter(not_here()),
    {
        let ghost all = self@;
        let mut list: Vec<&Known> = Vec::new();
        proof {
            lists::filter_none(all, not_here());
            assert(refs(list@) =~= Seq::empty());
        }
        for i in 0..self.seen.len()
            invariant
                all == views(self.seen@),
                refs(list@) == all.take(i as int).filter(not_here()),
        {
            let known = &self.seen[i];
            let ghost so_far = refs(list@);
            if !known.present {
                list.push(known);
                proof {
                    assert(refs(list@) =~= so_far.push(known@));
                }
            }
            proof {
                assert(all[i as int] == known@);
                lists::filter_step(all, i as int, not_here());
            }
        }
        proof {
            assert(all.take(all.len() as int) =~= all);
        }
        list
    }

    /// Drop everything that is not plugged in right now.
    ///
    /// Returns how many went. Assignments to them are left alone: a strip
    /// still points at the name, so plugging the device back in picks it up
    /// again and remembers it afresh. This tidies the picker, it does not
    /// unwire the mixer.
    pub fn forget_absent(&mut self) -> (gone: usize)
        requires
            old(self).wf(),
        ensures
            final(self).wf(),
            final(self)@ == old(self)@.filter(here()),
            gone == old(self)@.len() - old(self)@.filter(here()).len(),
    {
        let ghost all = self@;
        let mut seen: Vec<Known> = Vec::new();
        std::mem::swap(&mut seen, &mut self.seen);
        let ghost was = seen@;
        let before = seen.len();
        proof {
            lists::filter_none(all, here());
            assert(views(self.seen@) =~= Seq::empty());
        }
        for known in it: seen
            invariant
                it.seq() == was,
                all == views(was),
                before == was.len(),
                self.seen@.len() <= it.index(),
                views(self.seen@) == all.take(it.index() as int).filter(here()),
        {
            let ghost this = known@;
            let ghost so_far = views(self.seen@);
            proof {
                assert(all[it.index() as int] == this);
                lists::filter_step(all, it.index() as int, here());
            }
            if known.present {
                self.seen.push(known);
                proof {
                    assert(views(self.seen@) =~= so_far.push(this));
                }
            }
        }
        proof {
            assert(all.take(all.len() as int) =~= all);
            assert(self@.len() == self.seen@.len());
            filter_keeps_names(all, here());
        }
        before - self.seen.len()
    }

    /// Whether nothing is remembered yet, which is how a first run looks.
    #[must_use]
    pub fn is_empty(&self) -> (r: bool)
        ensures
            r == (self@.len() == 0),
    {
        self.seen.len() == 0
    }

    /// How many are remembered.
    #[must_use]
    pub fn len(&self) -> (n: usize)
        ensures
            n == self@.len(),
    {
        self.seen.len()
    }

    /// Note a device that is remembered but not in the graph.
    ///
    /// What loading the settings file does. Everything read starts out
    /// absent: only the graph can say otherwise.
    pub fn remember_absent(&mut self, name: &str, description: &str, direction: Direction)
        requires
            old(self).wf(),
        ensures
            final(self).wf(),
            final(self)@ == with(
                old(self)@,
                KnownText {
                    name: name@,
                    description: description@,
                    direction,
                    present: false,
                },
            ),
    {
        self.put(
            Known {
                name: name.to_owned(),
                description: description.to_owned(),
                direction,
                present: false,
            },
        );
    }

    /// Everything remembered, in stored order, for writing back out.
    pub fn all(&self) -> (list: Vec<&Known>)
        ensures
            refs(list@) == self@,
    {
        let mut list: Vec<&Known> = Vec::new();
        for i in 0..self.seen.len()
            invariant
                list@.len() == i,
                forall|j: int| 0 <= j < i ==> *(#[trigger] list@[j]) == self.seen@[j],
        {
            list.push(&self.seen[i]);
        }
        proof {
            assert(refs(list@) =~= self@);
        }
        list
    }
}

/// What is left of a list by name is still by name.
proof fn filter_keeps_names(list: Seq<KnownText>, keep: spec_fn(KnownText) -> bool)
    requires
        by_name(list),
    ensures
        by_name(list.filter(keep)),
    decreases list.len(),
{
    reveal(Seq::filter);
    if list.len() > 0 {
        let shorter = list.drop_last();
        assert forall|i: int, j: int| 0 <= i < j < shorter.len() implies text::before(
            (#[trigger] shorter[i]).name,
            (#[trigger] shorter[j]).name,
        ) by {
            assert(text::before(list[i].name, list[j].name));
        }
        filter_keeps_names(shorter, keep);
        let before = shorter.filter(keep);
        let now = list.filter(keep);
        assert forall|i: int, j: int| 0 <= i < j < now.len() implies text::before(
            (#[trigger] now[i]).name,
            (#[trigger] now[j]).name,
        ) by {
            assert(now[i] == before[i]);
            if j < before.len() {
                assert(now[j] == before[j]);
            } else {
                assert(before.contains(before[i]));
                lists::filter_contains(shorter, keep, before[i]);
                let k = shorter.index_of(before[i]);
                assert(list[k] == before[i]);
                assert(text::before(list[k].name, list[list.len() - 1].name));
            }
        }
    }
}

// ---------------------------------------------------------------------
// Laws

/// What is put into the list can be found there, and nothing else changes.
pub proof fn what_is_put_is_found(list: Seq<KnownText>, known: KnownText, other: Seq<char>)
    requires
        by_name(list),
    ensures
        knows(with(list, known), known.name),
        of_name(with(list, known), known.name) == known,
        other != known.name ==> knows(with(list, known), other) == knows(list, other),
        other != known.name && knows(list, other) ==> of_name(with(list, known), other) == of_name(
            list,
            other,
        ),
{
    let after = with(list, known);
    let first = list.filter(earlier(known.name));
    let last = list.filter(later(known.name));
    let at = place_of(list, known.name);
    place_is_place(list, known.name, 0);
    splits_at(list, at, known.name);
    with_keeps_order(list, known, at);
    assert(after[first.len() as int] == known);
    let i = choose|i: int| 0 <= i < after.len() && (#[trigger] after[i]).name == known.name;
    names_stand_once(after, i, first.len() as int);
    if other != known.name {
        if knows(list, other) {
            let j = choose|j: int| 0 <= j < list.len() && (#[trigger] list[j]).name == other;
            text::before_is_total(other, known.name);
            assert(list.contains(list[j]));
            lists::filter_contains(list, earlier(known.name), list[j]);
            lists::filter_contains(list, later(known.name), list[j]);
            let k = if first.contains(list[j]) {
                first.index_of(list[j])
            } else {
                first.len() + 1 + last.index_of(list[j])
            };
            assert(after[k] == list[j]);
            let m = choose|m: int| 0 <= m < after.len() && (#[trigger] after[m]).name == other;
            names_stand_once(after, m, k);
        }
        if knows(after, other) {
            let m = choose|m: int| 0 <= m < after.len() && (#[trigger] after[m]).name == other;
            if m < first.len() {
                assert(first.contains(first[m]));
                lists::filter_contains(list, earlier(known.name), first[m]);
                let j = list.index_of(first[m]);
                assert(list[j].name == other);
            } else {
                assert(m > first.len());
                let e = last[m - first.len() - 1];
                assert(last.contains(e));
                lists::filter_contains(list, later(known.name), e);
                let j = list.index_of(e);
                assert(list[j].name == other);
            }
        }
    }
}

/// Where a name belongs.
spec fn place_of(list: Seq<KnownText>, name: Seq<char>) -> int {
    place_from(list, name, 0)
}

spec fn place_from(list: Seq<KnownText>, name: Seq<char>, i: int) -> int
    decreases list.len() - i,
{
    if i >= list.len() || !text::before(list[i].name, name) {
        i
    } else {
        place_from(list, name, i + 1)
    }
}

proof fn place_is_place(list: Seq<KnownText>, name: Seq<char>, i: int)
    requires
        0 <= i <= list.len(),
        forall|j: int| 0 <= j < i ==> text::before((#[trigger] list[j]).name, name),
    ensures
        ({
            let at = place_from(list, name, i);
            &&& 0 <= at <= list.len()
            &&& forall|j: int| 0 <= j < at ==> text::before((#[trigger] list[j]).name, name)
            &&& at < list.len() ==> !text::before(list[at].name, name)
        }),
    decreases list.len() - i,
{
    if i < list.len() && text::before(list[i].name, name) {
        place_is_place(list, name, i + 1);
    }
}

/// A device that comes back is present again, under the description it had,
/// and unplugging forgets nothing: an assignment to it starts working by
/// itself.
pub proof fn a_device_comes_back_as_it_was(
    list: Seq<KnownText>,
    name: Seq<char>,
    direction: Direction,
)
    requires
        by_name(list),
        knows(list, name),
    ensures
        ({
            let unplugged = list.map_values(|k: KnownText| KnownText { present: false, ..k });
            let back = noted(unplugged, name, of_name(list, name).description, direction);
            &&& knows(unplugged, name)
            &&& !of_name(unplugged, name).present
            &&& of_name(unplugged, name).description == of_name(list, name).description
            &&& back == (KnownText { present: true, ..of_name(list, name) })
        }),
{
    let unplugged = list.map_values(|k: KnownText| KnownText { present: false, ..k });
    let i = choose|i: int| 0 <= i < list.len() && (#[trigger] list[i]).name == name;
    assert(unplugged[i].name == name);
    let j = choose|j: int| 0 <= j < unplugged.len() && (#[trigger] unplugged[j]).name == name;
    assert(list[j].name == name);
    names_stand_once(list, i, j);
}

/// Forgetting the absent takes those that are listed as absent and leaves
/// those that are here.
pub proof fn forgetting_the_absent_spares_the_present(list: Seq<KnownText>, k: KnownText)
    ensures
        list.filter(here()).contains(k) == (list.contains(k) && k.present),
        list.filter(not_here()).contains(k) == (list.contains(k) && !k.present),
        list.filter(here()).len() + list.filter(not_here()).len() == list.len(),
{
    lists::filter_contains(list, here(), k);
    lists::filter_contains(list, not_here(), k);
    halves_make_the_whole(list);
}

proof fn halves_make_the_whole(list: Seq<KnownText>)
    ensures
        list.filter(here()).len() + list.filter(not_here()).len() == list.len(),
    decreases list.len(),
{
    reveal(Seq::filter);
    if list.len() > 0 {
        halves_make_the_whole(list.drop_last());
    }
}

/// The picker shows the present ones first.
pub proof fn the_present_come_first(
    list: Seq<KnownText>,
    lowered: Seq<Seq<char>>,
    i: int,
    j: int,
)
    requires
        0 <= i < j < list.len(),
    ensures
        ({
            let shown = order::sorted(list, picker_ranks(list, lowered));
            shown[j].present ==> shown[i].present
        }),
{
    let ranks = picker_ranks(list, lowered);
    let places = order::order_of(ranks, list.len());
    order::order_of_is_order(ranks, list.len());
    assert(order::belongs_before(ranks, places[i], places[j]));
}

/// A device that is seen is remembered as present under its name. It takes
/// the title it was seen with, unless it was seen with none, and a device
/// that was known keeps the way it faces.
pub proof fn what_is_seen_is_remembered(
    list: Seq<KnownText>,
    name: Seq<char>,
    description: Seq<char>,
    direction: Direction,
)
    requires
        by_name(list),
    ensures
        ({
            let after = with(list, noted(list, name, description, direction));
            let now = of_name(after, name);
            &&& by_name(after)
            &&& knows(after, name)
            &&& now.name == name
            &&& now.present
            &&& description.len() > 0 ==> now.description == description
            &&& description.len() == 0 && knows(list, name) ==> now.description == of_name(
                list,
                name,
            ).description
            &&& !knows(list, name) ==> now.description == description && now.direction == direction
            &&& knows(list, name) ==> now.direction == of_name(list, name).direction
        }),
{
    let known = noted(list, name, description, direction);
    assert(known.name == name);
    what_is_put_is_found(list, known, name);
    let at = place_of(list, name);
    place_is_place(list, name, 0);
    with_keeps_order(list, known, at);
}

/// Forgetting a device forgets that one and no other, and listing one way
/// lists all that face it and no other.
pub proof fn only_the_named_is_forgotten(
    list: Seq<KnownText>,
    name: Seq<char>,
    direction: Direction,
    k: KnownText,
)
    ensures
        list.filter(others(name)).contains(k) == (list.contains(k) && k.name != name),
        list.filter(facing(direction)).contains(k) == (list.contains(k) && k.direction
            == direction),
{
    crate::lists::filter_contains(list, others(name), k);
    crate::lists::filter_contains(list, facing(direction), k);
}

/// The picker shows every device once: those that are here before those that
/// are not, each of the two by its title in small letters, and in the order
/// of their names where the titles are the same.
pub proof fn the_picker_goes_by_title(
    list: Seq<KnownText>,
    lowered: Seq<Seq<char>>,
    i: int,
    j: int,
)
    requires
        lowered.len() == list.len(),
        0 <= i < j < list.len(),
    ensures
        ({
            let shown = order::sorted(list, picker_ranks(list, lowered));
            let places = order::order_of(picker_ranks(list, lowered), list.len());
            let a = places[i];
            let b = places[j];
            &&& shown.len() == list.len()
            &&& 0 <= a < list.len() && 0 <= b < list.len() && a != b
            &&& shown[i] == list[a] && shown[j] == list[b]
            &&& list[b].present ==> list[a].present
            &&& list[a].present == list[b].present ==> !text::before(lowered[b], lowered[a])
            &&& list[a].present == list[b].present && lowered[a] == lowered[b] ==> a < b
        }),
{
    let ranks = picker_ranks(list, lowered);
    order::order_of_is_order(ranks, list.len());
    order::order_of_is_injective(ranks, list.len(), i, j);
    let places = order::order_of(ranks, list.len());
    let a = places[i];
    let b = places[j];
    assert(order::belongs_before(ranks, a, b));
    text::before_is_irreflexive(lowered[a]);
    if text::before(lowered[a], lowered[b]) && text::before(lowered[b], lowered[a]) {
        text::before_is_transitive(lowered[a], lowered[b], lowered[a]);
    }
}

/// A device is present, and has a title, exactly as the registry last heard
/// of it.
pub proof fn the_registry_answers_by_name(
    registry: Registry,
    name: &str,
    i: int,
    present: bool,
    description: Option<&str>,
)
    requires
        registry.wf(),
        call_ensures(Registry::is_present, (&registry, name), present),
        call_ensures(Registry::description_of, (&registry, name), description),
    ensures
        0 <= i < registry@.len() && registry@[i].name == name@ ==> present == registry@[i].present
            && description is Some && description->Some_0@ == registry@[i].description,
        (forall|k: int| 0 <= k < registry@.len() ==> (#[trigger] registry@[k]).name != name@)
            ==> !present && description is None,
{
    if 0 <= i < registry@.len() && registry@[i].name == name@ {
        assert(knows(registry@, name@));
        let k = choose|k: int| 0 <= k < registry@.len() && (#[trigger] registry@[k]).name == name@;
        names_stand_once(registry@, i, k);
    }
}

/// What is listed as absent is what is not here, and all is everything.
pub proof fn the_absent_are_those_not_here(
    registry: Registry,
    absent: Vec<&Known>,
    all: Vec<&Known>,
    k: KnownText,
)
    requires
        call_ensures(Registry::absent, (&registry,), absent),
        call_ensures(Registry::all, (&registry,), all),
    ensures
        refs(absent@).contains(k) == (refs(all@).contains(k) && !k.present),
        refs(all@) == registry@,
{
    forgetting_the_absent_spares_the_present(registry@, k);
}

} // verus!
