//! Sets of names in ascending order: the local variables of a function.

use crate::text::{lemma_text_less_total, str_less, text_less};
use vstd::prelude::*;

verus! {

/// Whether each name is below the one after it.
pub open spec fn ascending(names: Seq<Seq<char>>) -> bool {
    forall|i: int| 0 <= i < names.len() - 1 ==> text_less(#[trigger] names[i], names[i + 1])
}

/// An ascending sequence of names with one more name put at its place; a name
/// that is there already is not added again.
pub open spec fn with_name(names: Seq<Seq<char>>, name: Seq<char>) -> Seq<Seq<char>>
    decreases names.len(),
{
    if names.len() == 0 {
        seq![name]
    } else if names[0] == name {
        names
    } else if text_less(name, names[0]) {
        seq![name] + names
    } else {
        seq![names[0]] + with_name(names.drop_first(), name)
    }
}

/// A sequence of names with the names of another added one by one, the first
/// of them first.
pub open spec fn with_names(names: Seq<Seq<char>>, more: Seq<Seq<char>>) -> Seq<Seq<char>>
    decreases more.len(),
{
    if more.len() == 0 {
        names
    } else {
        with_names(with_name(names, more[0]), more.drop_first())
    }
}

/// Adding a name keeps the names that were there, adds the name, and adds no
/// other.
pub proof fn lemma_with_name_contains(names: Seq<Seq<char>>, name: Seq<char>, other: Seq<char>)
    ensures
        with_name(names, name).contains(other) <==> names.contains(other) || other == name,
    decreases names.len(),
{
    let added = with_name(names, name);
    if names.len() == 0 {
        assert(added[0] == name);
        if added.contains(other) {
            let i = choose|i: int| 0 <= i < added.len() && added[i] == other;
        }
    } else if names[0] == name {
        assert(names[0] == name);
    } else if text_less(name, names[0]) {
        assert(added[0] == name);
        if names.contains(other) {
            let i = choose|i: int| 0 <= i < names.len() && names[i] == other;
            assert(added[i + 1] == other);
        }
        if added.contains(other) {
            let i = choose|i: int| 0 <= i < added.len() && added[i] == other;
            if i > 0 {
                assert(names[i - 1] == other);
            }
        }
    } else {
        let rest = names.drop_first();
        let added_rest = with_name(rest, name);
        lemma_with_name_contains(rest, name, other);
        if names.contains(other) {
            let i = choose|i: int| 0 <= i < names.len() && names[i] == other;
            if i == 0 {
                assert(added[0] == other);
            } else {
                assert(rest[i - 1] == other);
            }
        }
        if rest.contains(other) || other == name {
            let j = choose|j: int| 0 <= j < added_rest.len() && added_rest[j] == other;
            assert(added[j + 1] == other);
        }
        if added.contains(other) {
            let i = choose|i: int| 0 <= i < added.len() && added[i] == other;
            if i == 0 {
                assert(names[0] == other);
            } else {
                assert(added_rest[i - 1] == other);
                if rest.contains(other) {
                    let j = choose|j: int| 0 <= j < rest.len() && rest[j] == other;
                    assert(names[j + 1] == other);
                }
            }
        }
    }
}

/// Adding names keeps the names that were there, adds those names, and adds
/// no other.
pub proof fn lemma_with_names_contains(names: Seq<Seq<char>>, more: Seq<Seq<char>>, other: Seq<char>)
    ensures
        with_names(names, more).contains(other) <==> names.contains(other) || more.contains(other),
    decreases more.len(),
{
    if more.len() > 0 {
        lemma_with_name_contains(names, more[0], other);
        lemma_with_names_contains(with_name(names, more[0]), more.drop_first(), other);
        if more.contains(other) {
            let i = choose|i: int| 0 <= i < more.len() && more[i] == other;
            if i > 0 {
                assert(more.drop_first()[i - 1] == other);
            }
        }
        if more.drop_first().contains(other) {
            let i = choose|i: int| 0 <= i < more.len() - 1 && more.drop_first()[i] == other;
            assert(more[i + 1] == other);
        }
    }
}

/// Adding a name to an ascending sequence gives an ascending sequence, which
/// starts with the name or with the old first name.
pub proof fn lemma_with_name_ascending(names: Seq<Seq<char>>, name: Seq<char>)
    requires
        ascending(names),
    ensures
        ascending(with_name(names, name)),
        with_name(names, name).len() > 0,
        with_name(names, name)[0] == name || (names.len() > 0 && with_name(names, name)[0]
            == names[0]),
    decreases names.len(),
{
    let added = with_name(names, name);
    if names.len() == 0 {
    } else if names[0] == name {
    } else if text_less(name, names[0]) {
        assert forall|i: int| 0 <= i < added.len() - 1 implies text_less(
            #[trigger] added[i],
            added[i + 1],
        ) by {
            if i > 0 {
                assert(text_less(names[i - 1], names[i]));
            }
        }
    } else {
        let rest = names.drop_first();
        let added_rest = with_name(rest, name);
        assert forall|i: int| 0 <= i < rest.len() - 1 implies text_less(
            #[trigger] rest[i],
            rest[i + 1],
        ) by {
            assert(text_less(names[i + 1], names[i + 2]));
        }
        lemma_with_name_ascending(rest, name);
        lemma_text_less_total(name, names[0]);
        assert forall|i: int| 0 <= i < added.len() - 1 implies text_less(
            #[trigger] added[i],
            added[i + 1],
        ) by {
            if i == 0 {
                if added_rest[0] != name {
                    assert(text_less(names[0], names[1]));
                }
            } else {
                assert(text_less(added_rest[i - 1], added_rest[i]));
            }
        }
    }
}

/// Adding names to an ascending sequence gives an ascending sequence.
pub proof fn lemma_with_names_ascending(names: Seq<Seq<char>>, more: Seq<Seq<char>>)
    requires
        ascending(names),
    ensures
        ascending(with_names(names, more)),
    decreases more.len(),
{
    if more.len() > 0 {
        lemma_with_name_ascending(names, more[0]);
        lemma_with_names_ascending(with_name(names, more[0]), more.drop_first());
    }
}

/// The first place of a sequence whose name is not below `name`.
pub open spec fn place(names: Seq<Seq<char>>, name: Seq<char>) -> int
    decreases names.len(),
{
    if names.len() == 0 || names[0] == name || text_less(name, names[0]) {
        0
    } else {
        1 + place(names.drop_first(), name)
    }
}

/// A name is added at its place, unless it stands there already.
pub proof fn lemma_with_name_at(names: Seq<Seq<char>>, name: Seq<char>, i: int)
    requires
        i == place(names, name),
    ensures
        0 <= i <= names.len(),
        with_name(names, name) == (if i < names.len() && names[i] == name {
            names
        } else {
            names.insert(i, name)
        }),
    decreases names.len(),
{
    if names.len() == 0 {
        assert(names.insert(0, name) =~= seq![name]);
    } else if names[0] == name {
    } else if text_less(name, names[0]) {
        assert(names.insert(0, name) =~= seq![name] + names);
    } else {
        let rest = names.drop_first();
        lemma_with_name_at(rest, name, i - 1);
        if i - 1 < rest.len() && rest[i - 1] == name {
            assert(seq![names[0]] + rest =~= names);
        } else {
            assert(seq![names[0]] + rest.insert(i - 1, name) =~= names.insert(i, name));
        }
    }
}

/// The first place of `names` whose name is not below `name`.
fn place_of(names: &Vec<String>, name: &String) -> (i: usize)
    ensures
        i == place(names@.map_values(|name: String| name@), name@),
        i <= names.len(),
{
    let ghost all = names@.map_values(|name: String| name@);
    let mut i: usize = 0;
    proof {
        assert(all.subrange(0, all.len() as int) =~= all);
    }
    while i < names.len()
        invariant
            i <= names.len(),
            all == names@.map_values(|name: String| name@),
            place(all, name@) == i + place(all.subrange(i as int, all.len() as int), name@),
        decreases names.len() - i,
    {
        let ghost tail = all.subrange(i as int, all.len() as int);
        assert(tail[0] == names[i as int]@);
        if names[i] == *name || str_less(name.as_str(), names[i].as_str()) {
            return i;
        }
        proof {
            assert(tail.drop_first() =~= all.subrange(i + 1, all.len() as int));
        }
        i += 1;
    }
    i
}

/// A set of names, kept in ascending order so that it is always walked in the
/// same order.
#[derive(Debug)]
pub struct NameSet {
    names: Vec<String>,
}

impl NameSet {
    #[verifier::type_invariant]
    spec fn well_formed(self) -> bool {
        ascending(self@)
    }

    /// The names of the set, in ascending order.
    pub closed spec fn view(&self) -> Seq<Seq<char>> {
        self.names@.map_values(|name: String| name@)
    }

    /// The empty set.
    pub fn new() -> (set: NameSet)
        ensures
            set@ == Seq::<Seq<char>>::empty(),
    {
        let set = NameSet { names: Vec::new() };
        assert(set@ =~= Seq::<Seq<char>>::empty());
        set
    }

    /// How many names the set holds. The names are in ascending order.
    pub fn len(&self) -> (n: usize)
        ensures
            n == self@.len(),
            ascending(self@),
    {
        proof {
            use_type_invariant(self);
        }
        self.names.len()
    }

    /// The names of the set, in ascending order.
    pub fn names(&self) -> (names: &Vec<String>)
        ensures
            names@.map_values(|name: String| name@) == self@,
            ascending(self@),
    {
        proof {
            use_type_invariant(self);
        }
        &self.names
    }

    /// The name at place `i` of the ascending order.
    pub fn get(&self, i: usize) -> (name: &String)
        requires
            i < self@.len(),
        ensures
            name@ == self@[i as int],
    {
        &self.names[i]
    }

    /// Adds a name to the set.
    pub fn insert(&mut self, name: String)
        ensures
            final(self)@ == with_name(old(self)@, name@),
    {
        proof {
            use_type_invariant(&*self);
            lemma_with_name_ascending(self@, name@);
        }
        let ghost before = self@;
        let mut names: Vec<String> = Vec::new();
        std::mem::swap(&mut self.names, &mut names);
        let i = place_of(&names, &name);
        if i < names.len() && names[i] == name {
        } else {
            names.insert(i, name);
        }
        proof {
            lemma_with_name_at(before, name@, i as int);
            assert(names@.map_values(|name: String| name@) =~= with_name(before, name@));
        }
        self.names = names;
    }

    /// Adds the names of another set to the set.
    pub fn extend(&mut self, other: NameSet)
        ensures
            final(self)@ == with_names(old(self)@, other@),
    {
        let ghost more = other@;
        let mut done: usize = 0;
        proof {
            assert(more.subrange(0, more.len() as int) =~= more);
        }
        while done < other.names.len()
            invariant
                more == other@,
                done <= other.names.len(),
                with_names(self@, more.subrange(done as int, more.len() as int)) == with_names(
                    old(self)@,
                    more,
                ),
            decreases other.names.len() - done,
        {
            let ghost pending = more.subrange(done as int, more.len() as int);
            let name = other.names[done].clone();
            proof {
                assert(pending[0] == name@);
                assert(pending.drop_first() =~= more.subrange(done + 1, more.len() as int));
            }
            self.insert(name);
            done += 1;
        }
    }
}

} // verus!
