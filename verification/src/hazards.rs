//! Hazard sets: the hazards named in a piece of text, and their differences.

use crate::pattern::{all_captures, all_groups, hazard_pattern};
use vstd::prelude::*;

verus! {

/// The entries of `groups` that are there, in order.
pub open spec fn present(groups: Seq<Option<Seq<char>>>) -> Seq<Seq<char>>
    decreases groups.len(),
{
    if groups.len() == 0 {
        Seq::empty()
    } else {
        let head = present(groups.drop_last());
        match groups.last() {
            Some(text) => head.push(text),
            None => head,
        }
    }
}

/// `names` without repetitions: each name stays where it first occurs.
pub open spec fn distinct(names: Seq<Seq<char>>) -> Seq<Seq<char>>
    decreases names.len(),
{
    if names.len() == 0 {
        Seq::empty()
    } else {
        let head = distinct(names.drop_last());
        if head.contains(names.last()) {
            head
        } else {
            head.push(names.last())
        }
    }
}

/// The members of `first` that `second` lacks, in the order of `first`.
pub open spec fn difference(first: Seq<Seq<char>>, second: Seq<Seq<char>>) -> Seq<Seq<char>> {
    first.filter(|hazard: Seq<char>| !second.contains(hazard))
}

/// The views of a list of strings.
pub open spec fn texts_of(names: Seq<String>) -> Seq<Seq<char>> {
    Seq::new(names.len(), |i: int| names[i]@)
}

/// `distinct` keeps every name of its argument, and none twice.
pub proof fn lemma_distinct(names: Seq<Seq<char>>)
    ensures
        distinct(names).no_duplicates(),
        forall|name: Seq<char>| distinct(names).contains(name) <==> names.contains(name),
    decreases names.len(),
{
    if names.len() > 0 {
        let front = names.drop_last();
        lemma_distinct(front);
        let head = distinct(front);
        assert forall|name: Seq<char>| distinct(names).contains(name) <==> names.contains(
            name,
        ) by {
            if names.contains(name) {
                let i = choose|i: int| 0 <= i < names.len() && names[i] == name;
                if i < names.len() - 1 {
                    assert(front[i] == name);
                    assert(front.contains(name));
                    assert(head.contains(name));
                }
                if !head.contains(names.last()) {
                    assert(head.push(names.last())[head.len() as int] == names.last());
                    if head.contains(name) {
                        let j = choose|j: int| 0 <= j < head.len() && head[j] == name;
                        assert(head.push(names.last())[j] == name);
                    }
                }
            }
            if distinct(names).contains(name) {
                let j = choose|j: int| 0 <= j < distinct(names).len() && distinct(names)[j] == name;
                if j < head.len() {
                    assert(head[j] == name);
                    assert(head.contains(name));
                    assert(front.contains(name));
                    let i = choose|i: int| 0 <= i < front.len() && front[i] == name;
                    assert(names[i] == name);
                } else {
                    assert(names[names.len() - 1] == name);
                }
            }
        }
    }
}

/// The difference of two lists holds exactly the members of the first that
/// the second lacks, and repeats nothing that the first does not repeat.
pub proof fn lemma_difference(first: Seq<Seq<char>>, second: Seq<Seq<char>>)
    ensures
        forall|name: Seq<char>|
            difference(first, second).contains(name) <==> first.contains(name) && !second.contains(
                name,
            ),
        first.no_duplicates() ==> difference(first, second).no_duplicates(),
        difference(first, second).to_set() == first.to_set().difference(second.to_set()),
    decreases first.len(),
{
    reveal(Seq::filter);
    let keep = |hazard: Seq<char>| !second.contains(hazard);
    if first.len() > 0 {
        let front = first.drop_last();
        lemma_difference(front, second);
        let head = difference(front, second);
        let all = difference(first, second);
        assert(all == if keep(first.last()) {
            head.push(first.last())
        } else {
            head
        });
        assert forall|name: Seq<char>| all.contains(name) <==> first.contains(name)
            && !second.contains(name) by {
            if first.contains(name) && !second.contains(name) {
                let i = choose|i: int| 0 <= i < first.len() && first[i] == name;
                if i < first.len() - 1 {
                    assert(front[i] == name);
                    assert(front.contains(name));
                    assert(head.contains(name));
                    let j = choose|j: int| 0 <= j < head.len() && head[j] == name;
                    assert(all[j] == name);
                } else {
                    assert(all[all.len() - 1] == name);
                }
            }
            if all.contains(name) {
                let j = choose|j: int| 0 <= j < all.len() && all[j] == name;
                if j < head.len() {
                    assert(head[j] == name);
                    assert(head.contains(name));
                    assert(front.contains(name));
                    let i = choose|i: int| 0 <= i < front.len() && front[i] == name;
                    assert(first[i] == name);
                } else {
                    assert(first[first.len() - 1] == name);
                }
            }
        }
        if first.no_duplicates() {
            assert(front.no_duplicates());
            if keep(first.last()) {
                if head.contains(first.last()) {
                    assert(front.contains(first.last()));
                    let i = choose|i: int| 0 <= i < front.len() && front[i] == first.last();
                    assert(first[i] == first[first.len() - 1]);
                }
            }
        }
    }
    assert(difference(first, second).to_set() =~= first.to_set().difference(second.to_set()));
}

/// The hazards that `text` names, each where it is first named; `None` where
/// the hazard pattern is refused.
pub open spec fn hazards_in(text: Seq<char>) -> Option<Seq<Seq<char>>> {
    match all_groups(hazard_pattern(), text) {
        Some(groups) => Some(distinct(present(groups))),
        None => None,
    }
}

/// The view of an optional hazard set.
pub open spec fn set_view(hazards: Option<HazardSet>) -> Option<Seq<Seq<char>>> {
    match hazards {
        Some(hazards) => Some(hazards@),
        None => None,
    }
}

/// A set of hazard names. Names are case-sensitive; the set keeps them in the
/// order in which they were first inserted.
pub struct HazardSet {
    names: Vec<String>,
}

impl View for HazardSet {
    type V = Seq<Seq<char>>;

    /// The names of the set, in insertion order.
    closed spec fn view(&self) -> Seq<Seq<char>> {
        Seq::new(self.names@.len(), |i: int| self.names@[i]@)
    }
}

impl HazardSet {
    /// No name occurs twice.
    pub open spec fn wf(&self) -> bool {
        self@.no_duplicates()
    }

    /// The names as a mathematical set.
    pub open spec fn set(&self) -> Set<Seq<char>> {
        self@.to_set()
    }

    /// The empty set.
    pub fn new() -> (s: HazardSet)
        ensures
            s@ == Seq::<Seq<char>>::empty(),
            s.wf(),
    {
        let s = HazardSet { names: Vec::new() };
        assert(s@ =~= Seq::<Seq<char>>::empty());
        s
    }

    /// The number of names.
    pub fn len(&self) -> (n: usize)
        ensures
            n == self@.len(),
    {
        self.names.len()
    }

    /// Whether the set holds no name.
    pub fn is_empty(&self) -> (r: bool)
        ensures
            r == (self@.len() == 0),
    {
        self.names.len() == 0
    }

    /// The name at position `i` of the insertion order.
    pub fn get(&self, i: usize) -> (name: &String)
        requires
            i < self@.len(),
        ensures
            name@ == self@[i as int],
    {
        &self.names[i]
    }

    /// Whether `hazard` is a member.
    pub fn contains(&self, hazard: &String) -> (r: bool)
        ensures
            r == self@.contains(hazard@),
    {
        let mut i: usize = 0;
        while i < self.names.len()
            invariant
                i <= self.names.len(),
                forall|j: int| 0 <= j < i ==> self@[j] != hazard@,
            decreases self.names.len() - i,
        {
            if self.names[i] == *hazard {
                assert(self@[i as int] == hazard@);
                return true;
            }
            i += 1;
        }
        false
    }

    /// Adds `hazard` unless it is a member already. Returns whether it was
    /// added.
    pub fn insert(&mut self, hazard: String) -> (added: bool)
        requires
            old(self).wf(),
        ensures
            added == !old(self)@.contains(hazard@),
            final(self)@ == if added {
                old(self)@.push(hazard@)
            } else {
                old(self)@
            },
            final(self).wf(),
    {
        if self.contains(&hazard) {
            false
        } else {
            let ghost before = self@;
            self.names.push(hazard);
            assert(self@ =~= before.push(hazard@));
            true
        }
    }

    /// The set of the names in `names`, each where it first occurs.
    pub fn from_names(names: &Vec<String>) -> (s: HazardSet)
        ensures
            s@ == distinct(texts_of(names@)),
            s.wf(),
    {
        let mut s = HazardSet::new();
        let mut i: usize = 0;
        assert(texts_of(names@).take(0) =~= Seq::<Seq<char>>::empty());
        while i < names.len()
            invariant
                i <= names.len(),
                s.wf(),
                s@ == distinct(texts_of(names@).take(i as int)),
            decreases names.len() - i,
        {
            proof {
                let next = texts_of(names@).take(i + 1);
                assert(next.drop_last() =~= texts_of(names@).take(i as int));
                assert(next.last() == names@[i as int]@);
            }
            s.insert(names[i].clone());
            i += 1;
        }
        assert(texts_of(names@).take(names@.len() as int) =~= texts_of(names@));
        s
    }

    /// A copy of the set.
    pub fn cloned(&self) -> (s: HazardSet)
        ensures
            s@ == self@,
    {
        let names = self.to_vec();
        let s = HazardSet { names };
        assert(s@ =~= self@);
        s
    }

    /// The names, in insertion order.
    pub fn to_vec(&self) -> (names: Vec<String>)
        ensures
            names@.len() == self@.len(),
            forall|i: int| 0 <= i < names@.len() ==> names@[i]@ == self@[i],
    {
        let mut names: Vec<String> = Vec::new();
        let mut i: usize = 0;
        while i < self.names.len()
            invariant
                i <= self.names.len(),
                names@.len() == i,
                forall|j: int| 0 <= j < i ==> names@[j]@ == self@[j],
            decreases self.names.len() - i,
        {
            names.push(self.names[i].clone());
            i += 1;
        }
        names
    }
}

/// The hazards among the captured names `found`, each where it first occurs.
pub fn hazards_of_groups(found: &Vec<Option<String>>) -> (hazards: HazardSet)
    ensures
        hazards@ == distinct(present(crate::pattern::views_of(found@))),
        hazards.wf(),
{
    let ghost groups = crate::pattern::views_of(found@);
    let mut hazards = HazardSet::new();
    let mut i: usize = 0;
    assert(groups.take(0) =~= Seq::<Option<Seq<char>>>::empty());
    while i < found.len()
        invariant
            i <= found.len(),
            groups == crate::pattern::views_of(found@),
            hazards.wf(),
            hazards@ == distinct(present(groups.take(i as int))),
        decreases found.len() - i,
    {
        proof {
            let next = groups.take(i + 1);
            assert(next.drop_last() =~= groups.take(i as int));
            assert(next.last() == groups[i as int]);
            if groups[i as int] is Some {
                let grown = present(next);
                assert(grown.drop_last() =~= present(groups.take(i as int)));
            }
        }
        match &found[i] {
            Some(name) => {
                hazards.insert(name.clone());
            },
            None => {},
        }
        i += 1;
    }
    assert(groups.take(groups.len() as int) =~= groups);
    hazards
}

/// The hazards named in `text`, each where it is first named. `None` only
/// where the hazard pattern is refused.
pub fn hazards_from_text(text: &str) -> (hazards: Option<HazardSet>)
    ensures
        set_view(hazards) == hazards_in(text@),
        hazards is Some ==> hazards.unwrap().wf(),
{
    let found = all_captures("Hazard::(\\w+)", text)?;
    Some(hazards_of_groups(&found))
}

/// The hazards of `first_set` that `second_set` lacks.
pub fn sets_difference(first_set: &HazardSet, second_set: &HazardSet) -> (rest: HazardSet)
    requires
        first_set.wf(),
    ensures
        rest@ == difference(first_set@, second_set@),
        rest.set() == first_set.set().difference(second_set.set()),
        rest.wf(),
{
    let mut rest = HazardSet::new();
    let mut i: usize = 0;
    proof {
        reveal(Seq::filter);
        assert(first_set@.take(0) =~= Seq::<Seq<char>>::empty());
    }
    while i < first_set.len()
        invariant
            i <= first_set@.len(),
            first_set.wf(),
            rest.wf(),
            rest@ == difference(first_set@.take(i as int), second_set@),
        decreases first_set@.len() - i,
    {
        let name = first_set.get(i);
        proof {
            reveal(Seq::filter);
            let next = first_set@.take(i + 1);
            assert(next.drop_last() =~= first_set@.take(i as int));
            assert(next.last() == name@);
            assert(next.no_duplicates());
            lemma_difference(next, second_set@);
            lemma_difference(first_set@.take(i as int), second_set@);
        }
        if !second_set.contains(name) {
            proof {
                if rest@.contains(name@) {
                    let k = choose|k: int|
                        0 <= k < first_set@.take(i as int).len() && first_set@.take(i as int)[k]
                            == name@;
                    assert(first_set@[k] == first_set@[i as int]);
                }
            }
            rest.insert(name.clone());
        }
        i += 1;
    }
    proof {
        assert(first_set@.take(first_set@.len() as int) =~= first_set@);
        lemma_difference(first_set@, second_set@);
    }
    rest
}

} // verus!
