//! The symbol table of one compilation.

use vstd::prelude::*;
use vstd::string::*;

verus! {

/// The names in `names` together with `name`: unchanged if `name` is already
/// among them, otherwise with `name` in the next free slot.
pub open spec fn declared(names: Seq<Seq<char>>, name: Seq<char>) -> Seq<Seq<char>> {
    if names.contains(name) {
        names
    } else {
        names.push(name)
    }
}

/// How many storage units below the frame base the variable `name` lives.
/// The variable declared first is the farthest from the base.
pub open spec fn distance(names: Seq<Seq<char>>, name: Seq<char>) -> int {
    names.len() - names.index_of(name)
}

/// Maps each declared variable to its slot in the frame.
///
/// Slots are handed out in the order of first declaration, starting at zero.
/// A scope only grows: no name is ever removed, moved or given a second slot.
pub struct Scope {
    names: Vec<String>,
}

impl View for Scope {
    type V = Seq<Seq<char>>;

    /// The declared names; the position of a name is its slot.
    closed spec fn view(&self) -> Seq<Seq<char>> {
        names_of(self.names@)
    }
}

spec fn names_of(strings: Seq<String>) -> Seq<Seq<char>> {
    strings.map_values(|name: String| name@)
}

impl Scope {
    /// No name has two slots.
    #[verifier::type_invariant]
    pub open spec fn wf(&self) -> bool {
        self@.no_duplicates()
    }

    /// A scope in which nothing is declared.
    pub fn new() -> (scope: Scope)
        ensures
            scope@ == Seq::<Seq<char>>::empty(),
            scope.wf(),
    {
        Scope { names: Vec::new() }
    }

    /// Whether `name` has a slot.
    pub fn contains(&self, name: &str) -> (found: bool)
        ensures
            found == self@.contains(name@),
    {
        self.get_variable_index(name).is_some()
    }

    /// The slot of `name`, if it has one.
    pub fn get_variable_index(&self, name: &str) -> (slot: Option<usize>)
        ensures
            self.wf(),
            match slot {
                Some(i) => self@.contains(name@) && i == self@.index_of(name@),
                None => !self@.contains(name@),
            },
    {
        proof {
            use_type_invariant(self);
        }
        let wanted = name.to_owned();
        let mut i: usize = 0;
        while i < self.names.len()
            invariant
                self.wf(),
                i <= self.names@.len(),
                self@.len() == self.names@.len(),
                wanted@ == name@,
                forall|k: int| 0 <= k < i ==> self@[k] != name@,
            decreases self.names@.len() - i,
        {
            if self.names[i] == wanted {
                proof {
                    assert(self@[i as int] == name@);
                    let k = self@.index_of(name@);
                    assert(0 <= k < self@.len() && self@[k] == name@);
                }
                return Some(i);
            }
            assert(self@[i as int] == self.names@[i as int]@);
            i += 1;
        }
        None
    }

    /// The slot of `name`, which is declared now if it was not before.
    pub fn declare_or_reuse(&mut self, name: &str) -> (slot: usize)
        ensures
            final(self).wf(),
            final(self)@ == declared(old(self)@, name@),
            slot == final(self)@.index_of(name@),
            slot == if old(self)@.contains(name@) {
                old(self)@.index_of(name@)
            } else {
                old(self)@.len() as int
            },
    {
        proof {
            use_type_invariant(&*self);
        }
        match self.get_variable_index(name) {
            Some(slot) => slot,
            None => {
                let mut grown = Scope::new();
                core::mem::swap(self, &mut grown);
                let Scope { names } = grown;
                let mut names = names;
                assert(names_of(names@) == old(self)@);
                let slot = names.len();
                names.push(name.to_owned());
                proof {
                    assert(names_of(names@) =~= old(self)@.push(name@));
                    lemma_declared_slots(old(self)@, name@);
                }
                *self = Scope { names };
                assert(self@ == declared(old(self)@, name@));
                slot
            },
        }
    }

    /// The number of declared variables, which is the size of the frame in
    /// storage units.
    pub fn get_size(&self) -> (size: usize)
        ensures
            size == self@.len(),
    {
        self.names.len()
    }
}

/// Declaring a name keeps the table free of duplicates, gives a new name the
/// next slot and leaves a known name where it was.
pub proof fn lemma_declared_slots(names: Seq<Seq<char>>, name: Seq<char>)
    requires
        names.no_duplicates(),
    ensures
        declared(names, name).no_duplicates(),
        declared(names, name).contains(name),
        declared(names, name).index_of(name) == if names.contains(name) {
            names.index_of(name)
        } else {
            names.len() as int
        },
{
    let after = declared(names, name);
    if !names.contains(name) {
        assert(after[names.len() as int] == name);
        assert forall|i: int, j: int| 0 <= i < after.len() && 0 <= j < after.len() && i != j
            implies after[i] != after[j] by {
            if i < names.len() && j < names.len() {
                assert(after[i] == names[i] && after[j] == names[j]);
            } else if i < names.len() {
                assert(names.contains(after[i]));
            } else {
                assert(names.contains(after[j]));
            }
        }
        let k = after.index_of(name);
        assert(0 <= k < after.len() && after[k] == name);
        if k < names.len() {
            assert(names.contains(names[k]));
        }
    }
}

/// Slots are never reassigned: a name that had a slot before another name
/// was declared has the same slot afterwards.
pub proof fn lemma_declaring_keeps_slots(
    names: Seq<Seq<char>>,
    name: Seq<char>,
    other: Seq<char>,
)
    requires
        names.no_duplicates(),
        names.contains(other),
    ensures
        declared(names, name).contains(other),
        declared(names, name).index_of(other) == names.index_of(other),
{
    let after = declared(names, name);
    lemma_declared_slots(names, name);
    let i = names.index_of(other);
    assert(0 <= i < names.len() && names[i] == other);
    assert(after[i] == other);
    let k = after.index_of(other);
    assert(0 <= k < after.len() && after[k] == other);
}

/// Two different declared names never share a slot.
pub proof fn lemma_slots_are_distinct(names: Seq<Seq<char>>, a: Seq<char>, b: Seq<char>)
    requires
        names.contains(a),
        names.contains(b),
        a != b,
    ensures
        names.index_of(a) != names.index_of(b),
        distance(names, a) != distance(names, b),
{
    let i = names.index_of(a);
    let j = names.index_of(b);
    assert(0 <= i < names.len() && names[i] == a);
    assert(0 <= j < names.len() && names[j] == b);
}

} // verus!
