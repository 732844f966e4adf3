//! The set of occupied paths.
//!
//! Name resolution is a pure function of which destination paths are
//! currently taken.  `NameSet` carries that knowledge as an explicit
//! value: the caller fills it from a directory listing and the importer
//! extends it with every destination it hands out, so a path is never
//! chosen twice.

use vstd::prelude::*;

verus! {

/// A finite set of paths, viewed as a `Set` of character sequences.
pub struct NameSet {
    names: Vec<String>,
}

impl View for NameSet {
    type V = Set<Seq<char>>;

    closed spec fn view(&self) -> Set<Seq<char>> {
        Set::new(
            |s: Seq<char>|
                exists|i: int| 0 <= i < self.names@.len() && self.names@[i]@ == s,
        )
    }
}

impl NameSet {
    /// The empty set of paths.
    pub fn new() -> (r: NameSet)
        ensures
            r@ == Set::<Seq<char>>::empty(),
    {
        let r = NameSet { names: Vec::new() };
        proof {
            assert(r@ =~= Set::<Seq<char>>::empty());
        }
        r
    }

    /// Whether `p` is one of the occupied paths.
    pub fn contains(&self, p: &String) -> (r: bool)
        ensures
            r == self@.contains(p@),
    {
        let n = self.names.len();
        let mut i: usize = 0;
        while i < n
            invariant
                0 <= i <= n,
                n == self.names@.len(),
                forall|j: int| 0 <= j < i ==> self.names@[j]@ != p@,
            decreases n - i,
        {
            if self.names[i] == *p {
                return true;
            }
            i = i + 1;
        }
        false
    }

    /// Marks `p` as occupied.
    pub fn insert(&mut self, p: String)
        ensures
            final(self)@ == old(self)@.insert(p@),
    {
        let ghost before = self.names@;
        self.names.push(p);
        proof {
            assert forall|s: Seq<char>|
                self@.contains(s) <==> old(self)@.insert(p@).contains(s) by {
                if self@.contains(s) {
                    let i = choose|i: int|
                        0 <= i < self.names@.len() && self.names@[i]@ == s;
                    if i < before.len() {
                        assert(before[i]@ == s);
                    }
                }
                if old(self)@.contains(s) {
                    let i = choose|i: int| 0 <= i < before.len() && before[i]@ == s;
                    assert(self.names@[i]@ == s);
                }
                if s == p@ {
                    assert(self.names@[before.len() as int]@ == s);
                }
            }
            assert(self@ =~= old(self)@.insert(p@));
        }
    }

    /// The set is finite, and small enough that a fresh disambiguator
    /// counter can always be found without overflow.
    pub proof fn lemma_card(&self)
        ensures
            self@.finite(),
            self@.len() <= usize::MAX,
    {
        broadcast use vstd::seq_lib::seq_to_set_is_finite;
        broadcast use vstd::std_specs::vec::axiom_spec_len;

        let m = self.names@.map_values(|x: String| x@);
        assert forall|s: Seq<char>| self@.contains(s) <==> m.to_set().contains(s) by {
            if self@.contains(s) {
                let i = choose|i: int|
                    0 <= i < self.names@.len() && self.names@[i]@ == s;
                assert(m[i] == s);
            }
            if m.to_set().contains(s) {
                let i = choose|i: int| 0 <= i < m.len() && m[i] == s;
                assert(self.names@[i]@ == s);
            }
        }
        assert(self@ =~= m.to_set());
        m.lemma_cardinality_of_set();
        assert(vstd::std_specs::vec::spec_vec_len(&self.names) == self.names@.len());
    }
}

} // verus!
