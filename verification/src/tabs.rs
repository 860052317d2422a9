//! The set of tab names that are open in the workbench.
use vstd::prelude::*;

verus! {

/// Whether two texts are equal.
pub fn same_text(a: &String, b: &str) -> (r: bool)
    ensures
        r == (a@ == b@),
{
    let owned = b.to_owned();
    *a == owned
}

/// A finite set of tab names, kept without repeats in the order of insertion.
pub struct TabSet {
    names: Vec<String>,
}

impl View for TabSet {
    type V = Set<Seq<char>>;

    closed spec fn view(&self) -> Set<Seq<char>> {
        self.names.deep_view().to_set()
    }
}

impl TabSet {
    #[verifier::type_invariant]
    spec fn no_repeats(self) -> bool {
        self.names.deep_view().no_duplicates()
    }

    /// The empty set.
    pub fn new() -> (r: TabSet)
        ensures
            r@ == Set::<Seq<char>>::empty(),
    {
        let r = TabSet { names: Vec::new() };
        assert(r.names.deep_view() =~= Seq::<Seq<char>>::empty());
        assert(r@ =~= Set::<Seq<char>>::empty());
        r
    }

    /// Where `tab` stands among the names, if it is there.
    fn position(&self, tab: &str) -> (r: Option<usize>)
        ensures
            r matches Some(k) ==> k < self.names@.len() && self.names.deep_view()[k as int] == tab@,
            r is None ==> !self.names.deep_view().contains(tab@),
    {
        let mut i: usize = 0;
        while i < self.names.len()
            invariant
                i <= self.names@.len(),
                forall|j: int| 0 <= j < i ==> self.names.deep_view()[j] != tab@,
            decreases self.names@.len() - i,
        {
            if same_text(&self.names[i], tab) {
                return Some(i);
            }
            i += 1;
        }
        None
    }

    /// Whether `tab` is in the set.
    pub fn contains(&self, tab: &str) -> (r: bool)
        ensures
            r == self@.contains(tab@),
    {
        match self.position(tab) {
            Some(_) => true,
            None => false,
        }
    }

    /// Adds `tab`; true when it was not there before.
    pub fn insert(&mut self, tab: &str) -> (r: bool)
        ensures
            final(self)@ == old(self)@.insert(tab@),
            r == !old(self)@.contains(tab@),
    {
        proof {
            use_type_invariant(&*self);
        }
        match self.position(tab) {
            Some(_) => {
                assert(old(self)@.insert(tab@) =~= old(self)@);
                false
            },
            None => {
                let mut names = Vec::new();
                std::mem::swap(&mut names, &mut self.names);
                let ghost before = names.deep_view();
                names.push(tab.to_owned());
                assert(names.deep_view() =~= before.push(tab@));
                proof {
                    assert(names.deep_view().no_duplicates()) by {
                        assert forall|a: int, b: int|
                            0 <= a < names.deep_view().len() && 0 <= b < names.deep_view().len() && a != b
                            implies names.deep_view()[a] != names.deep_view()[b] by {
                            if a < before.len() && b < before.len() {
                            } else if a == before.len() {
                                assert(before.contains(before[b]));
                            } else {
                                assert(before.contains(before[a]));
                            }
                        }
                    }
                    assert(names.deep_view().to_set() =~= before.to_set().insert(tab@)) by {
                        assert forall|x: Seq<char>| names.deep_view().to_set().contains(x)
                            == before.to_set().insert(tab@).contains(x) by {
                            if before.contains(x) {
                                let k = choose|k: int| 0 <= k < before.len() && before[k] == x;
                                assert(names.deep_view()[k] == x);
                            }
                            if names.deep_view().contains(x) {
                                let k = choose|k: int| 0 <= k < names.deep_view().len() && names.deep_view()[k] == x;
                                if k < before.len() {
                                    assert(before[k] == x);
                                }
                            }
                            if x == tab@ {
                                assert(names.deep_view()[before.len() as int] == x);
                            }
                        }
                    }
                }
                self.names = names;
                true
            },
        }
    }

    /// Removes `tab`; true when it was there.
    pub fn remove(&mut self, tab: &str) -> (r: bool)
        ensures
            final(self)@ == old(self)@.remove(tab@),
            r == old(self)@.contains(tab@),
    {
        proof {
            use_type_invariant(&*self);
        }
        match self.position(tab) {
            Some(k) => {
                let mut names = Vec::new();
                std::mem::swap(&mut names, &mut self.names);
                let ghost before = names.deep_view();
                let _ = names.remove(k);
                let ghost after = names.deep_view();
                assert(after =~= before.remove(k as int));
                proof {
                    assert(after.no_duplicates()) by {
                        assert forall|a: int, b: int| 0 <= a < after.len() && 0 <= b < after.len() && a != b
                            implies after[a] != after[b] by {
                            let a0 = if a < k { a } else { a + 1 };
                            let b0 = if b < k { b } else { b + 1 };
                            assert(after[a] == before[a0]);
                            assert(after[b] == before[b0]);
                        }
                    }
                    assert(after.to_set() =~= before.to_set().remove(tab@)) by {
                        assert forall|x: Seq<char>| after.to_set().contains(x)
                            == before.to_set().remove(tab@).contains(x) by {
                            if after.contains(x) {
                                let j = choose|j: int| 0 <= j < after.len() && after[j] == x;
                                let j0 = if j < k { j } else { j + 1 };
                                assert(before[j0] == x);
                                assert(j0 != k);
                            }
                            if before.contains(x) && x != tab@ {
                                let j = choose|j: int| 0 <= j < before.len() && before[j] == x;
                                assert(j != k);
                                let j1 = if j < k { j } else { j - 1 };
                                assert(after[j1] == x);
                            }
                        }
                    }
                }
                self.names = names;
                true
            },
            None => {
                assert(old(self)@.remove(tab@) =~= old(self)@);
                false
            },
        }
    }
}

} // verus!
