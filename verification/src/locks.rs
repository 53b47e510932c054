//! Serialisation of operations by package. Two operations on one package
//! would race on its install directory and its registry record, so an
//! operation begins only while no other holds the package, and gives the
//! package back when it ends.

use crate::text::same_text;
use vstd::prelude::*;
use vstd::string::*;

verus! {

/// The characters of each id of a list.
pub open spec fn id_views(ids: Seq<String>) -> Seq<Seq<char>> {
    ids.map_values(|id: String| id@)
}

/// The packages on which an operation is under way.
pub struct ActivePackages {
    busy: Vec<String>,
}

impl View for ActivePackages {
    type V = Set<Seq<char>>;

    closed spec fn view(&self) -> Set<Seq<char>> {
        id_views(self.busy@).to_set()
    }
}

impl ActivePackages {
    #[verifier::type_invariant]
    spec fn holds_each_package_once(&self) -> bool {
        id_views(self.busy@).no_duplicates()
    }

    /// No operation is under way.
    pub fn new() -> (active: ActivePackages)
        ensures
            active@ == Set::<Seq<char>>::empty(),
    {
        let active = ActivePackages { busy: Vec::new() };
        proof {
            assert(id_views(active.busy@) =~= Seq::<Seq<char>>::empty());
            assert(active@ =~= Set::<Seq<char>>::empty());
        }
        active
    }

    fn find(&self, id: &str) -> (found: Option<usize>)
        ensures
            match found {
                Some(at) => at < self.busy.len() && self.busy[at as int]@ == id@,
                None => !id_views(self.busy@).contains(id@),
            },
    {
        let mut i: usize = 0;
        while i < self.busy.len()
            invariant
                i <= self.busy.len(),
                forall|j: int| 0 <= j < i ==> (#[trigger] id_views(self.busy@)[j]) != id@,
            decreases self.busy.len() - i,
        {
            assert(id_views(self.busy@)[i as int] == self.busy[i as int]@);
            if same_text(self.busy[i].as_str(), id) {
                return Some(i);
            }
            i += 1;
        }
        None
    }

    /// Whether an operation on package `id` is under way.
    pub fn is_busy(&self, id: &str) -> (busy: bool)
        ensures
            busy == self@.contains(id@),
    {
        let found = self.find(id);
        proof {
            if found is Some {
                assert(id_views(self.busy@)[found->0 as int] == id@);
            }
        }
        found.is_some()
    }

    /// Takes package `id` for an operation, unless another one holds it.
    /// Returns whether the operation may begin.
    pub fn try_begin(&mut self, id: &str) -> (begun: bool)
        ensures
            begun == !old(self)@.contains(id@),
            final(self)@ == old(self)@.insert(id@),
    {
        proof {
            use_type_invariant(&*self);
        }
        let ghost before = id_views(self.busy@);
        match self.find(id) {
            Some(at) => {
                proof {
                    assert(before[at as int] == id@);
                    assert(self@ =~= self@.insert(id@));
                }
                false
            },
            None => {
                let mut busy: Vec<String> = Vec::new();
                std::mem::swap(&mut self.busy, &mut busy);
                busy.push(String::from_str(id));
                proof {
                    let after = id_views(busy@);
                    assert(after =~= before.push(id@));
                    assert forall|key: Seq<char>| after.contains(key) <==> (key == id@
                        || before.contains(key)) by {
                        if after.contains(key) {
                            let i = choose|i: int| 0 <= i < after.len() && after[i] == key;
                            if i < before.len() {
                                assert(before[i] == key);
                            }
                        }
                        if before.contains(key) {
                            let i = choose|i: int| 0 <= i < before.len() && before[i] == key;
                            assert(after[i] == key);
                        }
                        if key == id@ {
                            assert(after[before.len() as int] == key);
                        }
                    }
                    assert(after.to_set() =~= before.to_set().insert(id@));
                }
                self.busy = busy;
                true
            },
        }
    }

    /// Gives package `id` back once its operation has ended.
    pub fn finish(&mut self, id: &str)
        ensures
            final(self)@ == old(self)@.remove(id@),
    {
        proof {
            use_type_invariant(&*self);
        }
        let ghost before = id_views(self.busy@);
        match self.find(id) {
            Some(at) => {
                let mut busy: Vec<String> = Vec::new();
                std::mem::swap(&mut self.busy, &mut busy);
                let _ = busy.remove(at);
                proof {
                    let after = id_views(busy@);
                    assert(after =~= before.remove(at as int));
                    assert(before[at as int] == id@);
                    assert forall|i: int, j: int|
                        0 <= i < after.len() && 0 <= j < after.len() && i != j implies after[i]
                        != after[j] by {
                        let from_i = if i < at { i } else { i + 1 };
                        let from_j = if j < at { j } else { j + 1 };
                        assert(after[i] == before[from_i]);
                        assert(after[j] == before[from_j]);
                    }
                    assert forall|key: Seq<char>| after.contains(key) <==> (key != id@
                        && before.contains(key)) by {
                        if after.contains(key) {
                            let i = choose|i: int| 0 <= i < after.len() && after[i] == key;
                            let from_i = if i < at { i } else { i + 1 };
                            assert(before[from_i] == key);
                        }
                        if key != id@ && before.contains(key) {
                            let i = choose|i: int| 0 <= i < before.len() && before[i] == key;
                            let to_i = if i < at { i } else { i - 1 };
                            assert(after[to_i] == key);
                        }
                    }
                    assert(after.to_set() =~= before.to_set().remove(id@));
                }
                self.busy = busy;
            },
            None => {
                proof {
                    assert(self@ =~= self@.remove(id@));
                }
            },
        }
    }
}

} // verus!
