use crate::text::strings;
use vstd::prelude::*;

verus! {

/// The set of story flags. A flag is a name that is either present or
/// absent; it carries no value.
#[derive(Debug)]
pub struct GameFlags {
    names: Vec<String>,
}

impl View for GameFlags {
    type V = Set<Seq<char>>;

    closed spec fn view(&self) -> Set<Seq<char>> {
        strings(self.names@).to_set()
    }
}

impl GameFlags {
    /// No name is held twice.
    #[verifier::type_invariant]
    spec fn distinct(&self) -> bool {
        strings(self.names@).no_duplicates()
    }

    /// Takes the names out and leaves the store empty.
    fn take_names(&mut self) -> (names: Vec<String>)
        ensures
            strings(names@).no_duplicates(),
            strings(names@).to_set() == old(self)@,
            names == old(self).names,
    {
        proof {
            use_type_invariant(&*self);
        }
        let mut taken = GameFlags { names: Vec::new() };
        std::mem::swap(self, &mut taken);
        taken.names
    }

    /// The empty flag set.
    pub fn new() -> (flags: Self)
        ensures
            flags@ == Set::<Seq<char>>::empty(),
    {
        let flags = GameFlags { names: Vec::new() };
        assert(strings(flags.names@) =~= Seq::<Seq<char>>::empty());
        assert(flags@ =~= Set::<Seq<char>>::empty());
        flags
    }

    /// Whether `flag` is set.
    pub fn contains(&self, flag: &str) -> (present: bool)
        ensures
            present == self@.contains(flag@),
    {
        self.position(flag).is_some()
    }

    /// Where `flag` stands in `names`, if it is set.
    fn position(&self, flag: &str) -> (at: Option<usize>)
        ensures
            match at {
                Some(i) => i < self.names.len() && self.names[i as int]@ == flag@,
                None => !self@.contains(flag@),
            },
            at is Some ==> self@.contains(flag@),
    {
        let mut i: usize = 0;
        while i < self.names.len()
            invariant
                i <= self.names.len(),
                forall|j: int| 0 <= j < i ==> self.names[j]@ != flag@,
            decreases self.names.len() - i,
        {
            if self.names[i].as_str().eq(flag) {
                assert(strings(self.names@)[i as int] == flag@);
                return Some(i);
            }
            i += 1;
        }
        assert forall|j: int| 0 <= j < strings(self.names@).len() implies strings(
            self.names@,
        )[j] != flag@ by {}
        None
    }

    /// Sets `flag`. Setting a flag that is already set changes nothing.
    pub fn set(&mut self, flag: &str)
        ensures
            final(self)@ == old(self)@.insert(flag@),
    {
        if self.position(flag).is_none() {
            let mut names = self.take_names();
            let ghost before = strings(names@);
            names.push(flag.to_owned());
            assert(strings(names@) =~= before.push(flag@));
            assert(strings(names@).no_duplicates()) by {
                assert forall|j: int| 0 <= j < before.len() implies before[j] != flag@ by {
                    assert(before.contains(before[j]));
                }
            }
            *self = GameFlags { names };
            assert(self@ =~= old(self)@.insert(flag@)) by {
                assert forall|n: Seq<char>| self@.contains(n) <==> old(self)@.insert(
                    flag@,
                ).contains(n) by {
                    if before.push(flag@).contains(n) {
                        let k = choose|k: int| 0 <= k < before.len() + 1 && before.push(flag@)[k] == n;
                        if k < before.len() {
                            assert(before[k] == n);
                        }
                    }
                    if before.contains(n) {
                        let k = choose|k: int| 0 <= k < before.len() && before[k] == n;
                        assert(before.push(flag@)[k] == n);
                    }
                    if n == flag@ {
                        assert(before.push(flag@)[before.len() as int] == n);
                    }
                }
            }
        } else {
            assert(self@ =~= old(self)@.insert(flag@));
        }
    }

    /// Clears `flag`. Clearing a flag that is not set changes nothing.
    pub fn remove(&mut self, flag: &str)
        ensures
            final(self)@ == old(self)@.remove(flag@),
    {
        match self.position(flag) {
            Some(i) => {
                let mut names = self.take_names();
                let ghost before = strings(names@);
                names.remove(i);
                assert(strings(names@) =~= before.remove(i as int));
                *self = GameFlags { names };
                assert(self@ =~= old(self)@.remove(flag@)) by {
                    let after = before.remove(i as int);
                    assert(before[i as int] == flag@);
                    assert forall|n: Seq<char>| after.contains(n) <==> (before.contains(n) && n
                        != flag@) by {
                        if after.contains(n) {
                            let k = choose|k: int| 0 <= k < after.len() && after[k] == n;
                            if k < i {
                                assert(before[k] == n);
                                assert(before[k] != before[i as int]);
                            } else {
                                assert(before[k + 1] == n);
                                assert(before[k + 1] != before[i as int]);
                            }
                        }
                        if before.contains(n) && n != flag@ {
                            let k = choose|k: int| 0 <= k < before.len() && before[k] == n;
                            if k < i {
                                assert(after[k] == n);
                            } else {
                                assert(after[k - 1] == n);
                            }
                        }
                    }
                }
            },
            None => {
                assert(self@ =~= old(self)@.remove(flag@));
            },
        }
    }

    /// Only finitely many flags are ever set.
    pub proof fn lemma_finite(&self)
        ensures
            self@.finite(),
    {
        vstd::seq_lib::seq_to_set_is_finite(strings(self.names@));
    }

    /// Every flag that is set, each once, in no order that callers may rely on.
    pub fn listing(&self) -> (names: Vec<String>)
        ensures
            strings(names@).no_duplicates(),
            strings(names@).to_set() == self@,
    {
        proof {
            use_type_invariant(self);
        }
        let mut names: Vec<String> = Vec::new();
        let mut i: usize = 0;
        while i < self.names.len()
            invariant
                i <= self.names.len(),
                strings(names@) == strings(self.names@).take(i as int),
            decreases self.names.len() - i,
        {
            let ghost before = strings(names@);
            let name = self.names[i].clone();
            names.push(name);
            assert(strings(names@) =~= before.push(self.names[i as int]@));
            assert(strings(names@) =~= strings(self.names@).take(i + 1));
            i += 1;
        }
        assert(strings(self.names@).take(i as int) =~= strings(self.names@));
        names
    }
}

impl Default for GameFlags {
    fn default() -> (flags: Self)
        ensures
            flags@ == Set::<Seq<char>>::empty(),
    {
        GameFlags::new()
    }
}

} // verus!
