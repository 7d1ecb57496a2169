use vstd::prelude::*;

verus! {

/// Index of a string in an [`Interner`].
pub type StringObjIdx = usize;

/// An append-only table of distinct strings; a string's index never changes.
#[derive(Debug)]
pub struct Interner {
    vec: Vec<String>,
}

impl View for Interner {
    type V = Seq<Seq<char>>;

    closed spec fn view(&self) -> Seq<Seq<char>> {
        self.vec@.map_values(|s: String| s@)
    }
}

/// The strings of the table are pairwise distinct.
pub open spec fn distinct_strings(t: Seq<Seq<char>>) -> bool {
    forall|i: int, j: int| 0 <= i < t.len() && 0 <= j < t.len() && i != j ==> t[i] != t[j]
}

/// Position of `s` in a table of distinct strings that holds it.
pub open spec fn position_of(t: Seq<Seq<char>>, s: Seq<char>) -> int {
    choose|i: int| 0 <= i < t.len() && t[i] == s
}

/// The table after interning `s`, and the index that `s` then has.
pub open spec fn interned(t: Seq<Seq<char>>, s: Seq<char>) -> (Seq<Seq<char>>, nat) {
    if t.contains(s) {
        (t, position_of(t, s) as nat)
    } else {
        (t.push(s), t.len())
    }
}

impl Interner {
    pub open spec fn wf(&self) -> bool {
        distinct_strings(self@)
    }

    pub fn new() -> (r: Self)
        ensures
            r@ == Seq::<Seq<char>>::empty(),
            r.wf(),
    {
        Interner { vec: Vec::new() }
    }

    /// Number of strings in the table.
    pub fn len(&self) -> (r: usize)
        ensures
            r == self@.len(),
    {
        self.vec.len()
    }

    /// Returns the index of `name`, adding it at the end if it is not there yet.
    pub fn intern_string(&mut self, name: String) -> (r: StringObjIdx)
        requires
            old(self).wf(),
        ensures
            final(self).wf(),
            (final(self)@, r as nat) == interned(old(self)@, name@),
            old(self)@.contains(name@) ==> final(self)@ == old(self)@ && r < old(self)@.len()
                && old(self)@[r as int] == name@,
            !old(self)@.contains(name@) ==> final(self)@ == old(self)@.push(name@) && r == old(
                self,
            )@.len(),
    {
        let mut i: usize = 0;
        while i < self.vec.len()
            invariant
                i <= self.vec.len(),
                *self == *old(self),
                self.wf(),
                forall|k: int| 0 <= k < i ==> self@[k] != name@,
            decreases self.vec.len() - i,
        {
            if self.vec[i] == name {
                proof {
                    assert(self@[i as int] == name@);
                    let p = position_of(self@, name@);
                    assert(0 <= p < self@.len() && self@[p] == name@);
                }
                return i;
            }
            i += 1;
        }
        let r = self.vec.len();
        self.vec.push(name);
        proof {
            assert(final(self)@ =~= old(self)@.push(name@));
        }
        r
    }

    /// The string stored at `idx`.
    pub fn lookup(&self, idx: StringObjIdx) -> (r: &str)
        requires
            idx < self@.len(),
        ensures
            r@ == self@[idx as int],
    {
        self.vec[idx].as_str()
    }
}

} // verus!
