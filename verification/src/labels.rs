//! The assembler's label table: names and the addresses they stand for.

use vstd::prelude::*;

verus! {

/// Whether two texts are the same.
pub fn same_text(a: &[char], b: &[char]) -> (r: bool)
    ensures
        r == (a@ == b@),
{
    if a.len() != b.len() {
        return false;
    }
    let mut i: usize = 0;
    while i < a.len()
        invariant
            i <= a@.len(),
            a@.len() == b@.len(),
            forall|j: int| 0 <= j < i ==> a@[j] == b@[j],
        decreases a@.len() - i,
    {
        if a[i] != b[i] {
            return false;
        }
        i += 1;
    }
    assert(a@ =~= b@);
    true
}

/// One entry of a label table.
struct Entry<'a> {
    name: &'a [char],
    addr: u8,
}

/// A table from label names to addresses. A name is case-sensitive.
pub struct LabelTable<'a> {
    entries: Vec<Entry<'a>>,
}

impl<'a> LabelTable<'a> {
    /// Whether entry `i` is the first one for `name`.
    pub closed spec fn first_at(&self, i: int, name: Seq<char>) -> bool {
        &&& 0 <= i < self.entries@.len()
        &&& self.entries@[i].name@ == name
        &&& forall|j: int| 0 <= j < i ==> (#[trigger] self.entries@[j]).name@ != name
    }

    /// The table as a map.
    pub closed spec fn map(&self) -> Map<Seq<char>, u8> {
        Map::new(
            |name: Seq<char>| exists|i: int| self.first_at(i, name),
            |name: Seq<char>| self.entries@[choose|i: int| self.first_at(i, name)].addr,
        )
    }

    /// An empty table.
    pub fn new() -> (t: LabelTable<'a>)
        ensures
            t.map() == Map::<Seq<char>, u8>::empty(),
    {
        let t = LabelTable { entries: Vec::new() };
        assert(t.map() =~= Map::<Seq<char>, u8>::empty());
        t
    }

    /// The address that `name` stands for, if the table has it.
    pub fn get(&self, name: &[char]) -> (r: Option<u8>)
        ensures
            r == if self.map().contains_key(name@) {
                Some(self.map()[name@])
            } else {
                None
            },
    {
        let mut i: usize = 0;
        while i < self.entries.len()
            invariant
                i <= self.entries@.len(),
                forall|j: int| 0 <= j < i ==> (#[trigger] self.entries@[j]).name@ != name@,
            decreases self.entries@.len() - i,
        {
            if same_text(self.entries[i].name, name) {
                assert(self.first_at(i as int, name@));
                let ghost c = choose|j: int| self.first_at(j, name@);
                assert(c == i);
                return Some(self.entries[i].addr);
            }
            i += 1;
        }
        None
    }

    /// Enters `name` with `addr`, unless the table has `name` already. Returns
    /// whether it entered it.
    pub fn define(&mut self, name: &'a [char], addr: u8) -> (fresh: bool)
        ensures
            fresh == !old(self).map().contains_key(name@),
            fresh ==> final(self).map() == old(self).map().insert(name@, addr),
            !fresh ==> final(self).map() == old(self).map(),
    {
        if self.get(name).is_some() {
            return false;
        }
        let ghost before = *self;
        self.entries.push(Entry { name, addr });
        proof {
            let n = before.entries@.len() as int;
            assert(self.entries@.take(n) =~= before.entries@);
            assert forall|j: int| 0 <= j < n implies #[trigger] self.entries@[j]
                == before.entries@[j] by {
                assert(self.entries@.take(n)[j] == self.entries@[j]);
            }
            assert forall|j: int| 0 <= j < n implies (#[trigger] self.entries@[j]).name@
                != name@ by {
                if self.entries@[j].name@ == name@ {
                    before.lemma_has(j);
                }
            }
            assert forall|k: Seq<char>| #[trigger]
                self.map().contains_key(k) == before.map().insert(name@, addr).contains_key(
                    k,
                ) by {
                if before.map().contains_key(k) {
                    let i = choose|i: int| before.first_at(i, k);
                    assert(self.first_at(i, k));
                }
                if k == name@ {
                    assert(self.first_at(n, k));
                }
                if self.map().contains_key(k) {
                    let i = choose|i: int| self.first_at(i, k);
                    if i < n {
                        assert(before.first_at(i, k));
                    }
                }
            }
            assert forall|k: Seq<char>| #[trigger] self.map().contains_key(k) implies self.map()[k]
                == before.map().insert(name@, addr)[k] by {
                let i = choose|i: int| self.first_at(i, k);
                if k == name@ {
                    assert(self.first_at(n, k));
                    assert(i == n);
                } else {
                    assert(before.first_at(i, k));
                    let j = choose|j: int| before.first_at(j, k);
                    assert(i == j);
                }
            }
            assert(self.map() =~= before.map().insert(name@, addr));
        }
        true
    }

    /// A name that some entry holds is a key of the map.
    proof fn lemma_has(&self, j: int)
        requires
            0 <= j < self.entries@.len(),
        ensures
            self.map().contains_key(self.entries@[j].name@),
        decreases j,
    {
        let name = self.entries@[j].name@;
        if forall|i: int| 0 <= i < j ==> (#[trigger] self.entries@[i]).name@ != name {
            assert(self.first_at(j, name));
        } else {
            let i = choose|i: int| 0 <= i < j && (#[trigger] self.entries@[i]).name@ == name;
            self.lemma_has(i);
        }
    }
}

} // verus!
