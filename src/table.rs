use vstd::prelude::*;

use crate::bignum::BigNum;
use crate::literal::values_view;

verus! {

/// A table seen as a map from variable name to declared dimensions and
/// flattened contents.
pub type TableView = Map<Seq<char>, (Seq<usize>, Seq<int>)>;

/// What the table records of one variable: its declared dimensions and its
/// flattened literal contents.
pub struct ConstantEntry {
    pub name: String,
    pub dimensions: Vec<usize>,
    pub values: Vec<BigNum>,
}

impl ConstantEntry {
    pub open spec fn view(&self) -> (Seq<usize>, Seq<int>) {
        (self.dimensions@, values_view(self.values@))
    }
}

/// The map that a list of entries stands for; a later entry of a name wins.
pub open spec fn entries_map(s: Seq<ConstantEntry>) -> TableView
    decreases s.len(),
{
    if s.len() == 0 {
        Map::empty()
    } else {
        entries_map(s.drop_last()).insert(s.last().name@, s.last().view())
    }
}

pub open spec fn names_unique(s: Seq<ConstantEntry>) -> bool {
    forall|i: int, j: int| 0 <= i < s.len() && 0 <= j < s.len() && i != j ==> s[i].name@ != s[j].name@
}

proof fn lemma_entries_contains(s: Seq<ConstantEntry>, k: Seq<char>)
    ensures
        entries_map(s).contains_key(k) <==> exists|i: int| 0 <= i < s.len() && s[i].name@ == k,
    decreases s.len(),
{
    if s.len() > 0 {
        lemma_entries_contains(s.drop_last(), k);
        if exists|i: int| 0 <= i < s.len() && s[i].name@ == k {
            let i = choose|i: int| 0 <= i < s.len() && s[i].name@ == k;
            if i < s.len() - 1 {
                assert(s.drop_last()[i].name@ == k);
            }
        }
        if exists|i: int| 0 <= i < s.len() - 1 && s.drop_last()[i].name@ == k {
            let i = choose|i: int| 0 <= i < s.len() - 1 && s.drop_last()[i].name@ == k;
            assert(s[i].name@ == k);
        }
    }
}

proof fn lemma_entries_get(s: Seq<ConstantEntry>, i: int)
    requires
        names_unique(s),
        0 <= i < s.len(),
    ensures
        entries_map(s).contains_key(s[i].name@),
        entries_map(s)[s[i].name@] == s[i].view(),
    decreases s.len(),
{
    if i < s.len() - 1 {
        let t = s.drop_last();
        assert(t[i] == s[i]);
        lemma_entries_get(t, i);
        assert(s.last().name@ != s[i].name@);
    }
}

proof fn lemma_entries_remove(s: Seq<ConstantEntry>, i: int)
    requires
        names_unique(s),
        0 <= i < s.len(),
    ensures
        entries_map(s.remove(i)) == entries_map(s).remove(s[i].name@),
        names_unique(s.remove(i)),
    decreases s.len(),
{
    let k = s[i].name@;
    let t = s.drop_last();
    if i == s.len() - 1 {
        assert(s.remove(i) =~= t);
        lemma_entries_contains(t, k);
        assert(entries_map(t) =~= entries_map(s).remove(k));
    } else {
        assert(t[i] == s[i]);
        lemma_entries_remove(t, i);
        assert(s.remove(i) =~= t.remove(i).push(s.last()));
        assert(s.remove(i).drop_last() =~= t.remove(i));
        assert(s.last().name@ != k);
        assert(entries_map(s.remove(i)) =~= entries_map(s).remove(k));
    }
}

/// The constants of one template or function body: variable name to declared
/// dimensions and flattened literal contents.
pub struct ConstantTable {
    entries: Vec<ConstantEntry>,
}

impl ConstantTable {
    pub closed spec fn wf(&self) -> bool {
        names_unique(self.entries@)
    }

    pub closed spec fn view(&self) -> TableView {
        entries_map(self.entries@)
    }

    pub fn new() -> (r: ConstantTable)
        ensures
            r.wf(),
            r@ == Map::<Seq<char>, (Seq<usize>, Seq<int>)>::empty(),
    {
        ConstantTable { entries: Vec::new() }
    }

    fn find(&self, name: &String) -> (r: Option<usize>)
        requires
            self.wf(),
        ensures
            match r {
                Some(i) => i < self.entries@.len() && self.entries@[i as int].name@ == name@,
                None => !self@.contains_key(name@),
            },
    {
        let mut i: usize = 0;
        while i < self.entries.len()
            invariant
                0 <= i <= self.entries@.len(),
                forall|j: int| 0 <= j < i ==> self.entries@[j].name@ != name@,
            decreases self.entries@.len() - i,
        {
            if self.entries[i].name == *name {
                return Some(i);
            }
            i = i + 1;
        }
        proof {
            lemma_entries_contains(self.entries@, name@);
        }
        None
    }

    /// Number of variables held.
    pub fn len(&self) -> (r: usize)
        requires
            self.wf(),
        ensures
            r == self@.len(),
    {
        proof {
            self.lemma_len();
        }
        self.entries.len()
    }

    proof fn lemma_len(&self)
        requires
            self.wf(),
        ensures
            self@.dom().finite(),
            self@.len() == self.entries@.len(),
        decreases self.entries@.len(),
    {
        lemma_entries_len(self.entries@);
    }

    pub fn contains_key(&self, name: &String) -> (r: bool)
        requires
            self.wf(),
        ensures
            r == self@.contains_key(name@),
    {
        match self.find(name) {
            Some(i) => {
                proof {
                    lemma_entries_get(self.entries@, i as int);
                }
                true
            },
            None => false,
        }
    }

    /// The entry recorded for `name`, if any.
    pub fn get(&self, name: &String) -> (r: Option<&ConstantEntry>)
        requires
            self.wf(),
        ensures
            match r {
                Some(e) => self@.contains_key(name@) && self@[name@] == e@ && e.name@ == name@,
                None => !self@.contains_key(name@),
            },
    {
        match self.find(name) {
            Some(i) => {
                proof {
                    lemma_entries_get(self.entries@, i as int);
                }
                Some(&self.entries[i])
            },
            None => None,
        }
    }

    /// Every entry, in the order in which the names were recorded. Each
    /// name occurs once, and the entries make up exactly the table.
    pub fn entries(&self) -> (r: &Vec<ConstantEntry>)
        requires
            self.wf(),
        ensures
            names_unique(r@),
            entries_map(r@) == self@,
    {
        &self.entries
    }

    /// Drops what is recorded of `name`.
    pub fn remove(&mut self, name: &String)
        requires
            old(self).wf(),
        ensures
            final(self).wf(),
            final(self)@ == old(self)@.remove(name@),
    {
        match self.find(name) {
            Some(i) => {
                proof {
                    lemma_entries_remove(self.entries@, i as int);
                }
                self.entries.remove(i);
            },
            None => {
                assert(self@ =~= old(self)@.remove(name@));
            },
        }
    }

    /// Records `dimensions` and `values` for `name`, replacing what was there.
    pub fn insert(&mut self, name: String, dimensions: Vec<usize>, values: Vec<BigNum>)
        requires
            old(self).wf(),
        ensures
            final(self).wf(),
            final(self)@ == old(self)@.insert(name@, (dimensions@, values_view(values@))),
    {
        self.remove(&name);
        let ghost before = self.entries@;
        proof {
            lemma_entries_contains(before, name@);
        }
        let entry = ConstantEntry { name, dimensions, values };
        self.entries.push(entry);
        assert(self.entries@.drop_last() =~= before);
        assert(self@ =~= old(self)@.insert(name@, (dimensions@, values_view(values@))));
    }
}

proof fn lemma_entries_len(s: Seq<ConstantEntry>)
    requires
        names_unique(s),
    ensures
        entries_map(s).dom().finite(),
        entries_map(s).len() == s.len(),
    decreases s.len(),
{
    if s.len() > 0 {
        let t = s.drop_last();
        lemma_entries_len(t);
        lemma_entries_contains(t, s.last().name@);
    }
}

/// The variable names declared so far in one scope.
pub struct UsedNames {
    names: Vec<String>,
}

impl UsedNames {
    pub closed spec fn view(&self) -> Set<Seq<char>> {
        Set::new(|k: Seq<char>| exists|i: int| 0 <= i < self.names@.len() && self.names@[i]@ == k)
    }

    pub fn new() -> (r: UsedNames)
        ensures
            r@ == Set::<Seq<char>>::empty(),
    {
        let r = UsedNames { names: Vec::new() };
        assert(r@ =~= Set::<Seq<char>>::empty());
        r
    }

    pub fn contains(&self, name: &String) -> (r: bool)
        ensures
            r == self@.contains(name@),
    {
        let mut i: usize = 0;
        while i < self.names.len()
            invariant
                0 <= i <= self.names@.len(),
                forall|j: int| 0 <= j < i ==> self.names@[j]@ != name@,
            decreases self.names@.len() - i,
        {
            if self.names[i] == *name {
                return true;
            }
            i = i + 1;
        }
        false
    }

    pub fn insert(&mut self, name: String)
        ensures
            final(self)@ == old(self)@.insert(name@),
    {
        self.names.push(name);
        assert(self@ =~= old(self)@.insert(name@)) by {
            assert forall|k: Seq<char>| old(self)@.contains(k) implies self@.contains(k) by {
                let i = choose|i: int| 0 <= i < old(self).names@.len() && old(self).names@[i]@ == k;
                assert(self.names@[i] == old(self).names@[i]);
            }
            assert(self.names@[self.names@.len() - 1]@ == name@);
        }
    }
}

} // verus!
