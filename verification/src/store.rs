use vstd::prelude::*;

verus! {

/// One open document: its identifier and its full current text.
struct DocEntry {
    id: String,
    text: String,
}

/// No two entries carry the same identifier.
spec fn unique_ids(s: Seq<DocEntry>) -> bool {
    forall|i: int, j: int|
        0 <= i < s.len() && 0 <= j < s.len() && i != j ==> s[i].id@ != s[j].id@
}

/// Some entry carries the identifier `k`.
spec fn entries_contain(s: Seq<DocEntry>, k: Seq<char>) -> bool {
    exists|i: int| 0 <= i < s.len() && s[i].id@ == k
}

/// The index of the entry carrying `k`; meaningful under `entries_contain`.
spec fn entry_index(s: Seq<DocEntry>, k: Seq<char>) -> int {
    choose|i: int| 0 <= i < s.len() && s[i].id@ == k
}

/// The entries as a map from identifier to text.
spec fn map_of(s: Seq<DocEntry>) -> Map<Seq<char>, Seq<char>> {
    Map::new(
        |k: Seq<char>| entries_contain(s, k),
        |k: Seq<char>| s[entry_index(s, k)].text@,
    )
}

proof fn lemma_map_of_empty()
    ensures
        map_of(Seq::<DocEntry>::empty()) =~= Map::<Seq<char>, Seq<char>>::empty(),
{
}

proof fn lemma_map_of_push_fresh(s: Seq<DocEntry>, e: DocEntry)
    requires
        unique_ids(s),
        !entries_contain(s, e.id@),
    ensures
        map_of(s.push(e)) =~= map_of(s).insert(e.id@, e.text@),
        unique_ids(s.push(e)),
{
    let s2 = s.push(e);
    assert forall|i: int, j: int|
        0 <= i < s2.len() && 0 <= j < s2.len() && i != j implies s2[i].id@ != s2[j].id@ by {
        if i < s.len() && j < s.len() {
            assert(s2[i] == s[i] && s2[j] == s[j]);
        } else if i < s.len() {
            assert(s2[j] == e && s2[i] == s[i]);
        } else {
            assert(s2[i] == e && s2[j] == s[j]);
        }
    }
    let m1 = map_of(s2);
    let m2 = map_of(s).insert(e.id@, e.text@);
    assert forall|k: Seq<char>| m1.dom().contains(k) implies m2.dom().contains(k) && m1[k]
        == m2[k] by {
        let i2 = entry_index(s2, k);
        assert(0 <= i2 < s2.len() && s2[i2].id@ == k);
        if k == e.id@ {
            assert(i2 == s.len());
        } else {
            assert(i2 < s.len());
            assert(s2[i2] == s[i2]);
            assert(entries_contain(s, k));
            let i1 = entry_index(s, k);
            assert(0 <= i1 < s.len() && s[i1].id@ == k);
            assert(i1 == i2);
        }
    }
    assert forall|k: Seq<char>| m2.dom().contains(k) implies m1.dom().contains(k) by {
        if k == e.id@ {
            assert(s2[s.len() as int].id@ == k);
        } else {
            let i1 = entry_index(s, k);
            assert(0 <= i1 < s.len() && s[i1].id@ == k);
            assert(s2[i1].id@ == k);
        }
    }
    assert(m1 =~= m2);
}

proof fn lemma_map_of_remove_at(s: Seq<DocEntry>, idx: int)
    requires
        unique_ids(s),
        0 <= idx < s.len(),
    ensures
        map_of(s.remove(idx)) =~= map_of(s).remove(s[idx].id@),
        unique_ids(s.remove(idx)),
{
    let s2 = s.remove(idx);
    assert forall|j: int| 0 <= j < s2.len() implies s2[j] == (if j < idx {
        s[j]
    } else {
        s[j + 1]
    }) by {}
    assert forall|i: int, j: int|
        0 <= i < s2.len() && 0 <= j < s2.len() && i != j implies s2[i].id@ != s2[j].id@ by {
        let i0 = if i < idx { i } else { i + 1 };
        let j0 = if j < idx { j } else { j + 1 };
        assert(s2[i] == s[i0] && s2[j] == s[j0]);
        assert(i0 != j0);
    }
    let k0 = s[idx].id@;
    let m1 = map_of(s2);
    let m2 = map_of(s).remove(k0);
    assert forall|k: Seq<char>| m1.dom().contains(k) implies m2.dom().contains(k) && m1[k]
        == m2[k] by {
        let i2 = entry_index(s2, k);
        assert(0 <= i2 < s2.len() && s2[i2].id@ == k);
        let i0 = if i2 < idx { i2 } else { i2 + 1 };
        assert(s2[i2] == s[i0]);
        assert(i0 != idx);
        assert(k != k0);
        assert(entries_contain(s, k));
        let i1 = entry_index(s, k);
        assert(0 <= i1 < s.len() && s[i1].id@ == k);
        assert(i1 == i0);
    }
    assert forall|k: Seq<char>| m2.dom().contains(k) implies m1.dom().contains(k) by {
        let i1 = entry_index(s, k);
        assert(0 <= i1 < s.len() && s[i1].id@ == k);
        assert(i1 != idx);
        if i1 < idx {
            assert(s2[i1].id@ == k);
        } else {
            assert(s2[i1 - 1] == s[i1]);
        }
    }
    assert(m1 =~= m2);
}

/// Holds the current full text of every open document, keyed by the
/// document's identifier. The store never holds two entries for the same
/// identifier; its view is the map from identifier to text.
pub struct DocumentStore {
    entries: Vec<DocEntry>,
}

impl View for DocumentStore {
    type V = Map<Seq<char>, Seq<char>>;

    closed spec fn view(&self) -> Map<Seq<char>, Seq<char>> {
        map_of(self.entries@)
    }
}

impl DocumentStore {
    #[verifier::type_invariant]
    spec fn wf(self) -> bool {
        unique_ids(self.entries@)
    }

    /// An empty store.
    pub fn new() -> (r: Self)
        ensures
            r@ == Map::<Seq<char>, Seq<char>>::empty(),
    {
        let r = DocumentStore { entries: Vec::new() };
        proof {
            lemma_map_of_empty();
        }
        r
    }

    fn index_of(&self, id: &String) -> (r: Option<usize>)
        ensures
            match r {
                Some(i) => i < self.entries@.len() && self.entries@[i as int].id@ == id@,
                None => forall|k: int|
                    0 <= k < self.entries@.len() ==> self.entries@[k].id@ != id@,
            },
    {
        let mut i: usize = 0;
        while i < self.entries.len()
            invariant
                i <= self.entries@.len(),
                forall|k: int| 0 <= k < i as int ==> self.entries@[k].id@ != id@,
            decreases self.entries@.len() - i,
        {
            if self.entries[i].id == *id {
                return Some(i);
            }
            i = i + 1;
        }
        None
    }

    /// The current text of the document `id`, if the store holds one.
    pub fn read(&self, id: &String) -> (r: Option<&String>)
        ensures
            match r {
                Some(t) => self@.contains_key(id@) && t@ == self@[id@],
                None => !self@.contains_key(id@),
            },
    {
        proof {
            use_type_invariant(&*self);
        }
        match self.index_of(id) {
            Some(i) => {
                proof {
                    assert(entries_contain(self.entries@, id@));
                    let j = entry_index(self.entries@, id@);
                    assert(0 <= j < self.entries@.len() && self.entries@[j].id@ == id@);
                    assert(j == i as int);
                }
                Some(&self.entries[i].text)
            },
            None => {
                proof {
                    assert(!entries_contain(self.entries@, id@));
                }
                None
            },
        }
    }

    /// Forgets the document `id`; a store without it stays as it is.
    pub fn remove(&mut self, id: &String)
        ensures
            final(self)@ == old(self)@.remove(id@),
    {
        proof {
            use_type_invariant(&*self);
        }
        match self.index_of(id) {
            Some(i) => {
                let mut entries: Vec<DocEntry> = Vec::new();
                core::mem::swap(&mut entries, &mut self.entries);
                proof {
                    lemma_map_of_remove_at(entries@, i as int);
                }
                entries.remove(i);
                self.entries = entries;
            },
            None => {
                proof {
                    assert(!entries_contain(self.entries@, id@));
                    assert(old(self)@.remove(id@) =~= old(self)@);
                }
            },
        }
    }

    /// Stores `text` as the full current content of the document `id`,
    /// overwriting whatever the store held for it.
    pub fn replace(&mut self, id: String, text: String)
        ensures
            final(self)@ == old(self)@.insert(id@, text@),
    {
        self.remove(&id);
        proof {
            use_type_invariant(&*self);
            assert(!self@.contains_key(id@));
            assert(!entries_contain(self.entries@, id@));
        }
        let ghost pre = self.entries@;
        let e = DocEntry { id, text };
        let ghost ge = e;
        proof {
            lemma_map_of_push_fresh(pre, e);
        }
        let mut entries: Vec<DocEntry> = Vec::new();
        core::mem::swap(&mut entries, &mut self.entries);
        entries.push(e);
        self.entries = entries;
        proof {
            let e = ge;
            assert(old(self)@.remove(e.id@).insert(e.id@, e.text@) =~= old(self)@.insert(
                e.id@,
                e.text@,
            ));
        }
    }

    /// Forgets every document.
    pub fn clear(&mut self)
        ensures
            final(self)@ == Map::<Seq<char>, Seq<char>>::empty(),
    {
        self.entries = Vec::new();
        proof {
            lemma_map_of_empty();
            assert(self.entries@ =~= Seq::<DocEntry>::empty());
        }
    }
}

} // verus!
