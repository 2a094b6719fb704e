use vstd::prelude::*;

verus! {

/// One live entry: an identifier and the handle registered under it.
struct Entry<H> {
    id: String,
    handle: H,
}

/// The process registry: a mapping from caller-chosen identifiers to the
/// handles of the processes running under them.
///
/// An identifier is present exactly while its process is believed to be
/// running. The registry owns each handle from `insert` until `remove`
/// hands it out again; it never duplicates one.
pub struct Registry<H> {
    entries: Vec<Entry<H>>,
}

impl<H> View for Registry<H> {
    type V = Map<Seq<char>, H>;

    /// The registry as a mathematical map from identifier to handle.
    closed spec fn view(&self) -> Map<Seq<char>, H> {
        Map::new(
            |id: Seq<char>| self.holds(id),
            |id: Seq<char>| self.entries@[self.position(id)].handle,
        )
    }
}

impl<H> Registry<H> {
    /// No identifier occurs twice among the entries.
    #[verifier::type_invariant]
    spec fn distinct_ids(&self) -> bool {
        forall|i: int, j: int|
            0 <= i < j < self.entries@.len() ==> self.entries@[i].id@ != self.entries@[j].id@
    }

    spec fn holds(&self, id: Seq<char>) -> bool {
        exists|i: int| 0 <= i < self.entries@.len() && #[trigger] self.entries@[i].id@ == id
    }

    spec fn position(&self, id: Seq<char>) -> int {
        choose|i: int| 0 <= i < self.entries@.len() && #[trigger] self.entries@[i].id@ == id
    }

    /// With distinct identifiers, the entry at `i` is the one the map shows
    /// for its identifier.
    proof fn lemma_entry_shown(&self, i: int)
        requires
            self.distinct_ids(),
            0 <= i < self.entries@.len(),
        ensures
            self.holds(self.entries@[i].id@),
            self.position(self.entries@[i].id@) == i,
            self@.dom().contains(self.entries@[i].id@),
            self@[self.entries@[i].id@] == self.entries@[i].handle,
    {
        let id = self.entries@[i].id@;
        assert(self.holds(id));
        let p = self.position(id);
        assert(0 <= p < self.entries@.len() && self.entries@[p].id@ == id);
        if p < i {
            assert(self.entries@[p].id@ != self.entries@[i].id@);
        } else if i < p {
            assert(self.entries@[i].id@ != self.entries@[p].id@);
        }
    }

    /// A registry holds finitely many identifiers.
    pub proof fn lemma_view_finite(&self)
        ensures
            self@.dom().finite(),
    {
        let ids = self.entries@.map_values(|entry: Entry<H>| entry.id@);
        vstd::seq_lib::seq_to_set_is_finite(ids);
        assert forall|id: Seq<char>| self@.dom().contains(id) <==> ids.to_set().contains(id) by {
            if self.holds(id) {
                let i = self.position(id);
                assert(ids[i] == id);
            }
            if ids.contains(id) {
                let i = choose|i: int| 0 <= i < ids.len() && ids[i] == id;
                assert(self.entries@[i].id@ == id);
            }
        }
        assert(self@.dom() =~= ids.to_set());
    }

    /// An empty registry.
    pub fn new() -> (res: Self)
        ensures
            res@ == Map::<Seq<char>, H>::empty(),
            res@.dom().finite(),
    {
        let res = Registry { entries: Vec::new() };
        assert(res@ =~= Map::<Seq<char>, H>::empty());
        res
    }

    /// The index of the entry registered under `id`, if there is one.
    fn find(&self, id: &String) -> (res: Option<usize>)
        ensures
            match res {
                Some(i) => i < self.entries@.len() && self.entries@[i as int].id@ == id@,
                None => !self.holds(id@),
            },
            res is Some <==> self@.dom().contains(id@),
    {
        let mut i: usize = 0;
        while i < self.entries.len()
            invariant
                i <= self.entries@.len(),
                forall|k: int| 0 <= k < i ==> self.entries@[k].id@ != id@,
            decreases self.entries@.len() - i,
        {
            if self.entries[i].id == *id {
                return Some(i);
            }
            i += 1;
        }
        None
    }

    /// Whether `id` currently has an entry. A pure lookup.
    pub fn contains(&self, id: &str) -> (res: bool)
        ensures
            res == self@.dom().contains(id@),
            self@.dom().finite(),
    {
        proof {
            self.lemma_view_finite();
        }
        let key = id.to_owned();
        self.find(&key).is_some()
    }

    /// The handle registered under `id`, if there is one. A pure lookup.
    pub fn get(&self, id: &str) -> (res: Option<&H>)
        ensures
            res == (if self@.dom().contains(id@) {
                Some(&self@[id@])
            } else {
                None::<&H>
            }),
            self@.dom().finite(),
    {
        proof {
            use_type_invariant(self);
            self.lemma_view_finite();
        }
        let key = id.to_owned();
        match self.find(&key) {
            None => None,
            Some(at) => {
                proof {
                    self.lemma_entry_shown(at as int);
                }
                Some(&self.entries[at].handle)
            },
        }
    }

    /// Registers `handle` under `id`.
    ///
    /// Fails when `id` is already present: the registry is left as it was
    /// and the rejected handle is handed back, so that the caller still
    /// controls the process it stands for.
    pub fn insert(&mut self, id: String, handle: H) -> (res: Result<(), H>)
        ensures
            old(self)@.dom().contains(id@) ==> res == Err::<(), H>(handle) && final(self)@ == old(
                self,
            )@,
            !old(self)@.dom().contains(id@) ==> res is Ok && final(self)@ == old(self)@.insert(
                id@,
                handle,
            ),
            final(self)@.dom().finite(),
    {
        proof {
            use_type_invariant(&*self);
        }
        if self.find(&id).is_some() {
            proof {
                self.lemma_view_finite();
            }
            return Err(handle);
        }
        let ghost before = *self;
        let mut entries: Vec<Entry<H>> = Vec::new();
        core::mem::swap(&mut self.entries, &mut entries);
        entries.push(Entry { id, handle });
        core::mem::swap(&mut self.entries, &mut entries);
        proof {
            let n = before.entries@.len() as int;
            assert(self.entries@[n].id@ == id@);
            assert forall|k: Seq<char>| self.holds(k) <==> (k == id@ || before.holds(k)) by {
                if self.holds(k) {
                    let i = self.position(k);
                    if i < n {
                        assert(before.entries@[i].id@ == k);
                    }
                }
                if before.holds(k) {
                    let i = before.position(k);
                    assert(self.entries@[i].id@ == k);
                }
            }
            assert forall|k: Seq<char>| self.holds(k) implies #[trigger] self@[k] == before@.insert(
                id@,
                handle,
            )[k] by {
                let i = self.position(k);
                self.lemma_entry_shown(i);
                if i < n {
                    before.lemma_entry_shown(i);
                }
            }
            assert(self@ =~= before@.insert(id@, handle));
            self.lemma_view_finite();
        }
        Ok(())
    }

    /// Takes the entry of `id` out of the registry.
    ///
    /// Returns the handle when `id` was present, and `None` otherwise, in
    /// which case nothing changes: removing twice is safe.
    pub fn remove(&mut self, id: &str) -> (res: Option<H>)
        ensures
            old(self)@.dom().contains(id@) ==> res == Some(old(self)@[id@]),
            !old(self)@.dom().contains(id@) ==> res is None,
            final(self)@ == old(self)@.remove(id@),
            final(self)@.dom().finite(),
    {
        proof {
            use_type_invariant(&*self);
            self.lemma_view_finite();
        }
        let key = id.to_owned();
        let ghost before = *self;
        match self.find(&key) {
            None => {
                assert(self@ =~= before@.remove(id@));
                None
            },
            Some(at) => {
                let mut entries: Vec<Entry<H>> = Vec::new();
                core::mem::swap(&mut self.entries, &mut entries);
                let entry = entries.remove(at);
                core::mem::swap(&mut self.entries, &mut entries);
                proof {
                    let a = at as int;
                    before.lemma_entry_shown(a);
                    assert forall|k: Seq<char>| self.holds(k) <==> (k != id@ && before.holds(k)) by {
                        if self.holds(k) {
                            let i = self.position(k);
                            let bi = if i < a { i } else { i + 1 };
                            assert(before.entries@[bi].id@ == k);
                            if bi < a {
                                assert(before.entries@[bi].id@ != before.entries@[a].id@);
                            } else {
                                assert(before.entries@[a].id@ != before.entries@[bi].id@);
                            }
                        }
                        if k != id@ && before.holds(k) {
                            let bi = before.position(k);
                            let i = if bi < a { bi } else { bi - 1 };
                            assert(self.entries@[i].id@ == k);
                        }
                    }
                    assert forall|k: Seq<char>| self.holds(k) implies #[trigger] self@[k]
                        == before@.remove(id@)[k] by {
                        let i = self.position(k);
                        let bi = if i < a { i } else { i + 1 };
                        self.lemma_entry_shown(i);
                        before.lemma_entry_shown(bi);
                    }
                    assert(self@ =~= before@.remove(id@));
                    self.lemma_view_finite();
                }
                Some(entry.handle)
            },
        }
    }
}

} // verus!
