use vstd::prelude::*;

use crate::principal::PrincipalId;

verus! {

// ---------------------------------------------------------------------------
// An association map keyed by principal identity bytes.
//
// Entries are kept in insertion order and keys are unique by identity bytes;
// `key_index` is the position of a key, or -1 when it is absent.
// ---------------------------------------------------------------------------

pub struct PrincipalMap<V> {
    pub entries: Vec<(PrincipalId, V)>,
}

pub open spec fn key_index<V>(entries: Seq<(PrincipalId, V)>, p: Seq<u8>) -> int
    decreases entries.len(),
{
    if entries.len() == 0 {
        -1
    } else if entries[0].0@ == p {
        0
    } else {
        let r = key_index(entries.drop_first(), p);
        if r == -1 {
            -1
        } else {
            r + 1
        }
    }
}

pub proof fn lemma_key_index<V>(entries: Seq<(PrincipalId, V)>, p: Seq<u8>)
    ensures
        -1 <= key_index(entries, p) < entries.len(),
        key_index(entries, p) == -1 ==> forall|j: int|
            0 <= j < entries.len() ==> entries[j].0@ != p,
        key_index(entries, p) >= 0 ==> entries[key_index(entries, p)].0@ == p && forall|j: int|
            0 <= j < key_index(entries, p) ==> entries[j].0@ != p,
    decreases entries.len(),
{
    if entries.len() > 0 && entries[0].0@ != p {
        lemma_key_index(entries.drop_first(), p);
        let r = key_index(entries.drop_first(), p);
        if r == -1 {
            assert forall|j: int| 0 <= j < entries.len() implies entries[j].0@ != p by {
                if j > 0 {
                    assert(entries.drop_first()[j - 1] == entries[j]);
                }
            }
        } else {
            assert(entries.drop_first()[r] == entries[r + 1]);
            assert forall|j: int| 0 <= j < r + 1 implies entries[j].0@ != p by {
                if j > 0 {
                    assert(entries.drop_first()[j - 1] == entries[j]);
                }
            }
        }
    }
}

/// `key_index` depends only on the identity bytes of the keys.
pub proof fn lemma_key_index_same_keys<V, W>(
    e1: Seq<(PrincipalId, V)>,
    e2: Seq<(PrincipalId, W)>,
    p: Seq<u8>,
)
    requires
        e1.len() == e2.len(),
        forall|j: int| 0 <= j < e1.len() ==> e1[j].0@ == e2[j].0@,
    ensures
        key_index(e1, p) == key_index(e2, p),
    decreases e1.len(),
{
    if e1.len() > 0 {
        assert forall|j: int| 0 <= j < e1.drop_first().len() implies e1.drop_first()[j].0@
            == e2.drop_first()[j].0@ by {
            assert(e1.drop_first()[j] == e1[j + 1]);
            assert(e2.drop_first()[j] == e2[j + 1]);
        }
        lemma_key_index_same_keys(e1.drop_first(), e2.drop_first(), p);
    }
}

pub proof fn lemma_key_index_push<V>(entries: Seq<(PrincipalId, V)>, e: (PrincipalId, V), p: Seq<u8>)
    ensures
        key_index(entries.push(e), p) == {
            if key_index(entries, p) >= 0 {
                key_index(entries, p)
            } else if e.0@ == p {
                entries.len() as int
            } else {
                -1int
            }
        },
    decreases entries.len(),
{
    if entries.len() == 0 {
        assert(entries.push(e).drop_first() =~= Seq::<(PrincipalId, V)>::empty());
        assert(entries.push(e)[0] == e);
        reveal_with_fuel(key_index, 2);
    } else {
        assert(entries.push(e)[0] == entries[0]);
        if entries[0].0@ == p {
            assert(key_index(entries.push(e), p) == 0);
        } else {
            assert(entries.push(e).drop_first() =~= entries.drop_first().push(e));
            lemma_key_index_push(entries.drop_first(), e, p);
            lemma_key_index(entries.drop_first(), p);
            assert(key_index(entries.push(e).drop_first(), p) == key_index(
                entries.drop_first().push(e),
                p,
            ));
        }
    }
}

impl<V> PrincipalMap<V> {
    /// Keys are unique by identity bytes.
    pub open spec fn wf(self) -> bool {
        forall|i: int, j: int|
            0 <= i < j < self.entries@.len() ==> self.entries@[i].0@ != self.entries@[j].0@
    }

    pub open spec fn entries_seq(self) -> Seq<(PrincipalId, V)> {
        self.entries@
    }

    pub open spec fn spec_index_of(self, p: Seq<u8>) -> int {
        key_index(self.entries@, p)
    }

    /// The value stored under `p`, if any.
    pub open spec fn spec_get(self, p: Seq<u8>) -> Option<V> {
        if key_index(self.entries@, p) >= 0 {
            Some(self.entries@[key_index(self.entries@, p)].1)
        } else {
            None
        }
    }

    pub fn new() -> (r: PrincipalMap<V>)
        ensures
            r.wf(),
            forall|p: Seq<u8>| r.spec_get(p) is None,
            r.entries_seq().len() == 0,
    {
        let r = PrincipalMap { entries: Vec::new() };
        proof {
            assert forall|p: Seq<u8>| r.spec_get(p) is None by {
                lemma_key_index(r.entries@, p);
            }
        }
        r
    }

    /// The position of `p` among the entries, or none.
    fn find(&self, p: &PrincipalId) -> (r: Option<usize>)
        ensures
            match r {
                Some(i) => self.spec_index_of(p@) == i as int && i < self.entries_seq().len(),
                None => self.spec_index_of(p@) == -1,
            },
    {
        proof {
            lemma_key_index(self.entries@, p@);
        }
        let mut i: usize = 0;
        while i < self.entries.len()
            invariant
                i <= self.entries@.len(),
                forall|j: int| 0 <= j < i ==> self.entries@[j].0@ != p@,
                -1 <= key_index(self.entries@, p@) < self.entries@.len(),
                key_index(self.entries@, p@) == -1 ==> forall|j: int|
                    0 <= j < self.entries@.len() ==> self.entries@[j].0@ != p@,
                key_index(self.entries@, p@) >= 0 ==> self.entries@[key_index(self.entries@, p@)].0@
                    == p@ && forall|j: int|
                    0 <= j < key_index(self.entries@, p@) ==> self.entries@[j].0@ != p@,
            decreases self.entries@.len() - i,
        {
            if self.entries[i].0.eq(p) {
                proof {
                    let ki = key_index(self.entries@, p@);
                    assert(ki >= 0);
                    if ki < i as int {
                        assert(self.entries@[ki].0@ != p@);
                    }
                    if ki > i as int {
                        assert(self.entries@[i as int].0@ != p@);
                    }
                }
                return Some(i);
            }
            i += 1;
        }
        None
    }

    /// Stores `value` under `p`, replacing any value already there.
    pub fn insert(&mut self, p: PrincipalId, value: V)
        requires
            old(self).wf(),
        ensures
            final(self).wf(),
            final(self).spec_get(p@) == Some(value),
            forall|q: Seq<u8>| q != p@ ==> final(self).spec_get(q) == old(self).spec_get(q),
    {
        let ghost orig = self.entries@;
        match self.find(&p) {
            Some(i) => {
                self.entries.set(i, (p, value));
                proof {
                    let ki = key_index(orig, p@);
                    lemma_key_index(orig, p@);
                    assert forall|q: Seq<u8>| true implies key_index(self.entries@, q) == key_index(
                        orig,
                        q,
                    ) by {
                        lemma_key_index_same_keys(self.entries@, orig, q);
                    }
                    assert(final(self).spec_get(p@) == Some(value));
                    assert forall|q: Seq<u8>| q != p@ implies final(self).spec_get(q) == old(
                        self,
                    ).spec_get(q) by {
                        lemma_key_index(orig, q);
                        if key_index(orig, q) >= 0 {
                            assert(orig[key_index(orig, q)].0@ == q);
                            assert(key_index(orig, q) != i as int);
                        }
                    }
                }
            },
            None => {
                proof {
                    lemma_key_index(orig, p@);
                }
                self.entries.push((p, value));
                proof {
                    assert forall|q: Seq<u8>| true implies key_index(self.entries@, q)
                        == if key_index(orig, q) >= 0 {
                        key_index(orig, q)
                    } else if p@ == q {
                        orig.len() as int
                    } else {
                        -1int
                    } by {
                        lemma_key_index_push(orig, (p, value), q);
                    }
                    assert forall|q: Seq<u8>| q != p@ implies final(self).spec_get(q) == old(
                        self,
                    ).spec_get(q) by {
                        lemma_key_index(orig, q);
                    }
                }
            },
        }
    }

    /// A reference to the value stored under `p`, if any.
    pub fn get_ref(&self, p: &PrincipalId) -> (r: Option<&V>)
        ensures
            match r {
                Some(v) => self.spec_get(p@) == Some(*v),
                None => self.spec_get(p@) is None,
            },
    {
        match self.find(p) {
            Some(i) => Some(&self.entries[i].1),
            None => None,
        }
    }
}

// ---------------------------------------------------------------------------
// File-id lists per principal: the ownership and sharing indices.
// ---------------------------------------------------------------------------

/// `s` with every occurrence of `id` removed, order kept.
pub open spec fn remove_id(s: Seq<u64>, id: u64) -> Seq<u64>
    decreases s.len(),
{
    if s.len() == 0 {
        Seq::empty()
    } else {
        let rest = remove_id(s.drop_last(), id);
        if s.last() == id {
            rest
        } else {
            rest.push(s.last())
        }
    }
}

/// Removing an id that is not in the list leaves the list unchanged.
pub proof fn lemma_remove_id_absent(s: Seq<u64>, id: u64)
    requires
        !s.contains(id),
    ensures
        remove_id(s, id) == s,
    decreases s.len(),
{
    if s.len() > 0 {
        assert forall|i: int| 0 <= i < s.drop_last().len() implies s.drop_last()[i] != id by {
            assert(s[i] == s.drop_last()[i]);
        }
        lemma_remove_id_absent(s.drop_last(), id);
        assert(s.last() != id);
        assert(remove_id(s, id) =~= s);
    } else {
        assert(remove_id(s, id) =~= s);
    }
}

/// After removal, `id` is gone, every other id's membership is unchanged,
/// and a duplicate-free list stays duplicate-free.
pub proof fn lemma_remove_id_removes(s: Seq<u64>, id: u64)
    ensures
        !remove_id(s, id).contains(id),
        forall|x: u64| x != id ==> remove_id(s, id).contains(x) == s.contains(x),
        s.no_duplicates() ==> remove_id(s, id).no_duplicates(),
    decreases s.len(),
{
    let r = remove_id(s, id);
    if s.len() == 0 {
        assert forall|x: u64| x != id implies r.contains(x) == s.contains(x) by {
            assert(!r.contains(x));
            assert(!s.contains(x));
        }
    } else {
        let d = s.drop_last();
        let rest = remove_id(d, id);
        lemma_remove_id_removes(d, id);
        assert(d.no_duplicates() || !s.no_duplicates()) by {
            if s.no_duplicates() {
                assert forall|i: int, j: int| 0 <= i < j < d.len() implies d[i] != d[j] by {
                    assert(s[i] == d[i] && s[j] == d[j]);
                }
            }
        }
        if s.last() == id {
            assert(r == rest);
            assert forall|x: u64| x != id implies r.contains(x) == s.contains(x) by {
                if s.contains(x) {
                    let i = choose|i: int| 0 <= i < s.len() && s[i] == x;
                    assert(i < s.len() - 1);
                    assert(d[i] == x);
                    assert(d.contains(x));
                } else {
                    assert forall|i: int| 0 <= i < d.len() implies d[i] != x by {
                        assert(s[i] == d[i]);
                    }
                    assert(!d.contains(x));
                }
            }
        } else {
            assert(r == rest.push(s.last()));
            assert forall|i: int| 0 <= i < r.len() implies r[i] != id by {
                if i < rest.len() {
                    assert(r[i] == rest[i]);
                    assert(rest.contains(rest[i]) ==> !(rest[i] == id));
                } else {
                    assert(r[i] == s.last());
                }
            }
            assert(!r.contains(id));
            assert forall|x: u64| x != id implies r.contains(x) == s.contains(x) by {
                if r.contains(x) {
                    let i = choose|i: int| 0 <= i < r.len() && r[i] == x;
                    if i < rest.len() {
                        assert(rest.contains(x));
                        assert(d.contains(x));
                        let j = choose|j: int| 0 <= j < d.len() && d[j] == x;
                        assert(s[j] == x);
                    } else {
                        assert(s[s.len() - 1] == x);
                    }
                    assert(s.contains(x));
                } else {
                    if s.contains(x) {
                        let i = choose|i: int| 0 <= i < s.len() && s[i] == x;
                        if i < s.len() - 1 {
                            assert(d[i] == x);
                            assert(d.contains(x));
                            assert(rest.contains(x));
                            let j = choose|j: int| 0 <= j < rest.len() && rest[j] == x;
                            assert(r[j] == x);
                            assert(r.contains(x));
                        } else {
                            assert(r[r.len() - 1] == x);
                            assert(r.contains(x));
                        }
                        assert(false);
                    }
                }
            }
            if s.no_duplicates() {
                assert(!d.contains(s.last())) by {
                    if d.contains(s.last()) {
                        let i = choose|i: int| 0 <= i < d.len() && d[i] == s.last();
                        assert(s[i] == s[s.len() - 1]);
                        assert(false);
                    }
                }
                assert(!rest.contains(s.last()));
                assert forall|i: int, j: int| 0 <= i < j < r.len() implies r[i] != r[j] by {
                    if j < rest.len() {
                        assert(r[i] == rest[i] && r[j] == rest[j]);
                    } else {
                        assert(r[j] == s.last() && r[i] == rest[i]);
                        assert(rest.contains(rest[i]));
                    }
                }
            }
        }
    }
}

impl PrincipalMap<Vec<u64>> {
    /// The file ids recorded under `p`, empty when `p` has no entry.
    pub open spec fn ids_of(self, p: Seq<u8>) -> Seq<u64> {
        match self.spec_get(p) {
            Some(l) => l@,
            None => Seq::empty(),
        }
    }

    /// Whether `id` is recorded under `p`.
    pub fn contains_file(&self, p: &PrincipalId, id: u64) -> (r: bool)
        ensures
            r == self.ids_of(p@).contains(id),
    {
        match self.get_ref(p) {
            None => false,
            Some(l) => {
                let mut i: usize = 0;
                while i < l.len()
                    invariant
                        i <= l@.len(),
                        self.spec_get(p@) == Some(*l),
                        forall|j: int| 0 <= j < i ==> l@[j] != id,
                    decreases l@.len() - i,
                {
                    if l[i] == id {
                        proof {
                            assert(l@[i as int] == id);
                            assert(l@.contains(id));
                        }
                        return true;
                    }
                    i += 1;
                }
                false
            },
        }
    }

    /// A copy of the file ids recorded under `p`, empty when `p` has none.
    pub fn get_list(&self, p: &PrincipalId) -> (r: Vec<u64>)
        ensures
            r@ == self.ids_of(p@),
    {
        let mut out: Vec<u64> = Vec::new();
        match self.get_ref(p) {
            None => {
                proof {
                    assert(out@ =~= self.ids_of(p@));
                }
                out
            },
            Some(l) => {
                let mut i: usize = 0;
                while i < l.len()
                    invariant
                        i <= l@.len(),
                        out@ == l@.subrange(0, i as int),
                    decreases l@.len() - i,
                {
                    out.push(l[i]);
                    proof {
                        assert(out@ =~= l@.subrange(0, i + 1 as int));
                    }
                    i += 1;
                }
                proof {
                    assert(out@ =~= l@);
                }
                out
            },
        }
    }

    /// Appends `id` to `p`'s list, creating the entry if `p` has none.
    pub fn add_file(&mut self, p: &PrincipalId, id: u64)
        requires
            old(self).wf(),
        ensures
            final(self).wf(),
            final(self).ids_of(p@) == old(self).ids_of(p@).push(id),
            forall|q: Seq<u8>| q != p@ ==> final(self).spec_get(q) == old(self).spec_get(q),
            forall|q: Seq<u8>| q != p@ ==> final(self).ids_of(q) == old(self).ids_of(q),
    {
        let ghost orig = self.entries@;
        match self.find(p) {
            Some(i) => {
                proof {
                    lemma_key_index(orig, p@);
                }
                let entry = &mut self.entries[i];
                entry.1.push(id);
                proof {
                    assert(self.entries@.len() == orig.len());
                    assert forall|j: int| 0 <= j < orig.len() implies self.entries@[j].0@
                        == orig[j].0@ by {}
                    assert forall|q: Seq<u8>| true implies key_index(self.entries@, q) == key_index(
                        orig,
                        q,
                    ) by {
                        lemma_key_index_same_keys(self.entries@, orig, q);
                    }
                    assert(final(self).ids_of(p@) =~= old(self).ids_of(p@).push(id));
                    assert forall|q: Seq<u8>| q != p@ implies final(self).spec_get(q) == old(
                        self,
                    ).spec_get(q) by {
                        lemma_key_index(orig, q);
                        if key_index(orig, q) >= 0 {
                            assert(key_index(orig, q) != i as int);
                        }
                    }
                }
            },
            None => {
                proof {
                    lemma_key_index(orig, p@);
                }
                let mut l: Vec<u64> = Vec::new();
                l.push(id);
                let key = p.clone();
                self.entries.push((key, l));
                proof {
                    let ghost e = self.entries@.last();
                    assert forall|q: Seq<u8>| true implies key_index(self.entries@, q)
                        == if key_index(orig, q) >= 0 {
                        key_index(orig, q)
                    } else if e.0@ == q {
                        orig.len() as int
                    } else {
                        -1int
                    } by {
                        assert(self.entries@ =~= orig.push(e));
                        lemma_key_index_push(orig, e, q);
                    }
                    assert(final(self).ids_of(p@) =~= old(self).ids_of(p@).push(id));
                    assert forall|q: Seq<u8>| q != p@ implies final(self).spec_get(q) == old(
                        self,
                    ).spec_get(q) by {
                        lemma_key_index(orig, q);
                    }
                }
            },
        }
    }

    /// Removes every occurrence of `id` from `p`'s list; a missing entry or a
    /// list without `id` is left as it is.
    pub fn remove_file(&mut self, p: &PrincipalId, id: u64)
        requires
            old(self).wf(),
        ensures
            final(self).wf(),
            final(self).ids_of(p@) == remove_id(old(self).ids_of(p@), id),
            final(self).spec_get(p@) is Some <==> old(self).spec_get(p@) is Some,
            forall|q: Seq<u8>| q != p@ ==> final(self).spec_get(q) == old(self).spec_get(q),
            forall|q: Seq<u8>| q != p@ ==> final(self).ids_of(q) == old(self).ids_of(q),
    {
        let ghost orig = self.entries@;
        match self.find(p) {
            Some(i) => {
                proof {
                    lemma_key_index(orig, p@);
                }
                let entry = &mut self.entries[i];
                remove_id_exec(&mut entry.1, id);
                proof {
                    assert forall|q: Seq<u8>| true implies key_index(self.entries@, q) == key_index(
                        orig,
                        q,
                    ) by {
                        lemma_key_index_same_keys(self.entries@, orig, q);
                    }
                    assert forall|q: Seq<u8>| q != p@ implies final(self).spec_get(q) == old(
                        self,
                    ).spec_get(q) by {
                        lemma_key_index(orig, q);
                        if key_index(orig, q) >= 0 {
                            assert(key_index(orig, q) != i as int);
                        }
                    }
                }
            },
            None => {
                proof {
                    assert(remove_id(Seq::<u64>::empty(), id) =~= Seq::<u64>::empty());
                }
            },
        }
    }

    /// Removes `id` from every principal's list: when a file disappears, no
    /// reference to it may stay behind in any index entry.
    pub fn remove_file_everywhere(&mut self, id: u64)
        requires
            old(self).wf(),
        ensures
            final(self).wf(),
            forall|q: Seq<u8>| final(self).ids_of(q) == remove_id(old(self).ids_of(q), id),
            forall|q: Seq<u8>| final(self).spec_get(q) is Some <==> old(self).spec_get(q) is Some,
    {
        let ghost orig = self.entries@;
        let mut i: usize = 0;
        while i < self.entries.len()
            invariant
                i <= self.entries@.len(),
                self.entries@.len() == orig.len(),
                forall|j: int| 0 <= j < orig.len() ==> self.entries@[j].0@ == orig[j].0@,
                forall|j: int| 0 <= j < i ==> self.entries@[j].1@ == remove_id(orig[j].1@, id),
                forall|j: int| i <= j < orig.len() ==> self.entries@[j].1 == orig[j].1,
            decreases self.entries@.len() - i,
        {
            let entry = &mut self.entries[i];
            remove_id_exec(&mut entry.1, id);
            i += 1;
        }
        proof {
            assert forall|q: Seq<u8>| true implies key_index(self.entries@, q) == key_index(
                orig,
                q,
            ) by {
                lemma_key_index_same_keys(self.entries@, orig, q);
            }
            assert forall|q: Seq<u8>| true implies final(self).ids_of(q) == remove_id(
                old(self).ids_of(q),
                id,
            ) by {
                lemma_key_index(orig, q);
                if key_index(orig, q) == -1 {
                    assert(remove_id(Seq::<u64>::empty(), id) =~= Seq::<u64>::empty());
                }
            }
        }
    }
}

/// Removes every occurrence of `id` from `v`, keeping the order of the rest.
fn remove_id_exec(v: &mut Vec<u64>, id: u64)
    ensures
        final(v)@ == remove_id(old(v)@, id),
{
    let ghost orig: Seq<u64> = old(v)@;
    let mut out: Vec<u64> = Vec::new();
    let mut i: usize = 0;
    while i < v.len()
        invariant
            i <= v@.len(),
            v@ == orig,
            out@ == remove_id(orig.subrange(0, i as int), id),
        decreases v@.len() - i,
    {
        let ghost before = out@;
        if v[i] != id {
            out.push(v[i]);
        }
        proof {
            assert(orig.subrange(0, i + 1 as int).drop_last() =~= orig.subrange(0, i as int));
            assert(orig.subrange(0, i + 1 as int).last() == orig[i as int]);
        }
        i += 1;
    }
    proof {
        assert(orig.subrange(0, orig.len() as int) =~= orig);
    }
    *v = out;
}

} // verus!
