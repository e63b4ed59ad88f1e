use vstd::prelude::*;

use crate::principal::PrincipalId;

verus! {

/// The public face of a user profile, as handed out by queries.
#[derive(Debug)]
pub struct PublicUser {
    pub principal_id: PrincipalId,
    pub username: String,
    pub display_name: Option<String>,
}

/// Whether two profile values carry the same data.
pub open spec fn same_user(a: PublicUser, b: PublicUser) -> bool {
    &&& a.principal_id@ == b.principal_id@
    &&& a.username@ == b.username@
    &&& match (a.display_name, b.display_name) {
        (Some(x), Some(y)) => x@ == y@,
        (None, None) => true,
        _ => false,
    }
}

impl Clone for PublicUser {
    fn clone(&self) -> (r: Self)
        ensures
            same_user(r, *self),
    {
        let display_name = match &self.display_name {
            Some(s) => Some(s.clone()),
            None => None,
        };
        PublicUser {
            principal_id: self.principal_id.clone(),
            username: self.username.clone(),
            display_name,
        }
    }
}

// ---------------------------------------------------------------------------
// An association map keyed by username.
// ---------------------------------------------------------------------------

pub struct StringMap<V> {
    pub entries: Vec<(String, V)>,
}

pub open spec fn name_index<V>(entries: Seq<(String, V)>, name: Seq<char>) -> int
    decreases entries.len(),
{
    if entries.len() == 0 {
        -1
    } else if entries[0].0@ == name {
        0
    } else {
        let r = name_index(entries.drop_first(), name);
        if r == -1 {
            -1
        } else {
            r + 1
        }
    }
}

pub proof fn lemma_name_index<V>(entries: Seq<(String, V)>, name: Seq<char>)
    ensures
        -1 <= name_index(entries, name) < entries.len(),
        name_index(entries, name) == -1 ==> forall|j: int|
            0 <= j < entries.len() ==> entries[j].0@ != name,
        name_index(entries, name) >= 0 ==> entries[name_index(entries, name)].0@ == name
            && forall|j: int| 0 <= j < name_index(entries, name) ==> entries[j].0@ != name,
    decreases entries.len(),
{
    if entries.len() > 0 && entries[0].0@ != name {
        lemma_name_index(entries.drop_first(), name);
        let r = name_index(entries.drop_first(), name);
        if r == -1 {
            assert forall|j: int| 0 <= j < entries.len() implies entries[j].0@ != name by {
                if j > 0 {
                    assert(entries.drop_first()[j - 1] == entries[j]);
                }
            }
        } else {
            assert(entries.drop_first()[r] == entries[r + 1]);
            assert forall|j: int| 0 <= j < r + 1 implies entries[j].0@ != name by {
                if j > 0 {
                    assert(entries.drop_first()[j - 1] == entries[j]);
                }
            }
        }
    }
}

pub proof fn lemma_name_index_same_keys<V, W>(
    e1: Seq<(String, V)>,
    e2: Seq<(String, W)>,
    name: Seq<char>,
)
    requires
        e1.len() == e2.len(),
        forall|j: int| 0 <= j < e1.len() ==> e1[j].0@ == e2[j].0@,
    ensures
        name_index(e1, name) == name_index(e2, name),
    decreases e1.len(),
{
    if e1.len() > 0 {
        assert forall|j: int| 0 <= j < e1.drop_first().len() implies e1.drop_first()[j].0@
            == e2.drop_first()[j].0@ by {
            assert(e1.drop_first()[j] == e1[j + 1]);
            assert(e2.drop_first()[j] == e2[j + 1]);
        }
        lemma_name_index_same_keys(e1.drop_first(), e2.drop_first(), name);
    }
}

pub proof fn lemma_name_index_push<V>(entries: Seq<(String, V)>, e: (String, V), name: Seq<char>)
    ensures
        name_index(entries.push(e), name) == {
            if name_index(entries, name) >= 0 {
                name_index(entries, name)
            } else if e.0@ == name {
                entries.len() as int
            } else {
                -1int
            }
        },
    decreases entries.len(),
{
    if entries.len() == 0 {
        assert(entries.push(e).drop_first() =~= Seq::<(String, V)>::empty());
        assert(entries.push(e)[0] == e);
        reveal_with_fuel(name_index, 2);
    } else {
        assert(entries.push(e)[0] == entries[0]);
        if entries[0].0@ == name {
            assert(name_index(entries.push(e), name) == 0);
        } else {
            assert(entries.push(e).drop_first() =~= entries.drop_first().push(e));
            lemma_name_index_push(entries.drop_first(), e, name);
            lemma_name_index(entries.drop_first(), name);
            assert(name_index(entries.push(e).drop_first(), name) == name_index(
                entries.drop_first().push(e),
                name,
            ));
        }
    }
}

impl<V> StringMap<V> {
    /// Keys are unique.
    pub open spec fn wf(self) -> bool {
        forall|i: int, j: int|
            0 <= i < j < self.entries@.len() ==> self.entries@[i].0@ != self.entries@[j].0@
    }

    /// The value stored under `name`, if any.
    pub open spec fn spec_get(self, name: Seq<char>) -> Option<V> {
        if name_index(self.entries@, name) >= 0 {
            Some(self.entries@[name_index(self.entries@, name)].1)
        } else {
            None
        }
    }

    pub fn new() -> (r: StringMap<V>)
        ensures
            r.wf(),
            forall|name: Seq<char>| r.spec_get(name) is None,
    {
        let r = StringMap { entries: Vec::new() };
        proof {
            assert forall|name: Seq<char>| r.spec_get(name) is None by {
                lemma_name_index(r.entries@, name);
            }
        }
        r
    }

    fn find(&self, name: &String) -> (r: Option<usize>)
        ensures
            match r {
                Some(i) => name_index(self.entries@, name@) == i as int && i
                    < self.entries@.len(),
                None => name_index(self.entries@, name@) == -1,
            },
    {
        proof {
            lemma_name_index(self.entries@, name@);
        }
        let mut i: usize = 0;
        while i < self.entries.len()
            invariant
                i <= self.entries@.len(),
                forall|j: int| 0 <= j < i ==> self.entries@[j].0@ != name@,
                -1 <= name_index(self.entries@, name@) < self.entries@.len(),
                name_index(self.entries@, name@) == -1 ==> forall|j: int|
                    0 <= j < self.entries@.len() ==> self.entries@[j].0@ != name@,
                name_index(self.entries@, name@) >= 0 ==> self.entries@[name_index(
                    self.entries@,
                    name@,
                )].0@ == name@ && forall|j: int|
                    0 <= j < name_index(self.entries@, name@) ==> self.entries@[j].0@ != name@,
            decreases self.entries@.len() - i,
        {
            if self.entries[i].0.eq(name) {
                proof {
                    let ki = name_index(self.entries@, name@);
                    assert(ki >= 0);
                    if ki < i as int {
                        assert(self.entries@[ki].0@ != name@);
                    }
                    if ki > i as int {
                        assert(self.entries@[i as int].0@ != name@);
                    }
                }
                return Some(i);
            }
            i += 1;
        }
        None
    }

    /// Stores `value` under `name`, replacing any value already there.
    pub fn insert(&mut self, name: String, value: V)
        requires
            old(self).wf(),
        ensures
            final(self).wf(),
            final(self).spec_get(name@) == Some(value),
            forall|q: Seq<char>| q != name@ ==> final(self).spec_get(q) == old(self).spec_get(q),
    {
        let ghost orig = self.entries@;
        match self.find(&name) {
            Some(i) => {
                self.entries.set(i, (name, value));
                proof {
                    lemma_name_index(orig, name@);
                    assert forall|q: Seq<char>| true implies name_index(self.entries@, q)
                        == name_index(orig, q) by {
                        lemma_name_index_same_keys(self.entries@, orig, q);
                    }
                    assert forall|q: Seq<char>| q != name@ implies final(self).spec_get(q) == old(
                        self,
                    ).spec_get(q) by {
                        lemma_name_index(orig, q);
                        if name_index(orig, q) >= 0 {
                            assert(orig[name_index(orig, q)].0@ == q);
                            assert(name_index(orig, q) != i as int);
                        }
                    }
                }
            },
            None => {
                proof {
                    lemma_name_index(orig, name@);
                }
                self.entries.push((name, value));
                proof {
                    let ghost e = self.entries@.last();
                    assert forall|q: Seq<char>| true implies name_index(self.entries@, q)
                        == if name_index(orig, q) >= 0 {
                        name_index(orig, q)
                    } else if e.0@ == q {
                        orig.len() as int
                    } else {
                        -1int
                    } by {
                        assert(self.entries@ =~= orig.push(e));
                        lemma_name_index_push(orig, e, q);
                    }
                    assert forall|q: Seq<char>| q != name@ implies final(self).spec_get(q) == old(
                        self,
                    ).spec_get(q) by {
                        lemma_name_index(orig, q);
                    }
                }
            },
        }
    }

    /// A reference to the value stored under `name`, if any.
    pub fn get_ref(&self, name: &String) -> (r: Option<&V>)
        ensures
            match r {
                Some(v) => self.spec_get(name@) == Some(*v),
                None => self.spec_get(name@) is None,
            },
    {
        match self.find(name) {
            Some(i) => Some(&self.entries[i].1),
            None => None,
        }
    }
}

} // verus!
