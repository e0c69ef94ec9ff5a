//! Definitions registered by name from scripts (channel layouts, export
//! profiles): defining a name again replaces its entry in place, removing a
//! missing name does nothing, and names are listed in definition order.
use vstd::prelude::*;

verus! {

/// Index of the entry named `name`, if any.
pub open spec fn index_of_name<T>(s: Seq<(Seq<char>, T)>, name: Seq<char>) -> Option<int>
    decreases s.len(),
{
    if s.len() == 0 {
        None
    } else if s[0].0 == name {
        Some(0)
    } else {
        match index_of_name(s.drop_first(), name) {
            Some(i) => Some(i + 1),
            None => None,
        }
    }
}

/// No two entries share a name.
pub open spec fn names_distinct<T>(s: Seq<(Seq<char>, T)>) -> bool {
    forall|i: int, j: int| 0 <= i < j < s.len() ==> #[trigger] s[i].0 != #[trigger] s[j].0
}

/// The entries after defining `name` as `item`: an existing entry of that
/// name is replaced where it stands, otherwise the entry is appended.
pub open spec fn define_spec<T>(s: Seq<(Seq<char>, T)>, name: Seq<char>, item: T) -> Seq<(Seq<char>, T)> {
    match index_of_name(s, name) {
        Some(i) => s.update(i, (name, item)),
        None => s.push((name, item)),
    }
}

/// The entries without those named `name`, in order.
pub open spec fn remove_spec<T>(s: Seq<(Seq<char>, T)>, name: Seq<char>) -> Seq<(Seq<char>, T)>
    decreases s.len(),
{
    if s.len() == 0 {
        s
    } else {
        let rest = remove_spec(s.drop_last(), name);
        if s.last().0 == name { rest } else { rest.push(s.last()) }
    }
}

/// The item registered under `name`, if any.
pub open spec fn lookup_spec<T>(s: Seq<(Seq<char>, T)>, name: Seq<char>) -> Option<T> {
    match index_of_name(s, name) {
        Some(i) => Some(s[i].1),
        None => None,
    }
}

/// Named definitions in definition order.
pub struct NamedRegistry<T> {
    entries: Vec<(String, T)>,
}

impl<T> View for NamedRegistry<T> {
    type V = Seq<(Seq<char>, T)>;

    closed spec fn view(&self) -> Seq<(Seq<char>, T)> {
        self.entries@.map_values(|e: (String, T)| (e.0@, e.1))
    }
}

proof fn lemma_index_of_name<T>(s: Seq<(Seq<char>, T)>, name: Seq<char>)
    ensures
        match index_of_name(s, name) {
            Some(i) => 0 <= i < s.len() && s[i].0 == name && forall|k: int| 0 <= k < i ==> s[k].0 != name,
            None => forall|k: int| 0 <= k < s.len() ==> s[k].0 != name,
        },
    decreases s.len(),
{
    if s.len() > 0 {
        lemma_index_of_name(s.drop_first(), name);
        if s[0].0 != name {
            assert forall|k: int| 1 <= k < s.len() implies s[k] == s.drop_first()[k - 1] by {}
        }
    }
}

proof fn lemma_index_of_first<T>(s: Seq<(Seq<char>, T)>, name: Seq<char>, i: int)
    requires
        0 <= i < s.len(),
        s[i].0 == name,
        forall|k: int| 0 <= k < i ==> s[k].0 != name,
    ensures
        index_of_name(s, name) == Some(i),
{
    lemma_index_of_name(s, name);
    match index_of_name(s, name) {
        Some(j) => {
            if j < i {
                assert(s[j].0 != name);
            } else if j > i {
                assert(s[i].0 != name);
            }
        },
        None => {
            assert(s[i].0 != name);
        },
    }
}

proof fn lemma_remove_members<T>(s: Seq<(Seq<char>, T)>, name: Seq<char>)
    ensures
        forall|k: int| 0 <= k < remove_spec(s, name).len() ==> #[trigger] remove_spec(s, name)[k].0 != name,
    decreases s.len(),
{
    if s.len() > 0 {
        lemma_remove_members(s.drop_last(), name);
        let rest = remove_spec(s.drop_last(), name);
        assert forall|k: int| 0 <= k < remove_spec(s, name).len() implies #[trigger] remove_spec(s, name)[k].0 != name by {
            if k < rest.len() {
                assert(remove_spec(s, name)[k] == rest[k]);
            }
        }
    }
}

impl<T> NamedRegistry<T> {
    /// Entries are well formed: names are distinct.
    pub closed spec fn wf(&self) -> bool {
        names_distinct(self@)
    }

    /// An empty registry.
    pub fn new() -> (out: Self)
        ensures
            out@ == Seq::<(Seq<char>, T)>::empty(),
            out.wf(),
    {
        let out = NamedRegistry { entries: Vec::new() };
        assert(out@ =~= Seq::<(Seq<char>, T)>::empty());
        out
    }

    /// Number of definitions.
    pub fn len(&self) -> (out: usize)
        ensures
            out == self@.len(),
    {
        self.entries.len()
    }

    fn find(&self, name: &str) -> (out: Option<usize>)
        ensures
            match out {
                Some(i) => index_of_name(self@, name@) == Some(i as int),
                None => index_of_name(self@, name@) is None,
            },
    {
        let mut i: usize = 0;
        while i < self.entries.len()
            invariant
                i <= self.entries@.len(),
                self@.len() == self.entries@.len(),
                forall|k: int| 0 <= k < i ==> self@[k].0 != name@,
            decreases self.entries.len() - i,
        {
            let key = String::from_str(name);
            if self.entries[i].0 == key {
                proof {
                    lemma_index_of_first(self@, name@, i as int);
                }
                return Some(i);
            }
            i = i + 1;
        }
        proof {
            lemma_index_of_name(self@, name@);
        }
        None
    }

    /// Register `item` under `name`, replacing an entry of that name in place.
    pub fn define(&mut self, name: String, item: T)
        requires
            old(self).wf(),
        ensures
            final(self).wf(),
            final(self)@ == define_spec(old(self)@, name@, item),
    {
        let ghost s = self@;
        proof {
            lemma_index_of_name(s, name@);
        }
        match self.find(name.as_str()) {
            Some(i) => {
                let ghost n = name@;
                self.entries.set(i, (name, item));
                assert(self@ =~= s.update(i as int, (n, item)));
                assert forall|a: int, b: int| 0 <= a < b < self@.len() implies #[trigger] self@[a].0 != #[trigger] self@[b].0 by {
                    if a != i && b != i {
                        assert(s[a].0 != s[b].0);
                    } else if a == i {
                        assert(s[i as int].0 == n);
                        assert(s[b].0 != s[i as int].0);
                    } else {
                        assert(s[i as int].0 == n);
                        assert(s[a].0 != s[i as int].0);
                    }
                }
            },
            None => {
                let ghost n = name@;
                self.entries.push((name, item));
                assert(self@ =~= s.push((n, item)));
            },
        }
    }

    /// Drop the entry named `name`; nothing happens when there is none.
    pub fn remove(&mut self, name: &str)
        requires
            old(self).wf(),
        ensures
            final(self).wf(),
            final(self)@ == remove_spec(old(self)@, name@),
    {
        let ghost s = self@;
        let mut rest: Vec<(String, T)> = Vec::new();
        std::mem::swap(&mut rest, &mut self.entries);
        let ghost all = rest@;
        let total = rest.len();
        let key = String::from_str(name);
        let mut k: usize = 0;
        proof {
            assert(s =~= all.map_values(|e: (String, T)| (e.0@, e.1)));
            assert(self@ =~= remove_spec(s.take(0), name@));
        }
        while rest.len() > 0
            invariant
                k + rest@.len() == all.len(),
                all.len() == total,
                rest@ == all.skip(k as int),
                s == all.map_values(|e: (String, T)| (e.0@, e.1)),
                s.len() == all.len(),
                key@ == name@,
                self@ == remove_spec(s.take(k as int), name@),
            decreases rest.len(),
        {
            let e = rest.remove(0);
            proof {
                assert(e == all[k as int]);
                assert(s.take(k + 1).drop_last() =~= s.take(k as int));
                assert(s.take(k + 1).last() == s[k as int]);
                assert(rest@ =~= all.skip(k + 1));
            }
            if e.0 == key {
            } else {
                let ghost before = self@;
                self.entries.push(e);
                proof {
                    assert(self@ =~= before.push(s[k as int]));
                }
            }
            k = k + 1;
        }
        proof {
            assert(s.take(k as int) =~= s);
            lemma_remove_members(s, name@);
            assert forall|a: int, b: int| 0 <= a < b < self@.len() implies #[trigger] self@[a].0 != #[trigger] self@[b].0 by {
                lemma_remove_subseq(s, name@);
                let (ia, ib) = remove_positions(s, name@, a, b);
                assert(s[ia].0 != s[ib].0);
            }
        }
    }

    /// The item registered under `name`, if any.
    pub fn get(&self, name: &str) -> (out: Option<&T>)
        ensures
            match out {
                Some(x) => lookup_spec(self@, name@) == Some(*x),
                None => lookup_spec(self@, name@) is None,
            },
    {
        proof {
            lemma_index_of_name(self@, name@);
        }
        match self.find(name) {
            Some(i) => {
                assert(self@.len() == self.entries@.len());
                Some(&self.entries[i].1)
            },
            None => None,
        }
    }

    /// Registered names, in definition order.
    pub fn names(&self) -> (out: Vec<String>)
        ensures
            out@.len() == self@.len(),
            forall|k: int| 0 <= k < out@.len() ==> #[trigger] out@[k]@ == self@[k].0,
    {
        let mut out: Vec<String> = Vec::new();
        let mut i: usize = 0;
        while i < self.entries.len()
            invariant
                i <= self.entries@.len(),
                self@.len() == self.entries@.len(),
                out@.len() == i,
                forall|k: int| 0 <= k < i ==> #[trigger] out@[k]@ == self@[k].0,
            decreases self.entries.len() - i,
        {
            out.push(self.entries[i].0.clone());
            i = i + 1;
        }
        out
    }
}

/// Positions in `s` of entries `a < b` of `remove_spec(s, name)`, in order.
proof fn remove_positions<T>(s: Seq<(Seq<char>, T)>, name: Seq<char>, a: int, b: int) -> (p: (int, int))
    requires
        0 <= a < b < remove_spec(s, name).len(),
    ensures
        0 <= p.0 < p.1 < s.len(),
        s[p.0] == remove_spec(s, name)[a],
        s[p.1] == remove_spec(s, name)[b],
    decreases s.len(),
{
    let rest = remove_spec(s.drop_last(), name);
    if b < rest.len() {
        let (x, y) = remove_positions(s.drop_last(), name, a, b);
        (x, y)
    } else {
        lemma_remove_subseq(s.drop_last(), name);
        let x = remove_position(s.drop_last(), name, a);
        (x, s.len() - 1)
    }
}

/// Position in `s` of entry `a` of `remove_spec(s, name)`.
proof fn remove_position<T>(s: Seq<(Seq<char>, T)>, name: Seq<char>, a: int) -> (p: int)
    requires
        0 <= a < remove_spec(s, name).len(),
    ensures
        0 <= p < s.len(),
        s[p] == remove_spec(s, name)[a],
    decreases s.len(),
{
    let rest = remove_spec(s.drop_last(), name);
    if a < rest.len() {
        remove_position(s.drop_last(), name, a)
    } else {
        s.len() - 1
    }
}

proof fn lemma_remove_subseq<T>(s: Seq<(Seq<char>, T)>, name: Seq<char>)
    ensures
        remove_spec(s, name).len() <= s.len(),
    decreases s.len(),
{
    if s.len() > 0 {
        lemma_remove_subseq(s.drop_last(), name);
    }
}

/// A definition is found under its name right after it is made.
pub proof fn lemma_define_then_lookup<T>(s: Seq<(Seq<char>, T)>, name: Seq<char>, item: T)
    ensures
        lookup_spec(define_spec(s, name, item), name) == Some(item),
{
    lemma_index_of_name(s, name);
    let t = define_spec(s, name, item);
    match index_of_name(s, name) {
        Some(i) => {
            assert forall|k: int| 0 <= k < i implies t[k].0 != name by {}
            lemma_index_of_first(t, name, i);
        },
        None => {
            assert forall|k: int| 0 <= k < s.len() implies t[k].0 != name by {}
            lemma_index_of_first(t, name, s.len() as int);
        },
    }
}

/// Defining one name leaves what every other name finds unchanged.
pub proof fn lemma_define_keeps_others<T>(s: Seq<(Seq<char>, T)>, name: Seq<char>, item: T, other: Seq<char>)
    requires
        other != name,
    ensures
        lookup_spec(define_spec(s, name, item), other) == lookup_spec(s, other),
{
    lemma_index_of_name(s, name);
    lemma_index_of_name(s, other);
    let t = define_spec(s, name, item);
    match index_of_name(s, other) {
        Some(j) => {
            assert forall|k: int| 0 <= k < j implies t[k].0 != other by {}
            lemma_index_of_first(t, other, j);
        },
        None => {
            lemma_index_of_name(t, other);
        },
    }
}

/// After removing a name nothing is found under it.
pub proof fn lemma_remove_then_lookup<T>(s: Seq<(Seq<char>, T)>, name: Seq<char>)
    ensures
        lookup_spec(remove_spec(s, name), name) is None,
{
    lemma_remove_members(s, name);
    lemma_index_of_name(remove_spec(s, name), name);
}

} // verus!
