//! The entries that a compiler driver writes out, one for each definition,
//! and what stands under one of them.

use crate::text::str_eq;
use vstd::prelude::*;

verus! {

/// The identifier of an entry.
#[derive(Debug, Hash, PartialEq, Eq)]
pub enum Id {
    Crate(u32),
    Def(u32, u32),
    Primitive(String),
}

/// What an entry is.
#[derive(Debug)]
#[allow(inconsistent_fields)]
pub enum Kind {
    Crate(String),
    Static(String),
    Const(String),
    Fn(String),
    Macro(String),
    Mod(String),
    Extern(String),
    Field { name: String, ty: Id },
    Struct(String),
    Impl { of: Option<Id>, on: Id },
    Type(String),
}

/// One definition with the identifiers of what it holds.
#[derive(Debug)]
pub struct Entry {
    pub id: Id,
    pub kind: Kind,
    pub children: Vec<Id>,
}

/// The entries of a workspace, in the order in which they were written.
/// Where two carry one identifier, the later one stands for it.
#[derive(Debug)]
pub struct Analysis {
    pub entries: Vec<Entry>,
}

/// An identifier as plain values.
pub enum IdKey {
    Crate(u32),
    Def(u32, u32),
    Primitive(Seq<char>),
}

impl Clone for Id {
    fn clone(&self) -> (r: Self)
        ensures
            r.key() == self.key(),
    {
        match self {
            Id::Crate(n) => Id::Crate(*n),
            Id::Def(k, i) => Id::Def(*k, *i),
            Id::Primitive(name) => Id::Primitive(name.clone()),
        }
    }
}

impl Id {
    /// The identifier as plain values.
    pub open spec fn key(self) -> IdKey {
        match self {
            Id::Crate(n) => IdKey::Crate(n),
            Id::Def(k, i) => IdKey::Def(k, i),
            Id::Primitive(name) => IdKey::Primitive(name@),
        }
    }

    /// Whether two identifiers are the same.
    pub fn same(&self, other: &Id) -> (r: bool)
        ensures
            r == (self.key() == other.key()),
    {
        match (self, other) {
            (Id::Crate(a), Id::Crate(b)) => *a == *b,
            (Id::Def(a, b), Id::Def(c, d)) => *a == *c && *b == *d,
            (Id::Primitive(a), Id::Primitive(b)) => str_eq(a.as_str(), b.as_str()),
            _ => false,
        }
    }
}

impl Analysis {
    /// The position of the entry that stands for `id` among the first `upto`
    /// entries: the last of them that carries it.
    pub open spec fn position(self, id: IdKey, upto: int) -> Option<int>
        decreases upto,
    {
        if upto <= 0 || upto > self.entries.len() {
            None
        } else if self.entries[upto - 1].id.key() == id {
            Some(upto - 1)
        } else {
            self.position(id, upto - 1)
        }
    }

    /// Whether the entry at `i` stands for its identifier.
    pub open spec fn stands(self, i: int) -> bool {
        0 <= i < self.entries.len() && self.position(
            self.entries[i].id.key(),
            self.entries.len() as int,
        ) == Some(i)
    }

    /// Whether the entry at `i` is listed among the packages.
    pub open spec fn is_crate_at(self, i: int) -> bool {
        self.stands(i) && self.entries[i].kind is Crate
    }

    /// Whether the entry at `i` is listed under `parent` because of what it
    /// is: a definition of the package, or an implementation on the parent.
    pub open spec fn belongs(self, parent: IdKey, i: int) -> bool {
        self.stands(i) && match parent {
            IdKey::Crate(n) => self.entries[i].id matches Id::Def(k, _) && k == n,
            _ => self.entries[i].kind matches Kind::Impl { of, on } && on.key() == parent,
        }
    }

    /// The positions below `upto` of the entries that are listed among the
    /// packages, in order.
    pub open spec fn crate_positions(self, upto: int) -> Seq<int>
        decreases upto,
    {
        if upto <= 0 {
            Seq::empty()
        } else if self.is_crate_at(upto - 1) {
            self.crate_positions(upto - 1).push(upto - 1)
        } else {
            self.crate_positions(upto - 1)
        }
    }

    /// The positions below `upto` of the entries that belong under `parent`,
    /// in order.
    pub open spec fn member_positions(self, parent: IdKey, upto: int) -> Seq<int>
        decreases upto,
    {
        if upto <= 0 {
            Seq::empty()
        } else if self.belongs(parent, upto - 1) {
            self.member_positions(parent, upto - 1).push(upto - 1)
        } else {
            self.member_positions(parent, upto - 1)
        }
    }

    /// The positions of the entries that stand for the identifiers, in order,
    /// without the identifiers that no entry carries.
    pub open spec fn child_positions(self, ids: Seq<Id>) -> Seq<int>
        decreases ids.len(),
    {
        if ids.len() == 0 {
            Seq::empty()
        } else {
            match self.position(ids.last().key(), self.entries.len() as int) {
                Some(i) => self.child_positions(ids.drop_last()).push(i),
                None => self.child_positions(ids.drop_last()),
            }
        }
    }

    /// The positions of what stands under `parent`. Under a package stand its
    /// definitions. Under another entry stand its children and then the
    /// implementations on it; under an identifier that no entry carries
    /// stands nothing.
    pub open spec fn positions_under(self, parent: Id) -> Seq<int> {
        match parent {
            Id::Crate(_) => self.member_positions(parent.key(), self.entries.len() as int),
            _ => match self.position(parent.key(), self.entries.len() as int) {
                Some(p) => self.child_positions(self.entries[p].children@) + self.member_positions(
                    parent.key(),
                    self.entries.len() as int,
                ),
                None => Seq::empty(),
            },
        }
    }

    /// The position of the entry that stands for `id`.
    pub fn find(&self, id: &Id) -> (r: Option<usize>)
        ensures
            match r {
                Some(i) => self.position(id.key(), self.entries.len() as int) == Some(i as int)
                    && i < self.entries.len(),
                None => self.position(id.key(), self.entries.len() as int) is None,
            },
    {
        let mut i = self.entries.len();
        while i > 0
            invariant
                i <= self.entries.len(),
                self.position(id.key(), self.entries.len() as int) == self.position(
                    id.key(),
                    i as int,
                ),
            decreases i,
        {
            if self.entries[i - 1].id.same(id) {
                return Some(i - 1);
            }
            i -= 1;
        }
        None
    }

    fn stands_at(&self, i: usize) -> (r: bool)
        requires
            i < self.entries.len(),
        ensures
            r == self.stands(i as int),
    {
        match self.find(&self.entries[i].id) {
            Some(at) => at == i,
            None => false,
        }
    }

    /// The packages: for each entry of that kind, its identifier and the
    /// name of the package.
    pub fn crates(&self) -> (r: Vec<(&Id, &str)>)
        ensures
            r.len() == self.crate_positions(self.entries.len() as int).len(),
            forall|k: int|
                0 <= k < r.len() ==> {
                    let i = self.crate_positions(self.entries.len() as int)[k];
                    &&& 0 <= i < self.entries.len()
                    &&& *(#[trigger] r[k]).0 == self.entries[i].id
                    &&& self.entries[i].kind matches Kind::Crate(name)
                    &&& r[k].1@ == name@
                },
    {
        let mut out: Vec<(&Id, &str)> = Vec::new();
        let n = self.entries.len();
        let mut i: usize = 0;
        while i < n
            invariant
                i <= n,
                n == self.entries.len(),
                out.len() == self.crate_positions(i as int).len(),
                forall|k: int|
                    0 <= k < out.len() ==> {
                        let at = self.crate_positions(i as int)[k];
                        &&& 0 <= at < self.entries.len()
                        &&& *(#[trigger] out[k]).0 == self.entries[at].id
                        &&& self.entries[at].kind matches Kind::Crate(name)
                        &&& out[k].1@ == name@
                    },
            decreases n - i,
        {
            let ghost before = out@;
            let ghost was = self.crate_positions(i as int);
            let listed = match &self.entries[i].kind {
                Kind::Crate(_) => self.stands_at(i),
                _ => false,
            };
            if let Kind::Crate(name) = &self.entries[i].kind {
                if listed {
                    out.push((&self.entries[i].id, name.as_str()));
                    proof {
                        let now = self.crate_positions(i + 1);
                        assert(now == was.push(i as int));
                        assert forall|k: int| 0 <= k < out@.len() implies {
                            let at = now[k];
                            &&& 0 <= at < self.entries.len()
                            &&& *(#[trigger] out@[k]).0 == self.entries[at].id
                            &&& self.entries[at].kind matches Kind::Crate(name)
                            &&& out@[k].1@ == name@
                        } by {
                            if k < before.len() {
                                assert(out@[k] == before[k]);
                            }
                        }
                    }
                }
            }
            proof {
                if !listed {
                    assert(self.crate_positions(i + 1) == was);
                }
            }
            i += 1;
        }
        out
    }

    /// Whether `got` holds the entries at the positions, in order.
    pub open spec fn picks(self, got: Seq<&Entry>, positions: Seq<int>) -> bool {
        &&& got.len() == positions.len()
        &&& forall|k: int|
            0 <= k < got.len() ==> self.holds(#[trigger] got[k], positions[k])
    }

    /// Whether `entry` is the entry at position `i`.
    pub open spec fn holds(self, entry: &Entry, i: int) -> bool {
        0 <= i < self.entries.len() && *entry == self.entries[i]
    }

    fn children_of(&self, ids: &Vec<Id>) -> (r: Vec<&Entry>)
        ensures
            self.picks(r@, self.child_positions(ids@)),
    {
        let mut out: Vec<&Entry> = Vec::new();
        let m = ids.len();
        let mut j: usize = 0;
        while j < m
            invariant
                j <= m,
                m == ids.len(),
                self.picks(out@, self.child_positions(ids@.subrange(0, j as int))),
            decreases m - j,
        {
            assert(ids@.subrange(0, j + 1).drop_last() =~= ids@.subrange(0, j as int));
            let ghost before = out@;
            let ghost was = self.child_positions(ids@.subrange(0, j as int));
            match self.find(&ids[j]) {
                Some(c) => {
                    out.push(&self.entries[c]);
                    proof {
                        let now = self.child_positions(ids@.subrange(0, j + 1));
                        assert(now == was.push(c as int));
                        assert forall|k: int| 0 <= k < out@.len() implies self.holds(
                            #[trigger] out@[k],
                            now[k],
                        ) by {
                            if k < before.len() {
                                assert(out@[k] == before[k]);
                            }
                        }
                    }
                },
                None => {},
            }
            j += 1;
        }
        assert(ids@.subrange(0, m as int) =~= ids@);
        out
    }

    fn members_of(&self, parent: &Id) -> (r: Vec<&Entry>)
        ensures
            self.picks(r@, self.member_positions(parent.key(), self.entries.len() as int)),
    {
        let mut out: Vec<&Entry> = Vec::new();
        let n = self.entries.len();
        let mut i: usize = 0;
        while i < n
            invariant
                i <= n,
                n == self.entries.len(),
                self.picks(out@, self.member_positions(parent.key(), i as int)),
            decreases n - i,
        {
            let fits = match parent {
                Id::Crate(num) => match &self.entries[i].id {
                    Id::Def(krate, _) => *krate == *num,
                    _ => false,
                },
                _ => match &self.entries[i].kind {
                    Kind::Impl { of, on } => on.same(parent),
                    _ => false,
                },
            };
            let ghost before = out@;
            let ghost was = self.member_positions(parent.key(), i as int);
            if fits && self.stands_at(i) {
                out.push(&self.entries[i]);
                proof {
                    let now = self.member_positions(parent.key(), i + 1);
                    assert(now == was.push(i as int));
                    assert forall|k: int| 0 <= k < out@.len() implies self.holds(
                        #[trigger] out@[k],
                        now[k],
                    ) by {
                        if k < before.len() {
                            assert(out@[k] == before[k]);
                        }
                    }
                }
            } else {
                assert(self.member_positions(parent.key(), i + 1) == was);
            }
            i += 1;
        }
        out
    }

    /// What stands under `parent`.
    pub fn entries_under(&self, parent: &Id) -> (r: Vec<&Entry>)
        ensures
            self.picks(r@, self.positions_under(*parent)),
    {
        let mut out: Vec<&Entry> = Vec::new();
        match parent {
            Id::Crate(_) => {},
            _ => {
                match self.find(parent) {
                    Some(at) => {
                        out = self.children_of(&self.entries[at].children);
                    },
                    None => {
                        return out;
                    },
                }
            },
        }
        let mut members = self.members_of(parent);
        proof {
            let head = out@;
            let all = head + members@;
            let want = self.positions_under(*parent);
            assert(want.len() == all.len());
            assert forall|k: int| 0 <= k < all.len() implies self.holds(
                #[trigger] all[k],
                want[k],
            ) by {
                if k < head.len() {
                    assert(all[k] == head[k]);
                } else {
                    assert(all[k] == members@[k - head.len()]);
                }
            }
            assert(self.picks(all, want));
        }
        out.append(&mut members);
        out
    }
}

} // verus!
