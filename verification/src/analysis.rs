//! The store of loaded documents: resolving identifiers, within a package and
//! across packages, and deriving the children of a symbol.

use crate::model::{Document, Fields, Id, Record, RecordKind, Summary, EMPTY};
use crate::text::{str_eq, views};
pub use crate::walk::type_ids;
use crate::walk::{distinct, walk};
use vstd::prelude::*;

verus! {

broadcast use vstd::std_specs::hash::group_hash_axioms;

/// A loaded document under the name of its package.
#[derive(Debug)]
pub struct Package {
    pub name: String,
    pub doc: Document,
}

/// The loaded documents. Where two carry one name, the first stands for it.
#[derive(Debug)]
pub struct Analysis {
    pub crates: Vec<Package>,
}

/// The name of a package.
#[derive(Debug, Clone, Copy)]
pub struct CrateId<'a> {
    pub name: &'a str,
}

/// The address of a symbol: a package and an identifier within it.
#[derive(Debug, Clone, Copy)]
pub struct ItemId<'a>(pub CrateId<'a>, pub Id);

/// What an address leads to.
#[derive(Debug, Clone, Copy)]
pub enum Item<'a> {
    Root,
    Item(&'a Record),
}

/// An address as plain values: the package's name and the identifier.
pub struct Key {
    pub package: Seq<char>,
    pub id: Id,
}

/// Why an address resolves to nothing.
#[derive(Debug, Clone, Copy, PartialEq, Eq, Structural)]
pub enum MissKind {
    /// The address is the empty one.
    Empty,
    /// No document is loaded for the package of the address.
    UnknownPackage,
    /// The package's document neither defines nor mentions the identifier.
    Unlisted,
    /// The document mentions the identifier with a path of no segments.
    NoOwner,
    /// No document is loaded for the package that owns the path.
    MissingPackage,
    /// The owning package's document mentions no symbol by that path.
    NoPath,
    /// The owning package's document mentions the path and defines no such
    /// symbol.
    NoRecord,
}

/// A failed resolution, with the path that was looked for where there is one.
#[derive(Debug, Clone, Copy)]
pub struct Miss<'a> {
    pub kind: MissKind,
    pub path: Option<&'a Vec<String>>,
}

impl Key {
    /// The address of the sibling `id` in the same package.
    pub open spec fn sibling(self, id: Id) -> Key {
        Key { package: self.package, id }
    }

    /// The address that denotes nothing.
    pub open spec fn empty() -> Key {
        Key { package: Seq::empty(), id: Id(EMPTY) }
    }
}

impl<'a> ItemId<'a> {
    /// The address as plain values.
    pub open spec fn key(self) -> Key {
        Key { package: self.0.name@, id: self.1 }
    }

    /// The address that denotes nothing and resolves to nothing.
    pub fn empty() -> (r: ItemId<'static>)
        ensures
            r.key() == Key::empty(),
    {
        proof {
            reveal_strlit("");
        }
        let r = ItemId(CrateId { name: "" }, Id(EMPTY));
        assert(r.key().package =~= Seq::<char>::empty());
        r
    }

    /// The address of the root module of a package.
    pub fn crate_root(crate_id: CrateId<'a>) -> (r: Self)
        ensures
            r.key() == (Key { package: crate_id.name@, id: Id(EMPTY) }),
    {
        ItemId(crate_id, Id(EMPTY))
    }

    /// The name of the package of this address.
    pub fn crate_name(&self) -> (r: &'a str)
        ensures
            r@ == self.key().package,
    {
        self.0.name
    }

    /// The identifier of this address within its package.
    pub fn local_id(&self) -> (r: Id)
        ensures
            r == self.key().id,
    {
        self.1
    }

    /// The address of another symbol of the same package.
    pub fn crate_sibling(&self, other_id: &Id) -> (r: Self)
        ensures
            r.key() == self.key().sibling(*other_id),
    {
        ItemId(CrateId { name: self.0.name }, *other_id)
    }

    /// Whether this is the address that denotes nothing.
    pub fn is_empty(&self) -> (r: bool)
        ensures
            r == (self.key() == Key::empty()),
    {
        let r = self.1.0 == EMPTY && self.0.name.is_empty();
        proof {
            if r {
                assert(self.key().package =~= Seq::<char>::empty());
            }
        }
        r
    }

    /// Whether two addresses name the same package and identifier.
    pub fn same(&self, other: &ItemId) -> (r: bool)
        ensures
            r == (self.key() == other.key()),
    {
        self.1.0 == other.1.0 && str_eq(self.0.name, other.0.name)
    }
}

impl<'a> PartialEq for CrateId<'a> {
    fn eq(&self, other: &Self) -> (r: bool) {
        str_eq(self.name, other.name)
    }
}

impl<'a> vstd::std_specs::cmp::PartialEqSpecImpl for CrateId<'a> {
    open spec fn obeys_eq_spec() -> bool {
        true
    }

    open spec fn eq_spec(&self, other: &Self) -> bool {
        self.name@ == other.name@
    }
}

impl<'a> PartialEq for ItemId<'a> {
    fn eq(&self, other: &Self) -> (r: bool) {
        self.same(other)
    }
}

impl<'a> vstd::std_specs::cmp::PartialEqSpecImpl for ItemId<'a> {
    open spec fn obeys_eq_spec() -> bool {
        true
    }

    open spec fn eq_spec(&self, other: &Self) -> bool {
        self.key() == other.key()
    }
}

impl Summary {
    /// The path as plain values.
    pub open spec fn segments(self) -> Seq<Seq<char>> {
        views(self.path@)
    }
}

/// Whether two paths have the same segments.
pub fn same_path(a: &Vec<String>, b: &Vec<String>) -> (r: bool)
    ensures
        r == (views(a@) == views(b@)),
{
    if a.len() != b.len() {
        assert(views(a@).len() != views(b@).len());
        return false;
    }
    let n = a.len();
    let mut i: usize = 0;
    while i < n
        invariant
            i <= n,
            n == a.len(),
            n == b.len(),
            forall|j: int| 0 <= j < i ==> a@[j]@ == b@[j]@,
        decreases n - i,
    {
        if !str_eq(a[i].as_str(), b[i].as_str()) {
            assert(views(a@)[i as int] != views(b@)[i as int]);
            return false;
        }
        i += 1;
    }
    assert(views(a@) =~= views(b@));
    true
}

impl Document {
    /// The first entry at or after `from` that the path table holds for `id`.
    pub open spec fn summary_from(self, id: Id, from: int) -> Option<Summary>
        decreases self.paths.len() - from,
    {
        if from < 0 || from >= self.paths.len() {
            None
        } else if self.paths[from].id == id {
            Some(self.paths[from])
        } else {
            self.summary_from(id, from + 1)
        }
    }

    /// What the path table says of `id`: its first entry for it.
    pub open spec fn summary(self, id: Id) -> Option<Summary> {
        self.summary_from(id, 0)
    }

    /// The least identifier that the path table lists under `path`.
    pub open spec fn owner(self, path: Seq<Seq<char>>) -> Option<Id> {
        least_owner(self.paths@, path)
    }

    /// Whether the document defines its root as the root module of the
    /// package itself.
    pub open spec fn is_own_root(self) -> bool {
        &&& self.index@.contains_key(self.root.0)
        &&& self.index@[self.root.0].crate_id == 0
        &&& self.index@[self.root.0].inner matches RecordKind::Module { is_crate, items }
        &&& is_crate
    }

    /// Whether the document defines its root as the root module of the
    /// package itself.
    pub fn has_own_root(&self) -> (r: bool)
        ensures
            r == self.is_own_root(),
    {
        match self.index.get(&self.root.0) {
            Some(record) => record.crate_id == 0 && match &record.inner {
                RecordKind::Module { is_crate, items } => *is_crate,
                _ => false,
            },
            None => false,
        }
    }

    /// What the path table says of `id`.
    pub fn find_summary(&self, id: Id) -> (r: Option<&Summary>)
        ensures
            match self.summary(id) {
                Some(s) => r == Some(&s),
                None => r is None,
            },
    {
        let n = self.paths.len();
        let mut i: usize = 0;
        while i < n
            invariant
                i <= n,
                n == self.paths.len(),
                self.summary(id) == self.summary_from(id, i as int),
            decreases n - i,
        {
            if self.paths[i].id.0 == id.0 {
                return Some(&self.paths[i]);
            }
            i += 1;
        }
        None
    }

    /// The least identifier that the path table lists under `path`.
    pub fn find_owner(&self, path: &Vec<String>) -> (r: Option<Id>)
        ensures
            r == self.owner(views(path@)),
    {
        let mut best: Option<Id> = None;
        let n = self.paths.len();
        let mut i: usize = 0;
        while i < n
            invariant
                i <= n,
                n == self.paths.len(),
                best == least_owner(self.paths@.subrange(0, i as int), views(path@)),
            decreases n - i,
        {
            assert(self.paths@.subrange(0, i + 1).drop_last() =~= self.paths@.subrange(
                0,
                i as int,
            ));
            if same_path(&self.paths[i].path, path) {
                let id = self.paths[i].id;
                best = match best {
                    Some(b) => if b.0 <= id.0 {
                        Some(b)
                    } else {
                        Some(id)
                    },
                    None => Some(id),
                };
            }
            i += 1;
        }
        assert(self.paths@.subrange(0, n as int) =~= self.paths@);
        best
    }
}

/// The least identifier among the entries of `paths` that carry `path`.
pub open spec fn least_owner(paths: Seq<Summary>, path: Seq<Seq<char>>) -> Option<Id>
    decreases paths.len(),
{
    if paths.len() == 0 {
        None
    } else {
        let rest = least_owner(paths.drop_last(), path);
        let last = paths.last();
        if last.segments() == path {
            match rest {
                Some(b) => if b.0 <= last.id.0 {
                    Some(b)
                } else {
                    Some(last.id)
                },
                None => Some(last.id),
            }
        } else {
            rest
        }
    }
}

/// The owner of a path is an identifier that the table lists under the path,
/// and no lesser one is listed under it; a path without an owner is not
/// listed.
pub proof fn lemma_least_owner(paths: Seq<Summary>, path: Seq<Seq<char>>)
    ensures
        match least_owner(paths, path) {
            Some(least) => {
                &&& exists|i: int|
                    0 <= i < paths.len() && (#[trigger] paths[i]).segments() == path && paths[i].id
                        == least
                &&& forall|i: int|
                    0 <= i < paths.len() && (#[trigger] paths[i]).segments() == path ==> least.0
                        <= paths[i].id.0
            },
            None => forall|i: int| 0 <= i < paths.len() ==> (#[trigger] paths[i]).segments() != path,
        },
    decreases paths.len(),
{
    if paths.len() > 0 {
        let rest = paths.drop_last();
        lemma_least_owner(rest, path);
        let last = paths.last();
        assert forall|i: int| 0 <= i < rest.len() implies rest[i] == paths[i] by {}
        match least_owner(paths, path) {
            Some(least) => {
                if last.segments() == path && least == last.id {
                    assert(paths[paths.len() - 1].id == least);
                } else {
                    let w = choose|i: int|
                        0 <= i < rest.len() && (#[trigger] rest[i]).segments() == path && rest[i].id
                            == least;
                    assert(paths[w].segments() == path && paths[w].id == least);
                }
                assert forall|i: int|
                    0 <= i < paths.len() && (#[trigger] paths[i]).segments() == path implies least.0
                    <= paths[i].id.0 by {
                    if i < rest.len() {
                        assert(rest[i] == paths[i]);
                    }
                }
            },
            None => {
                assert forall|i: int| 0 <= i < paths.len() implies (#[trigger] paths[i]).segments()
                    != path by {
                    if i < rest.len() {
                        assert(rest[i] == paths[i]);
                    }
                }
            },
        }
    }
}

/// The identifiers that are present among positional fields, in order.
pub open spec fn present(fields: Seq<Option<Id>>) -> Seq<Id>
    decreases fields.len(),
{
    if fields.len() == 0 {
        Seq::empty()
    } else {
        match fields.last() {
            Some(id) => present(fields.drop_last()).push(id),
            None => present(fields.drop_last()),
        }
    }
}

/// The identifiers of the fields that exist.
pub open spec fn field_ids(fields: Fields) -> Seq<Id> {
    match fields {
        Fields::Unit => Seq::empty(),
        Fields::Tuple(ids) => present(ids@),
        Fields::Named(ids) => ids@,
    }
}

/// The identifiers of the children that the structure of a symbol gives it,
/// by its kind, before any of them is resolved.
pub open spec fn raw_children(kind: RecordKind) -> Seq<Id> {
    match kind {
        RecordKind::Module { is_crate, items } => items@,
        RecordKind::Union { fields, impls } => fields@ + impls@,
        RecordKind::Struct { fields, impls } => field_ids(fields) + impls@,
        RecordKind::StructField(ty) => distinct(walk(ty)),
        RecordKind::Enum { variants, impls } => variants@ + impls@,
        RecordKind::Variant(fields) => field_ids(fields),
        RecordKind::Trait { items } => items@,
        RecordKind::Impl { trait_, items, automatically_derived, blanket, synthetic } => items@
            + match trait_ {
            Some(p) => seq![p.id],
            None => Seq::empty(),
        },
        RecordKind::TypeAlias(ty) => distinct(walk(ty)),
        RecordKind::Constant(ty) => distinct(walk(ty)),
        RecordKind::Static(ty) => distinct(walk(ty)),
        _ => Seq::empty(),
    }
}

fn extend_ids(out: &mut Vec<Id>, ids: &Vec<Id>)
    ensures
        final(out)@ == old(out)@ + ids@,
{
    let n = ids.len();
    let mut i: usize = 0;
    while i < n
        invariant
            i <= n,
            n == ids.len(),
            out@ == old(out)@ + ids@.subrange(0, i as int),
        decreases n - i,
    {
        out.push(ids[i]);
        assert(out@ =~= old(out)@ + ids@.subrange(0, i + 1));
        i += 1;
    }
    assert(ids@.subrange(0, n as int) =~= ids@);
}

fn extend_fields(out: &mut Vec<Id>, fields: &Fields)
    ensures
        final(out)@ == old(out)@ + field_ids(*fields),
{
    match fields {
        Fields::Unit => {
            assert(out@ =~= old(out)@ + field_ids(*fields));
        },
        Fields::Tuple(ids) => {
            let n = ids.len();
            let mut i: usize = 0;
            while i < n
                invariant
                    i <= n,
                    n == ids.len(),
                    out@ == old(out)@ + present(ids@.subrange(0, i as int)),
                decreases n - i,
            {
                assert(ids@.subrange(0, i + 1).drop_last() =~= ids@.subrange(0, i as int));
                match ids[i] {
                    Some(id) => {
                        out.push(id);
                    },
                    None => {},
                }
                assert(out@ =~= old(out)@ + present(ids@.subrange(0, i + 1)));
                i += 1;
            }
            assert(ids@.subrange(0, n as int) =~= ids@);
        },
        Fields::Named(ids) => extend_ids(out, ids),
    }
}

/// The identifiers of the children that the structure of a symbol gives it.
pub fn child_ids(record: &Record) -> (r: Vec<Id>)
    ensures
        r@ == raw_children(record.inner),
{
    let mut out: Vec<Id> = Vec::new();
    match &record.inner {
        RecordKind::Module { is_crate, items } => extend_ids(&mut out, items),
        RecordKind::Union { fields, impls } => {
            extend_ids(&mut out, fields);
            extend_ids(&mut out, impls);
        },
        RecordKind::Struct { fields, impls } => {
            extend_fields(&mut out, fields);
            extend_ids(&mut out, impls);
        },
        RecordKind::StructField(ty) => {
            out = type_ids(ty);
        },
        RecordKind::Enum { variants, impls } => {
            extend_ids(&mut out, variants);
            extend_ids(&mut out, impls);
        },
        RecordKind::Variant(fields) => extend_fields(&mut out, fields),
        RecordKind::Trait { items } => extend_ids(&mut out, items),
        RecordKind::Impl { trait_, items, automatically_derived, blanket, synthetic } => {
            extend_ids(&mut out, items);
            match trait_ {
                Some(p) => {
                    out.push(p.id);
                },
                None => {},
            }
        },
        RecordKind::TypeAlias(ty) => {
            out = type_ids(ty);
        },
        RecordKind::Constant(ty) => {
            out = type_ids(ty);
        },
        RecordKind::Static(ty) => {
            out = type_ids(ty);
        },
        _ => {},
    }
    assert(out@ =~= raw_children(record.inner));
    out
}

impl<'a> Item<'a> {
    /// Whether this is the symbol with the given record.
    pub open spec fn is_record(self, record: Record) -> bool {
        self == Item::Item(&record)
    }
}

/// What std's derived `Debug` writes for an item in its pretty form: the
/// variant and, for a symbol, its record with every field, each on a line of
/// its own.
pub uninterp spec fn dump_text(item: Item) -> Seq<char>;

/// Whether a listing holds exactly the given symbols, in order.
pub open spec fn same_entries(listing: Seq<(ItemId, Item)>, symbols: Seq<(Key, Record)>) -> bool {
    &&& listing.len() == symbols.len()
    &&& forall|i: int|
        0 <= i < listing.len() ==> (#[trigger] listing[i]).0.key() == symbols[i].0
            && listing[i].1.is_record(symbols[i].1)
}

impl Analysis {
    /// The position of the first package at or after `from` that is called
    /// `name`.
    pub open spec fn position_from(self, name: Seq<char>, from: int) -> Option<int>
        decreases self.crates.len() - from,
    {
        if from < 0 || from >= self.crates.len() {
            None
        } else if self.crates[from].name@ == name {
            Some(from)
        } else {
            self.position_from(name, from + 1)
        }
    }

    /// The document that is loaded under `name`.
    pub open spec fn document(self, name: Seq<char>) -> Option<Document> {
        match self.position_from(name, 0) {
            Some(i) => Some(self.crates[i].doc),
            None => None,
        }
    }

    /// What an address resolves to: the address of the symbol found and its
    /// record, or the reason why there is none.
    ///
    /// The empty address resolves to nothing. Otherwise the identifier is
    /// looked up in the document of its package, the root module's
    /// identifier taking the place of the empty one. An identifier that the
    /// document does not define is looked up by the path that the document
    /// gives for it, in the document of the package that the path's first
    /// segment names: one step, never a chain.
    pub open spec fn resolve(self, key: Key) -> Result<(Key, Record), MissKind> {
        if key == Key::empty() {
            Err(MissKind::Empty)
        } else {
            match self.document(key.package) {
                None => Err(MissKind::UnknownPackage),
                Some(doc) => {
                    let id = if key.id.0 == EMPTY {
                        doc.root
                    } else {
                        key.id
                    };
                    if doc.index@.contains_key(id.0) {
                        Ok((key, doc.index@[id.0]))
                    } else {
                        match doc.summary(id) {
                            None => Err(MissKind::Unlisted),
                            Some(summary) => self.resolve_path(summary.segments()),
                        }
                    }
                },
            }
        }
    }

    /// The symbol that a qualified path names in the document of the package
    /// that owns it.
    pub open spec fn resolve_path(self, path: Seq<Seq<char>>) -> Result<(Key, Record), MissKind> {
        if path.len() == 0 {
            Err(MissKind::NoOwner)
        } else {
            match self.document(path[0]) {
                None => Err(MissKind::MissingPackage),
                Some(other) => match other.owner(path) {
                    None => Err(MissKind::NoPath),
                    Some(found) => if other.index@.contains_key(found.0) {
                        Ok((Key { package: path[0], id: found }, other.index@[found.0]))
                    } else {
                        Err(MissKind::NoRecord)
                    },
                },
            }
        }
    }

    /// The path that a failed resolution was looking for, where it got as far
    /// as a path.
    pub open spec fn missed_path(self, key: Key) -> Option<Seq<Seq<char>>> {
        match self.resolve(key) {
            Err(MissKind::MissingPackage) | Err(MissKind::NoPath) | Err(MissKind::NoRecord) => {
                let doc = self.document(key.package).unwrap();
                let id = if key.id.0 == EMPTY {
                    doc.root
                } else {
                    key.id
                };
                Some(doc.summary(id).unwrap().segments())
            },
            _ => None,
        }
    }

    /// The document that is loaded under `name`.
    pub fn find_document(&self, name: &str) -> (r: Option<&Document>)
        ensures
            match self.document(name@) {
                Some(doc) => r == Some(&doc),
                None => r is None,
            },
    {
        let n = self.crates.len();
        let mut i: usize = 0;
        while i < n
            invariant
                i <= n,
                n == self.crates.len(),
                self.position_from(name@, 0) == self.position_from(name@, i as int),
            decreases n - i,
        {
            if str_eq(self.crates[i].name.as_str(), name) {
                return Some(&self.crates[i].doc);
            }
            i += 1;
        }
        None
    }

    /// Resolves an address, and says why where it resolves to nothing.
    pub fn resolve_item<'a>(&'a self, id: ItemId<'a>) -> (r: Result<
        (ItemId<'a>, &'a Record),
        Miss<'a>,
    >)
        ensures
            match self.resolve(id.key()) {
                Ok((key, record)) => r matches Ok((found, rec)) && found.key() == key && *rec
                    == record,
                Err(kind) => r matches Err(miss) && miss.kind == kind && match self.missed_path(
                    id.key(),
                ) {
                    Some(path) => miss.path matches Some(p) && views(p@) == path,
                    None => miss.path is None,
                },
            },
    {
        if id.is_empty() {
            return Err(Miss { kind: MissKind::Empty, path: None });
        }
        let doc = match self.find_document(id.0.name) {
            Some(doc) => doc,
            None => {
                return Err(Miss { kind: MissKind::UnknownPackage, path: None });
            },
        };
        let local = if id.1.0 == EMPTY {
            doc.root
        } else {
            id.1
        };
        if let Some(record) = doc.index.get(&local.0) {
            return Ok((id, record));
        }
        let summary = match doc.find_summary(local) {
            Some(summary) => summary,
            None => {
                return Err(Miss { kind: MissKind::Unlisted, path: None });
            },
        };
        if summary.path.len() == 0 {
            return Err(Miss { kind: MissKind::NoOwner, path: None });
        }
        assert(summary.segments()[0] == summary.path@[0]@);
        let owner = summary.path[0].as_str();
        let other = match self.find_document(owner) {
            Some(other) => other,
            None => {
                return Err(Miss { kind: MissKind::MissingPackage, path: Some(&summary.path) });
            },
        };
        let found = match other.find_owner(&summary.path) {
            Some(found) => found,
            None => {
                return Err(Miss { kind: MissKind::NoPath, path: Some(&summary.path) });
            },
        };
        match other.index.get(&found.0) {
            Some(record) => Ok((ItemId(CrateId { name: owner }, found), record)),
            None => Err(Miss { kind: MissKind::NoRecord, path: Some(&summary.path) }),
        }
    }

    /// Resolves an address to the address of the symbol found and the symbol,
    /// or to nothing.
    pub fn get_item<'a>(&'a self, id: ItemId<'a>) -> (r: Option<(ItemId<'a>, Item<'a>)>)
        ensures
            match self.resolve(id.key()) {
                Ok((key, record)) => r matches Some((found, item)) && found.key() == key && item
                    == Item::Item(&record),
                Err(_) => r is None,
            },
    {
        match self.resolve_item(id) {
            Ok((found, record)) => Some((found, Item::Item(record))),
            Err(_) => None,
        }
    }

    /// What the identifiers resolve to as symbols of `package`, in order,
    /// without those that resolve to nothing.
    pub open spec fn resolve_all(self, package: Seq<char>, ids: Seq<Id>) -> Seq<(Key, Record)>
        decreases ids.len(),
    {
        if ids.len() == 0 {
            Seq::empty()
        } else {
            let rest = self.resolve_all(package, ids.drop_last());
            match self.resolve(Key { package, id: ids.last() }) {
                Ok(found) => rest.push(found),
                Err(_) => rest,
            }
        }
    }

    /// The children of a symbol: what its structure lists for its kind, read
    /// as symbols of the package in which the symbol was found, each resolved,
    /// without those that resolve to nothing. An address that resolves to
    /// nothing has no children.
    pub open spec fn children(self, key: Key) -> Seq<(Key, Record)> {
        match self.resolve(key) {
            Ok((found, record)) => self.resolve_all(found.package, raw_children(record.inner)),
            Err(_) => Seq::empty(),
        }
    }

    /// The children of a symbol, each with the address under which it was
    /// found.
    pub fn items<'a>(&'a self, parent_id: &ItemId<'a>) -> (r: Vec<(ItemId<'a>, Item<'a>)>)
        ensures
            same_entries(r@, self.children(parent_id.key())),
    {
        let mut out: Vec<(ItemId<'a>, Item<'a>)> = Vec::new();
        let (parent, record) = match self.resolve_item(*parent_id) {
            Ok(found) => found,
            Err(_) => {
                return out;
            },
        };
        let ids = child_ids(record);
        let n = ids.len();
        let mut i: usize = 0;
        while i < n
            invariant
                i <= n,
                n == ids.len(),
                same_entries(out@, self.resolve_all(parent.key().package, ids@.subrange(0, i as int))),
            decreases n - i,
        {
            assert(ids@.subrange(0, i + 1).drop_last() =~= ids@.subrange(0, i as int));
            match self.resolve_item(parent.crate_sibling(&ids[i])) {
                Ok((found, child)) => {
                    out.push((found, Item::Item(child)));
                },
                Err(_) => {},
            }
            i += 1;
        }
        assert(ids@.subrange(0, n as int) =~= ids@);
        out
    }

    /// The identifiers among `ids` that resolve to nothing as symbols of
    /// `package`, in order, each with the reason.
    pub open spec fn missed_all(self, package: Seq<char>, ids: Seq<Id>) -> Seq<(Id, MissKind)>
        decreases ids.len(),
    {
        if ids.len() == 0 {
            Seq::empty()
        } else {
            let rest = self.missed_all(package, ids.drop_last());
            match self.resolve(Key { package, id: ids.last() }) {
                Ok(_) => rest,
                Err(kind) => rest.push((ids.last(), kind)),
            }
        }
    }

    /// What the structure of a symbol lists and the children lack: the
    /// identifiers that resolve to nothing, each with the reason.
    pub open spec fn missed(self, key: Key) -> Seq<(Id, MissKind)> {
        match self.resolve(key) {
            Ok((found, record)) => self.missed_all(found.package, raw_children(record.inner)),
            Err(_) => Seq::empty(),
        }
    }

    /// What the children of a symbol lack, for the record of whoever wants to
    /// know why a listing is short.
    pub fn misses<'a>(&'a self, parent_id: &ItemId<'a>) -> (r: Vec<(Id, Miss<'a>)>)
        ensures
            r.len() == self.missed(parent_id.key()).len(),
            forall|i: int|
                0 <= i < r.len() ==> (#[trigger] r[i]).0 == self.missed(parent_id.key())[i].0
                    && r[i].1.kind == self.missed(parent_id.key())[i].1,
    {
        let mut out: Vec<(Id, Miss<'a>)> = Vec::new();
        let (parent, record) = match self.resolve_item(*parent_id) {
            Ok(found) => found,
            Err(_) => {
                return out;
            },
        };
        let ids = child_ids(record);
        let n = ids.len();
        let mut i: usize = 0;
        while i < n
            invariant
                i <= n,
                n == ids.len(),
                out.len() == self.missed_all(parent.key().package, ids@.subrange(0, i as int)).len(),
                forall|j: int|
                    0 <= j < out.len() ==> (#[trigger] out[j]).0 == self.missed_all(
                        parent.key().package,
                        ids@.subrange(0, i as int),
                    )[j].0 && out[j].1.kind == self.missed_all(
                        parent.key().package,
                        ids@.subrange(0, i as int),
                    )[j].1,
            decreases n - i,
        {
            assert(ids@.subrange(0, i + 1).drop_last() =~= ids@.subrange(0, i as int));
            match self.resolve_item(parent.crate_sibling(&ids[i])) {
                Ok(_) => {},
                Err(miss) => {
                    out.push((ids[i], miss));
                },
            }
            i += 1;
        }
        assert(ids@.subrange(0, n as int) =~= ids@);
        out
    }

    /// The path that the document of an address's package gives for its
    /// identifier.
    pub open spec fn path_of(self, key: Key) -> Option<Seq<Seq<char>>> {
        if key == Key::empty() {
            None
        } else {
            match self.document(key.package) {
                None => None,
                Some(doc) => match doc.summary(key.id) {
                    Some(summary) => Some(summary.segments()),
                    None => None,
                },
            }
        }
    }

    /// The qualified path of a symbol, as its package's document gives it.
    pub fn get_path<'a>(&'a self, id: ItemId<'a>) -> (r: Option<&'a Vec<String>>)
        ensures
            match self.path_of(id.key()) {
                Some(path) => r matches Some(p) && views(p@) == path,
                None => r is None,
            },
    {
        if id.is_empty() {
            return None;
        }
        match self.find_document(id.0.name) {
            None => None,
            Some(doc) => match doc.find_summary(id.1) {
                Some(summary) => Some(&summary.path),
                None => None,
            },
        }
    }

    /// The addresses of the root modules of the first `upto` packages: one
    /// for each package that stands for its name and whose document defines
    /// its root as the root module of the package itself.
    pub open spec fn roots(self, upto: int) -> Seq<Key>
        decreases upto,
    {
        if upto <= 0 || upto > self.crates.len() {
            Seq::empty()
        } else {
            let package = self.crates[upto - 1];
            if self.position_from(package.name@, 0) == Some(upto - 1) && package.doc.is_own_root() {
                self.roots(upto - 1).push(Key { package: package.name@, id: Id(EMPTY) })
            } else {
                self.roots(upto - 1)
            }
        }
    }

    /// The position of the package that stands for `name`.
    pub fn find_position(&self, name: &str) -> (r: Option<usize>)
        ensures
            match r {
                Some(i) => self.position_from(name@, 0) == Some(i as int) && i < self.crates.len(),
                None => self.position_from(name@, 0) is None,
            },
    {
        let n = self.crates.len();
        let mut i: usize = 0;
        while i < n
            invariant
                i <= n,
                n == self.crates.len(),
                self.position_from(name@, 0) == self.position_from(name@, i as int),
            decreases n - i,
        {
            if str_eq(self.crates[i].name.as_str(), name) {
                return Some(i);
            }
            i += 1;
        }
        None
    }

    /// The address of the root module of each loaded package, in the order
    /// of loading.
    pub fn crate_ids<'a>(&'a self) -> (r: Vec<ItemId<'a>>)
        ensures
            r.len() == self.roots(self.crates.len() as int).len(),
            forall|i: int| 0 <= i < r.len() ==> (#[trigger] r[i]).key() == self.roots(
                self.crates.len() as int,
            )[i],
    {
        let mut out: Vec<ItemId<'a>> = Vec::new();
        let n = self.crates.len();
        let mut i: usize = 0;
        while i < n
            invariant
                i <= n,
                n == self.crates.len(),
                out.len() == self.roots(i as int).len(),
                forall|j: int| 0 <= j < out.len() ==> (#[trigger] out[j]).key() == self.roots(
                    i as int,
                )[j],
            decreases n - i,
        {
            let package = &self.crates[i];
            let first = match self.find_position(package.name.as_str()) {
                Some(at) => at == i,
                None => false,
            };
            proof {
                assert(first == (self.position_from(package.name@, 0) == Some(i as int)));
                assert(self.crates[i + 1 - 1] == *package);
            }
            if first && package.doc.has_own_root() {
                out.push(ItemId::crate_root(CrateId { name: package.name.as_str() }));
                assert(self.roots(i + 1) == self.roots(i as int).push(
                    Key { package: package.name@, id: Id(EMPTY) },
                ));
            } else {
                assert(self.roots(i + 1) == self.roots(i as int));
            }
            i += 1;
        }
        out
    }
}

impl Document {
    /// Whether the document is in order: it defines no symbol under the
    /// identifier that stands for none, and each symbol under its own
    /// identifier.
    pub open spec fn wf(self) -> bool {
        &&& !self.index@.contains_key(EMPTY)
        &&& forall|k: u32| self.index@.contains_key(k) ==> (#[trigger] self.index@[k]).id.0 == k
    }
}

impl Analysis {
    /// Whether every loaded document is in order.
    pub open spec fn wf(self) -> bool {
        forall|i: int| 0 <= i < self.crates.len() ==> (#[trigger] self.crates[i]).doc.wf()
    }

    /// A position that a search gives is that of a package of the name.
    pub proof fn lemma_position(self, name: Seq<char>, from: int)
        requires
            0 <= from,
        ensures
            match self.position_from(name, from) {
                Some(i) => from <= i < self.crates.len() && self.crates[i].name@ == name,
                None => true,
            },
        decreases self.crates.len() - from,
    {
        if from < self.crates.len() && self.crates[from].name@ != name {
            self.lemma_position(name, from + 1);
        }
    }

    /// A document that is found under a name is in order where all are.
    pub proof fn lemma_document_wf(self, name: Seq<char>)
        requires
            self.wf(),
        ensures
            match self.document(name) {
                Some(doc) => doc.wf(),
                None => true,
            },
    {
        self.lemma_position(name, 0);
    }

    /// Resolving is idempotent: the address that a resolution gives resolves
    /// to itself and to the same record.
    pub proof fn lemma_resolve_idempotent(self, key: Key)
        requires
            self.wf(),
        ensures
            match self.resolve(key) {
                Ok((found, record)) => self.resolve(found) == Ok::<(Key, Record), MissKind>(
                    (found, record),
                ),
                Err(_) => true,
            },
    {
        match self.resolve(key) {
            Ok((found, record)) => {
                if found != key {
                    let doc = self.document(key.package).unwrap();
                    let id = if key.id.0 == EMPTY {
                        doc.root
                    } else {
                        key.id
                    };
                    let path = doc.summary(id).unwrap().segments();
                    self.lemma_document_wf(path[0]);
                }
            },
            Err(_) => {},
        }
    }

    /// Symbols of one package that differ in their identifiers are apart:
    /// two identifiers that a document defines, neither the one that stands
    /// for none, resolve to different addresses and to different records,
    /// whatever the symbols are called.
    pub proof fn lemma_distinct_symbols(self, package: Seq<char>, first: Id, second: Id)
        requires
            self.wf(),
            first != second,
            self.document(package) matches Some(doc) && doc.index@.contains_key(first.0)
                && doc.index@.contains_key(second.0),
        ensures
            self.resolve(Key { package, id: first }) matches Ok((a, x)) && self.resolve(
                Key { package, id: second },
            ) matches Ok((b, y)) && a != b && x.id != y.id && x != y,
    {
        self.lemma_document_wf(package);
    }
}

/// Whether `less` holds the documents of `all` but for the one called `gone`.
pub open spec fn without(all: Analysis, less: Analysis, gone: Seq<char>) -> bool {
    &&& less.document(gone) is None
    &&& forall|name: Seq<char>| name != gone ==> #[trigger] less.document(name) == all.document(name)
}

/// The symbols that were not found in the package `gone`.
pub open spec fn outside(found: Seq<(Key, Record)>, gone: Seq<char>) -> Seq<(Key, Record)>
    decreases found.len(),
{
    if found.len() == 0 {
        Seq::empty()
    } else if found.last().0.package == gone {
        outside(found.drop_last(), gone)
    } else {
        outside(found.drop_last(), gone).push(found.last())
    }
}

/// Taking one package's document away leaves the resolution in the other
/// packages as it was, but for the references into that package: those
/// resolve to nothing.
pub proof fn lemma_resolve_without(all: Analysis, less: Analysis, gone: Seq<char>, key: Key)
    requires
        without(all, less, gone),
        key.package != gone,
    ensures
        match all.resolve(key) {
            Ok((found, record)) => if found.package == gone {
                less.resolve(key) is Err
            } else {
                less.resolve(key) == all.resolve(key)
            },
            Err(_) => less.resolve(key) is Err,
        },
{
    if key != Key::empty() {
        assert(less.document(key.package) == all.document(key.package));
        match all.document(key.package) {
            Some(doc) => {
                let id = if key.id.0 == EMPTY {
                    doc.root
                } else {
                    key.id
                };
                if !doc.index@.contains_key(id.0) {
                    match doc.summary(id) {
                        Some(summary) => {
                            let path = summary.segments();
                            if path.len() > 0 && path[0] != gone {
                                assert(less.document(path[0]) == all.document(path[0]));
                            }
                        },
                        None => {},
                    }
                }
            },
            None => {},
        }
    }
}

/// Taking one package's document away takes from the children of a symbol of
/// another package those that were found in that package, and no others; a
/// symbol that was itself found in that package has no children any more.
pub proof fn lemma_children_without(all: Analysis, less: Analysis, gone: Seq<char>, key: Key)
    requires
        without(all, less, gone),
        key.package != gone,
    ensures
        less.children(key) == if all.resolve(key) matches Ok((found, _)) && found.package != gone {
            outside(all.children(key), gone)
        } else {
            Seq::empty()
        },
{
    lemma_resolve_without(all, less, gone, key);
    match all.resolve(key) {
        Ok((found, record)) => {
            if found.package != gone {
                lemma_resolve_all_without(
                    all,
                    less,
                    gone,
                    found.package,
                    raw_children(record.inner),
                );
            }
        },
        Err(_) => {},
    }
}

proof fn lemma_resolve_all_without(
    all: Analysis,
    less: Analysis,
    gone: Seq<char>,
    package: Seq<char>,
    ids: Seq<Id>,
)
    requires
        without(all, less, gone),
        package != gone,
    ensures
        less.resolve_all(package, ids) == outside(all.resolve_all(package, ids), gone),
    decreases ids.len(),
{
    if ids.len() > 0 {
        lemma_resolve_all_without(all, less, gone, package, ids.drop_last());
        lemma_resolve_without(all, less, gone, Key { package, id: ids.last() });
        let rest = all.resolve_all(package, ids.drop_last());
        match all.resolve(Key { package, id: ids.last() }) {
            Ok(found) => {
                assert(rest.push(found).drop_last() =~= rest);
            },
            Err(_) => {},
        }
    }
}

/// The first of the identifiers that resolves comes first among what they
/// all resolve to.
pub proof fn lemma_resolve_all_first(a: Analysis, package: Seq<char>, ids: Seq<Id>)
    requires
        ids.len() > 0,
        a.resolve(Key { package, id: ids[0] }) is Ok,
    ensures
        a.resolve_all(package, ids).len() > 0,
        Ok::<(Key, Record), MissKind>(a.resolve_all(package, ids)[0]) == a.resolve(
            Key { package, id: ids[0] },
        ),
    decreases ids.len(),
{
    if ids.len() > 1 {
        assert(ids.drop_last()[0] == ids[0]);
        lemma_resolve_all_first(a, package, ids.drop_last());
    } else {
        assert(ids.drop_last().len() == 0);
        assert(ids.last() == ids[0]);
        assert(a.resolve_all(package, ids.drop_last()) =~= Seq::empty());
    }
}

/// An implementation block lists its own members, in their order, and after
/// them the interface that it implements: a member that the block overrides
/// shows in the block, and what the interface provides shows under the
/// interface.
pub proof fn lemma_block_children(a: Analysis, key: Key)
    requires
        a.resolve(key) matches Ok((_, record)) && record.inner is Impl,
    ensures
        ({
            &&& a.resolve(key) matches Ok((found, record))
            &&& record.inner matches RecordKind::Impl {
                trait_,
                items,
                automatically_derived,
                blanket,
                synthetic,
            }
            &&& a.children(key) == a.resolve_all(found.package, items@) + match trait_ {
                Some(t) => match a.resolve(found.sibling(t.id)) {
                    Ok(interface) => seq![interface],
                    Err(_) => Seq::empty(),
                },
                None => Seq::empty(),
            }
        }),
{
    let (found, record) = a.resolve(key).unwrap();
    match record.inner {
        RecordKind::Impl { trait_, items, automatically_derived, blanket, synthetic } => {
            match trait_ {
                Some(t) => {
                    let ids = items@ + seq![t.id];
                    assert(ids.drop_last() =~= items@);
                    assert(ids.last() == t.id);
                    match a.resolve(found.sibling(t.id)) {
                        Ok(interface) => {
                            assert(a.resolve_all(found.package, items@).push(interface)
                                =~= a.resolve_all(found.package, items@) + seq![interface]);
                        },
                        Err(_) => {
                            assert(a.resolve_all(found.package, items@) + Seq::<
                                (Key, Record),
                            >::empty() =~= a.resolve_all(found.package, items@));
                        },
                    }
                },
                None => {
                    assert(items@ + Seq::<Id>::empty() =~= items@);
                    assert(a.resolve_all(found.package, items@) + Seq::<(Key, Record)>::empty()
                        =~= a.resolve_all(found.package, items@));
                },
            }
        },
        _ => {},
    }
}

} // verus!
