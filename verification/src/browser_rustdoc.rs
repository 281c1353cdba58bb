//! The browser over loaded documents: labels for symbols and, level by
//! level, the listing of what a symbol holds.

use crate::analysis::{
    dump_text, lemma_resolve_all_first, raw_children, same_entries, Analysis, Item, ItemId, Key,
};
use crate::browser_trait::Browser;
use crate::labels::{args_text, generic_label, path_text, type_label, type_text};
use crate::model::{Fields, Id, PathRef, Record, RecordKind, Signature, Span, Type};
use crate::order::{labelled, lemma_sorted_related, related, sort_by_label, sorted_by_label};
use crate::text::{decimal, join, join_strings, push_decimal, str_eq, views};
use crate::walk::{distinct, lemma_distinct_first, type_ids, walk};
use vstd::prelude::*;
use vstd::string::StringExecFns;

verus! {

/// The browser. It owns the loaded documents and changes nothing in them.
#[derive(Debug)]
pub struct RustdocBrowser {
    pub analysis: Analysis,
}

/// The name of a symbol, or a placeholder where it has none.
pub open spec fn name_text(record: Record) -> Seq<char> {
    match record.name {
        Some(n) => n@,
        None => "<unnamed>"@,
    }
}

/// The type that a variant wraps, where the variant is a tuple of exactly one
/// field and that field resolves to a field symbol.
pub open spec fn wrapped_type(a: Analysis, key: Key, kind: RecordKind) -> Option<Type> {
    match kind {
        RecordKind::Variant(Fields::Tuple(ids)) => if ids.len() == 1 {
            match ids[0] {
                Some(field) => match a.resolve(key.sibling(field)) {
                    Ok((_, record)) => match record.inner {
                        RecordKind::StructField(ty) => Some(ty),
                        _ => None,
                    },
                    Err(_) => None,
                },
                None => None,
            }
        } else {
            None
        },
        _ => None,
    }
}

/// How an implementation block names the interface that it implements: by
/// the interface's own name where its path starts in the package of the
/// block or is not known, by the full path otherwise; then the generic
/// arguments.
pub open spec fn trait_text(a: Analysis, key: Key, t: PathRef) -> Seq<char> {
    (match a.path_of(key.sibling(t.id)) {
        Some(path) => if path.len() == 0 || path[0] == key.package {
            t.name@
        } else {
            join(path, "::"@)
        },
        None => t.name@,
    }) + match t.args {
        Some(g) => args_text(*g),
        None => Seq::empty(),
    }
}

/// The label under which a listing shows the symbol found at `key`.
pub open spec fn label_text(a: Analysis, key: Key, record: Record) -> Seq<char> {
    let name = name_text(record);
    match record.inner {
        RecordKind::Module { is_crate, items } => "mod "@ + name,
        RecordKind::ExternCrate { name: other } => "extern crate "@ + other@,
        RecordKind::Use { source, glob } => "use "@ + source@ + if glob {
            "::*"@
        } else {
            Seq::empty()
        },
        RecordKind::Union { fields, impls } => "union "@ + name,
        RecordKind::Struct { fields, impls } => "struct "@ + name,
        RecordKind::StructField(ty) => name + ": "@ + type_text(ty),
        RecordKind::Enum { variants, impls } => "enum "@ + name,
        RecordKind::Variant(fields) => match wrapped_type(a, key, record.inner) {
            Some(ty) => "variant "@ + name + "("@ + type_text(ty) + ")"@,
            None => "variant "@ + name,
        },
        RecordKind::Function(sig) => "fn "@ + name,
        RecordKind::Trait { items } => "trait "@ + name,
        RecordKind::TraitAlias => "trait alias "@ + name,
        RecordKind::Impl { trait_, items, automatically_derived, blanket, synthetic } => match trait_ {
            Some(t) => "impl "@ + trait_text(a, key, t),
            None => "impl Self"@,
        },
        RecordKind::TypeAlias(ty) => "type "@ + name,
        RecordKind::OpaqueTy => "opaque type "@ + name,
        RecordKind::Constant(ty) => "const "@ + name + ": "@ + type_text(ty),
        RecordKind::Static(ty) => "static "@ + name + ": "@ + type_text(ty),
        RecordKind::ForeignType => "extern type "@ + name,
        RecordKind::Macro => "macro "@ + name,
        RecordKind::ProcMacro => "proc macro "@ + name,
        RecordKind::Primitive => " "@ + name,
        RecordKind::AssocConst { type_, default } => "const "@ + name + ": "@ + type_text(type_)
            + match default {
            Some(d) => " = "@ + d@,
            None => Seq::empty(),
        },
        RecordKind::AssocType { default } => "type "@ + name + match default {
            Some(ty) => " = "@ + type_text(ty),
            None => Seq::empty(),
        },
    }
}

/// How many levels a listing skips at most, one after another, before it
/// shows a level as it is. Documents whose references run in a circle cannot
/// make a listing run on.
pub const SKIP_LIMIT: usize = 16;

/// Whether a listing leaves the symbol out: an implementation block that was
/// derived automatically, that is a blanket one, or that the tool made up.
pub open spec fn hidden(record: Record) -> bool {
    record.inner matches RecordKind::Impl { trait_, items, automatically_derived, blanket, synthetic }
        && (automatically_derived || blanket || synthetic)
}

/// The symbols with their labels, in order, without the hidden ones.
pub open spec fn labelled_children(a: Analysis, kids: Seq<(Key, Record)>) -> Seq<
    (Seq<char>, (Key, Record)),
>
    decreases kids.len(),
{
    if kids.len() == 0 {
        Seq::empty()
    } else {
        let rest = labelled_children(a, kids.drop_last());
        let (key, record) = kids.last();
        if hidden(record) {
            rest
        } else {
            rest.push((label_text(a, key, record), (key, record)))
        }
    }
}

/// Whether a listing skips the level of this symbol: a field, whose label
/// names its type already, and a variant that wraps one type.
pub open spec fn skipped(a: Analysis, key: Key, record: Record) -> bool {
    record.inner is StructField || wrapped_type(a, key, record.inner) is Some
}

/// Whether a listing has to choose where it skips the level of the symbol at
/// `key`: the level is skipped and holds more than one child.
pub open spec fn skips_among_several(a: Analysis, key: Key) -> bool {
    a.resolve(key) matches Ok((found, record)) && skipped(a, found, record) && labelled_children(
        a,
        a.children(key),
    ).len() > 1
}

/// What tells apart the entries of one parameter that refers to several
/// symbols.
pub open spec fn ordinal(i: nat) -> Seq<char> {
    " (#"@ + decimal(i) + ")"@
}

/// The entries that stand for one parameter or for the result of a function:
/// one for each symbol that its type refers to, numbered where there are
/// several, and one that leads nowhere where there is none.
pub open spec fn synthetic_for(prefix: Seq<char>, ty: Type, owner: Key, record: Record) -> Seq<
    (Seq<char>, (Key, Record)),
> {
    let ids = distinct(walk(ty));
    let base = prefix + " "@ + type_text(ty);
    if ids.len() == 0 {
        seq![(base, (Key::empty(), record))]
    } else {
        Seq::new(
            ids.len(),
            |i: int|
                (base + if ids.len() > 1 {
                    ordinal(i as nat)
                } else {
                    Seq::empty()
                }, (owner.sibling(ids[i]), record)),
        )
    }
}

/// The entries that stand for the parameters, in the order of declaration.
pub open spec fn synthetic_inputs(inputs: Seq<(String, Type)>, owner: Key, record: Record) -> Seq<
    (Seq<char>, (Key, Record)),
>
    decreases inputs.len(),
{
    if inputs.len() == 0 {
        Seq::empty()
    } else {
        synthetic_inputs(inputs.drop_last(), owner, record) + synthetic_for(
            inputs.last().0@ + ":"@,
            inputs.last().1,
            owner,
            record,
        )
    }
}

/// The entries that stand for the signature of a function: its parameters,
/// then its result.
pub open spec fn synthetic(sig: Signature, owner: Key, record: Record) -> Seq<
    (Seq<char>, (Key, Record)),
> {
    synthetic_inputs(sig.inputs@, owner, record) + match sig.output {
        Some(ty) => synthetic_for("->"@, ty, owner, record),
        None => Seq::empty(),
    }
}

/// The entries that a symbol contributes besides its children.
pub open spec fn synthetic_of(owner: Key, record: Record) -> Seq<(Seq<char>, (Key, Record))> {
    match record.inner {
        RecordKind::Function(sig) => synthetic(sig, owner, record),
        _ => Seq::empty(),
    }
}

/// The listing of what the symbol at `key` holds, skipping at most `skips`
/// levels.
///
/// An address that resolves to nothing lists nothing. The children are
/// labelled, without the hidden ones. Where the level is skipped and has a
/// child, the listing is that of the first child. Otherwise it is the
/// entries for the signature, if the symbol is a function, and the children,
/// in the order of their labels.
pub open spec fn listing(a: Analysis, key: Key, skips: nat) -> Seq<(Seq<char>, (Key, Record))>
    decreases skips,
{
    match a.resolve(key) {
        Err(_) => Seq::empty(),
        Ok((found, record)) => {
            let kids = labelled_children(a, a.children(key));
            if skipped(a, found, record) && kids.len() > 0 && skips > 0 {
                listing(a, kids[0].1.0, (skips - 1) as nat)
            } else {
                sorted_by_label(synthetic_of(found, record) + kids)
            }
        },
    }
}

/// Whether a listing holds exactly the given entries, in order.
pub open spec fn same_listing(
    got: Seq<(Seq<char>, (ItemId, Item))>,
    entries: Seq<(Seq<char>, (Key, Record))>,
) -> bool {
    &&& got.len() == entries.len()
    &&& forall|i: int|
        0 <= i < got.len() ==> (#[trigger] got[i]).0 == entries[i].0 && got[i].1.0.key()
            == entries[i].1.0 && got[i].1.1.is_record(entries[i].1.1)
}

/// Sorting by label keeps two listings the same, entry by entry.
pub proof fn lemma_sorted_same(
    got: Seq<(Seq<char>, (ItemId, Item))>,
    entries: Seq<(Seq<char>, (Key, Record))>,
)
    requires
        same_listing(got, entries),
    ensures
        same_listing(sorted_by_label(got), sorted_by_label(entries)),
{
    let rel = |p: (ItemId, Item), q: (Key, Record)| p.0.key() == q.0 && p.1.is_record(q.1);
    assert(related(got, entries, rel));
    lemma_sorted_related(got, entries, rel);
}

/// Two listings written one after the other are the same as their entries
/// written one after the other.
pub proof fn lemma_same_concat(
    a: Seq<(String, (ItemId, Item))>,
    b: Seq<(String, (ItemId, Item))>,
    x: Seq<(Seq<char>, (Key, Record))>,
    y: Seq<(Seq<char>, (Key, Record))>,
)
    requires
        same_listing(labelled(a), x),
        same_listing(labelled(b), y),
    ensures
        same_listing(labelled(a + b), x + y),
{
    let got = labelled(a + b);
    let all = x + y;
    assert forall|i: int| 0 <= i < got.len() implies (#[trigger] got[i]).0 == all[i].0
        && got[i].1.0.key() == all[i].1.0 && got[i].1.1.is_record(all[i].1.1) by {
        if i < a.len() {
            assert(got[i] == labelled(a)[i]);
        } else {
            assert(got[i] == labelled(b)[i - a.len()]);
        }
    }
}

/// Whether a listing leaves the symbol out.
pub fn is_hidden(record: &Record) -> (r: bool)
    ensures
        r == hidden(*record),
{
    match &record.inner {
        RecordKind::Impl { trait_, items, automatically_derived, blanket, synthetic } => {
            *automatically_derived || *blanket || *synthetic
        },
        _ => false,
    }
}

/// The entries that stand for one parameter or for the result of a function.
fn synthetic_entries<'a>(prefix: &str, ty: &Type, owner: ItemId<'a>, record: &'a Record) -> (r:
    Vec<(String, (ItemId<'a>, Item<'a>))>)
    ensures
        same_listing(labelled(r@), synthetic_for(prefix@, *ty, owner.key(), *record)),
{
    let mut base = String::from_str(prefix);
    base.append(" ");
    let text = type_label(ty);
    base.append(text.as_str());
    let ids = type_ids(ty);
    let mut out: Vec<(String, (ItemId<'a>, Item<'a>))> = Vec::new();
    let ghost want = synthetic_for(prefix@, *ty, owner.key(), *record);
    if ids.len() == 0 {
        out.push((base, (ItemId::empty(), Item::Item(record))));
        assert(labelled(out@)[0].0 =~= want[0].0);
        return out;
    }
    let n = ids.len();
    let mut i: usize = 0;
    while i < n
        invariant
            i <= n,
            n == ids.len(),
            n > 0,
            ids@ == distinct(walk(*ty)),
            base@ == prefix@ + " "@ + type_text(*ty),
            want == synthetic_for(prefix@, *ty, owner.key(), *record),
            out.len() == i,
            forall|j: int|
                0 <= j < i ==> (#[trigger] out@[j]).0@ == want[j].0 && out@[j].1.0.key()
                    == want[j].1.0 && out@[j].1.1.is_record(want[j].1.1),
        decreases n - i,
    {
        let mut label = base.clone();
        if n > 1 {
            label.append(" (#");
            push_decimal(&mut label, i);
            label.append(")");
        }
        proof {
            assert(label@ =~= want[i as int].0);
        }
        out.push((label, (owner.crate_sibling(&ids[i]), Item::Item(record))));
        i += 1;
    }
    out
}

/// The entries that stand for the signature of a function.
fn signature_entries<'a>(sig: &Signature, owner: ItemId<'a>, record: &'a Record) -> (r: Vec<
    (String, (ItemId<'a>, Item<'a>)),
>)
    ensures
        same_listing(labelled(r@), synthetic(*sig, owner.key(), *record)),
{
    let mut out: Vec<(String, (ItemId<'a>, Item<'a>))> = Vec::new();
    let n = sig.inputs.len();
    let mut i: usize = 0;
    while i < n
        invariant
            i <= n,
            n == sig.inputs.len(),
            same_listing(
                labelled(out@),
                synthetic_inputs(sig.inputs@.subrange(0, i as int), owner.key(), *record),
            ),
        decreases n - i,
    {
        let mut prefix = sig.inputs[i].0.clone();
        prefix.append(":");
        let mut more = synthetic_entries(prefix.as_str(), &sig.inputs[i].1, owner, record);
        proof {
            assert(sig.inputs@.subrange(0, i + 1).drop_last() =~= sig.inputs@.subrange(
                0,
                i as int,
            ));
            lemma_same_concat(
                out@,
                more@,
                synthetic_inputs(sig.inputs@.subrange(0, i as int), owner.key(), *record),
                synthetic_for(prefix@, sig.inputs@[i as int].1, owner.key(), *record),
            );
        }
        out.append(&mut more);
        i += 1;
    }
    assert(sig.inputs@.subrange(0, n as int) =~= sig.inputs@);
    match &sig.output {
        Some(ty) => {
            let mut more = synthetic_entries("->", ty, owner, record);
            proof {
                lemma_same_concat(
                    out@,
                    more@,
                    synthetic_inputs(sig.inputs@, owner.key(), *record),
                    synthetic_for("->"@, *ty, owner.key(), *record),
                );
            }
            out.append(&mut more);
        },
        None => {
            assert(synthetic(*sig, owner.key(), *record) =~= synthetic_inputs(
                sig.inputs@,
                owner.key(),
                *record,
            ));
        },
    }
    out
}

/// The packages under their names, as a listing before it is sorted.
pub open spec fn package_entries(roots: Seq<Key>) -> Seq<(Seq<char>, Key)> {
    Seq::new(roots.len(), |i: int| (roots[i].package, roots[i]))
}

/// The listing of the loaded packages: each under its name, in the order of
/// the names.
pub open spec fn packages(a: Analysis) -> Seq<(Seq<char>, Key)> {
    sorted_by_label(package_entries(a.roots(a.crates.len() as int)))
}

/// Whether a listing of packages holds exactly the given entries, in order.
pub open spec fn same_packages(got: Seq<(Seq<char>, ItemId)>, entries: Seq<(Seq<char>, Key)>) -> bool {
    &&& got.len() == entries.len()
    &&& forall|i: int|
        0 <= i < got.len() ==> (#[trigger] got[i]).0 == entries[i].0 && got[i].1.key()
            == entries[i].1
}

/// What std's `Debug` writes for a string: the string in double quotes, with
/// escapes where std sees them due.
pub uninterp spec fn debug_text(s: Seq<char>) -> Seq<char>;

/// What is to be said of where a symbol is defined.
pub open spec fn place_text(quoted: Seq<char>, line: nat) -> Seq<char> {
    "defined in "@ + quoted + "\nstarting on line "@ + decimal(line)
}

/// The description of a symbol: its documentation, each on a line of its
/// own, and where it is defined; for the root of a package, that it is one.
pub open spec fn info_text(item: Item) -> Seq<char> {
    match item {
        Item::Root => "crate root"@,
        Item::Item(record) => (match record.docs {
            Some(docs) => docs@ + "\n"@,
            None => Seq::empty(),
        }) + match record.span {
            Some(span) => place_text(debug_text(span.filename@), span.begin_line as nat),
            None => Seq::empty(),
        },
    }
}

/// The text of a source file, as it was read.
#[derive(Debug)]
pub enum SourceText {
    /// The lines of the file, without their line ends.
    Lines(Vec<String>),
    /// Why the file could not be opened.
    Failed(String),
}

/// The lines from `from` on, each after its number, a colon and a space, and
/// each ended by a line end. Numbers count from one.
pub open spec fn numbered(lines: Seq<Seq<char>>, upto: int) -> Seq<char>
    decreases upto,
{
    if upto <= 0 || upto > lines.len() {
        Seq::empty()
    } else {
        numbered(lines, upto - 1) + decimal(upto as nat) + ": "@ + lines[upto - 1] + "\n"@
    }
}

/// The span of a symbol, where it has one.
pub open spec fn span_of(item: Item) -> Option<Span> {
    match item {
        Item::Root => None,
        Item::Item(record) => record.span,
    }
}

/// The source of a symbol for showing, and the line to show first, counted
/// from zero. A symbol without a span has neither. A file that could not be
/// opened is shown as the reason why.
pub open spec fn source_text(item: Item, text: SourceText) -> (Seq<char>, Option<usize>) {
    match span_of(item) {
        None => (Seq::empty(), None),
        Some(span) => match text {
            SourceText::Lines(lines) => (
                numbered(views(lines@), lines.len() as int),
                Some(
                    if span.begin_line > 0 {
                        (span.begin_line - 1) as usize
                    } else {
                        0usize
                    },
                ),
            ),
            SourceText::Failed(why) => ("Error opening source: "@ + why@, Some(0usize)),
        },
    }
}

/// Calls `format!` with `{:?}` on a string slice, which is `fmt` of std's
/// `Debug` for `str`. The contract gives the result its name, `debug_text` of
/// the argument, and claims nothing of what it holds.
#[verifier::external_body]
fn debug_quoted(s: &str) -> (r: String)
    ensures
        r@ == debug_text(s@),
{
    format!("{:?}", s)
}

/// Calls `format!` with `{:#?}` on an item, which is std's pretty form of
/// the derived `Debug`. The contract names the result: `dump_text` of it.
#[verifier::external_body]
fn debug_dump(item: &Item) -> (r: String)
    ensures r@ == dump_text(*item),
{ format!("{:#?}", item) }

/// The description of a symbol from its documentation and from the place of
/// its definition: the file name as it is to be shown, and the line.
pub fn describe(docs: Option<&str>, place: Option<(&str, usize)>) -> (r: String)
    ensures
        r@ == (match docs {
            Some(d) => d@ + "\n"@,
            None => Seq::empty(),
        }) + match place {
            Some((quoted, line)) => place_text(quoted@, line as nat),
            None => Seq::empty(),
        },
{
    let mut out = String::new();
    match docs {
        Some(d) => {
            out.append(d);
            out.append("\n");
        },
        None => {},
    }
    match place {
        Some((quoted, line)) => {
            out.append("defined in ");
            out.append(quoted);
            out.append("\nstarting on line ");
            push_decimal(&mut out, line);
        },
        None => {},
    }
    assert(out@ =~= (match docs {
        Some(d) => d@ + "\n"@,
        None => Seq::empty(),
    }) + match place {
        Some((quoted, line)) => place_text(quoted@, line as nat),
        None => Seq::empty(),
    });
    out
}

/// The lines of a file, each after its number.
pub fn number_lines(lines: &Vec<String>) -> (r: String)
    ensures
        r@ == numbered(views(lines@), lines.len() as int),
{
    let mut out = String::new();
    let n = lines.len();
    let mut i: usize = 0;
    while i < n
        invariant
            i <= n,
            n == lines.len(),
            out@ == numbered(views(lines@), i as int),
        decreases n - i,
    {
        push_decimal(&mut out, i + 1);
        out.append(": ");
        out.append(lines[i].as_str());
        out.append("\n");
        assert(out@ =~= numbered(views(lines@), i + 1));
        i += 1;
    }
    out
}

fn prefixed(prefix: &str, name: &str) -> (r: String)
    ensures
        r@ == prefix@ + name@,
{
    let mut out = String::from_str(prefix);
    out.append(name);
    out
}

fn typed(prefix: &str, name: &str, ty: &Type) -> (r: String)
    ensures
        r@ == prefix@ + name@ + ": "@ + type_text(*ty),
{
    let mut out = String::from_str(prefix);
    out.append(name);
    out.append(": ");
    let t = type_label(ty);
    out.append(t.as_str());
    out
}

impl RustdocBrowser {
    /// A browser over the loaded documents.
    pub fn new(analysis: Analysis) -> (r: Self)
        ensures
            r.analysis == analysis,
    {
        Self { analysis }
    }

    /// The type that a variant wraps, where it is a tuple of exactly one
    /// field that resolves to a field symbol.
    pub fn single_element_tuple_variant<'a>(&'a self, kind: &'a RecordKind, id: ItemId<'a>) -> (r:
        Option<&'a Type>)
        ensures
            match wrapped_type(self.analysis, id.key(), *kind) {
                Some(ty) => r == Some(&ty),
                None => r is None,
            },
    {
        if let RecordKind::Variant(Fields::Tuple(ids)) = kind {
            if ids.len() == 1 {
                if let Some(field) = &ids[0] {
                    if let Ok((_, record)) = self.analysis.resolve_item(id.crate_sibling(field)) {
                        if let RecordKind::StructField(ty) = &record.inner {
                            return Some(ty);
                        }
                    }
                }
            }
        }
        None
    }

    fn trait_label<'a>(&'a self, id: ItemId<'a>, t: &PathRef) -> (r: String)
        ensures
            r@ == trait_text(self.analysis, id.key(), *t),
    {
        let mut out = match self.analysis.get_path(id.crate_sibling(&t.id)) {
            Some(path) => {
                if path.len() == 0 {
                    t.name.clone()
                } else {
                    assert(views(path@)[0] == path@[0]@);
                    if str_eq(path[0].as_str(), id.crate_name()) {
                        t.name.clone()
                    } else {
                        join_strings(path, "::")
                    }
                }
            },
            None => t.name.clone(),
        };
        match &t.args {
            Some(g) => {
                let args = generic_label(g);
                out.append(args.as_str());
            },
            None => {},
        }
        out
    }

    /// The label under which a listing shows a symbol.
    pub fn item_label<'a>(&'a self, id: ItemId<'a>, item: &'a Record) -> (r: String)
        ensures
            r@ == label_text(self.analysis, id.key(), *item),
    {
        let name: &str = match &item.name {
            Some(n) => n.as_str(),
            None => "<unnamed>",
        };
        let out = match &item.inner {
            RecordKind::Module { is_crate, items } => prefixed("mod ", name),
            RecordKind::ExternCrate { name: other } => prefixed("extern crate ", other.as_str()),
            RecordKind::Use { source, glob } => {
                let mut out = prefixed("use ", source.as_str());
                if *glob {
                    out.append("::*");
                }
                out
            },
            RecordKind::Union { fields, impls } => prefixed("union ", name),
            RecordKind::Struct { fields, impls } => prefixed("struct ", name),
            RecordKind::StructField(ty) => {
                proof {
                    reveal_strlit("");
                    assert(""@ + name@ =~= name@);
                }
                typed("", name, ty)
            },
            RecordKind::Enum { variants, impls } => prefixed("enum ", name),
            RecordKind::Variant(fields) => {
                let mut out = prefixed("variant ", name);
                match self.single_element_tuple_variant(&item.inner, id) {
                    Some(ty) => {
                        out.append("(");
                        let t = type_label(ty);
                        out.append(t.as_str());
                        out.append(")");
                    },
                    None => {},
                }
                out
            },
            RecordKind::Function(sig) => prefixed("fn ", name),
            RecordKind::Trait { items } => prefixed("trait ", name),
            RecordKind::TraitAlias => prefixed("trait alias ", name),
            RecordKind::Impl { trait_, items, automatically_derived, blanket, synthetic } => {
                match trait_ {
                    Some(t) => {
                        let label = self.trait_label(id, t);
                        prefixed("impl ", label.as_str())
                    },
                    None => String::from_str("impl Self"),
                }
            },
            RecordKind::TypeAlias(ty) => prefixed("type ", name),
            RecordKind::OpaqueTy => prefixed("opaque type ", name),
            RecordKind::Constant(ty) => typed("const ", name, ty),
            RecordKind::Static(ty) => typed("static ", name, ty),
            RecordKind::ForeignType => prefixed("extern type ", name),
            RecordKind::Macro => prefixed("macro ", name),
            RecordKind::ProcMacro => prefixed("proc macro ", name),
            RecordKind::Primitive => prefixed(" ", name),
            RecordKind::AssocConst { type_, default } => {
                let mut out = typed("const ", name, type_);
                match default {
                    Some(d) => {
                        out.append(" = ");
                        out.append(d.as_str());
                    },
                    None => {},
                }
                out
            },
            RecordKind::AssocType { default } => {
                let mut out = prefixed("type ", name);
                match default {
                    Some(ty) => {
                        out.append(" = ");
                        let t = type_label(ty);
                        out.append(t.as_str());
                    },
                    None => {},
                }
                out
            },
        };
        assert(out@ =~= label_text(self.analysis, id.key(), *item));
        out
    }

    /// The children of a symbol with their labels, without the hidden ones.
    fn labelled_items<'a>(&'a self, parent_id: &ItemId<'a>) -> (r: Vec<
        (String, (ItemId<'a>, Item<'a>)),
    >)
        ensures
            same_listing(
                labelled(r@),
                labelled_children(self.analysis, self.analysis.children(parent_id.key())),
            ),
    {
        let kids = self.analysis.items(parent_id);
        let ghost all = self.analysis.children(parent_id.key());
        let mut out: Vec<(String, (ItemId<'a>, Item<'a>))> = Vec::new();
        let n = kids.len();
        let mut i: usize = 0;
        while i < n
            invariant
                i <= n,
                n == kids.len(),
                same_entries(kids@, all),
                same_listing(
                    labelled(out@),
                    labelled_children(self.analysis, all.subrange(0, i as int)),
                ),
            decreases n - i,
        {
            let (id, item) = kids[i];
            proof {
                assert(all.subrange(0, i + 1).drop_last() =~= all.subrange(0, i as int));
                assert(kids@[i as int].0.key() == all[i as int].0);
            }
            match item {
                Item::Item(record) => {
                    if !is_hidden(record) {
                        let label = self.item_label(id, record);
                        let ghost before = out@;
                        out.push((label, (id, item)));
                        proof {
                            let want = labelled_children(self.analysis, all.subrange(0, i + 1));
                            let got = labelled(out@);
                            assert forall|j: int| 0 <= j < got.len() implies (#[trigger] got[j]).0
                                == want[j].0 && got[j].1.0.key() == want[j].1.0
                                && got[j].1.1.is_record(want[j].1.1) by {
                                if j < before.len() {
                                    assert(got[j] == labelled(before)[j]);
                                }
                            }
                        }
                    }
                },
                Item::Root => {},
            }
            i += 1;
        }
        assert(all.subrange(0, n as int) =~= all);
        out
    }

    /// Whether the listing of a symbol skips a level that holds more than one
    /// child. The listing then goes on with the first of them; who takes the
    /// skipped level for one of a single child can ask here.
    pub fn skips_among_several<'a>(&'a self, parent_id: &ItemId<'a>) -> (r: bool)
        ensures
            r == skips_among_several(self.analysis, parent_id.key()),
    {
        let (found, record) = match self.analysis.resolve_item(*parent_id) {
            Ok(found) => found,
            Err(_) => {
                return false;
            },
        };
        let skip = match &record.inner {
            RecordKind::StructField(_) => true,
            _ => self.single_element_tuple_variant(&record.inner, found).is_some(),
        };
        skip && self.labelled_items(parent_id).len() > 1
    }

    /// The listing of what a symbol holds, skipping at most `skips` levels.
    pub fn list_items_within<'a>(&'a self, parent_id: &ItemId<'a>, skips: usize) -> (r: Vec<
        (String, (ItemId<'a>, Item<'a>)),
    >)
        ensures
            same_listing(labelled(r@), listing(self.analysis, parent_id.key(), skips as nat)),
        decreases skips,
    {
        let (found, record) = match self.analysis.resolve_item(*parent_id) {
            Ok(found) => found,
            Err(_) => {
                return Vec::new();
            },
        };
        let mut items = self.labelled_items(parent_id);
        let skip = match &record.inner {
            RecordKind::StructField(_) => true,
            _ => self.single_element_tuple_variant(&record.inner, found).is_some(),
        };
        if skip && items.len() > 0 && skips > 0 {
            let first = items[0].1.0;
            assert(labelled(items@)[0].1.0 == first);
            return self.list_items_within(&first, skips - 1);
        }
        let mut out: Vec<(String, (ItemId<'a>, Item<'a>))> = match &record.inner {
            RecordKind::Function(sig) => signature_entries(sig, found, record),
            _ => Vec::new(),
        };
        proof {
            lemma_same_concat(
                out@,
                items@,
                synthetic_of(found.key(), *record),
                labelled_children(self.analysis, self.analysis.children(parent_id.key())),
            );
        }
        out.append(&mut items);
        let ghost unsorted = out@;
        sort_by_label(&mut out);
        proof {
            lemma_sorted_same(
                labelled(unsorted),
                synthetic_of(found.key(), *record) + labelled_children(
                    self.analysis,
                    self.analysis.children(parent_id.key()),
                ),
            );
        }
        out
    }

    /// The listing of what a symbol holds: its children under their labels,
    /// in the order of the labels.
    pub fn list_items<'a>(&'a self, parent_id: &ItemId<'a>) -> (r: Vec<
        (String, (ItemId<'a>, Item<'a>)),
    >)
        ensures
            same_listing(
                labelled(r@),
                listing(self.analysis, parent_id.key(), SKIP_LIMIT as nat),
            ),
    {
        self.list_items_within(parent_id, SKIP_LIMIT)
    }

    /// The loaded packages, each under its name, in the order of the names.
    pub fn list_crates<'a>(&'a self) -> (r: Vec<(String, ItemId<'a>)>)
        ensures
            same_packages(labelled(r@), packages(self.analysis)),
    {
        let ids = self.analysis.crate_ids();
        let ghost roots = self.analysis.roots(self.analysis.crates.len() as int);
        let mut out: Vec<(String, ItemId<'a>)> = Vec::new();
        let n = ids.len();
        let mut i: usize = 0;
        while i < n
            invariant
                i <= n,
                n == ids.len(),
                n == roots.len(),
                forall|j: int| 0 <= j < n ==> (#[trigger] ids@[j]).key() == roots[j],
                out.len() == i,
                forall|j: int|
                    0 <= j < i ==> (#[trigger] out@[j]).0@ == roots[j].package && out@[j].1.key()
                        == roots[j],
            decreases n - i,
        {
            let id = ids[i];
            out.push((String::from_str(id.crate_name()), id));
            i += 1;
        }
        let ghost unsorted = labelled(out@);
        let ghost rel = |p: ItemId, q: Key| p.key() == q;
        proof {
            assert(related(unsorted, package_entries(roots), rel));
            lemma_sorted_related(unsorted, package_entries(roots), rel);
        }
        sort_by_label(&mut out);
        out
    }

    /// The description of a symbol.
    pub fn get_info(&self, item: &Item) -> (r: String)
        ensures
            r@ == info_text(*item),
    {
        match item {
            Item::Root => String::from_str("crate root"),
            Item::Item(record) => {
                let docs: Option<&str> = match &record.docs {
                    Some(d) => Some(d.as_str()),
                    None => None,
                };
                match &record.span {
                    Some(span) => {
                        let quoted = debug_quoted(span.filename.as_str());
                        describe(docs, Some((quoted.as_str(), span.begin_line)))
                    },
                    None => describe(docs, None),
                }
            },
        }
    }

    /// All that the record of a symbol holds, written out for diagnosis.
    pub fn get_debug_info(&self, item: &Item) -> (r: String)
        ensures r@ == dump_text(*item),
    { debug_dump(item) }

    /// The name of the file that defines a symbol, where the symbol has a
    /// span.
    pub fn source_file<'a>(&self, item: &Item<'a>) -> (r: Option<&'a String>)
        ensures
            match span_of(*item) {
                Some(span) => r == Some(&span.filename),
                None => r is None,
            },
    {
        match item {
            Item::Root => None,
            Item::Item(record) => match &record.span {
                Some(span) => Some(&span.filename),
                None => None,
            },
        }
    }

    /// The source of a symbol for showing, from the text of the file that
    /// defines it, and the line to show first, counted from zero.
    pub fn get_source(&self, item: &Item, text: &SourceText) -> (r: (String, Option<usize>))
        ensures
            r.0@ == source_text(*item, *text).0,
            r.1 == source_text(*item, *text).1,
    {
        let span = match item {
            Item::Root => {
                return (String::new(), None);
            },
            Item::Item(record) => match &record.span {
                Some(span) => span,
                None => {
                    return (String::new(), None);
                },
            },
        };
        match text {
            SourceText::Lines(lines) => {
                let line = if span.begin_line > 0 {
                    span.begin_line - 1
                } else {
                    0
                };
                (number_lines(lines), Some(line))
            },
            SourceText::Failed(why) => {
                let mut out = String::from_str("Error opening source: ");
                out.append(why.as_str());
                (out, Some(0))
            },
        }
    }
}

impl<'a> Browser for &'a RustdocBrowser {
    type Item = Item<'a>;

    type ItemId = ItemId<'a>;

    fn list_crates(&self) -> (r: Vec<(String, ItemId<'a>)>)
        ensures
            same_packages(labelled(r@), packages(self.analysis)),
    {
        RustdocBrowser::list_crates(*self)
    }

    fn list_items(&self, parent_id: &ItemId<'a>) -> (r: Vec<(String, (ItemId<'a>, Item<'a>))>)
        ensures
            same_listing(
                labelled(r@),
                listing(self.analysis, parent_id.key(), SKIP_LIMIT as nat),
            ),
    {
        RustdocBrowser::list_items(*self, parent_id)
    }

    fn get_info(&self, item: &Item<'a>) -> (r: String)
        ensures
            r@ == info_text(*item),
    {
        RustdocBrowser::get_info(*self, item)
    }

    fn get_debug_info(&self, item: &Item<'a>) -> (r: String)
        ensures r@ == dump_text(*item),
    { RustdocBrowser::get_debug_info(*self, item) }

    fn source_file(&self, item: &Item<'a>) -> (r: Option<String>)
        ensures
            match span_of(*item) {
                Some(span) => r == Some(span.filename),
                None => r is None,
            },
    {
        match RustdocBrowser::source_file(*self, item) {
            Some(name) => Some(name.clone()),
            None => None,
        }
    }

    fn get_source(&self, item: &Item<'a>, text: &SourceText) -> (r: (String, Option<usize>))
        ensures
            r.0@ == source_text(*item, *text).0,
            r.1 == source_text(*item, *text).1,
    {
        RustdocBrowser::get_source(*self, item, text)
    }
}

/// An address that resolves to nothing lists nothing; so does the address
/// that denotes nothing.
pub proof fn lemma_listing_of_nothing(a: Analysis, key: Key, skips: nat)
    requires
        a.resolve(key) is Err,
    ensures
        listing(a, key, skips) == Seq::<(Seq<char>, (Key, Record))>::empty(),
        listing(a, Key::empty(), skips) == Seq::<(Seq<char>, (Key, Record))>::empty(),
{
}

/// The listing of a function is the entries for its signature, in the order
/// of their labels: one for each symbol that the type of a parameter or of
/// the result refers to, labelled with the parameter's name, a colon and the
/// type, or with an arrow and the type.
pub proof fn lemma_function_listing(a: Analysis, key: Key, skips: nat)
    requires
        a.resolve(key) matches Ok((_, record)) && record.inner is Function,
    ensures
        a.resolve(key) matches Ok((found, record)) && record.inner matches RecordKind::Function(sig)
            && listing(a, key, skips) == sorted_by_label(synthetic(sig, found, record)),
{
    let (found, record) = a.resolve(key).unwrap();
    assert(a.children(key) =~= Seq::empty());
    assert(labelled_children(a, a.children(key)) =~= Seq::empty());
    assert(synthetic_of(found, record) + labelled_children(a, a.children(key)) =~= synthetic_of(
        found,
        record,
    ));
}

/// The first of the children that is not hidden comes first under its label.
pub proof fn lemma_labelled_first(a: Analysis, kids: Seq<(Key, Record)>)
    requires
        kids.len() > 0,
        !hidden(kids[0].1),
    ensures
        labelled_children(a, kids).len() > 0,
        labelled_children(a, kids)[0] == (label_text(a, kids[0].0, kids[0].1), kids[0]),
    decreases kids.len(),
{
    if kids.len() > 1 {
        assert(kids.drop_last()[0] == kids[0]);
        lemma_labelled_first(a, kids.drop_last());
    } else {
        assert(kids.drop_last().len() == 0);
        assert(kids.last() == kids[0]);
        assert(labelled_children(a, kids.drop_last()) =~= Seq::empty());
    }
}

/// A variant that wraps one field of a named type is labelled with that type
/// and lists what the type lists: neither the field nor the type shows as a
/// level of its own.
pub proof fn lemma_variant_listing(
    a: Analysis,
    key: Key,
    field: Id,
    p: PathRef,
    skips: nat,
    other: nat,
)
    requires
        a.wf(),
        skips >= 2,
        ({
            &&& a.resolve(key) matches Ok((found, record))
            &&& record.inner matches RecordKind::Variant(Fields::Tuple(ids))
            &&& ids@ == seq![Some(field)]
            &&& a.resolve(found.sibling(field)) matches Ok((at, f))
            &&& f.inner == RecordKind::StructField(Type::ResolvedPath(p))
            &&& a.resolve(at.sibling(p.id)) matches Ok((target, symbol))
            &&& !hidden(symbol)
            &&& !skipped(a, target, symbol)
        }),
    ensures
        ({
            &&& a.resolve(key) matches Ok((found, record))
            &&& a.resolve(found.sibling(field)) matches Ok((at, f))
            &&& a.resolve(at.sibling(p.id)) matches Ok((target, symbol))
            &&& listing(a, key, skips) == listing(a, target, other)
            &&& label_text(a, found, record) == "variant "@ + name_text(record) + "("@ + path_text(
                p,
            ) + ")"@
        }),
{
    let (found, record) = a.resolve(key).unwrap();
    let (at, f) = a.resolve(found.sibling(field)).unwrap();
    let (target, symbol) = a.resolve(at.sibling(p.id)).unwrap();
    let ty = Type::ResolvedPath(p);
    let ids = raw_children(record.inner);
    // The variant has one child, the field.
    assert(ids =~= seq![field]) by {
        let given = seq![Some(field)];
        assert(given.drop_last() =~= Seq::<Option<Id>>::empty());
        assert(crate::analysis::present(given.drop_last()) =~= Seq::<Id>::empty());
        assert(crate::analysis::present(given) =~= seq![field]);
    }
    lemma_resolve_all_first(a, found.package, ids);
    assert(ids.drop_last() =~= Seq::<Id>::empty());
    assert(a.resolve_all(found.package, ids.drop_last()) =~= Seq::empty());
    assert(ids.last() == field);
    let kids = a.children(key);
    assert(kids =~= seq![(at, f)]);
    lemma_labelled_first(a, kids);
    assert(wrapped_type(a, found, record.inner) == Some(ty));
    assert(listing(a, key, skips) == listing(a, at, (skips - 1) as nat));
    // The field has the type as its first child.
    a.lemma_resolve_idempotent(found.sibling(field));
    assert(walk(ty) == crate::walk::walk_path(p));
    assert(walk(ty)[0] == p.id);
    lemma_distinct_first(walk(ty));
    lemma_resolve_all_first(a, at.package, distinct(walk(ty)));
    lemma_labelled_first(a, a.children(at));
    assert(listing(a, at, (skips - 1) as nat) == listing(a, target, (skips - 2) as nat));
    // The type shows its own level, however many levels may be skipped.
    a.lemma_resolve_idempotent(at.sibling(p.id));
}

} // verus!
