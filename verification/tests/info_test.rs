use rsbrowse::analysis::{Analysis, CrateId, Item, ItemId, Package};
use rsbrowse::browser_rustdoc::{describe, is_hidden, number_lines, RustdocBrowser, SourceText};
use rsbrowse::browser_trait::Browser;
use rsbrowse::model::{
    Document, Fields, GenericArg, GenericArgs, Id, PathRef, Record, RecordKind, Signature, Span,
    Summary, Type,
};
use std::collections::HashMap;

fn record(id: u32, name: &str, inner: RecordKind) -> Record {
    Record { id: Id(id), crate_id: 0, name: Some(name.to_string()), docs: None, span: None, inner }
}

fn ids(raw: &[u32]) -> Vec<Id> {
    raw.iter().map(|n| Id(*n)).collect()
}

fn named(name: &str, id: u32) -> PathRef {
    PathRef { name: name.to_string(), id: Id(id), args: None }
}

fn path(name: &str, id: u32) -> Type {
    Type::ResolvedPath(named(name, id))
}

fn summary(id: u32, path: &[&str]) -> Summary {
    Summary { id: Id(id), path: path.iter().map(|s| s.to_string()).collect() }
}

fn document(root: u32, records: Vec<Record>, paths: Vec<Summary>) -> Document {
    let mut index = HashMap::new();
    for r in records {
        index.insert(r.id.0, r);
    }
    Document { root: Id(root), index, paths }
}

fn package(name: &str, doc: Document) -> Package {
    Package { name: name.to_string(), doc }
}

fn module(id: u32, name: &str, is_crate: bool, items: &[u32]) -> Record {
    record(id, name, RecordKind::Module { is_crate, items: ids(items) })
}

fn block(id: u32, trait_: Option<PathRef>, items: &[u32]) -> Record {
    Record {
        id: Id(id),
        crate_id: 0,
        name: None,
        docs: None,
        span: None,
        inner: RecordKind::Impl {
            trait_,
            items: ids(items),
            automatically_derived: false,
            blanket: false,
            synthetic: false,
        },
    }
}

fn function(id: u32, name: &str, inputs: Vec<(&str, Type)>, output: Option<Type>) -> Record {
    record(
        id,
        name,
        RecordKind::Function(Signature {
            inputs: inputs.into_iter().map(|(n, t)| (n.to_string(), t)).collect(),
            output,
        }),
    )
}

fn labels<T>(items: &[(String, T)]) -> Vec<&str> {
    items.iter().map(|(l, _)| l.as_str()).collect()
}

fn root(name: &str) -> ItemId<'_> {
    ItemId::crate_root(CrateId { name })
}

fn at<'a>(name: &'a str, id: u32) -> ItemId<'a> {
    root(name).crate_sibling(&Id(id))
}

fn browser_of(packages: Vec<Package>) -> RustdocBrowser {
    RustdocBrowser::new(Analysis { crates: packages })
}

fn with_span(mut r: Record, file: &str, line: usize) -> Record {
    r.span = Some(Span { filename: file.to_string(), begin_line: line });
    r
}

fn with_docs(mut r: Record, docs: &str) -> Record {
    r.docs = Some(docs.to_string());
    r
}

#[test]
fn get_info_says_what_there_is() {
    let b = browser_of(vec![]);
    let plain = record(1, "S", RecordKind::OpaqueTy);
    assert_eq!(b.get_info(&Item::Item(&plain)), "");
    let documented = with_docs(record(1, "S", RecordKind::OpaqueTy), "A thing.\nOf a kind.");
    assert_eq!(b.get_info(&Item::Item(&documented)), "A thing.\nOf a kind.\n");
    let placed = with_span(record(1, "S", RecordKind::OpaqueTy), "src/lib.rs", 3);
    assert_eq!(
        b.get_info(&Item::Item(&placed)),
        "defined in \"src/lib.rs\"\nstarting on line 3"
    );
    let both = with_docs(with_span(record(1, "S", RecordKind::OpaqueTy), "src/a b.rs", 120), "D");
    assert_eq!(b.get_info(&Item::Item(&both)), "D\ndefined in \"src/a b.rs\"\nstarting on line 120");
    assert_eq!(b.get_info(&Item::Root), "crate root");
}

#[test]
fn get_info_shows_the_file_name_with_escapes() {
    let b = browser_of(vec![]);
    let odd = with_span(record(1, "S", RecordKind::OpaqueTy), "a\"b\\c\n.rs", 0);
    assert_eq!(
        b.get_info(&Item::Item(&odd)),
        "defined in \"a\\\"b\\\\c\\n.rs\"\nstarting on line 0"
    );
}

#[test]
fn describe_writes_docs_and_place() {
    assert_eq!(describe(None, None), "");
    assert_eq!(describe(Some("d"), None), "d\n");
    assert_eq!(describe(None, Some(("<f>", 9))), "defined in <f>\nstarting on line 9");
    assert_eq!(describe(Some(""), Some(("f", 10))), "\ndefined in f\nstarting on line 10");
}

#[test]
fn get_debug_info_dumps_the_record() {
    let b = browser_of(vec![]);
    let r = with_docs(
        record(77, "Thing", RecordKind::StructField(path("Other", 78))),
        "Some documentation",
    );
    let dump = b.get_debug_info(&Item::Item(&r));
    for part in ["Thing", "77", "StructField", "ResolvedPath", "Other", "78", "Some documentation"] {
        assert!(dump.contains(part), "no {part} in {dump}");
    }
    assert_eq!(b.get_debug_info(&Item::Root), "Root");
}

#[test]
fn get_debug_info_goes_by_what_the_item_holds() {
    let b = browser_of(vec![]);
    let one = with_span(record(5, "S", RecordKind::OpaqueTy), "f.rs", 2);
    let same = with_span(record(5, "S", RecordKind::OpaqueTy), "f.rs", 2);
    let other = with_span(record(5, "S", RecordKind::OpaqueTy), "f.rs", 3);
    assert_eq!(b.get_debug_info(&Item::Item(&one)), b.get_debug_info(&Item::Item(&same)));
    assert_ne!(b.get_debug_info(&Item::Item(&one)), b.get_debug_info(&Item::Item(&other)));
    let dump = b.get_debug_info(&Item::Item(&one));
    assert!(dump.starts_with("Item(\n    Record {\n        id: Id(\n            5,\n"), "{dump}");
    assert!(dump.contains("begin_line: 2"));
}

#[test]
fn get_source_numbers_the_lines() {
    let b = browser_of(vec![]);
    let placed = with_span(record(1, "S", RecordKind::OpaqueTy), "src/lib.rs", 3);
    let item = Item::Item(&placed);
    let text = SourceText::Lines(vec!["mod x {".to_string(), "".to_string(), "}".to_string()]);
    assert_eq!(b.get_source(&item, &text), ("1: mod x {\n2: \n3: }\n".to_string(), Some(2)));
    assert_eq!(b.get_source(&item, &SourceText::Lines(vec![])), (String::new(), Some(2)));
    assert_eq!(b.source_file(&item).map(|s| s.as_str()), Some("src/lib.rs"));
}

#[test]
fn get_source_line_counts_from_zero() {
    let b = browser_of(vec![]);
    let text = SourceText::Lines(vec!["x".to_string()]);
    let first = with_span(record(1, "S", RecordKind::OpaqueTy), "f", 1);
    assert_eq!(b.get_source(&Item::Item(&first), &text).1, Some(0));
    let none = with_span(record(1, "S", RecordKind::OpaqueTy), "f", 0);
    assert_eq!(b.get_source(&Item::Item(&none), &text).1, Some(0));
    let last = with_span(record(1, "S", RecordKind::OpaqueTy), "f", usize::MAX);
    assert_eq!(b.get_source(&Item::Item(&last), &text).1, Some(usize::MAX - 1));
}

#[test]
fn get_source_without_a_span_is_empty() {
    let b = browser_of(vec![]);
    let text = SourceText::Lines(vec!["x".to_string()]);
    let plain = record(1, "S", RecordKind::OpaqueTy);
    assert_eq!(b.get_source(&Item::Item(&plain), &text), (String::new(), None));
    assert_eq!(b.get_source(&Item::Root, &text), (String::new(), None));
    assert_eq!(
        b.get_source(&Item::Root, &SourceText::Failed("gone".to_string())),
        (String::new(), None)
    );
    assert!(b.source_file(&Item::Item(&plain)).is_none());
    assert!(b.source_file(&Item::Root).is_none());
}

#[test]
fn get_source_shows_why_a_file_did_not_open() {
    let b = browser_of(vec![]);
    let placed = with_span(record(1, "S", RecordKind::OpaqueTy), "src/lib.rs", 30);
    let text = SourceText::Failed("No such file or directory (os error 2)".to_string());
    assert_eq!(
        b.get_source(&Item::Item(&placed), &text),
        ("Error opening source: No such file or directory (os error 2)".to_string(), Some(0))
    );
}

#[test]
fn number_lines_counts_from_one() {
    assert_eq!(number_lines(&vec![]), "");
    assert_eq!(number_lines(&vec!["a".to_string()]), "1: a\n");
    let many: Vec<String> = (0..12).map(|i| format!("l{i}")).collect();
    let text = number_lines(&many);
    assert!(text.starts_with("1: l0\n2: l1\n"));
    assert!(text.ends_with("10: l9\n11: l10\n12: l11\n"));
}

#[test]
fn item_label_of_each_kind() {
    let doc = document(
        0,
        vec![module(0, "p", true, &[])],
        vec![summary(5, &["p", "Local"]), summary(6, &["q", "deep", "Far"]), summary(7, &[])],
    );
    let b = browser_of(vec![package("p", doc)]);
    let label = |inner: RecordKind| {
        let r = record(1, "n", inner);
        b.item_label(at("p", 1), &r)
    };
    let t = || Type::Primitive("u8".to_string());
    assert_eq!(label(RecordKind::Module { is_crate: false, items: vec![] }), "mod n");
    assert_eq!(label(RecordKind::ExternCrate { name: "other".to_string() }), "extern crate other");
    assert_eq!(label(RecordKind::Use { source: "a::b".to_string(), glob: false }), "use a::b");
    assert_eq!(label(RecordKind::Use { source: "a::b".to_string(), glob: true }), "use a::b::*");
    assert_eq!(label(RecordKind::Union { fields: vec![], impls: vec![] }), "union n");
    assert_eq!(label(RecordKind::Struct { fields: Fields::Unit, impls: vec![] }), "struct n");
    assert_eq!(label(RecordKind::StructField(t())), "n: u8");
    assert_eq!(label(RecordKind::Enum { variants: vec![], impls: vec![] }), "enum n");
    assert_eq!(label(RecordKind::Variant(Fields::Unit)), "variant n");
    assert_eq!(label(RecordKind::Variant(Fields::Named(vec![]))), "variant n");
    assert_eq!(
        label(RecordKind::Function(Signature { inputs: vec![], output: None })),
        "fn n"
    );
    assert_eq!(label(RecordKind::Trait { items: vec![] }), "trait n");
    assert_eq!(label(RecordKind::TraitAlias), "trait alias n");
    assert_eq!(label(RecordKind::TypeAlias(t())), "type n");
    assert_eq!(label(RecordKind::OpaqueTy), "opaque type n");
    assert_eq!(label(RecordKind::Constant(t())), "const n: u8");
    assert_eq!(label(RecordKind::Static(t())), "static n: u8");
    assert_eq!(label(RecordKind::ForeignType), "extern type n");
    assert_eq!(label(RecordKind::Macro), "macro n");
    assert_eq!(label(RecordKind::ProcMacro), "proc macro n");
    assert_eq!(label(RecordKind::Primitive), " n");
    assert_eq!(label(RecordKind::AssocConst { type_: t(), default: None }), "const n: u8");
    assert_eq!(
        label(RecordKind::AssocConst { type_: t(), default: Some("7".to_string()) }),
        "const n: u8 = 7"
    );
    assert_eq!(label(RecordKind::AssocType { default: None }), "type n");
    assert_eq!(label(RecordKind::AssocType { default: Some(t()) }), "type n = u8");
    let nameless = Record {
        id: Id(1),
        crate_id: 0,
        name: None,
        docs: None,
        span: None,
        inner: RecordKind::Struct { fields: Fields::Unit, impls: vec![] },
    };
    assert_eq!(b.item_label(at("p", 1), &nameless), "struct <unnamed>");
}

#[test]
fn item_label_of_implementation_blocks() {
    let doc = document(
        0,
        vec![module(0, "p", true, &[])],
        vec![summary(5, &["p", "Local"]), summary(6, &["q", "deep", "Far"]), summary(7, &[])],
    );
    let b = browser_of(vec![package("p", doc)]);
    let label = |trait_: Option<PathRef>| {
        let r = block(1, trait_, &[]);
        b.item_label(at("p", 1), &r)
    };
    assert_eq!(label(None), "impl Self");
    // An interface of the same package goes by its name.
    assert_eq!(label(Some(named("Local", 5))), "impl Local");
    // One of another package goes by its path.
    assert_eq!(label(Some(named("Far", 6))), "impl q::deep::Far");
    // One that the document does not mention, or mentions without a path,
    // goes by its name.
    assert_eq!(label(Some(named("Unknown", 8))), "impl Unknown");
    assert_eq!(label(Some(named("Pathless", 7))), "impl Pathless");
    let generic = |name: &str, id| PathRef {
        name: name.to_string(),
        id: Id(id),
        args: Some(Box::new(GenericArgs::AngleBracketed {
            args: vec![GenericArg::Type(Type::Primitive("u64".to_string()))],
            bindings: vec![],
        })),
    };
    assert_eq!(label(Some(generic("Local", 5))), "impl Local<u64>");
    assert_eq!(label(Some(generic("Far", 6))), "impl q::deep::Far<u64>");
}

#[test]
fn hidden_blocks() {
    let flagged = |automatically_derived, blanket, synthetic| {
        is_hidden(&record(
            1,
            "n",
            RecordKind::Impl { trait_: None, items: vec![], automatically_derived, blanket, synthetic },
        ))
    };
    assert!(!flagged(false, false, false));
    assert!(flagged(true, false, false));
    assert!(flagged(false, true, false));
    assert!(flagged(false, false, true));
    assert!(!is_hidden(&record(1, "n", RecordKind::Macro)));
}

/// An interface with a default method and two blocks of it, of which one
/// overrides the method.
fn merging() -> RustdocBrowser {
    let me = || {
        (
            "self",
            Type::BorrowedRef {
                lifetime: None,
                mutable: false,
                type_: Box::new(Type::Generic("Self".to_string())),
            },
        )
    };
    let doc = document(
        0,
        vec![
            module(0, "p", true, &[1, 2, 3]),
            record(1, "Trait", RecordKind::Trait { items: ids(&[10]) }),
            function(10, "method", vec![me()], None),
            record(2, "A", RecordKind::Struct { fields: Fields::Unit, impls: ids(&[20]) }),
            record(3, "B", RecordKind::Struct { fields: Fields::Unit, impls: ids(&[30]) }),
            block(20, Some(named("Trait", 1)), &[21]),
            function(21, "method", vec![me()], None),
            block(30, Some(named("Trait", 1)), &[]),
        ],
        vec![
            summary(1, &["p", "Trait"]),
            summary(10, &["p", "Trait", "method"]),
            summary(21, &["p", "A", "method"]),
        ],
    );
    browser_of(vec![package("p", doc)])
}

#[test]
fn an_override_shows_in_its_block_and_a_default_under_the_interface() {
    let b = merging();
    let overriding = b.list_items(&at("p", 20));
    assert_eq!(labels(&overriding), vec!["fn method", "trait Trait"]);
    let (id, item) = &overriding[0].1;
    assert!(id.same(&at("p", 21)));
    let own = b.analysis.get_path(*id).unwrap().join("::");
    assert_eq!(own, "p::A::method");
    match item {
        Item::Item(r) => assert_eq!(r.id, Id(21)),
        Item::Root => panic!("a record was expected"),
    }
    // The block that does not override lists the interface, and the
    // interface lists the default: the method shows once on either way.
    let inheriting = b.list_items(&at("p", 30));
    assert_eq!(labels(&inheriting), vec!["trait Trait"]);
    let default = b.list_items(&inheriting[0].1 .0);
    assert_eq!(labels(&default), vec!["fn method"]);
    assert!(default[0].1 .0.same(&at("p", 10)));
    assert_eq!(b.analysis.get_path(default[0].1 .0).unwrap().join("::"), "p::Trait::method");
    assert_ne!(own, "p::Trait::method");
}

#[test]
fn a_signature_shows_as_entries() {
    let doc = document(
        0,
        vec![
            module(0, "p", true, &[1, 2, 3, 4]),
            record(1, "T1", RecordKind::Struct { fields: Fields::Named(ids(&[5])), impls: vec![] }),
            record(5, "x", RecordKind::StructField(Type::Primitive("u8".to_string()))),
            record(2, "T3", RecordKind::Enum { variants: ids(&[6]), impls: vec![] }),
            record(6, "V", RecordKind::Variant(Fields::Unit)),
            function(
                3,
                "f",
                vec![("a", path("T1", 1)), ("b", Type::Generic("T2".to_string()))],
                Some(path("T3", 2)),
            ),
            function(
                4,
                "g",
                vec![
                    ("pair", Type::Tuple(vec![path("T1", 1), path("T3", 2), path("T1", 1)])),
                    ("n", Type::Primitive("usize".to_string())),
                    ("lost", path("Lost", 99)),
                ],
                None,
            ),
        ],
        vec![],
    );
    let b = browser_of(vec![package("p", doc)]);
    let f = b.list_items(&at("p", 3));
    assert_eq!(labels(&f), vec!["a: T1", "b: T2", "-> T3"]);
    assert_eq!(labels(&b.list_items(&f[0].1 .0)), vec!["x: u8"]);
    assert!(f[1].1 .0.is_empty());
    assert!(b.list_items(&f[1].1 .0).is_empty());
    assert_eq!(labels(&b.list_items(&f[2].1 .0)), vec!["variant V"]);
    for (_, (_, item)) in &f {
        match item {
            Item::Item(r) => assert_eq!(r.id, Id(3)),
            Item::Root => panic!("the function was expected"),
        }
    }
    let g = b.list_items(&at("p", 4));
    assert_eq!(
        labels(&g),
        vec!["lost: Lost", "n: usize", "pair: (T1, T3, T1) (#0)", "pair: (T1, T3, T1) (#1)"]
    );
    assert!(g[0].1 .0.same(&at("p", 99)));
    assert!(b.list_items(&g[0].1 .0).is_empty());
    assert!(g[1].1 .0.is_empty());
    assert!(g[2].1 .0.same(&at("p", 1)));
    assert!(g[3].1 .0.same(&at("p", 2)));
}

#[test]
fn a_variant_of_one_field_lists_what_the_type_lists() {
    let doc = document(
        0,
        vec![
            module(0, "p", true, &[1, 2]),
            record(
                1,
                "S",
                RecordKind::Struct { fields: Fields::Named(ids(&[10, 11])), impls: ids(&[12]) },
            ),
            record(10, "b", RecordKind::StructField(Type::Primitive("u8".to_string()))),
            record(11, "a", RecordKind::StructField(path("S", 1))),
            block(12, None, &[]),
            record(2, "E", RecordKind::Enum { variants: ids(&[20, 22, 24, 26]), impls: vec![] }),
            record(20, "V", RecordKind::Variant(Fields::Tuple(vec![Some(Id(21))]))),
            record(21, "0", RecordKind::StructField(path("S", 1))),
            record(22, "W", RecordKind::Variant(Fields::Tuple(vec![Some(Id(23)), Some(Id(21))]))),
            record(23, "0", RecordKind::StructField(Type::Primitive("u8".to_string()))),
            record(24, "X", RecordKind::Variant(Fields::Tuple(vec![None]))),
            record(26, "Y", RecordKind::Variant(Fields::Tuple(vec![Some(Id(27))]))),
        ],
        vec![],
    );
    let b = browser_of(vec![package("p", doc)]);
    let e = b.list_items(&at("p", 2));
    assert_eq!(labels(&e), vec!["variant V(S)", "variant W", "variant X", "variant Y"]);
    let s = b.list_items(&at("p", 1));
    assert_eq!(labels(&s), vec!["a: S", "b: u8", "impl Self"]);
    let v = b.list_items(&at("p", 20));
    assert_eq!(labels(&v), labels(&s));
    for (x, y) in v.iter().zip(s.iter()) {
        assert!(x.1 .0.same(&y.1 .0));
    }
    // A field lists what its type lists.
    assert_eq!(labels(&b.list_items(&at("p", 21))), labels(&s));
    assert_eq!(labels(&b.list_items(&at("p", 11))), labels(&s));
    assert!(b.list_items(&at("p", 10)).is_empty());
    // A variant of two fields shows its fields.
    assert_eq!(labels(&b.list_items(&at("p", 22))), vec!["0: S", "0: u8"]);
    assert!(b.list_items(&at("p", 24)).is_empty());
    assert!(b.list_items(&at("p", 26)).is_empty());
}

#[test]
fn a_skipped_level_of_several_children_is_told() {
    let generic = Type::ResolvedPath(PathRef {
        name: "W".to_string(),
        id: Id(2),
        args: Some(Box::new(GenericArgs::AngleBracketed {
            args: vec![GenericArg::Type(path("S", 1))],
            bindings: vec![],
        })),
    });
    let doc = document(
        0,
        vec![
            module(0, "p", true, &[1, 2]),
            record(1, "S", RecordKind::Struct { fields: Fields::Named(ids(&[3, 4])), impls: vec![] }),
            record(2, "W", RecordKind::Struct { fields: Fields::Unit, impls: vec![] }),
            record(3, "one", RecordKind::StructField(path("S", 1))),
            record(4, "two", RecordKind::StructField(generic)),
        ],
        vec![],
    );
    let b = browser_of(vec![package("p", doc)]);
    assert!(!b.skips_among_several(&at("p", 3)));
    assert!(b.skips_among_several(&at("p", 4)));
    assert!(!b.skips_among_several(&at("p", 1)));
    assert!(!b.skips_among_several(&at("p", 9)));
    // The listing goes on with the first of them.
    assert!(b.list_items(&at("p", 4)).is_empty());
    assert_eq!(labels(&b.list_items(&at("p", 3))), vec!["one: S", "two: W<S>"]);
}

#[test]
fn skipping_ends_where_references_run_in_a_circle() {
    // The type of the field is the field itself.
    let doc = document(
        0,
        vec![module(0, "p", true, &[1]), record(1, "f", RecordKind::StructField(path("F", 1)))],
        vec![],
    );
    let b = browser_of(vec![package("p", doc)]);
    assert_eq!(labels(&b.list_items(&at("p", 1))), vec!["f: F"]);
    assert_eq!(labels(&b.list_items_within(&at("p", 1), 0)), vec!["f: F"]);
    assert_eq!(labels(&b.list_items_within(&at("p", 1), 3)), vec!["f: F"]);
}

#[test]
fn a_field_goes_to_the_first_symbol_of_its_type_that_resolves() {
    let generic = |name: &str, id, inner: Type| {
        Type::ResolvedPath(PathRef {
            name: name.to_string(),
            id: Id(id),
            args: Some(Box::new(GenericArgs::AngleBracketed {
                args: vec![GenericArg::Type(inner)],
                bindings: vec![],
            })),
        })
    };
    let doc = document(
        0,
        vec![
            module(0, "p", true, &[1, 2, 5]),
            record(1, "S", RecordKind::Struct { fields: Fields::Named(ids(&[3, 4])), impls: vec![] }),
            record(2, "Wrap", RecordKind::Struct { fields: Fields::Named(ids(&[6])), impls: vec![] }),
            record(3, "boxed", RecordKind::StructField(generic("Box", 90, path("S", 1)))),
            record(4, "wrapped", RecordKind::StructField(generic("Wrap", 2, path("S", 1)))),
            record(6, "inner", RecordKind::StructField(Type::Generic("T".to_string()))),
            record(5, "A", RecordKind::TypeAlias(generic("Wrap", 2, path("S", 1)))),
        ],
        vec![],
    );
    let b = browser_of(vec![package("p", doc)]);
    assert_eq!(labels(&b.list_items(&at("p", 1))), vec!["boxed: Box<S>", "wrapped: Wrap<S>"]);
    // `Box` is not to be had, so the field leads to `S`.
    assert_eq!(labels(&b.list_items(&at("p", 3))), vec!["boxed: Box<S>", "wrapped: Wrap<S>"]);
    assert_eq!(labels(&b.list_items(&at("p", 4))), vec!["inner: T"]);
    // An alias shows the symbols of its type as a level.
    assert_eq!(labels(&b.list_items(&at("p", 5))), vec!["struct S", "struct Wrap"]);
}

#[test]
fn the_packages_in_the_order_of_their_names() {
    let doc = |name: &str| package(name, document(0, vec![module(0, name, true, &[])], vec![]));
    let b = browser_of(vec![doc("b"), doc("ext"), doc("a"), doc("Z"), doc("a")]);
    let crates = b.list_crates();
    assert_eq!(labels(&crates), vec!["Z", "a", "b", "ext"]);
    for (label, id) in &crates {
        assert!(id.same(&root(label)));
    }
    assert!(browser_of(vec![]).list_crates().is_empty());
}

#[test]
fn three_packages_end_to_end() {
    let ext = document(
        0,
        vec![
            module(0, "ext", true, &[1]),
            record(1, "Trait", RecordKind::Trait { items: ids(&[2]) }),
            function(2, "required", vec![], None),
        ],
        vec![summary(0, &["ext"]), summary(1, &["ext", "Trait"])],
    );
    let a = document(
        0,
        vec![
            module(0, "a", true, &[1]),
            module(1, "m", false, &[2]),
            record(2, "S", RecordKind::Struct { fields: Fields::Unit, impls: ids(&[3]) }),
            block(3, Some(named("Trait", 7)), &[4]),
            function(
                4,
                "required",
                vec![(
                    "self",
                    Type::BorrowedRef {
                        lifetime: None,
                        mutable: false,
                        type_: Box::new(Type::Generic("Self".to_string())),
                    },
                )],
                None,
            ),
        ],
        vec![
            summary(0, &["a"]),
            summary(1, &["a", "m"]),
            summary(2, &["a", "m", "S"]),
            summary(7, &["ext", "Trait"]),
        ],
    );
    let b = document(0, vec![module(0, "b", true, &[])], vec![summary(0, &["b"])]);
    let browser = browser_of(vec![package("ext", ext), package("a", a), package("b", b)]);
    let crates = browser.list_crates();
    assert_eq!(labels(&crates), vec!["a", "b", "ext"]);
    let top = browser.list_items(&crates[0].1);
    assert_eq!(labels(&top), vec!["mod m"]);
    let m = browser.list_items(&top[0].1 .0);
    assert_eq!(labels(&m), vec!["struct S"]);
    let s = browser.list_items(&m[0].1 .0);
    assert_eq!(labels(&s), vec!["impl ext::Trait"]);
    let block = browser.list_items(&s[0].1 .0);
    assert_eq!(labels(&block)[0], "fn required");
    assert_eq!(labels(&block), vec!["fn required", "trait Trait"]);
    assert_eq!(block[1].1 .0.crate_name(), "ext");
    assert!(browser.list_items(&crates[1].1).is_empty());
}

#[test]
fn a_missing_package_leaves_the_rest_to_browse() {
    let a = document(
        0,
        vec![
            module(0, "a", true, &[1]),
            record(1, "S", RecordKind::Struct { fields: Fields::Unit, impls: ids(&[3]) }),
            block(3, Some(named("Trait", 7)), &[4]),
            function(4, "required", vec![], Some(path("Out", 8))),
        ],
        vec![summary(7, &["ext", "Trait"]), summary(8, &["ext", "Out"])],
    );
    let browser = browser_of(vec![package("a", a)]);
    let s = browser.list_items(&at("a", 1));
    assert_eq!(labels(&s), vec!["impl ext::Trait"]);
    let block = browser.list_items(&s[0].1 .0);
    assert_eq!(labels(&block), vec!["fn required"]);
    let sig = browser.list_items(&block[0].1 .0);
    assert_eq!(labels(&sig), vec!["-> Out"]);
    assert!(browser.list_items(&sig[0].1 .0).is_empty());
    assert!(browser.list_items(&root("ext")).is_empty());
}

#[test]
fn the_browser_through_its_trait() {
    let doc = document(
        0,
        vec![module(0, "p", true, &[1]), with_span(record(1, "S", RecordKind::OpaqueTy), "f.rs", 2)],
        vec![],
    );
    let owned = browser_of(vec![package("p", doc)]);
    fn walk<B: Browser>(b: B) -> (Vec<String>, Vec<String>, String, String, (String, Option<usize>)) {
        let crates = b.list_crates();
        let items = b.list_items(&crates[0].1);
        let item = &items[0].1 .1;
        (
            crates.iter().map(|(l, _)| l.clone()).collect(),
            items.iter().map(|(l, _)| l.clone()).collect(),
            b.get_info(item),
            b.get_debug_info(item),
            b.get_source(item, &SourceText::Lines(vec!["a".to_string(), "b".to_string()])),
        )
    }
    let (crates, items, info, debug, source) = walk(&owned);
    assert_eq!(crates, vec!["p"]);
    assert_eq!(items, vec!["opaque type S"]);
    assert_eq!(info, "defined in \"f.rs\"\nstarting on line 2");
    assert!(debug.contains("OpaqueTy"));
    assert_eq!(source, ("1: a\n2: b\n".to_string(), Some(1)));
}
