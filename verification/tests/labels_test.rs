use rsbrowse::labels::{generic_label, type_label};
use rsbrowse::model::{GenericArg, GenericArgs, GenericBound, Id, PathRef, Signature, Type};
use rsbrowse::text::{join_strings, push_decimal, str_eq};

fn named(name: &str) -> PathRef {
    PathRef { name: name.to_string(), id: Id(0), args: None }
}

fn path(name: &str) -> Type {
    Type::ResolvedPath(named(name))
}

fn prim(name: &str) -> Type {
    Type::Primitive(name.to_string())
}

fn angle(args: Vec<GenericArg>, bindings: &[&str]) -> GenericArgs {
    GenericArgs::AngleBracketed { args, bindings: bindings.iter().map(|s| s.to_string()).collect() }
}

fn generic(name: &str, args: GenericArgs) -> Type {
    Type::ResolvedPath(PathRef { name: name.to_string(), id: Id(0), args: Some(Box::new(args)) })
}

#[test]
fn type_label_of_paths() {
    assert_eq!(type_label(&path("String")), "String");
    assert_eq!(type_label(&path("std::io::Error")), "std::io::Error");
    assert_eq!(
        type_label(&generic("Vec", angle(vec![GenericArg::Type(prim("u8"))], &[]))),
        "Vec<u8>"
    );
    assert_eq!(
        type_label(&generic(
            "HashMap",
            angle(vec![GenericArg::Type(path("String")), GenericArg::Type(prim("u8"))], &[])
        )),
        "HashMap<String, u8>"
    );
    assert_eq!(
        type_label(&generic(
            "A",
            angle(
                vec![
                    GenericArg::Lifetime("'a".to_string()),
                    GenericArg::Type(prim("u8")),
                    GenericArg::Const("3".to_string()),
                    GenericArg::Infer
                ],
                &[]
            )
        )),
        "A<'a, u8, 3, _>"
    );
}

#[test]
fn generic_label_of_each_form() {
    assert_eq!(generic_label(&angle(vec![], &[])), "");
    // Without arguments nothing is written, bindings or not.
    assert_eq!(generic_label(&angle(vec![], &["Item = u8"])), "");
    assert_eq!(generic_label(&angle(vec![GenericArg::Infer], &[])), "<_>");
    // Bindings follow the arguments as they are.
    assert_eq!(
        generic_label(&angle(vec![GenericArg::Type(prim("u8"))], &["A = B", "C = D"])),
        "<u8A = B, C = D>"
    );
    assert_eq!(
        generic_label(&GenericArgs::Parenthesized { inputs: vec![], output: None }),
        "()"
    );
    assert_eq!(
        generic_label(&GenericArgs::Parenthesized {
            inputs: vec![prim("usize"), path("String")],
            output: Some(prim("bool")),
        }),
        "(usize, String) -> bool"
    );
    assert_eq!(generic_label(&GenericArgs::ReturnTypeNotation), "(..)");
}

#[test]
fn type_label_of_each_form() {
    assert_eq!(type_label(&Type::Generic("T".to_string())), "T");
    assert_eq!(type_label(&prim("i32")), "i32");
    assert_eq!(type_label(&Type::Infer), "_");
    assert_eq!(type_label(&Type::Tuple(vec![])), "()");
    assert_eq!(type_label(&Type::Tuple(vec![prim("u8")])), "(u8)");
    assert_eq!(type_label(&Type::Tuple(vec![prim("u8"), path("S")])), "(u8, S)");
    assert_eq!(type_label(&Type::Slice(Box::new(prim("u8")))), "[u8]");
    assert_eq!(
        type_label(&Type::Array { type_: Box::new(prim("u8")), len: "16".to_string() }),
        "[u8; 16]"
    );
    assert_eq!(
        type_label(&Type::Pat { type_: Box::new(prim("u32")), pattern: "1..".to_string() }),
        "u32 is 1.."
    );
    assert_eq!(
        type_label(&Type::RawPointer { mutable: true, type_: Box::new(prim("u8")) }),
        "*mut u8"
    );
    assert_eq!(
        type_label(&Type::RawPointer { mutable: false, type_: Box::new(prim("u8")) }),
        "*const u8"
    );
    let reference = |lifetime: Option<&str>, mutable| Type::BorrowedRef {
        lifetime: lifetime.map(|l| l.to_string()),
        mutable,
        type_: Box::new(Type::Generic("Self".to_string())),
    };
    assert_eq!(type_label(&reference(None, false)), "&Self");
    assert_eq!(type_label(&reference(None, true)), "&mut Self");
    assert_eq!(type_label(&reference(Some("'a"), false)), "&'a Self");
    assert_eq!(type_label(&reference(Some("'a"), true)), "&'a mut Self");
    let qualified = |t| Type::QualifiedPath {
        name: "Item".to_string(),
        self_type: Box::new(Type::Generic("I".to_string())),
        trait_: t,
    };
    assert_eq!(type_label(&qualified(Some(named("Iterator")))), "<I as Iterator>::Item");
    assert_eq!(type_label(&qualified(None)), "I::Item");
}

#[test]
fn type_label_of_trait_objects_and_bounds() {
    assert_eq!(type_label(&Type::DynTrait(vec![])), "dyn ");
    assert_eq!(type_label(&Type::DynTrait(vec![named("Any")])), "dyn Any");
    let fn_trait = PathRef {
        name: "Fn".to_string(),
        id: Id(0),
        args: Some(Box::new(GenericArgs::Parenthesized {
            inputs: vec![prim("usize")],
            output: None,
        })),
    };
    assert_eq!(type_label(&Type::DynTrait(vec![fn_trait, named("Send")])), "dyn Fn(usize) + Send");
    let bounded = PathRef {
        name: "Iterator".to_string(),
        id: Id(0),
        args: Some(Box::new(angle(vec![GenericArg::Type(prim("u8"))], &[]))),
    };
    // A bound shows the name of the interface alone.
    assert_eq!(
        type_label(&Type::ImplTrait(vec![
            GenericBound::TraitBound(bounded),
            GenericBound::Outlives("'a".to_string()),
            GenericBound::Use(vec!["'a".to_string(), "T".to_string()]),
        ])),
        "impl Iterator + 'a + use<'a, T>"
    );
    assert_eq!(type_label(&Type::ImplTrait(vec![])), "impl ");
}

#[test]
fn type_label_of_function_pointers() {
    let pointer = |inputs: Vec<(&str, Type)>, output| {
        Type::FunctionPointer(Box::new(Signature {
            inputs: inputs.into_iter().map(|(n, t)| (n.to_string(), t)).collect(),
            output,
        }))
    };
    assert_eq!(type_label(&pointer(vec![], None)), "fn()");
    assert_eq!(type_label(&pointer(vec![("x", prim("u8"))], None)), "fn(x: u8)");
    assert_eq!(
        type_label(&pointer(vec![("x", prim("u8")), ("_", path("S"))], Some(prim("bool")))),
        "fn(x: u8, _: S) -> bool"
    );
}

#[test]
fn type_label_goes_down_into_nested_types() {
    let ty = generic(
        "Box",
        angle(
            vec![GenericArg::Type(Type::Slice(Box::new(Type::Tuple(vec![
                Type::BorrowedRef {
                    lifetime: Some("'a".to_string()),
                    mutable: false,
                    type_: Box::new(generic(
                        "Option",
                        angle(vec![GenericArg::Type(prim("u8"))], &[]),
                    )),
                },
                Type::Array { type_: Box::new(path("S")), len: "N".to_string() },
            ]))))],
            &[],
        ),
    );
    assert_eq!(type_label(&ty), "Box<[(&'a Option<u8>, [S; N])]>");
}

#[test]
fn join_strings_puts_the_separator_between() {
    let v = |parts: &[&str]| parts.iter().map(|s| s.to_string()).collect::<Vec<_>>();
    assert_eq!(join_strings(&v(&[]), ", "), "");
    assert_eq!(join_strings(&v(&["a"]), ", "), "a");
    assert_eq!(join_strings(&v(&["a", "b", "c"]), "::"), "a::b::c");
    assert_eq!(join_strings(&v(&["", ""]), "-"), "-");
    assert_eq!(join_strings(&v(&["a", "b"]), ""), "ab");
}

#[test]
fn push_decimal_writes_numerals() {
    let numeral = |n: usize| {
        let mut s = String::from("n=");
        push_decimal(&mut s, n);
        s
    };
    assert_eq!(numeral(0), "n=0");
    assert_eq!(numeral(7), "n=7");
    assert_eq!(numeral(10), "n=10");
    assert_eq!(numeral(1234567890), "n=1234567890");
    assert_eq!(numeral(usize::MAX), format!("n={}", usize::MAX));
    for n in 0..1200 {
        assert_eq!(numeral(n), format!("n={n}"));
    }
}

#[test]
fn str_eq_is_equality_of_text() {
    assert!(str_eq("", ""));
    assert!(str_eq("abc", "abc"));
    assert!(!str_eq("abc", "abd"));
    assert!(!str_eq("abc", "ab"));
    assert!(!str_eq("", "a"));
    assert!(str_eq("é日本", "é日本"));
    assert!(!str_eq("é", "e"));
}
