//! The readable text of declared type expressions.

use crate::model::{GenericArg, GenericArgs, GenericBound, PathRef, Signature, Type};
use crate::text::{join, join_strings, views};
use vstd::prelude::*;
use vstd::string::StringExecFns;

verus! {

/// The text of a path: its name, then its generic arguments.
pub open spec fn path_text(p: PathRef) -> Seq<char>
    decreases p,
{
    p.name@ + match p.args {
        Some(a) => args_text(*a),
        None => Seq::empty(),
    }
}

/// The texts of the paths, in order.
pub open spec fn path_texts(ps: Seq<PathRef>) -> Seq<Seq<char>>
    decreases ps,
{
    if ps.len() == 0 {
        Seq::empty()
    } else {
        path_texts(ps.drop_last()).push(path_text(ps.last()))
    }
}

/// The text of one generic argument.
pub open spec fn arg_text(arg: GenericArg) -> Seq<char>
    decreases arg,
{
    match arg {
        GenericArg::Lifetime(l) => l@,
        GenericArg::Type(t) => type_text(t),
        GenericArg::Const(c) => c@,
        GenericArg::Infer => "_"@,
    }
}

/// The texts of the generic arguments, in order.
pub open spec fn arg_texts(args: Seq<GenericArg>) -> Seq<Seq<char>>
    decreases args,
{
    if args.len() == 0 {
        Seq::empty()
    } else {
        arg_texts(args.drop_last()).push(arg_text(args.last()))
    }
}

/// The text of a result type: an arrow and the type, or nothing.
pub open spec fn output_text(output: Option<Type>) -> Seq<char>
    decreases output,
{
    match output {
        Some(t) => " -> "@ + type_text(t),
        None => Seq::empty(),
    }
}

/// The text of generic arguments. Angle brackets without arguments are not
/// written; bindings follow the arguments as they are.
pub open spec fn args_text(a: GenericArgs) -> Seq<char>
    decreases a,
{
    match a {
        GenericArgs::AngleBracketed { args, bindings } => if args.len() == 0 {
            Seq::empty()
        } else {
            "<"@ + join(arg_texts(args@), ", "@) + join(views(bindings@), ", "@) + ">"@
        },
        GenericArgs::Parenthesized { inputs, output } => "("@ + join(type_texts(inputs@), ", "@)
            + ")"@ + output_text(output),
        GenericArgs::ReturnTypeNotation => "(..)"@,
    }
}

/// The texts of the types, in order.
pub open spec fn type_texts(ts: Seq<Type>) -> Seq<Seq<char>>
    decreases ts,
{
    if ts.len() == 0 {
        Seq::empty()
    } else {
        type_texts(ts.drop_last()).push(type_text(ts.last()))
    }
}

/// The texts of the parameters of a signature: name, colon, type.
pub open spec fn input_texts(inputs: Seq<(String, Type)>) -> Seq<Seq<char>>
    decreases inputs,
{
    if inputs.len() == 0 {
        Seq::empty()
    } else {
        input_texts(inputs.drop_last()).push(inputs.last().0@ + ": "@ + type_text(inputs.last().1))
    }
}

/// The text of one bound: the name of the interface, the lifetime, or the
/// captured names.
pub open spec fn bound_text(bound: GenericBound) -> Seq<char> {
    match bound {
        GenericBound::TraitBound(p) => p.name@,
        GenericBound::Outlives(l) => l@,
        GenericBound::Use(names) => "use<"@ + join(views(names@), ", "@) + ">"@,
    }
}

/// The texts of the bounds, in order.
pub open spec fn bound_texts(bs: Seq<GenericBound>) -> Seq<Seq<char>>
    decreases bs.len(),
{
    if bs.len() == 0 {
        Seq::empty()
    } else {
        bound_texts(bs.drop_last()).push(bound_text(bs.last()))
    }
}

/// The text of a function signature, as in a function pointer.
pub open spec fn signature_text(sig: Signature) -> Seq<char>
    decreases sig,
{
    "fn("@ + join(input_texts(sig.inputs@), ", "@) + ")"@ + output_text(sig.output)
}

/// The readable text of a declared type expression.
pub open spec fn type_text(ty: Type) -> Seq<char>
    decreases ty,
{
    match ty {
        Type::ResolvedPath(p) => path_text(p),
        Type::DynTrait(ps) => "dyn "@ + join(path_texts(ps@), " + "@),
        Type::Generic(g) => g@,
        Type::Primitive(p) => p@,
        Type::FunctionPointer(sig) => signature_text(*sig),
        Type::Tuple(ts) => "("@ + join(type_texts(ts@), ", "@) + ")"@,
        Type::Slice(t) => "["@ + type_text(*t) + "]"@,
        Type::Array { type_, len } => "["@ + type_text(*type_) + "; "@ + len@ + "]"@,
        Type::Pat { type_, pattern } => type_text(*type_) + " is "@ + pattern@,
        Type::ImplTrait(bs) => "impl "@ + join(bound_texts(bs@), " + "@),
        Type::Infer => "_"@,
        Type::RawPointer { mutable, type_ } => (if mutable {
            "*mut "@
        } else {
            "*const "@
        }) + type_text(*type_),
        Type::BorrowedRef { lifetime, mutable, type_ } => "&"@ + (match lifetime {
            Some(l) => l@ + " "@,
            None => Seq::empty(),
        }) + (if mutable {
            "mut "@
        } else {
            Seq::empty()
        }) + type_text(*type_),
        Type::QualifiedPath { name, self_type, trait_ } => match trait_ {
            Some(t) => "<"@ + type_text(*self_type) + " as "@ + t.name@ + ">::"@ + name@,
            None => type_text(*self_type) + "::"@ + name@,
        },
    }
}

fn path_label(p: &PathRef) -> (r: String)
    ensures
        r@ == path_text(*p),
    decreases p,
{
    let mut out = p.name.clone();
    match &p.args {
        Some(a) => {
            let args = generic_label(a);
            out.append(args.as_str());
        },
        None => {},
    }
    assert(out@ =~= path_text(*p));
    out
}

fn path_labels(ps: &Vec<PathRef>) -> (r: Vec<String>)
    ensures
        views(r@) == path_texts(ps@),
    decreases ps@,
{
    let mut out: Vec<String> = Vec::new();
    let n = ps.len();
    let mut i: usize = 0;
    assert(views(out@) =~= path_texts(ps@.subrange(0, 0)));
    while i < n
        invariant
            i <= n,
            n == ps.len(),
            views(out@) == path_texts(ps@.subrange(0, i as int)),
        decreases n - i,
    {
        let label = path_label(&ps[i]);
        let ghost before = out@;
        out.push(label);
        proof {
            assert(ps@.subrange(0, i + 1).drop_last() =~= ps@.subrange(0, i as int));
            assert(views(out@) =~= views(before).push(label@));
        }
        i += 1;
    }
    assert(ps@.subrange(0, n as int) =~= ps@);
    out
}

fn arg_labels(args: &Vec<GenericArg>) -> (r: Vec<String>)
    ensures
        views(r@) == arg_texts(args@),
    decreases args@,
{
    let mut out: Vec<String> = Vec::new();
    let n = args.len();
    let mut i: usize = 0;
    assert(views(out@) =~= arg_texts(args@.subrange(0, 0)));
    while i < n
        invariant
            i <= n,
            n == args.len(),
            views(out@) == arg_texts(args@.subrange(0, i as int)),
        decreases n - i,
    {
        let label = match &args[i] {
            GenericArg::Lifetime(l) => l.clone(),
            GenericArg::Type(t) => type_label(t),
            GenericArg::Const(c) => c.clone(),
            GenericArg::Infer => String::from_str("_"),
        };
        assert(label@ == arg_text(args@[i as int]));
        let ghost before = out@;
        out.push(label);
        proof {
            assert(args@.subrange(0, i + 1).drop_last() =~= args@.subrange(0, i as int));
            assert(views(out@) =~= views(before).push(label@));
        }
        i += 1;
    }
    assert(args@.subrange(0, n as int) =~= args@);
    out
}

fn type_labels(ts: &Vec<Type>) -> (r: Vec<String>)
    ensures
        views(r@) == type_texts(ts@),
    decreases ts@,
{
    let mut out: Vec<String> = Vec::new();
    let n = ts.len();
    let mut i: usize = 0;
    assert(views(out@) =~= type_texts(ts@.subrange(0, 0)));
    while i < n
        invariant
            i <= n,
            n == ts.len(),
            views(out@) == type_texts(ts@.subrange(0, i as int)),
        decreases n - i,
    {
        let label = type_label(&ts[i]);
        let ghost before = out@;
        out.push(label);
        proof {
            assert(ts@.subrange(0, i + 1).drop_last() =~= ts@.subrange(0, i as int));
            assert(views(out@) =~= views(before).push(label@));
        }
        i += 1;
    }
    assert(ts@.subrange(0, n as int) =~= ts@);
    out
}

fn input_labels(inputs: &Vec<(String, Type)>) -> (r: Vec<String>)
    ensures
        views(r@) == input_texts(inputs@),
    decreases inputs@,
{
    let mut out: Vec<String> = Vec::new();
    let n = inputs.len();
    let mut i: usize = 0;
    assert(views(out@) =~= input_texts(inputs@.subrange(0, 0)));
    while i < n
        invariant
            i <= n,
            n == inputs.len(),
            views(out@) == input_texts(inputs@.subrange(0, i as int)),
        decreases n - i,
    {
        let mut label = inputs[i].0.clone();
        label.append(": ");
        let ty = type_label(&inputs[i].1);
        label.append(ty.as_str());
        let ghost before = out@;
        out.push(label);
        proof {
            assert(inputs@.subrange(0, i + 1).drop_last() =~= inputs@.subrange(0, i as int));
            assert(views(out@) =~= views(before).push(label@));
        }
        i += 1;
    }
    assert(inputs@.subrange(0, n as int) =~= inputs@);
    out
}

fn bound_labels(bs: &Vec<GenericBound>) -> (r: Vec<String>)
    ensures
        views(r@) == bound_texts(bs@),
{
    let mut out: Vec<String> = Vec::new();
    let n = bs.len();
    let mut i: usize = 0;
    assert(views(out@) =~= bound_texts(bs@.subrange(0, 0)));
    while i < n
        invariant
            i <= n,
            n == bs.len(),
            views(out@) == bound_texts(bs@.subrange(0, i as int)),
        decreases n - i,
    {
        let label = match &bs[i] {
            GenericBound::TraitBound(p) => p.name.clone(),
            GenericBound::Outlives(l) => l.clone(),
            GenericBound::Use(names) => {
                let mut s = String::from_str("use<");
                let inner = join_strings(names, ", ");
                s.append(inner.as_str());
                s.append(">");
                s
            },
        };
        assert(label@ =~= bound_text(bs@[i as int]));
        let ghost before = out@;
        out.push(label);
        proof {
            assert(bs@.subrange(0, i + 1).drop_last() =~= bs@.subrange(0, i as int));
            assert(views(out@) =~= views(before).push(label@));
        }
        i += 1;
    }
    assert(bs@.subrange(0, n as int) =~= bs@);
    out
}

fn output_label(output: &Option<Type>) -> (r: String)
    ensures
        r@ == output_text(*output),
    decreases output,
{
    match output {
        Some(t) => {
            let mut out = String::from_str(" -> ");
            let ty = type_label(t);
            out.append(ty.as_str());
            out
        },
        None => String::new(),
    }
}

fn signature_label(sig: &Signature) -> (r: String)
    ensures
        r@ == signature_text(*sig),
    decreases sig,
{
    let mut out = String::from_str("fn(");
    let inputs = input_labels(&sig.inputs);
    let joined = join_strings(&inputs, ", ");
    out.append(joined.as_str());
    out.append(")");
    let ret = output_label(&sig.output);
    out.append(ret.as_str());
    assert(out@ =~= signature_text(*sig));
    out
}

/// The text of generic arguments.
pub fn generic_label(g: &GenericArgs) -> (r: String)
    ensures
        r@ == args_text(*g),
    decreases g,
{
    let mut out = String::new();
    match g {
        GenericArgs::AngleBracketed { args, bindings } => {
            if args.len() == 0 {
                return out;
            }
            out.append("<");
            let labels = arg_labels(args);
            let joined = join_strings(&labels, ", ");
            out.append(joined.as_str());
            let bound = join_strings(bindings, ", ");
            out.append(bound.as_str());
            out.append(">");
        },
        GenericArgs::Parenthesized { inputs, output } => {
            out.append("(");
            let labels = type_labels(inputs);
            let joined = join_strings(&labels, ", ");
            out.append(joined.as_str());
            out.append(")");
            let ret = output_label(output);
            out.append(ret.as_str());
        },
        GenericArgs::ReturnTypeNotation => {
            out.append("(..)");
        },
    }
    assert(out@ =~= args_text(*g));
    out
}

/// The readable text of a declared type expression.
pub fn type_label(ty: &Type) -> (r: String)
    ensures
        r@ == type_text(*ty),
    decreases ty,
{
    let mut out = String::new();
    match ty {
        Type::ResolvedPath(p) => {
            out = path_label(p);
        },
        Type::DynTrait(ps) => {
            out.append("dyn ");
            let labels = path_labels(ps);
            let joined = join_strings(&labels, " + ");
            out.append(joined.as_str());
        },
        Type::Generic(g) => {
            out = g.clone();
        },
        Type::Primitive(p) => {
            out = p.clone();
        },
        Type::FunctionPointer(sig) => {
            out = signature_label(sig);
        },
        Type::Tuple(ts) => {
            out.append("(");
            let labels = type_labels(ts);
            let joined = join_strings(&labels, ", ");
            out.append(joined.as_str());
            out.append(")");
        },
        Type::Slice(t) => {
            out.append("[");
            let inner = type_label(t);
            out.append(inner.as_str());
            out.append("]");
        },
        Type::Array { type_, len } => {
            out.append("[");
            let inner = type_label(type_);
            out.append(inner.as_str());
            out.append("; ");
            out.append(len.as_str());
            out.append("]");
        },
        Type::Pat { type_, pattern } => {
            out = type_label(type_);
            out.append(" is ");
            out.append(pattern.as_str());
        },
        Type::ImplTrait(bs) => {
            out.append("impl ");
            let labels = bound_labels(bs);
            let joined = join_strings(&labels, " + ");
            out.append(joined.as_str());
        },
        Type::Infer => {
            out.append("_");
        },
        Type::RawPointer { mutable, type_ } => {
            if *mutable {
                out.append("*mut ");
            } else {
                out.append("*const ");
            }
            let inner = type_label(type_);
            out.append(inner.as_str());
        },
        Type::BorrowedRef { lifetime, mutable, type_ } => {
            out.append("&");
            match lifetime {
                Some(l) => {
                    out.append(l.as_str());
                    out.append(" ");
                },
                None => {},
            }
            if *mutable {
                out.append("mut ");
            }
            let inner = type_label(type_);
            out.append(inner.as_str());
        },
        Type::QualifiedPath { name, self_type, trait_ } => {
            let inner = type_label(self_type);
            match trait_ {
                Some(t) => {
                    out.append("<");
                    out.append(inner.as_str());
                    out.append(" as ");
                    out.append(t.name.as_str());
                    out.append(">::");
                },
                None => {
                    out.append(inner.as_str());
                    out.append("::");
                },
            }
            out.append(name.as_str());
        },
    }
    assert(out@ =~= type_text(*ty));
    out
}

} // verus!
