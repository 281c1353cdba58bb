//! Walking a declared type expression for the symbols that it refers to.

use crate::model::{GenericArg, GenericArgs, GenericBound, Id, PathRef, Type};
use vstd::prelude::*;

verus! {

/// The identifiers that a path mentions: its own, then those of its generic
/// arguments.
pub open spec fn walk_path(p: PathRef) -> Seq<Id>
    decreases p,
{
    seq![p.id] + match p.args {
        Some(a) => walk_args(*a),
        None => Seq::empty(),
    }
}

/// The identifiers that the paths mention, in order.
pub open spec fn walk_paths(ps: Seq<PathRef>) -> Seq<Id>
    decreases ps,
{
    if ps.len() == 0 {
        Seq::empty()
    } else {
        walk_paths(ps.drop_last()) + walk_path(ps.last())
    }
}

/// The identifiers that generic arguments mention.
pub open spec fn walk_args(a: GenericArgs) -> Seq<Id>
    decreases a,
{
    match a {
        GenericArgs::AngleBracketed { args, bindings } => walk_arg_list(args@),
        GenericArgs::Parenthesized { inputs, output } => walk_types(inputs@) + match output {
            Some(t) => walk(t),
            None => Seq::empty(),
        },
        GenericArgs::ReturnTypeNotation => Seq::empty(),
    }
}

/// The identifiers that the type arguments of a list mention, in order.
pub open spec fn walk_arg_list(args: Seq<GenericArg>) -> Seq<Id>
    decreases args,
{
    if args.len() == 0 {
        Seq::empty()
    } else {
        walk_arg_list(args.drop_last()) + match args.last() {
            GenericArg::Type(t) => walk(t),
            _ => Seq::empty(),
        }
    }
}

/// The identifiers that the types mention, in order.
pub open spec fn walk_types(ts: Seq<Type>) -> Seq<Id>
    decreases ts,
{
    if ts.len() == 0 {
        Seq::empty()
    } else {
        walk_types(ts.drop_last()) + walk(ts.last())
    }
}

/// The identifiers of the interfaces among the bounds, in order.
pub open spec fn walk_bounds(bs: Seq<GenericBound>) -> Seq<Id>
    decreases bs.len(),
{
    if bs.len() == 0 {
        Seq::empty()
    } else {
        walk_bounds(bs.drop_last()) + match bs.last() {
            GenericBound::TraitBound(p) => seq![p.id],
            _ => Seq::empty(),
        }
    }
}

/// The identifiers that a type expression mentions, in the order of writing.
/// A generic parameter, a primitive, a placeholder and a function pointer
/// mention none.
pub open spec fn walk(ty: Type) -> Seq<Id>
    decreases ty,
{
    match ty {
        Type::ResolvedPath(p) => walk_path(p),
        Type::DynTrait(ps) => walk_paths(ps@),
        Type::Generic(_) => Seq::empty(),
        Type::Primitive(_) => Seq::empty(),
        Type::FunctionPointer(_) => Seq::empty(),
        Type::Tuple(ts) => walk_types(ts@),
        Type::Slice(t) => walk(*t),
        Type::Array { type_, len } => walk(*type_),
        Type::Pat { type_, pattern } => walk(*type_),
        Type::ImplTrait(bs) => walk_bounds(bs@),
        Type::Infer => Seq::empty(),
        Type::RawPointer { mutable, type_ } => walk(*type_),
        Type::BorrowedRef { lifetime, mutable, type_ } => walk(*type_),
        Type::QualifiedPath { name, self_type, trait_ } => walk(*self_type) + match trait_ {
            Some(p) => seq![p.id],
            None => Seq::empty(),
        },
    }
}

/// The sequence without the later occurrences of each of its elements.
pub open spec fn distinct(ids: Seq<Id>) -> Seq<Id>
    decreases ids.len(),
{
    if ids.len() == 0 {
        Seq::empty()
    } else {
        let d = distinct(ids.drop_last());
        if d.contains(ids.last()) {
            d
        } else {
            d.push(ids.last())
        }
    }
}

fn collect_path(p: &PathRef, out: &mut Vec<Id>)
    ensures
        final(out)@ == old(out)@ + walk_path(*p),
    decreases p,
{
    out.push(p.id);
    match &p.args {
        Some(a) => collect_args(a, out),
        None => {},
    }
    assert(final(out)@ =~= old(out)@ + walk_path(*p));
}

fn collect_paths(ps: &Vec<PathRef>, out: &mut Vec<Id>)
    ensures
        final(out)@ == old(out)@ + walk_paths(ps@),
    decreases ps@,
{
    let n = ps.len();
    let mut i: usize = 0;
    while i < n
        invariant
            i <= n,
            n == ps.len(),
            out@ == old(out)@ + walk_paths(ps@.subrange(0, i as int)),
        decreases n - i,
    {
        collect_path(&ps[i], out);
        proof {
            let next = ps@.subrange(0, i + 1);
            assert(next.drop_last() =~= ps@.subrange(0, i as int));
            assert(out@ =~= old(out)@ + walk_paths(next));
        }
        i += 1;
    }
    assert(ps@.subrange(0, n as int) =~= ps@);
}

fn collect_arg_list(args: &Vec<GenericArg>, out: &mut Vec<Id>)
    ensures
        final(out)@ == old(out)@ + walk_arg_list(args@),
    decreases args@,
{
    let n = args.len();
    let mut i: usize = 0;
    while i < n
        invariant
            i <= n,
            n == args.len(),
            out@ == old(out)@ + walk_arg_list(args@.subrange(0, i as int)),
        decreases n - i,
    {
        match &args[i] {
            GenericArg::Type(t) => collect(t, out),
            _ => {},
        }
        proof {
            let next = args@.subrange(0, i + 1);
            assert(next.drop_last() =~= args@.subrange(0, i as int));
            assert(out@ =~= old(out)@ + walk_arg_list(next));
        }
        i += 1;
    }
    assert(args@.subrange(0, n as int) =~= args@);
}

fn collect_args(a: &GenericArgs, out: &mut Vec<Id>)
    ensures
        final(out)@ == old(out)@ + walk_args(*a),
    decreases a,
{
    match a {
        GenericArgs::AngleBracketed { args, bindings } => collect_arg_list(args, out),
        GenericArgs::Parenthesized { inputs, output } => {
            collect_types(inputs, out);
            match output {
                Some(t) => collect(t, out),
                None => {},
            }
            assert(out@ =~= old(out)@ + walk_args(*a));
        },
        GenericArgs::ReturnTypeNotation => {
            assert(out@ =~= old(out)@ + walk_args(*a));
        },
    }
}

fn collect_types(ts: &Vec<Type>, out: &mut Vec<Id>)
    ensures
        final(out)@ == old(out)@ + walk_types(ts@),
    decreases ts@,
{
    let n = ts.len();
    let mut i: usize = 0;
    while i < n
        invariant
            i <= n,
            n == ts.len(),
            out@ == old(out)@ + walk_types(ts@.subrange(0, i as int)),
        decreases n - i,
    {
        collect(&ts[i], out);
        proof {
            let next = ts@.subrange(0, i + 1);
            assert(next.drop_last() =~= ts@.subrange(0, i as int));
            assert(out@ =~= old(out)@ + walk_types(next));
        }
        i += 1;
    }
    assert(ts@.subrange(0, n as int) =~= ts@);
}

fn collect_bounds(bs: &Vec<GenericBound>, out: &mut Vec<Id>)
    ensures
        final(out)@ == old(out)@ + walk_bounds(bs@),
{
    let n = bs.len();
    let mut i: usize = 0;
    while i < n
        invariant
            i <= n,
            n == bs.len(),
            out@ == old(out)@ + walk_bounds(bs@.subrange(0, i as int)),
        decreases n - i,
    {
        match &bs[i] {
            GenericBound::TraitBound(p) => out.push(p.id),
            _ => {},
        }
        proof {
            let next = bs@.subrange(0, i + 1);
            assert(next.drop_last() =~= bs@.subrange(0, i as int));
            assert(out@ =~= old(out)@ + walk_bounds(next));
        }
        i += 1;
    }
    assert(bs@.subrange(0, n as int) =~= bs@);
}

fn collect(ty: &Type, out: &mut Vec<Id>)
    ensures
        final(out)@ == old(out)@ + walk(*ty),
    decreases ty,
{
    match ty {
        Type::ResolvedPath(p) => collect_path(p, out),
        Type::DynTrait(ps) => collect_paths(ps, out),
        Type::Tuple(ts) => collect_types(ts, out),
        Type::Slice(t) => collect(t, out),
        Type::Array { type_, len } => collect(type_, out),
        Type::Pat { type_, pattern } => collect(type_, out),
        Type::ImplTrait(bs) => collect_bounds(bs, out),
        Type::RawPointer { mutable, type_ } => collect(type_, out),
        Type::BorrowedRef { lifetime, mutable, type_ } => collect(type_, out),
        Type::QualifiedPath { name, self_type, trait_ } => {
            collect(self_type, out);
            match trait_ {
                Some(p) => out.push(p.id),
                None => {},
            }
            assert(out@ =~= old(out)@ + walk(*ty));
        },
        _ => {
            assert(out@ =~= old(out)@ + walk(*ty));
        },
    }
}

/// Whether `id` stands among `ids`.
pub fn contains_id(ids: &Vec<Id>, id: Id) -> (r: bool)
    ensures
        r == ids@.contains(id),
{
    let n = ids.len();
    let mut i: usize = 0;
    while i < n
        invariant
            i <= n,
            n == ids.len(),
            forall|j: int| 0 <= j < i ==> ids@[j] != id,
        decreases n - i,
    {
        if ids[i].0 == id.0 {
            assert(ids@[i as int] == id);
            return true;
        }
        i += 1;
    }
    false
}

/// The symbols that a type expression refers to, each once, in the order in
/// which the expression first mentions them.
pub fn type_ids(ty: &Type) -> (r: Vec<Id>)
    ensures
        r@ == distinct(walk(*ty)),
{
    let mut all: Vec<Id> = Vec::new();
    collect(ty, &mut all);
    assert(all@ =~= walk(*ty));
    let mut out: Vec<Id> = Vec::new();
    let n = all.len();
    let mut i: usize = 0;
    while i < n
        invariant
            i <= n,
            n == all.len(),
            out@ == distinct(all@.subrange(0, i as int)),
        decreases n - i,
    {
        let id = all[i];
        assert(all@.subrange(0, i + 1).drop_last() =~= all@.subrange(0, i as int));
        if !contains_id(&out, id) {
            out.push(id);
        }
        i += 1;
    }
    assert(all@.subrange(0, n as int) =~= all@);
    out
}

/// Taking out later occurrences leaves the first element in its place.
pub proof fn lemma_distinct_first(ids: Seq<Id>)
    requires
        ids.len() > 0,
    ensures
        distinct(ids).len() > 0,
        distinct(ids)[0] == ids[0],
    decreases ids.len(),
{
    if ids.len() > 1 {
        assert(ids.drop_last()[0] == ids[0]);
        lemma_distinct_first(ids.drop_last());
    } else {
        assert(ids.drop_last().len() == 0);
        assert(distinct(ids.drop_last()) =~= Seq::<Id>::empty());
    }
}

/// Among the symbols that a type refers to none stands twice, and they are
/// those that the type mentions.
pub proof fn lemma_distinct(ids: Seq<Id>)
    ensures
        distinct(ids).no_duplicates(),
        forall|id: Id| distinct(ids).contains(id) <==> ids.contains(id),
    decreases ids.len(),
{
    if ids.len() > 0 {
        let rest = ids.drop_last();
        lemma_distinct(rest);
        let d = distinct(rest);
        assert forall|id: Id| distinct(ids).contains(id) <==> ids.contains(id) by {
            if ids.contains(id) {
                let w = choose|w: int| 0 <= w < ids.len() && ids[w] == id;
                if w < rest.len() {
                    assert(rest[w] == id);
                    assert(rest.contains(id));
                    assert(d.contains(id));
                    if !d.contains(ids.last()) {
                        let v = choose|v: int| 0 <= v < d.len() && d[v] == id;
                        assert(d.push(ids.last())[v] == id);
                    }
                } else {
                    if !d.contains(ids.last()) {
                        assert(d.push(ids.last())[d.len() as int] == id);
                    }
                }
            }
            if distinct(ids).contains(id) {
                let v = choose|v: int| 0 <= v < distinct(ids).len() && distinct(ids)[v] == id;
                if v < d.len() {
                    assert(d[v] == id);
                    assert(rest.contains(id));
                    let w = choose|w: int| 0 <= w < rest.len() && rest[w] == id;
                    assert(ids[w] == id);
                } else {
                    assert(ids[ids.len() - 1] == id);
                }
            }
        }
    }
}

} // verus!
