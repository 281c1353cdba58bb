//! The order in which a listing shows its labels: those of fields first, and
//! text order within each of the two groups.

use std::cmp::Ordering;
use vstd::prelude::*;
use vstd::std_specs::iter::IteratorSpec;

verus! {

broadcast use vstd::string::group_string_axioms;

/// Whether `a` stands before `b` among the characters.
pub open spec fn char_before(a: char, b: char) -> bool {
    (a as u32) < (b as u32)
}

/// Whether `a` stands before `b` in text order: character by character, a
/// proper prefix before what it is a prefix of.
pub open spec fn text_before(a: Seq<char>, b: Seq<char>) -> bool
    decreases a.len(),
{
    if b.len() == 0 {
        false
    } else if a.len() == 0 {
        true
    } else if a[0] == b[0] {
        text_before(a.drop_first(), b.drop_first())
    } else {
        char_before(a[0], b[0])
    }
}

/// Whether a label is that of a field: it holds a colon followed by a space.
pub open spec fn field_like(label: Seq<char>) -> bool {
    exists|i: int| 0 <= i && i + 1 < label.len() && label[i] == ':' && #[trigger] label[i + 1] == ' '
}

/// Whether the label `a` is shown before the label `b`.
pub open spec fn label_before(a: Seq<char>, b: Seq<char>) -> bool {
    if field_like(a) != field_like(b) {
        field_like(a)
    } else {
        text_before(a, b)
    }
}

/// How two texts compare in text order.
pub open spec fn text_order(a: Seq<char>, b: Seq<char>) -> Ordering {
    if text_before(a, b) {
        Ordering::Less
    } else if text_before(b, a) {
        Ordering::Greater
    } else {
        Ordering::Equal
    }
}

/// How two labels compare in the order of a listing.
pub open spec fn label_order(a: Seq<char>, b: Seq<char>) -> Ordering {
    if label_before(a, b) {
        Ordering::Less
    } else if label_before(b, a) {
        Ordering::Greater
    } else {
        Ordering::Equal
    }
}

/// Whether `a` stands before `b` among the characters.
pub fn char_precedes(a: char, b: char) -> (r: bool)
    ensures
        r == char_before(a, b),
{
    (a as u32) < (b as u32)
}

/// Whether a label is that of a field.
pub fn is_field_like(label: &str) -> (r: bool)
    ensures
        r == field_like(label@),
{
    let mut rest = label.chars();
    let mut after_colon = false;
    let ghost mut at: int = 0;
    loop
        invariant
            0 <= at <= label@.len(),
            rest.remaining() == label@.subrange(at, label@.len() as int),
            after_colon == (at > 0 && label@[at - 1] == ':'),
            forall|i: int|
                0 <= i && i + 1 < at ==> !(label@[i] == ':' && #[trigger] label@[i + 1] == ' '),
        decreases label@.len() - at,
    {
        match rest.next() {
            None => {
                return false;
            },
            Some(c) => {
                proof {
                    assert(c == label@[at]);
                    assert(rest.remaining() =~= label@.subrange(at + 1, label@.len() as int));
                }
                if after_colon && c == ' ' {
                    assert(label@[at - 1] == ':' && label@[at - 1 + 1] == ' ');
                    return true;
                }
                after_colon = c == ':';
                proof {
                    at = at + 1;
                }
            },
        }
    }
}

/// Of two different characters one stands before the other.
pub proof fn lemma_chars_apart(a: char, b: char)
    requires
        a != b,
    ensures
        char_before(a, b) || char_before(b, a),
{
    if (a as u32) == (b as u32) {
        vstd::utf8::char_u32_cast(a, a as u32);
        vstd::utf8::char_u32_cast(b, b as u32);
    }
}

/// How two texts compare in text order.
pub fn compare_text(a: &str, b: &str) -> (r: Ordering)
    ensures
        r == text_order(a@, b@),
{
    let mut left = a.chars();
    let mut right = b.chars();
    let ghost mut at: int = 0;
    proof {
        assert(a@.skip(0) =~= a@);
        assert(b@.skip(0) =~= b@);
    }
    loop
        invariant
            0 <= at <= a@.len(),
            at <= b@.len(),
            left.remaining() == a@.skip(at),
            right.remaining() == b@.skip(at),
            text_order(a@, b@) == text_order(a@.skip(at), b@.skip(at)),
        decreases a@.len() - at,
    {
        let x = left.next();
        let y = right.next();
        proof {
            assert(a@.skip(at).len() > 0 ==> a@.skip(at).drop_first() =~= a@.skip(at + 1));
            assert(b@.skip(at).len() > 0 ==> b@.skip(at).drop_first() =~= b@.skip(at + 1));
        }
        match (x, y) {
            (None, None) => {
                return Ordering::Equal;
            },
            (None, Some(_)) => {
                return Ordering::Less;
            },
            (Some(_), None) => {
                return Ordering::Greater;
            },
            (Some(c), Some(d)) => {
                if c != d {
                    if char_precedes(c, d) {
                        return Ordering::Less;
                    } else {
                        assert(char_before(d, c)) by {
                            lemma_chars_apart(c, d);
                        }
                        return Ordering::Greater;
                    }
                }
                proof {
                    at = at + 1;
                }
            },
        }
    }
}

/// How two labels compare in the order of a listing: a field's label before
/// any other, and in text order otherwise.
pub fn cmp_labels(a: &str, b: &str) -> (r: Ordering)
    ensures
        r == label_order(a@, b@),
{
    let fa = is_field_like(a);
    let fb = is_field_like(b);
    if fa != fb {
        if fa {
            Ordering::Less
        } else {
            Ordering::Greater
        }
    } else {
        compare_text(a, b)
    }
}

/// Whether the label `a` is shown before the label `b`.
pub fn label_precedes(a: &str, b: &str) -> (r: bool)
    ensures
        r == label_before(a@, b@),
{
    match cmp_labels(a, b) {
        Ordering::Less => true,
        _ => false,
    }
}

/// A listing with each label as plain text.
pub open spec fn labelled<T>(entries: Seq<(String, T)>) -> Seq<(Seq<char>, T)> {
    Seq::new(entries.len(), |i: int| (entries[i].0@, entries[i].1))
}

/// The listing `sorted` with `entry` put before the first of its entries
/// that is not shown before `entry`.
pub open spec fn insert_by_label<T>(entry: (Seq<char>, T), sorted: Seq<(Seq<char>, T)>) -> Seq<
    (Seq<char>, T),
>
    decreases sorted.len(),
{
    if sorted.len() == 0 {
        seq![entry]
    } else if label_before(sorted[0].0, entry.0) {
        seq![sorted[0]] + insert_by_label(entry, sorted.drop_first())
    } else {
        seq![entry] + sorted
    }
}

/// The listing in the order of its labels; entries with one label keep the
/// order in which they came.
pub open spec fn sorted_by_label<T>(entries: Seq<(Seq<char>, T)>) -> Seq<(Seq<char>, T)>
    decreases entries.len(),
{
    if entries.len() == 0 {
        entries
    } else {
        insert_by_label(entries[0], sorted_by_label(entries.drop_first()))
    }
}

/// Inserting by label puts the entry at the first place whose entry is not
/// shown before it.
pub proof fn lemma_insert_at<T>(entry: (Seq<char>, T), sorted: Seq<(Seq<char>, T)>, at: int)
    requires
        0 <= at <= sorted.len(),
        forall|j: int| 0 <= j < at ==> label_before((#[trigger] sorted[j]).0, entry.0),
        at < sorted.len() ==> !label_before(sorted[at].0, entry.0),
    ensures
        insert_by_label(entry, sorted) == sorted.insert(at, entry),
    decreases sorted.len(),
{
    if sorted.len() == 0 {
        assert(seq![entry] =~= sorted.insert(at, entry));
    } else if at == 0 {
        assert(seq![entry] + sorted =~= sorted.insert(at, entry));
    } else {
        let rest = sorted.drop_first();
        assert forall|j: int| 0 <= j < at - 1 implies label_before(
            (#[trigger] rest[j]).0,
            entry.0,
        ) by {
            assert(rest[j] == sorted[j + 1]);
        }
        lemma_insert_at(entry, rest, at - 1);
        assert(seq![sorted[0]] + rest.insert(at - 1, entry) =~= sorted.insert(at, entry));
    }
}

/// Whether two listings have the same labels, place by place, and payloads
/// that `rel` relates.
pub open spec fn related<T, U>(
    x: Seq<(Seq<char>, T)>,
    y: Seq<(Seq<char>, U)>,
    rel: spec_fn(T, U) -> bool,
) -> bool {
    &&& x.len() == y.len()
    &&& forall|i: int| 0 <= i < x.len() ==> (#[trigger] x[i]).0 == y[i].0 && rel(x[i].1, y[i].1)
}

proof fn lemma_insert_related<T, U>(
    e: (Seq<char>, T),
    f: (Seq<char>, U),
    x: Seq<(Seq<char>, T)>,
    y: Seq<(Seq<char>, U)>,
    rel: spec_fn(T, U) -> bool,
)
    requires
        related(x, y, rel),
        e.0 == f.0,
        rel(e.1, f.1),
    ensures
        related(insert_by_label(e, x), insert_by_label(f, y), rel),
    decreases x.len(),
{
    if x.len() > 0 {
        assert(x[0].0 == y[0].0);
        if label_before(x[0].0, e.0) {
            let g = x.drop_first();
            let h = y.drop_first();
            assert forall|i: int| 0 <= i < g.len() implies (#[trigger] g[i]).0 == h[i].0 && rel(
                g[i].1,
                h[i].1,
            ) by {
                assert(g[i] == x[i + 1]);
            }
            lemma_insert_related(e, f, g, h, rel);
            let a = seq![x[0]] + insert_by_label(e, g);
            let b = seq![y[0]] + insert_by_label(f, h);
            assert forall|i: int| 0 <= i < a.len() implies (#[trigger] a[i]).0 == b[i].0 && rel(
                a[i].1,
                b[i].1,
            ) by {
                if i > 0 {
                    assert(a[i] == insert_by_label(e, g)[i - 1]);
                }
            }
        } else {
            let a = seq![e] + x;
            let b = seq![f] + y;
            assert forall|i: int| 0 <= i < a.len() implies (#[trigger] a[i]).0 == b[i].0 && rel(
                a[i].1,
                b[i].1,
            ) by {
                if i > 0 {
                    assert(a[i] == x[i - 1]);
                }
            }
        }
    }
}

/// The order of a listing depends on its labels alone: sorting keeps two
/// related listings related.
pub proof fn lemma_sorted_related<T, U>(
    x: Seq<(Seq<char>, T)>,
    y: Seq<(Seq<char>, U)>,
    rel: spec_fn(T, U) -> bool,
)
    requires
        related(x, y, rel),
    ensures
        related(sorted_by_label(x), sorted_by_label(y), rel),
    decreases x.len(),
{
    if x.len() > 0 {
        let g = x.drop_first();
        let h = y.drop_first();
        assert forall|i: int| 0 <= i < g.len() implies (#[trigger] g[i]).0 == h[i].0 && rel(
            g[i].1,
            h[i].1,
        ) by {
            assert(g[i] == x[i + 1]);
        }
        lemma_sorted_related(g, h, rel);
        lemma_insert_related(x[0], y[0], sorted_by_label(g), sorted_by_label(h), rel);
    }
}

/// Puts a listing into the order of its labels. Entries with one label keep
/// the order in which they came.
pub fn sort_by_label<T>(entries: &mut Vec<(String, T)>)
    ensures
        labelled(final(entries)@) == sorted_by_label(labelled(old(entries)@)),
{
    let mut out: Vec<(String, T)> = Vec::new();
    let ghost all = entries@;
    assert(labelled(out@) =~= sorted_by_label(
        labelled(all.subrange(all.len() as int, all.len() as int)),
    ));
    while entries.len() > 0
        invariant
            entries@ == all.subrange(0, entries.len() as int),
            entries.len() <= all.len(),
            labelled(out@) == sorted_by_label(
                labelled(all.subrange(entries.len() as int, all.len() as int)),
            ),
        decreases entries.len(),
    {
        let ghost k = entries.len() as int;
        let entry = entries.pop().unwrap();
        let mut at: usize = 0;
        while at < out.len() && label_precedes(out[at].0.as_str(), entry.0.as_str())
            invariant
                at <= out.len(),
                forall|j: int| 0 <= j < at ==> label_before((#[trigger] out@[j]).0@, entry.0@),
            decreases out.len() - at,
        {
            at += 1;
        }
        proof {
            let plain = (entry.0@, entry.1);
            let sorted = labelled(out@);
            assert forall|j: int| 0 <= j < at implies label_before(
                (#[trigger] sorted[j]).0,
                plain.0,
            ) by {
                assert(sorted[j].0 == out@[j].0@);
            }
            lemma_insert_at(plain, sorted, at as int);
            let tail = labelled(all.subrange(k - 1, all.len() as int));
            assert(tail[0] == plain);
            assert(tail.drop_first() =~= labelled(all.subrange(k, all.len() as int)));
            assert(entries@ =~= all.subrange(0, k - 1));
            assert(labelled(out@.insert(at as int, entry)) =~= sorted.insert(at as int, plain));
        }
        out.insert(at, entry);
    }
    assert(all.subrange(0, all.len() as int) =~= all);
    *entries = out;
}

/// Text order runs one way only.
pub proof fn lemma_text_one_way(a: Seq<char>, b: Seq<char>)
    requires
        text_before(a, b),
    ensures
        !text_before(b, a),
    decreases a.len(),
{
    if a.len() > 0 && b.len() > 0 && a[0] == b[0] {
        lemma_text_one_way(a.drop_first(), b.drop_first());
    }
}

/// Of two different texts one stands before the other.
pub proof fn lemma_text_total(a: Seq<char>, b: Seq<char>)
    requires
        a != b,
    ensures
        text_before(a, b) || text_before(b, a),
    decreases a.len(),
{
    if a.len() > 0 && b.len() > 0 {
        if a[0] == b[0] {
            if a.drop_first() == b.drop_first() {
                assert(a =~= seq![a[0]] + a.drop_first());
                assert(b =~= seq![b[0]] + b.drop_first());
            }
            lemma_text_total(a.drop_first(), b.drop_first());
        } else {
            lemma_chars_apart(a[0], b[0]);
        }
    } else if a.len() == 0 && b.len() == 0 {
        assert(a =~= b);
    }
}

/// What stands before a text stands before any third text or that one before
/// the text.
pub proof fn lemma_text_between(a: Seq<char>, b: Seq<char>, c: Seq<char>)
    requires
        text_before(a, c),
    ensures
        text_before(a, b) || text_before(b, c),
    decreases a.len(),
{
    if a.len() > 0 && b.len() > 0 && c.len() > 0 {
        if a[0] == c[0] {
            if b[0] == a[0] {
                lemma_text_between(a.drop_first(), b.drop_first(), c.drop_first());
            } else {
                lemma_chars_apart(a[0], b[0]);
            }
        } else if b[0] != a[0] && b[0] != c[0] {
            lemma_chars_apart(a[0], b[0]);
        }
    }
}

/// The order of labels runs one way only.
pub proof fn lemma_label_one_way(a: Seq<char>, b: Seq<char>)
    requires
        label_before(a, b),
    ensures
        !label_before(b, a),
{
    if field_like(a) == field_like(b) {
        lemma_text_one_way(a, b);
    }
}

/// What is shown before a label is shown before any third label or that one
/// before the label.
pub proof fn lemma_label_between(a: Seq<char>, b: Seq<char>, c: Seq<char>)
    requires
        label_before(a, c),
    ensures
        label_before(a, b) || label_before(b, c),
{
    if field_like(a) == field_like(c) && field_like(b) == field_like(a) {
        lemma_text_between(a, b, c);
    }
}

/// Two labels of which neither is shown before the other are one label.
pub proof fn lemma_label_total(a: Seq<char>, b: Seq<char>)
    requires
        !label_before(a, b),
        !label_before(b, a),
    ensures
        a == b,
{
    if a != b {
        lemma_text_total(a, b);
    }
}

/// Whether no entry of a listing is shown before an earlier one.
pub open spec fn ordered<T>(entries: Seq<(Seq<char>, T)>) -> bool {
    forall|i: int, j: int|
        0 <= i < j < entries.len() ==> !label_before(
            (#[trigger] entries[j]).0,
            (#[trigger] entries[i]).0,
        )
}

proof fn lemma_insert_keeps<T>(entry: (Seq<char>, T), sorted: Seq<(Seq<char>, T)>)
    requires
        ordered(sorted),
    ensures
        ordered(insert_by_label(entry, sorted)),
        insert_by_label(entry, sorted).to_multiset() == sorted.to_multiset().insert(entry),
        insert_by_label(entry, sorted).len() == sorted.len() + 1,
        forall|k: int|
            0 <= k < sorted.len() + 1 ==> #[trigger] insert_by_label(entry, sorted)[k] == entry
                || sorted.contains(insert_by_label(entry, sorted)[k]),
    decreases sorted.len(),
{
    broadcast use vstd::seq_lib::group_to_multiset_ensures;

    let out = insert_by_label(entry, sorted);
    if sorted.len() == 0 {
        assert(out =~= Seq::<(Seq<char>, T)>::empty().push(entry));
    } else if label_before(sorted[0].0, entry.0) {
        let rest = sorted.drop_first();
        assert forall|i: int, j: int| 0 <= i < j < rest.len() implies !label_before(
            (#[trigger] rest[j]).0,
            (#[trigger] rest[i]).0,
        ) by {
            assert(rest[i] == sorted[i + 1] && rest[j] == sorted[j + 1]);
        }
        lemma_insert_keeps(entry, rest);
        let inner = insert_by_label(entry, rest);
        assert forall|k: int| 0 <= k < out.len() implies #[trigger] out[k] == entry
            || sorted.contains(out[k]) by {
            if k == 0 {
                assert(out[0] == sorted[0]);
            } else {
                assert(out[k] == inner[k - 1]);
                if inner[k - 1] != entry {
                    let w = choose|w: int| 0 <= w < rest.len() && rest[w] == inner[k - 1];
                    assert(sorted[w + 1] == inner[k - 1]);
                }
            }
        }
        assert forall|i: int, j: int| 0 <= i < j < out.len() implies !label_before(
            (#[trigger] out[j]).0,
            (#[trigger] out[i]).0,
        ) by {
            if i == 0 {
                assert(out[j] == inner[j - 1]);
                if inner[j - 1] == entry {
                    lemma_label_one_way(sorted[0].0, entry.0);
                } else {
                    let w = choose|w: int| 0 <= w < rest.len() && rest[w] == inner[j - 1];
                    assert(sorted[w + 1] == inner[j - 1]);
                }
            } else {
                assert(out[i] == inner[i - 1] && out[j] == inner[j - 1]);
            }
        }
        vstd::seq_lib::lemma_multiset_commutative(seq![sorted[0]], inner);
        vstd::seq_lib::lemma_multiset_commutative(seq![sorted[0]], rest);
        assert(sorted =~= seq![sorted[0]] + rest);
        assert(out.to_multiset() =~= sorted.to_multiset().insert(entry));
    } else {
        assert forall|i: int, j: int| 0 <= i < j < out.len() implies !label_before(
            (#[trigger] out[j]).0,
            (#[trigger] out[i]).0,
        ) by {
            if i == 0 {
                assert(out[j] == sorted[j - 1]);
                if j > 1 && label_before(sorted[j - 1].0, entry.0) {
                    lemma_label_between(sorted[j - 1].0, sorted[0].0, entry.0);
                }
            } else {
                assert(out[i] == sorted[i - 1] && out[j] == sorted[j - 1]);
            }
        }
        assert forall|k: int| 0 <= k < out.len() implies #[trigger] out[k] == entry
            || sorted.contains(out[k]) by {
            if k > 0 {
                assert(out[k] == sorted[k - 1]);
            }
        }
        vstd::seq_lib::lemma_multiset_commutative(seq![entry], sorted);
        assert(seq![entry] =~= Seq::<(Seq<char>, T)>::empty().push(entry));
        assert(out.to_multiset() =~= sorted.to_multiset().insert(entry));
    }
}

/// A sorted listing is in order and holds the entries that came, each as
/// often as it came.
pub proof fn lemma_sorted_by_label<T>(entries: Seq<(Seq<char>, T)>)
    ensures
        ordered(sorted_by_label(entries)),
        sorted_by_label(entries).to_multiset() == entries.to_multiset(),
        sorted_by_label(entries).len() == entries.len(),
    decreases entries.len(),
{
    broadcast use vstd::seq_lib::group_to_multiset_ensures;

    if entries.len() > 0 {
        let rest = entries.drop_first();
        lemma_sorted_by_label(rest);
        lemma_insert_keeps(entries[0], sorted_by_label(rest));
        vstd::seq_lib::lemma_multiset_commutative(seq![entries[0]], rest);
        assert(entries =~= seq![entries[0]] + rest);
        assert(seq![entries[0]] =~= Seq::<(Seq<char>, T)>::empty().push(entries[0]));
        assert(sorted_by_label(entries).to_multiset() =~= entries.to_multiset());
    }
}

/// A listing in which every entry is shown before the next is left as it is.
pub proof fn lemma_sorted_in_order<T>(entries: Seq<(Seq<char>, T)>)
    requires
        forall|i: int|
            0 <= i && i + 1 < entries.len() ==> label_before(
                (#[trigger] entries[i]).0,
                entries[i + 1].0,
            ),
    ensures
        sorted_by_label(entries) == entries,
    decreases entries.len(),
{
    if entries.len() > 0 {
        let rest = entries.drop_first();
        assert forall|i: int| 0 <= i && i + 1 < rest.len() implies label_before(
            (#[trigger] rest[i]).0,
            rest[i + 1].0,
        ) by {
            assert(rest[i] == entries[i + 1]);
            assert(rest[i + 1] == entries[i + 1 + 1]);
        }
        lemma_sorted_in_order(rest);
        if rest.len() > 0 {
            assert(rest[0] == entries[1]);
            assert(label_before(entries[0].0, entries[0int + 1].0));
            lemma_label_one_way(entries[0].0, rest[0].0);
        }
        assert(seq![entries[0]] + rest =~= entries);
    }
}

} // verus!
