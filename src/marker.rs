//! Recognising and filtering marker decorators.
use vstd::prelude::*;
use crate::syntax::{Decorator, DecoratorModel, decorators_model};

verus! {

/// A stale marker: a bare identifier that starts with the reserved prefix.
/// Any other expression is never taken for a marker.
pub open spec fn is_stale_marker(d: DecoratorModel, prefix: Seq<char>) -> bool {
    match d {
        DecoratorModel::SimpleName(id) => prefix.is_prefix_of(id),
        DecoratorModel::Complex(_) => false,
    }
}

/// The decorators that are kept: all but the stale markers, in order.
pub open spec fn kept(ds: Seq<DecoratorModel>, prefix: Seq<char>) -> Seq<DecoratorModel>
    decreases ds.len(),
{
    if ds.len() == 0 {
        Seq::empty()
    } else if is_stale_marker(ds[0], prefix) {
        kept(ds.skip(1), prefix)
    } else {
        seq![ds[0]] + kept(ds.skip(1), prefix)
    }
}

/// Filtering distributes over concatenation.
pub proof fn lemma_kept_concat(a: Seq<DecoratorModel>, b: Seq<DecoratorModel>, prefix: Seq<char>)
    ensures
        kept(a + b, prefix) == kept(a, prefix) + kept(b, prefix),
    decreases a.len(),
{
    if a.len() == 0 {
        assert(a + b =~= b);
        assert(kept(a, prefix) + kept(b, prefix) =~= kept(b, prefix));
    } else {
        assert((a + b).skip(1) =~= a.skip(1) + b);
        assert((a + b)[0] == a[0]);
        lemma_kept_concat(a.skip(1), b, prefix);
        if !is_stale_marker(a[0], prefix) {
            assert(seq![a[0]] + kept(a.skip(1) + b, prefix) =~= seq![a[0]] + kept(a.skip(1), prefix)
                + kept(b, prefix));
        }
    }
}

/// Whether `s` starts with `prefix`.
pub fn starts_with(s: &str, prefix: &str) -> (r: bool)
    ensures
        r == prefix@.is_prefix_of(s@),
{
    let n = prefix.unicode_len();
    let m = s.unicode_len();
    if n > m {
        return false;
    }
    let mut i: usize = 0;
    while i < n
        invariant
            n == prefix@.len(),
            m == s@.len(),
            n <= m,
            i <= n,
            forall|j: int| 0 <= j < i ==> prefix@[j] == s@[j],
        decreases n - i,
    {
        if prefix.get_char(i) != s.get_char(i) {
            return false;
        }
        i = i + 1;
    }
    true
}

/// Whether a decorator is a stale marker for `prefix`.
pub fn is_marker(d: &Decorator, prefix: &str) -> (r: bool)
    ensures
        r == is_stale_marker(d@, prefix@),
{
    match d {
        Decorator::SimpleName(id) => starts_with(id.as_str(), prefix),
        Decorator::Complex(_) => false,
    }
}

/// The decorator list with every stale marker left out; all other
/// decorators, call expressions and qualified names included, stay in order.
pub fn filter_markers(ds: &Vec<Decorator>, prefix: &str) -> (r: Vec<Decorator>)
    ensures
        decorators_model(r@) == kept(decorators_model(ds@), prefix@),
{
    let mut r: Vec<Decorator> = Vec::new();
    let mut i: usize = 0;
    while i < ds.len()
        invariant
            i <= ds.len(),
            decorators_model(r@) == kept(decorators_model(ds@).take(i as int), prefix@),
        decreases ds.len() - i,
    {
        let ghost all = decorators_model(ds@);
        proof {
            assert(all.take(i + 1) =~= all.take(i as int) + seq![all[i as int]]);
            lemma_kept_concat(all.take(i as int), seq![all[i as int]], prefix@);
            assert(seq![all[i as int]].skip(1) =~= Seq::<DecoratorModel>::empty());
            assert(kept(Seq::<DecoratorModel>::empty(), prefix@) == Seq::<DecoratorModel>::empty());
            assert(seq![all[i as int]] + Seq::<DecoratorModel>::empty() =~= seq![all[i as int]]);
        }
        if !is_marker(&ds[i], prefix) {
            let d = ds[i].duplicate();
            let ghost before = r@;
            r.push(d);
            proof {
                assert(decorators_model(r@) =~= decorators_model(before) + seq![d@]);
            }
        }
        i = i + 1;
    }
    proof {
        assert(decorators_model(ds@).take(ds.len() as int) =~= decorators_model(ds@));
    }
    r
}

/// The marker identifier `<base>_<digest>`.
pub open spec fn marker_text(base: Seq<char>, digest: Seq<char>) -> Seq<char> {
    base + seq!['_'] + digest
}

/// The reserved prefix that recognises the markers built on `base`.
pub open spec fn prefix_for(base: Seq<char>) -> Seq<char> {
    base + seq!['_']
}

/// The reserved prefix `<base>_`: every marker `<base>_<digest>` starts with
/// it, whatever the digest.
pub fn marker_prefix(base: &str) -> (r: String)
    ensures
        r@ == prefix_for(base@),
        forall|digest: Seq<char>| r@.is_prefix_of(#[trigger] marker_text(base@, digest)),
{
    let mut r = String::from_str(base);
    proof {
        reveal_strlit("_");
    }
    r.append("_");
    assert forall|digest: Seq<char>| r@.is_prefix_of(#[trigger] marker_text(base@, digest)) by {
        assert(marker_text(base@, digest).subrange(0, r@.len() as int) =~= r@);
    }
    r
}

/// A decorator list after marking: the fresh marker first, then the kept
/// decorators.
pub open spec fn rewritten(
    ds: Seq<DecoratorModel>,
    base: Seq<char>,
    prefix: Seq<char>,
    digest: Seq<char>,
) -> Seq<DecoratorModel> {
    seq![DecoratorModel::SimpleName(marker_text(base, digest))] + kept(ds, prefix)
}

/// How many stale markers a decorator list holds.
pub open spec fn stale_count(ds: Seq<DecoratorModel>, prefix: Seq<char>) -> nat
    decreases ds.len(),
{
    if ds.len() == 0 {
        0
    } else {
        (if is_stale_marker(ds[0], prefix) { 1nat } else { 0nat }) + stale_count(ds.skip(1), prefix)
    }
}

/// Builds the marker identifier `<base>_<digest>`.
pub fn marker_name(base: &str, digest: &str) -> (r: String)
    ensures
        r@ == marker_text(base@, digest@),
{
    let mut r = String::from_str(base);
    proof {
        reveal_strlit("_");
    }
    r.append("_");
    r.append(digest);
    r
}

/// The decorator list that a definition carries after marking with `digest`:
/// the fresh marker first, then every decorator of `ds` but the stale markers.
pub fn with_marker(ds: &Vec<Decorator>, base: &str, prefix: &str, digest: &str) -> (r: Vec<
    Decorator,
>)
    ensures
        decorators_model(r@) == rewritten(decorators_model(ds@), base@, prefix@, digest@),
{
    let rest = filter_markers(ds, prefix);
    let mut r: Vec<Decorator> = Vec::new();
    r.push(Decorator::SimpleName(marker_name(base, digest)));
    let mut i: usize = 0;
    while i < rest.len()
        invariant
            i <= rest.len(),
            decorators_model(r@) == seq![DecoratorModel::SimpleName(marker_text(base@, digest@))]
                + decorators_model(rest@).take(i as int),
        decreases rest.len() - i,
    {
        let d = rest[i].duplicate();
        let ghost before = r@;
        r.push(d);
        proof {
            assert(decorators_model(r@) =~= decorators_model(before) + seq![d@]);
            assert(decorators_model(rest@).take(i + 1) =~= decorators_model(rest@).take(i as int)
                + seq![d@]);
        }
        i = i + 1;
    }
    proof {
        assert(decorators_model(rest@).take(rest.len() as int) =~= decorators_model(rest@));
    }
    r
}

/// A list of stale markers only has nothing kept.
proof fn lemma_kept_all_stale(ms: Seq<DecoratorModel>, prefix: Seq<char>)
    requires
        forall|j: int| 0 <= j < ms.len() ==> is_stale_marker(#[trigger] ms[j], prefix),
    ensures
        kept(ms, prefix) == Seq::<DecoratorModel>::empty(),
    decreases ms.len(),
{
    if ms.len() > 0 {
        assert(forall|j: int| 0 <= j < ms.skip(1).len() ==> ms.skip(1)[j] == ms[j + 1]);
        lemma_kept_all_stale(ms.skip(1), prefix);
    }
}

/// Stale markers, wherever they stand in a decorator list, leave the kept
/// decorators (and so the canonical text and its digest) as they are
/// without them.
pub proof fn lemma_stale_markers_ignored(
    before: Seq<DecoratorModel>,
    markers: Seq<DecoratorModel>,
    after: Seq<DecoratorModel>,
    prefix: Seq<char>,
)
    requires
        forall|j: int| 0 <= j < markers.len() ==> is_stale_marker(#[trigger] markers[j], prefix),
    ensures
        kept(before + markers + after, prefix) == kept(before + after, prefix),
{
    lemma_kept_concat(before + markers, after, prefix);
    lemma_kept_concat(before, markers, prefix);
    lemma_kept_concat(before, after, prefix);
    lemma_kept_all_stale(markers, prefix);
    assert(kept(before, prefix) + Seq::<DecoratorModel>::empty() =~= kept(before, prefix));
}

/// Every decorator that is not a bare identifier survives the filter,
/// whatever its text.
pub proof fn lemma_complex_kept(ds: Seq<DecoratorModel>, prefix: Seq<char>, i: int)
    requires
        0 <= i < ds.len(),
        ds[i] is Complex,
    ensures
        kept(ds, prefix).contains(ds[i]),
{
    assert(ds =~= ds.take(i) + (seq![ds[i]] + ds.skip(i + 1)));
    lemma_kept_concat(ds.take(i), seq![ds[i]] + ds.skip(i + 1), prefix);
    assert((seq![ds[i]] + ds.skip(i + 1)).skip(1) =~= ds.skip(i + 1));
    let k = kept(ds.take(i), prefix);
    assert(kept(ds, prefix)[k.len() as int] == ds[i]);
}

/// A list without stale markers is kept whole.
proof fn lemma_kept_unmarked(ds: Seq<DecoratorModel>, prefix: Seq<char>)
    requires
        forall|j: int| 0 <= j < ds.len() ==> !is_stale_marker(#[trigger] ds[j], prefix),
    ensures
        kept(ds, prefix) == ds,
    decreases ds.len(),
{
    if ds.len() > 0 {
        assert(forall|j: int| 0 <= j < ds.skip(1).len() ==> ds.skip(1)[j] == ds[j + 1]);
        lemma_kept_unmarked(ds.skip(1), prefix);
        assert(seq![ds[0]] + ds.skip(1) =~= ds);
    }
}

/// A definition that carried no marker gains exactly the fresh marker, as its
/// first decorator, and keeps all its other decorators in order.
pub proof fn lemma_unmarked_gains_marker(
    ds: Seq<DecoratorModel>,
    base: Seq<char>,
    prefix: Seq<char>,
    digest: Seq<char>,
)
    requires
        forall|j: int| 0 <= j < ds.len() ==> !is_stale_marker(#[trigger] ds[j], prefix),
    ensures
        rewritten(ds, base, prefix, digest) == seq![
            DecoratorModel::SimpleName(marker_text(base, digest)),
        ] + ds,
{
    lemma_kept_unmarked(ds, prefix);
}

/// Nothing that the filter keeps is a stale marker.
proof fn lemma_kept_has_no_marker(ds: Seq<DecoratorModel>, prefix: Seq<char>)
    ensures
        stale_count(kept(ds, prefix), prefix) == 0,
        kept(kept(ds, prefix), prefix) == kept(ds, prefix),
    decreases ds.len(),
{
    if ds.len() > 0 {
        lemma_kept_has_no_marker(ds.skip(1), prefix);
        if !is_stale_marker(ds[0], prefix) {
            let k = seq![ds[0]] + kept(ds.skip(1), prefix);
            assert(k.skip(1) =~= kept(ds.skip(1), prefix));
            assert(k[0] == ds[0]);
        }
    }
}

/// Marking twice with the same base, prefix and digest gives what marking
/// once gave: the kept decorators, and so the digest, do not change, and
/// the list holds exactly one marker.
pub proof fn lemma_marking_idempotent(
    ds: Seq<DecoratorModel>,
    base: Seq<char>,
    prefix: Seq<char>,
    digest: Seq<char>,
)
    requires
        prefix.is_prefix_of(marker_text(base, digest)),
    ensures
        kept(rewritten(ds, base, prefix, digest), prefix) == kept(ds, prefix),
        rewritten(rewritten(ds, base, prefix, digest), base, prefix, digest) == rewritten(
            ds,
            base,
            prefix,
            digest,
        ),
        stale_count(rewritten(ds, base, prefix, digest), prefix) == 1,
{
    let r = rewritten(ds, base, prefix, digest);
    lemma_kept_has_no_marker(ds, prefix);
    assert(r.skip(1) =~= kept(ds, prefix));
    assert(is_stale_marker(r[0], prefix));
}

} // verus!
