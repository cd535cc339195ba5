use vstd::prelude::*;

use crate::entity::Entity;
use crate::storage::Storage;

verus! {

/// What one row becomes when `b` is probed: the row with its value in `b`,
/// or nothing if its entity has none.
pub open spec fn probe2<'a, A, B>(b: Map<Entity, B>) -> spec_fn((Entity, &'a A)) -> Option<
    (Entity, &'a A, &'a B),
> {
    |row: (Entity, &'a A)|
        if b.contains_key(row.0) {
            Some((row.0, row.1, &b[row.0]))
        } else {
            None
        }
}

/// What one row becomes when `b` and `c` are probed: the row with its values
/// in both, or nothing if its entity lacks either.
pub open spec fn probe3<'a, A, B, C>(b: Map<Entity, B>, c: Map<Entity, C>) -> spec_fn(
    (Entity, &'a A),
) -> Option<(Entity, &'a A, &'a B, &'a C)> {
    |row: (Entity, &'a A)|
        if b.contains_key(row.0) && c.contains_key(row.0) {
            Some((row.0, row.1, &b[row.0], &c[row.0]))
        } else {
            None
        }
}

/// The rows of `rows` whose entity has a value in `b`, in the order of `rows`,
/// each extended by that value.
pub open spec fn joined2<'a, A, B>(rows: Seq<(Entity, &'a A)>, b: Map<Entity, B>) -> Seq<
    (Entity, &'a A, &'a B),
> {
    rows.filter_map(probe2(b))
}

/// The rows of `rows` whose entity has a value in both `b` and `c`, in the
/// order of `rows`, each extended by those two values.
pub open spec fn joined3<'a, A, B, C>(
    rows: Seq<(Entity, &'a A)>,
    b: Map<Entity, B>,
    c: Map<Entity, C>,
) -> Seq<(Entity, &'a A, &'a B, &'a C)> {
    rows.filter_map(probe3(b, c))
}

/// `rows` holds exactly the entities that have a value in both `a` and `b`,
/// each once and with the values stored for it.
pub open spec fn joins2<A, B>(rows: Seq<(Entity, &A, &B)>, a: Map<Entity, A>, b: Map<Entity, B>) -> bool {
    &&& forall|i: int, j: int| 0 <= i < j < rows.len() ==> rows[i].0 != rows[j].0
    &&& forall|i: int|
        0 <= i < rows.len() ==> {
            let row = #[trigger] rows[i];
            &&& a.contains_key(row.0) && *row.1 == a[row.0]
            &&& b.contains_key(row.0) && *row.2 == b[row.0]
        }
    &&& forall|e: Entity|
        a.contains_key(e) && b.contains_key(e) ==> exists|i: int|
            0 <= i < rows.len() && (#[trigger] rows[i]).0 == e
}

/// `rows` holds exactly the entities that have a value in each of `a`, `b`
/// and `c`, each once and with the values stored for it.
pub open spec fn joins3<A, B, C>(
    rows: Seq<(Entity, &A, &B, &C)>,
    a: Map<Entity, A>,
    b: Map<Entity, B>,
    c: Map<Entity, C>,
) -> bool {
    &&& forall|i: int, j: int| 0 <= i < j < rows.len() ==> rows[i].0 != rows[j].0
    &&& forall|i: int|
        0 <= i < rows.len() ==> {
            let row = #[trigger] rows[i];
            &&& a.contains_key(row.0) && *row.1 == a[row.0]
            &&& b.contains_key(row.0) && *row.2 == b[row.0]
            &&& c.contains_key(row.0) && *row.3 == c[row.0]
        }
    &&& forall|e: Entity|
        a.contains_key(e) && b.contains_key(e) && c.contains_key(e) ==> exists|i: int|
            0 <= i < rows.len() && (#[trigger] rows[i]).0 == e
}

/// `f` maps the element of `xs` at `k` to `y`.
spec fn kept_from<X, Y>(xs: Seq<X>, f: spec_fn(X) -> Option<Y>, k: int, y: Y) -> bool {
    0 <= k < xs.len() && f(xs[k]) == Some(y)
}

/// `f` maps some element of `xs` to `y`.
spec fn kept<X, Y>(xs: Seq<X>, f: spec_fn(X) -> Option<Y>, y: Y) -> bool {
    exists|k: int| kept_from(xs, f, k, y)
}

/// `f` maps some element of `xs` to `y` and a later one to `z`.
spec fn kept_in_order<X, Y>(xs: Seq<X>, f: spec_fn(X) -> Option<Y>, y: Y, z: Y) -> bool {
    exists|k: int, l: int| k < l && #[trigger] kept_from(xs, f, k, y) && #[trigger] kept_from(xs, f, l, z)
}

/// What `filter_map` keeps comes from the input in the input's order, and
/// everything that `f` maps to a value is kept.
proof fn lemma_filter_map_trace<X, Y>(xs: Seq<X>, f: spec_fn(X) -> Option<Y>)
    ensures
        forall|i: int|
            0 <= i < xs.filter_map(f).len() ==> kept(xs, f, #[trigger] xs.filter_map(f)[i]),
        forall|i: int, j: int|
            0 <= i < j < xs.filter_map(f).len() ==> #[trigger] kept_in_order(
                xs,
                f,
                xs.filter_map(f)[i],
                xs.filter_map(f)[j],
            ),
        forall|k: int, y: Y| #[trigger]
            kept_from(xs, f, k, y) ==> exists|i: int|
                0 <= i < xs.filter_map(f).len() && #[trigger] xs.filter_map(f)[i] == y,
    decreases xs.len(),
{
    if xs.len() > 0 {
        let rest = xs.drop_last();
        let prior = rest.filter_map(f);
        let out = xs.filter_map(f);
        let n = xs.len() - 1;
        lemma_filter_map_trace(rest, f);
        match f(xs.last()) {
            Some(y) => {
                assert(out =~= prior + seq![y]);
            },
            None => {
                assert(out =~= prior);
            },
        }
        assert forall|i: int| 0 <= i < out.len() implies kept(xs, f, #[trigger] out[i]) by {
            if i < prior.len() {
                assert(kept(rest, f, prior[i]));
                let k = choose|k: int| kept_from(rest, f, k, prior[i]);
                assert(rest[k] == xs[k]);
                assert(kept_from(xs, f, k, out[i]));
            } else {
                assert(kept_from(xs, f, n, out[i]));
            }
        }
        assert forall|i: int, j: int| 0 <= i < j < out.len() implies #[trigger] kept_in_order(
            xs,
            f,
            out[i],
            out[j],
        ) by {
            assert(out[i] == prior[i]);
            if j < prior.len() {
                assert(out[j] == prior[j]);
                assert(kept_in_order(rest, f, prior[i], prior[j]));
                let (k, l) = choose|k: int, l: int|
                    k < l && #[trigger] kept_from(rest, f, k, prior[i]) && #[trigger] kept_from(
                        rest,
                        f,
                        l,
                        prior[j],
                    );
                assert(rest[k] == xs[k] && rest[l] == xs[l]);
                assert(kept_from(xs, f, k, out[i]) && kept_from(xs, f, l, out[j]));
            } else {
                assert(kept(rest, f, prior[i]));
                let k = choose|k: int| kept_from(rest, f, k, prior[i]);
                assert(rest[k] == xs[k]);
                assert(kept_from(xs, f, k, out[i]) && kept_from(xs, f, n, out[j]));
            }
        }
        assert forall|k: int, y: Y| #[trigger] kept_from(xs, f, k, y) implies exists|i: int|
            0 <= i < out.len() && #[trigger] out[i] == y by {
            if k < n {
                assert(rest[k] == xs[k]);
                assert(kept_from(rest, f, k, y));
                let i = choose|i: int| 0 <= i < prior.len() && #[trigger] prior[i] == y;
                assert(out[i] == y);
            } else {
                assert(out[prior.len() as int] == y);
            }
        }
    } else {
        assert(xs.filter_map(f).len() == 0);
    }
}

/// Probing `b` along any enumeration of `a` yields the join of `a` and `b`.
pub proof fn lemma_joined2_joins<A, B>(walk: Seq<(Entity, &A)>, a: Map<Entity, A>, b: Map<Entity, B>)
    requires
        crate::storage::enumerates(walk, a),
    ensures
        joins2(joined2(walk, b), a, b),
{
    let f = probe2::<A, B>(b);
    let out = joined2(walk, b);
    lemma_filter_map_trace(walk, f);
    assert forall|i: int, j: int| 0 <= i < j < out.len() implies out[i].0 != out[j].0 by {
        assert(kept_in_order(walk, f, out[i], out[j]));
        let (k, l) = choose|k: int, l: int|
            k < l && #[trigger] kept_from(walk, f, k, out[i]) && #[trigger] kept_from(
                walk,
                f,
                l,
                out[j],
            );
        assert(walk[k].0 != walk[l].0);
    }
    assert forall|i: int| 0 <= i < out.len() implies {
        let row = #[trigger] out[i];
        &&& a.contains_key(row.0) && *row.1 == a[row.0]
        &&& b.contains_key(row.0) && *row.2 == b[row.0]
    } by {
        assert(kept(walk, f, out[i]));
        let k = choose|k: int| kept_from(walk, f, k, out[i]);
        assert(a.contains_key(walk[k].0));
    }
    assert forall|e: Entity| a.contains_key(e) && b.contains_key(e) implies exists|i: int|
        0 <= i < out.len() && (#[trigger] out[i]).0 == e by {
        let k = choose|k: int| 0 <= k < walk.len() && (#[trigger] walk[k]).0 == e;
        assert(kept_from(walk, f, k, f(walk[k])->0));
        let i = choose|i: int| 0 <= i < out.len() && #[trigger] out[i] == f(walk[k])->0;
        assert(out[i].0 == e);
    }
}

/// Probing `b` and `c` along any enumeration of `a` yields the join of `a`,
/// `b` and `c`.
pub proof fn lemma_joined3_joins<A, B, C>(
    walk: Seq<(Entity, &A)>,
    a: Map<Entity, A>,
    b: Map<Entity, B>,
    c: Map<Entity, C>,
)
    requires
        crate::storage::enumerates(walk, a),
    ensures
        joins3(joined3(walk, b, c), a, b, c),
{
    let f = probe3::<A, B, C>(b, c);
    let out = joined3(walk, b, c);
    lemma_filter_map_trace(walk, f);
    assert forall|i: int, j: int| 0 <= i < j < out.len() implies out[i].0 != out[j].0 by {
        assert(kept_in_order(walk, f, out[i], out[j]));
        let (k, l) = choose|k: int, l: int|
            k < l && #[trigger] kept_from(walk, f, k, out[i]) && #[trigger] kept_from(
                walk,
                f,
                l,
                out[j],
            );
        assert(walk[k].0 != walk[l].0);
    }
    assert forall|i: int| 0 <= i < out.len() implies {
        let row = #[trigger] out[i];
        &&& a.contains_key(row.0) && *row.1 == a[row.0]
        &&& b.contains_key(row.0) && *row.2 == b[row.0]
        &&& c.contains_key(row.0) && *row.3 == c[row.0]
    } by {
        assert(kept(walk, f, out[i]));
        let k = choose|k: int| kept_from(walk, f, k, out[i]);
        assert(a.contains_key(walk[k].0));
    }
    assert forall|e: Entity|
        a.contains_key(e) && b.contains_key(e) && c.contains_key(e) implies exists|i: int|
        0 <= i < out.len() && (#[trigger] out[i]).0 == e by {
        let k = choose|k: int| 0 <= k < walk.len() && (#[trigger] walk[k]).0 == e;
        assert(kept_from(walk, f, k, f(walk[k])->0));
        let i = choose|i: int| 0 <= i < out.len() && #[trigger] out[i] == f(walk[k])->0;
        assert(out[i].0 == e);
    }
}

/// Probes `b` once for each row and keeps the rows that have a value there.
pub fn join2<'a, A, B>(rows: Vec<(Entity, &'a A)>, b: &'a Storage<B>) -> (out: Vec<
    (Entity, &'a A, &'a B),
>)
    ensures
        out@ == joined2(rows@, b@),
{
    let mut out: Vec<(Entity, &'a A, &'a B)> = Vec::new();
    let mut i: usize = 0;
    while i < rows.len()
        invariant
            i <= rows.len(),
            out@ == joined2(rows@.take(i as int), b@),
        decreases rows.len() - i,
    {
        let entity = rows[i].0;
        let a = rows[i].1;
        proof {
            rows@.lemma_filter_map_take_succ(probe2(b@), i as int);
        }
        let ghost before = out@;
        match b.get(entity) {
            Some(found) => {
                out.push((entity, a, found));
                assert(out@ =~= before + seq![(entity, a, found)]);
            },
            None => {
                assert(out@ =~= before + Seq::empty());
            },
        }
        i += 1;
    }
    assert(rows@.take(rows.len() as int) == rows@);
    out
}

/// Probes `b` and `c` once for each row and keeps the rows that have a value
/// in both.
pub fn join3<'a, A, B, C>(
    rows: Vec<(Entity, &'a A)>,
    b: &'a Storage<B>,
    c: &'a Storage<C>,
) -> (out: Vec<(Entity, &'a A, &'a B, &'a C)>)
    ensures
        out@ == joined3(rows@, b@, c@),
{
    let mut out: Vec<(Entity, &'a A, &'a B, &'a C)> = Vec::new();
    let mut i: usize = 0;
    while i < rows.len()
        invariant
            i <= rows.len(),
            out@ == joined3(rows@.take(i as int), b@, c@),
        decreases rows.len() - i,
    {
        let entity = rows[i].0;
        let a = rows[i].1;
        proof {
            rows@.lemma_filter_map_take_succ(probe3(b@, c@), i as int);
        }
        let ghost before = out@;
        let in_b = b.get(entity);
        let in_c = c.get(entity);
        match (in_b, in_c) {
            (Some(in_b), Some(in_c)) => {
                out.push((entity, a, in_b, in_c));
                assert(out@ =~= before + seq![(entity, a, in_b, in_c)]);
            },
            _ => {
                assert(out@ =~= before + Seq::empty());
            },
        }
        i += 1;
    }
    assert(rows@.take(rows.len() as int) == rows@);
    out
}

} // verus!
