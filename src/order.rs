//! Orders and ordered insertion, used to lay out reports deterministically.
use vstd::prelude::*;
use crate::text::chars_of;
use crate::compiler::texts;

verus! {

/// Lexicographic order on character sequences, by code point; a proper prefix
/// comes first.
pub open spec fn lex_lt(a: Seq<char>, b: Seq<char>) -> bool
    decreases a.len(),
{
    if a.len() == 0 {
        b.len() > 0
    } else if b.len() == 0 {
        false
    } else if a[0] != b[0] {
        a[0] < b[0]
    } else {
        lex_lt(a.drop_first(), b.drop_first())
    }
}

proof fn lemma_lex_irreflexive(a: Seq<char>)
    ensures
        !lex_lt(a, a),
    decreases a.len(),
{
    if a.len() > 0 {
        lemma_lex_irreflexive(a.drop_first());
    }
}

proof fn lemma_lex_total(a: Seq<char>, b: Seq<char>)
    ensures
        a != b ==> lex_lt(a, b) || lex_lt(b, a),
    decreases a.len(),
{
    if a.len() > 0 && b.len() > 0 && a[0] == b[0] {
        lemma_lex_total(a.drop_first(), b.drop_first());
        if a != b {
            assert(a =~= seq![a[0]] + a.drop_first());
            assert(b =~= seq![b[0]] + b.drop_first());
        }
    }
    if a.len() == 0 && b.len() == 0 {
        assert(a =~= b);
    }
}

proof fn lemma_lex_transitive(a: Seq<char>, b: Seq<char>, c: Seq<char>)
    ensures
        lex_lt(a, b) && lex_lt(b, c) ==> lex_lt(a, c),
    decreases a.len(),
{
    if a.len() > 0 && b.len() > 0 && c.len() > 0 {
        lemma_lex_transitive(a.drop_first(), b.drop_first(), c.drop_first());
    }
}

/// `lt` is a strict total order.
pub open spec fn strict_total<A>(lt: spec_fn(A, A) -> bool) -> bool {
    &&& forall|a: A| !(#[trigger] lt(a, a))
    &&& forall|a: A, b: A| a != b ==> #[trigger] lt(a, b) || lt(b, a)
    &&& forall|a: A, b: A, c: A| #[trigger] lt(a, b) && #[trigger] lt(b, c) ==> lt(a, c)
}

pub open spec fn lex_order() -> spec_fn(Seq<char>, Seq<char>) -> bool {
    |a: Seq<char>, b: Seq<char>| lex_lt(a, b)
}

pub open spec fn num_order() -> spec_fn(u32, u32) -> bool {
    |a: u32, b: u32| a < b
}

pub proof fn lemma_orders_are_total()
    ensures
        strict_total(lex_order()),
        strict_total(num_order()),
{
    assert forall|a: Seq<char>| !(#[trigger] lex_order()(a, a)) by {
        lemma_lex_irreflexive(a);
    }
    assert forall|a: Seq<char>, b: Seq<char>|
        a != b implies #[trigger] lex_order()(a, b) || lex_order()(b, a) by {
        lemma_lex_total(a, b);
    }
    assert forall|a: Seq<char>, b: Seq<char>, c: Seq<char>|
        #[trigger] lex_order()(a, b) && #[trigger] lex_order()(b, c) implies lex_order()(a, c) by {
        lemma_lex_transitive(a, b, c);
    }
}

/// `r` with `x` placed before the first element that `x` is below, unless `x`
/// is met first.
pub open spec fn insert_ordered<A>(r: Seq<A>, x: A, lt: spec_fn(A, A) -> bool) -> Seq<A>
    decreases r.len(),
{
    if r.len() == 0 {
        seq![x]
    } else if r[0] == x {
        r
    } else if lt(x, r[0]) {
        seq![x] + r
    } else {
        seq![r[0]] + insert_ordered(r.drop_first(), x, lt)
    }
}

/// The distinct elements of `s` in increasing order.
pub open spec fn sorted_distinct<A>(s: Seq<A>, lt: spec_fn(A, A) -> bool) -> Seq<A>
    decreases s.len(),
{
    if s.len() == 0 {
        Seq::<A>::empty()
    } else {
        insert_ordered(sorted_distinct(s.drop_last(), lt), s.last(), lt)
    }
}

/// Each element is below every later one.
pub open spec fn strictly_sorted<A>(r: Seq<A>, lt: spec_fn(A, A) -> bool) -> bool {
    forall|i: int, j: int| 0 <= i < j < r.len() ==> lt(#[trigger] r[i], #[trigger] r[j])
}

pub proof fn lemma_insert_contains<A>(r: Seq<A>, x: A, lt: spec_fn(A, A) -> bool)
    ensures
        forall|y: A| #[trigger] insert_ordered(r, x, lt).contains(y) <==> (r.contains(y) || y == x),
    decreases r.len(),
{
    let q = insert_ordered(r, x, lt);
    if r.len() == 0 {
        assert(q[0] == x);
    } else if r[0] == x {
    } else if lt(x, r[0]) {
        assert forall|y: A| q.contains(y) <==> (r.contains(y) || y == x) by {
            if q.contains(y) {
                let k = choose|k: int| 0 <= k < q.len() && q[k] == y;
                if k > 0 {
                    assert(r[k - 1] == y);
                }
            }
            if r.contains(y) {
                let k = choose|k: int| 0 <= k < r.len() && r[k] == y;
                assert(q[k + 1] == y);
            }
            if y == x {
                assert(q[0] == x);
            }
        }
    } else {
        let t = r.drop_first();
        lemma_insert_contains(t, x, lt);
        let u = insert_ordered(t, x, lt);
        assert(q == seq![r[0]] + u);
        assert forall|y: A| q.contains(y) <==> (r.contains(y) || y == x) by {
            if q.contains(y) {
                let k = choose|k: int| 0 <= k < q.len() && q[k] == y;
                if k > 0 {
                    assert(u[k - 1] == y);
                    assert(u.contains(y));
                    if t.contains(y) {
                        let m = choose|m: int| 0 <= m < t.len() && t[m] == y;
                        assert(r[m + 1] == y);
                    }
                } else {
                    assert(r[0] == y);
                }
            }
            if r.contains(y) {
                let k = choose|k: int| 0 <= k < r.len() && r[k] == y;
                if k == 0 {
                    assert(q[0] == y);
                } else {
                    assert(t[k - 1] == y);
                    assert(t.contains(y));
                    assert(u.contains(y));
                    let m = choose|m: int| 0 <= m < u.len() && u[m] == y;
                    assert(q[m + 1] == y);
                }
            }
            if y == x {
                assert(u.contains(x));
                let m = choose|m: int| 0 <= m < u.len() && u[m] == x;
                assert(q[m + 1] == x);
            }
        }
    }
}

pub proof fn lemma_insert_ordered<A>(r: Seq<A>, x: A, lt: spec_fn(A, A) -> bool)
    requires
        strict_total(lt),
        strictly_sorted(r, lt),
    ensures
        strictly_sorted(insert_ordered(r, x, lt), lt),
        forall|y: A| insert_ordered(r, x, lt).contains(y) <==> (r.contains(y) || y == x),
    decreases r.len(),
{
    lemma_insert_contains(r, x, lt);
    let q = insert_ordered(r, x, lt);
    if r.len() == 0 {
    } else if r[0] == x {
    } else if lt(x, r[0]) {
        assert forall|i: int, j: int| 0 <= i < j < q.len() implies lt(
            #[trigger] q[i],
            #[trigger] q[j],
        ) by {
            if i == 0 {
                assert(q[j] == r[j - 1]);
                if j > 1 {
                    assert(lt(r[0], r[j - 1]));
                }
            } else {
                assert(q[i] == r[i - 1] && q[j] == r[j - 1]);
            }
        }
    } else {
        let t = r.drop_first();
        assert forall|i: int, j: int| 0 <= i < j < t.len() implies lt(
            #[trigger] t[i],
            #[trigger] t[j],
        ) by {
            assert(t[i] == r[i + 1] && t[j] == r[j + 1]);
        }
        lemma_insert_ordered(t, x, lt);
        let u = insert_ordered(t, x, lt);
        assert(q == seq![r[0]] + u);
        assert(lt(r[0], x));
        assert forall|y: A| u.contains(y) implies lt(r[0], y) by {
            if t.contains(y) {
                let k = choose|k: int| 0 <= k < t.len() && t[k] == y;
                assert(r[k + 1] == y);
            }
        }
        assert forall|i: int, j: int| 0 <= i < j < q.len() implies lt(
            #[trigger] q[i],
            #[trigger] q[j],
        ) by {
            if i == 0 {
                assert(q[j] == u[j - 1]);
                assert(u.contains(u[j - 1]));
            } else {
                assert(q[i] == u[i - 1] && q[j] == u[j - 1]);
            }
        }
    }
}

/// A strictly increasing sequence holds no element twice.
pub proof fn lemma_sorted_no_duplicates<A>(r: Seq<A>, lt: spec_fn(A, A) -> bool)
    requires
        strict_total(lt),
        strictly_sorted(r, lt),
    ensures
        r.no_duplicates(),
{
    assert forall|i: int, j: int| 0 <= i < r.len() && 0 <= j < r.len() && i != j implies r[i]
        != r[j] by {
        if i < j {
            assert(lt(r[i], r[j]));
        } else {
            assert(lt(r[j], r[i]));
        }
    }
}

/// `sorted_distinct` is strictly increasing, holds no element twice, and holds
/// exactly the elements of `s`.
pub proof fn lemma_sorted_distinct<A>(s: Seq<A>, lt: spec_fn(A, A) -> bool)
    requires
        strict_total(lt),
    ensures
        strictly_sorted(sorted_distinct(s, lt), lt),
        sorted_distinct(s, lt).no_duplicates(),
        forall|y: A| sorted_distinct(s, lt).contains(y) <==> s.contains(y),
    decreases s.len(),
{
    let r = sorted_distinct(s, lt);
    if s.len() > 0 {
        let p = s.drop_last();
        lemma_sorted_distinct(p, lt);
        lemma_insert_ordered(sorted_distinct(p, lt), s.last(), lt);
        assert forall|y: A| r.contains(y) <==> s.contains(y) by {
            if p.contains(y) {
                let k = choose|k: int| 0 <= k < p.len() && p[k] == y;
                assert(s[k] == y);
            }
            if s.contains(y) {
                let k = choose|k: int| 0 <= k < s.len() && s[k] == y;
                if k < p.len() {
                    assert(p[k] == y);
                }
            }
        }
    }
    lemma_sorted_no_duplicates(r, lt);
}

/// Whether `a` comes before `b` in lexicographic order.
pub fn lex_less(a: &Vec<char>, b: &Vec<char>) -> (r: bool)
    ensures
        r == lex_lt(a@, b@),
{
    let mut i: usize = 0;
    assert(a@.skip(0) =~= a@);
    assert(b@.skip(0) =~= b@);
    while i < a.len() && i < b.len() && a[i] == b[i]
        invariant
            i <= a@.len(),
            i <= b@.len(),
            lex_lt(a@, b@) == lex_lt(a@.skip(i as int), b@.skip(i as int)),
        decreases a@.len() - i,
    {
        assert(a@.skip(i as int).drop_first() =~= a@.skip(i + 1));
        assert(b@.skip(i as int).drop_first() =~= b@.skip(i + 1));
        i = i + 1;
    }
    if i == a.len() {
        i < b.len()
    } else if i == b.len() {
        false
    } else {
        assert(a@.skip(i as int)[0] == a@[i as int]);
        assert(b@.skip(i as int)[0] == b@[i as int]);
        a[i] < b[i]
    }
}

/// Inserts `x` into `files` as `insert_ordered` under `lex_lt` does.
pub fn insert_file_ordered(files: &mut Vec<String>, x: &String)
    ensures
        texts(final(files)@) == insert_ordered(texts(old(files)@), x@, lex_order()),
{
    let ghost r = texts(files@);
    let xs = chars_of(x.as_str());
    let mut p: usize = 0;
    assert(r.skip(0) =~= r);
    assert(r.take(0) + insert_ordered(r.skip(0), x@, lex_order()) =~= insert_ordered(r, x@, lex_order()));
    while p < files.len()
        invariant
            p <= files@.len(),
            *files == *old(files),
            r == texts(files@),
            xs@ == x@,
            insert_ordered(r, x@, lex_order()) == r.take(p as int) + insert_ordered(
                r.skip(p as int),
                x@,
                lex_order(),
            ),
        decreases files@.len() - p,
    {
        let ghost t = r.skip(p as int);
        assert(t[0] == files@[p as int]@);
        if files[p] == *x {
            assert(r.take(p as int) + t =~= r);
            return;
        }
        let cs = chars_of(files[p].as_str());
        if lex_less(&xs, &cs) {
            files.insert(p, x.clone());
            assert(texts(files@) =~= r.take(p as int) + (seq![x@] + t));
            return;
        }
        assert(t.drop_first() =~= r.skip(p + 1));
        assert(r.take(p + 1) =~= r.take(p as int) + seq![t[0]]);
        assert(r.take(p as int) + insert_ordered(t, x@, lex_order()) =~= r.take(p + 1)
            + insert_ordered(r.skip(p + 1), x@, lex_order()));
        p = p + 1;
    }
    files.push(x.clone());
    assert(r.skip(p as int) =~= Seq::<Seq<char>>::empty());
    assert(r.take(p as int) =~= r);
    assert(texts(files@) =~= r + seq![x@]);
}

/// Inserts `x` into `v` as `insert_ordered` under `<` does.
pub fn insert_line_ordered(v: &mut Vec<u32>, x: u32)
    ensures
        final(v)@ == insert_ordered(old(v)@, x, num_order()),
{
    let ghost r = v@;
    let mut p: usize = 0;
    assert(r.skip(0) =~= r);
    assert(r.take(0) + insert_ordered(r.skip(0), x, num_order()) =~= insert_ordered(r, x, num_order()));
    while p < v.len()
        invariant
            p <= v@.len(),
            *v == *old(v),
            r == v@,
            insert_ordered(r, x, num_order()) == r.take(p as int) + insert_ordered(
                r.skip(p as int),
                x,
                num_order(),
            ),
        decreases v@.len() - p,
    {
        let ghost t = r.skip(p as int);
        assert(t[0] == v@[p as int]);
        if v[p] == x {
            assert(r.take(p as int) + t =~= r);
            return;
        }
        if x < v[p] {
            v.insert(p, x);
            assert(v@ =~= r.take(p as int) + (seq![x] + t));
            return;
        }
        assert(t.drop_first() =~= r.skip(p + 1));
        assert(r.take(p + 1) =~= r.take(p as int) + seq![t[0]]);
        assert(r.take(p as int) + insert_ordered(t, x, num_order()) =~= r.take(p + 1)
            + insert_ordered(r.skip(p + 1), x, num_order()));
        p = p + 1;
    }
    v.push(x);
    assert(r.skip(p as int) =~= Seq::<u32>::empty());
    assert(r.take(p as int) =~= r);
    assert(v@ =~= r + seq![x]);
}

} // verus!
