//! Byte-level text primitives: splitting on a separator byte and joining
//! pieces back together.

use vstd::prelude::*;

verus! {

/// The views of a sequence of byte vectors.
pub open spec fn views(v: Seq<Vec<u8>>) -> Seq<Seq<u8>> {
    v.map_values(|x: Vec<u8>| x@)
}

/// `k` is the position of the first `b` in `s`, or its length when `s` holds
/// no `b`.
pub open spec fn first_at(s: Seq<u8>, b: u8, k: int) -> bool {
    &&& 0 <= k <= s.len()
    &&& k == s.len() || s[k] == b
    &&& forall|j: int| 0 <= j < k ==> #[trigger] s[j] != b
}

/// What precedes the first `b` in `s`; all of `s` when it holds none.
pub open spec fn before_first(s: Seq<u8>, b: u8) -> Seq<u8> {
    s.take(choose|k: int| first_at(s, b, k))
}

/// The position of the first `b` in `s`, or its length.
pub fn find_byte(s: &[u8], b: u8) -> (k: usize)
    ensures
        first_at(s@, b, k as int),
        before_first(s@, b) == s@.take(k as int),
{
    let mut k: usize = 0;
    while k < s.len() && s[k] != b
        invariant
            k <= s@.len(),
            forall|j: int| 0 <= j < k ==> #[trigger] s@[j] != b,
        decreases s@.len() - k,
    {
        k = k + 1;
    }
    assert(first_at(s@, b, k as int));
    let ghost c = choose|c: int| first_at(s@, b, c);
    assert(c == k) by {
        if c < k {
            assert(s@[c] != b);
        } else if c > k {
            assert(s@[k as int] != b);
        }
    }
    k
}

/// The pieces of `t` between occurrences of `c`, as `str::split` yields them:
/// always at least one piece, one more than the number of separators.
pub open spec fn split(t: Seq<u8>, c: u8) -> Seq<Seq<u8>>
    decreases t.len(),
{
    if t.len() == 0 {
        seq![Seq::empty()]
    } else {
        let prev = split(t.drop_last(), c);
        if t.last() == c {
            prev.push(Seq::empty())
        } else {
            prev.update(prev.len() - 1, prev.last().push(t.last()))
        }
    }
}

/// The pieces of `ps` with `c` between each two of them.
pub open spec fn join(ps: Seq<Seq<u8>>, c: u8) -> Seq<u8>
    decreases ps.len(),
{
    if ps.len() == 0 {
        Seq::empty()
    } else if ps.len() == 1 {
        ps[0]
    } else {
        join(ps.drop_last(), c).push(c) + ps.last()
    }
}

pub proof fn lemma_split_nonempty(t: Seq<u8>, c: u8)
    ensures
        split(t, c).len() >= 1,
    decreases t.len(),
{
    if t.len() > 0 {
        lemma_split_nonempty(t.drop_last(), c);
    }
}

/// Appending bytes other than `c` extends the last piece.
pub proof fn lemma_split_append(a: Seq<u8>, b: Seq<u8>, c: u8)
    requires
        !b.contains(c),
    ensures
        split(a + b, c) == split(a, c).update(split(a, c).len() - 1, split(a, c).last() + b),
    decreases b.len(),
{
    lemma_split_nonempty(a, c);
    if b.len() == 0 {
        assert(a + b == a);
        assert(split(a, c).last() + b == split(a, c).last());
        assert(split(a, c).update(split(a, c).len() - 1, split(a, c).last()) == split(a, c));
    } else {
        let b0 = b.drop_last();
        assert(!b0.contains(c)) by {
            if b0.contains(c) {
                let k = choose|k: int| 0 <= k < b0.len() && b0[k] == c;
                assert(b[k] == c);
            }
        }
        assert(b.last() != c) by {
            assert(b[b.len() - 1] == b.last());
        }
        lemma_split_append(a, b0, c);
        assert((a + b).drop_last() == a + b0);
        assert((a + b).last() == b.last());
        let prev = split(a + b0, c);
        assert(split(a + b, c) == prev.update(prev.len() - 1, prev.last().push(b.last())));
        assert(prev.last() == split(a, c).last() + b0);
        assert((split(a, c).last() + b0).push(b.last()) =~= split(a, c).last() + b);
        assert(split(a + b, c) =~= split(a, c).update(
            split(a, c).len() - 1,
            split(a, c).last() + b,
        ));
    }
}

/// A separator at the end starts an empty last piece.
pub proof fn lemma_split_push_sep(a: Seq<u8>, c: u8)
    ensures
        split(a.push(c), c) == split(a, c).push(Seq::empty()),
{
    assert(a.push(c).drop_last() == a);
}

/// Splitting undoes joining, for pieces free of the separator.
pub proof fn lemma_split_join(ps: Seq<Seq<u8>>, c: u8)
    requires
        ps.len() >= 1,
        forall|i: int| 0 <= i < ps.len() ==> !(#[trigger] ps[i]).contains(c),
    ensures
        split(join(ps, c), c) == ps,
    decreases ps.len(),
{
    let e = Seq::<u8>::empty();
    if ps.len() == 1 {
        lemma_split_append(e, ps[0], c);
        assert(e + ps[0] == ps[0]);
        assert(split(e, c) == seq![e]);
        assert(split(ps[0], c) =~= ps);
    } else {
        let init = ps.drop_last();
        assert(forall|i: int| 0 <= i < init.len() ==> #[trigger] init[i] == ps[i]);
        lemma_split_join(init, c);
        let j = join(init, c);
        assert(!ps.last().contains(c)) by {
            assert(ps[ps.len() - 1] == ps.last());
        }
        lemma_split_append(j.push(c), ps.last(), c);
        lemma_split_push_sep(j, c);
        assert(e + ps.last() == ps.last());
        assert(split(join(ps, c), c) =~= ps);
    }
}

/// Splits `t` at every occurrence of `c`.
pub fn split_on(t: &[u8], c: u8) -> (r: Vec<Vec<u8>>)
    ensures
        views(r@) == split(t@, c),
{
    let mut pieces: Vec<Vec<u8>> = Vec::new();
    let mut cur: Vec<u8> = Vec::new();
    let mut i: usize = 0;
    while i < t.len()
        invariant
            i <= t@.len(),
            views(pieces@).push(cur@) == split(t@.subrange(0, i as int), c),
        decreases t@.len() - i,
    {
        let ghost before = t@.subrange(0, i as int);
        let ghost after = t@.subrange(0, i + 1);
        assert(after.drop_last() == before);
        proof {
            lemma_split_nonempty(before, c);
        }
        if t[i] == c {
            pieces.push(cur);
            cur = Vec::new();
            assert(views(pieces@).push(cur@) =~= split(before, c).push(Seq::empty()));
        } else {
            let ghost old_pieces = views(pieces@);
            cur.push(t[i]);
            assert(views(pieces@) == old_pieces);
            assert(views(pieces@).push(cur@) =~= split(before, c).update(
                split(before, c).len() - 1,
                split(before, c).last().push(t@[i as int]),
            ));
        }
        i = i + 1;
    }
    assert(t@.subrange(0, t@.len() as int) == t@);
    pieces.push(cur);
    pieces
}

/// Joins `ps` with `c` between each two pieces.
pub fn join_on(ps: &Vec<Vec<u8>>, c: u8) -> (r: Vec<u8>)
    ensures
        r@ == join(views(ps@), c),
{
    let mut out: Vec<u8> = Vec::new();
    let mut i: usize = 0;
    while i < ps.len()
        invariant
            i <= ps@.len(),
            out@ == join(views(ps@).take(i as int), c),
        decreases ps@.len() - i,
    {
        let ghost prefix = out@;
        if i > 0 {
            out.push(c);
        }
        let piece = &ps[i];
        let mut j: usize = 0;
        while j < piece.len()
            invariant
                j <= piece@.len(),
                piece@ == ps@[i as int]@,
                out@ == (if i > 0 { prefix.push(c) } else { prefix }) + piece@.take(j as int),
            decreases piece@.len() - j,
        {
            out.push(piece[j]);
            assert(piece@.take(j + 1) == piece@.take(j as int).push(piece@[j as int]));
            j = j + 1;
        }
        assert(piece@.take(j as int) == piece@);
        assert(views(ps@).take(i + 1).drop_last() == views(ps@).take(i as int));
        i = i + 1;
    }
    assert(views(ps@).take(ps@.len() as int) == views(ps@));
    out
}

} // verus!
