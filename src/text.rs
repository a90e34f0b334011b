//! Character-sequence vocabulary shared by the index and the resolver: prefixes,
//! the code-point order, sorted listings of finite sets, and case folding.
use vstd::prelude::*;

verus! {

/// `p` is a prefix of `w`.
pub open spec fn has_prefix(w: Seq<char>, p: Seq<char>) -> bool {
    p.len() <= w.len() && w.subrange(0, p.len() as int) == p
}

/// Lexicographic order on character sequences, comparing code points; a proper
/// prefix comes before its extensions.
pub open spec fn lex_lt(a: Seq<char>, b: Seq<char>) -> bool
    decreases a.len(),
{
    if a.len() == 0 {
        b.len() > 0
    } else if b.len() == 0 {
        false
    } else if a[0] != b[0] {
        (a[0] as u32) < (b[0] as u32)
    } else {
        lex_lt(a.drop_first(), b.drop_first())
    }
}

/// Every earlier element is strictly below every later one.
pub open spec fn strictly_sorted(l: Seq<Seq<char>>) -> bool {
    forall|i: int, j: int| 0 <= i < j < l.len() ==> lex_lt(#[trigger] l[i], #[trigger] l[j])
}

/// `l` lists the elements of `s` in ascending order, each once.
pub open spec fn is_listing(l: Seq<Seq<char>>, s: Set<Seq<char>>) -> bool {
    &&& strictly_sorted(l)
    &&& forall|x: Seq<char>| #[trigger] s.contains(x) <==> l.contains(x)
}

/// The ascending listing of a finite set.
pub open spec fn listing(s: Set<Seq<char>>) -> Seq<Seq<char>> {
    choose|l: Seq<Seq<char>>| is_listing(l, s)
}

/// A view of a vector of strings as a sequence of character sequences.
pub open spec fn strings_view(v: Seq<String>) -> Seq<Seq<char>> {
    v.map_values(|s: String| s@)
}

pub proof fn lemma_lex_lt_irreflexive(a: Seq<char>)
    ensures
        !lex_lt(a, a),
    decreases a.len(),
{
    if a.len() > 0 {
        lemma_lex_lt_irreflexive(a.drop_first());
    }
}

pub proof fn lemma_lex_lt_asymmetric(a: Seq<char>, b: Seq<char>)
    ensures
        !(lex_lt(a, b) && lex_lt(b, a)),
    decreases a.len(),
{
    if a.len() > 0 && b.len() > 0 && a[0] == b[0] {
        lemma_lex_lt_asymmetric(a.drop_first(), b.drop_first());
    }
}

pub proof fn lemma_lex_lt_transitive(a: Seq<char>, b: Seq<char>, c: Seq<char>)
    requires
        lex_lt(a, b),
        lex_lt(b, c),
    ensures
        lex_lt(a, c),
    decreases a.len(),
{
    if a.len() > 0 && a[0] == b[0] && b[0] == c[0] {
        lemma_lex_lt_transitive(a.drop_first(), b.drop_first(), c.drop_first());
    }
}

pub proof fn lemma_lex_lt_total(a: Seq<char>, b: Seq<char>)
    requires
        a != b,
    ensures
        lex_lt(a, b) || lex_lt(b, a),
    decreases a.len(),
{
    if a.len() == 0 || b.len() == 0 {
        if a.len() == 0 && b.len() == 0 {
            assert(a =~= b);
        }
    } else if a[0] == b[0] {
        assert(a =~= seq![a[0]] + a.drop_first());
        assert(b =~= seq![b[0]] + b.drop_first());
        lemma_lex_lt_total(a.drop_first(), b.drop_first());
    } else {
        let u = a[0] as u32;
        let v = b[0] as u32;
        if u == v {
            vstd::utf8::char_u32_cast(a[0], u);
            vstd::utf8::char_u32_cast(b[0], v);
        }
    }
}

/// `x` placed into an ascending sequence at its place in the order.
pub open spec fn insert_sorted(l: Seq<Seq<char>>, x: Seq<char>) -> Seq<Seq<char>>
    decreases l.len(),
{
    if l.len() == 0 {
        seq![x]
    } else if lex_lt(x, l[0]) {
        seq![x] + l
    } else {
        seq![l[0]] + insert_sorted(l.drop_first(), x)
    }
}

pub proof fn lemma_insert_sorted(l: Seq<Seq<char>>, x: Seq<char>)
    requires
        strictly_sorted(l),
        !l.contains(x),
    ensures
        strictly_sorted(insert_sorted(l, x)),
        forall|y: Seq<char>| #[trigger] insert_sorted(l, x).contains(y) <==> (l.contains(y) || y == x),
    decreases l.len(),
{
    let r = insert_sorted(l, x);
    if l.len() == 0 {
        assert forall|y: Seq<char>| #[trigger] r.contains(y) <==> (l.contains(y) || y == x) by {
            if r.contains(y) {
                let j = choose|j: int| 0 <= j < r.len() && r[j] == y;
            }
            if y == x {
                assert(r[0] == x);
            }
        }
    } else if lex_lt(x, l[0]) {
        assert forall|i: int, j: int| 0 <= i < j < r.len() implies lex_lt(
            #[trigger] r[i],
            #[trigger] r[j],
        ) by {
            if i == 0 {
                assert(r[j] == l[j - 1]);
                if j > 1 {
                    assert(lex_lt(l[0], l[j - 1]));
                    lemma_lex_lt_transitive(x, l[0], l[j - 1]);
                }
            } else {
                assert(r[i] == l[i - 1] && r[j] == l[j - 1]);
            }
        }
        assert forall|y: Seq<char>| #[trigger] r.contains(y) <==> (l.contains(y) || y == x) by {
            if r.contains(y) {
                let j = choose|j: int| 0 <= j < r.len() && r[j] == y;
                if j > 0 {
                    assert(l[j - 1] == y);
                }
            }
            if l.contains(y) {
                let j = choose|j: int| 0 <= j < l.len() && l[j] == y;
                assert(r[j + 1] == y);
            }
            if y == x {
                assert(r[0] == x);
            }
        }
    } else {
        let t = l.drop_first();
        assert(strictly_sorted(t)) by {
            assert forall|i: int, j: int| 0 <= i < j < t.len() implies lex_lt(
                #[trigger] t[i],
                #[trigger] t[j],
            ) by {
                assert(lex_lt(l[i + 1], l[j + 1]));
            }
        }
        assert(!t.contains(x)) by {
            if t.contains(x) {
                let j = choose|j: int| 0 <= j < t.len() && t[j] == x;
                assert(l[j + 1] == x);
            }
        }
        lemma_insert_sorted(t, x);
        let rt = insert_sorted(t, x);
        assert(l.contains(l[0]));
        assert(x != l[0]);
        lemma_lex_lt_total(x, l[0]);
        assert(r == seq![l[0]] + rt);
        assert forall|i: int, j: int| 0 <= i < j < r.len() implies lex_lt(
            #[trigger] r[i],
            #[trigger] r[j],
        ) by {
            if i == 0 {
                assert(r[j] == rt[j - 1]);
                assert(rt.contains(rt[j - 1]));
                if rt[j - 1] != x {
                    assert(t.contains(rt[j - 1]));
                    let k = choose|k: int| 0 <= k < t.len() && t[k] == rt[j - 1];
                    assert(l[k + 1] == rt[j - 1]);
                }
            } else {
                assert(r[i] == rt[i - 1] && r[j] == rt[j - 1]);
            }
        }
        assert forall|y: Seq<char>| #[trigger] r.contains(y) <==> (l.contains(y) || y == x) by {
            if r.contains(y) {
                let j = choose|j: int| 0 <= j < r.len() && r[j] == y;
                if j > 0 {
                    assert(rt[j - 1] == y);
                    assert(rt.contains(y));
                    if t.contains(y) {
                        let k = choose|k: int| 0 <= k < t.len() && t[k] == y;
                        assert(l[k + 1] == y);
                    }
                }
            }
            if l.contains(y) {
                let j = choose|j: int| 0 <= j < l.len() && l[j] == y;
                if j > 0 {
                    assert(t[j - 1] == y);
                    assert(rt.contains(y));
                    let k = choose|k: int| 0 <= k < rt.len() && rt[k] == y;
                    assert(r[k + 1] == y);
                }
            }
            if y == x {
                assert(rt.contains(x));
                let k = choose|k: int| 0 <= k < rt.len() && rt[k] == x;
                assert(r[k + 1] == x);
            }
        }
    }
}

/// Every finite set has an ascending listing.
pub proof fn lemma_listing_exists(s: Set<Seq<char>>)
    requires
        s.finite(),
    ensures
        is_listing(listing(s), s),
    decreases s.len(),
{
    if s.len() == 0 {
        assert(s =~= Set::<Seq<char>>::empty());
        assert(is_listing(Seq::<Seq<char>>::empty(), s));
    } else {
        let x = s.choose();
        assert(s.contains(x));
        let t = s.remove(x);
        lemma_listing_exists(t);
        let lt = listing(t);
        assert(!lt.contains(x)) by {
            assert(!t.contains(x));
        }
        lemma_insert_sorted(lt, x);
        let l = insert_sorted(lt, x);
        assert(is_listing(l, s)) by {
            assert forall|y: Seq<char>| #[trigger] s.contains(y) <==> l.contains(y) by {
                if y != x {
                    assert(s.contains(y) <==> t.contains(y));
                }
            }
        }
    }
}

/// A finite set has at most one ascending listing.
pub proof fn lemma_listing_unique(l1: Seq<Seq<char>>, l2: Seq<Seq<char>>, s: Set<Seq<char>>)
    requires
        is_listing(l1, s),
        is_listing(l2, s),
    ensures
        l1 == l2,
    decreases l1.len(),
{
    if l1.len() == 0 {
        if l2.len() > 0 {
            assert(l2.contains(l2[0]));
            assert(s.contains(l2[0]));
        }
        assert(l1 =~= l2);
    } else {
        assert(l1.contains(l1[0]));
        assert(s.contains(l1[0]));
        assert(l2.contains(l1[0]));
        assert(l2.len() > 0);
        assert(l2.contains(l2[0]));
        assert(s.contains(l2[0]));
        assert(l1.contains(l2[0]));
        if l1[0] != l2[0] {
            let k = choose|k: int| 0 <= k < l2.len() && l2[k] == l1[0];
            let m = choose|m: int| 0 <= m < l1.len() && l1[m] == l2[0];
            assert(lex_lt(l2[0], l2[k]));
            assert(lex_lt(l1[0], l1[m]));
            lemma_lex_lt_asymmetric(l1[0], l2[0]);
        }
        let x = l1[0];
        let t = s.remove(x);
        let r1 = l1.drop_first();
        let r2 = l2.drop_first();
        assert forall|y: Seq<char>| #[trigger] t.contains(y) <==> r1.contains(y) by {
            if r1.contains(y) {
                let j = choose|j: int| 0 <= j < r1.len() && r1[j] == y;
                assert(l1[j + 1] == y);
                if y == x {
                    assert(lex_lt(l1[0], l1[j + 1]));
                    lemma_lex_lt_irreflexive(x);
                }
            }
            if t.contains(y) {
                let j = choose|j: int| 0 <= j < l1.len() && l1[j] == y;
                assert(j != 0);
                assert(r1[j - 1] == y);
            }
        }
        assert forall|y: Seq<char>| #[trigger] t.contains(y) <==> r2.contains(y) by {
            if r2.contains(y) {
                let j = choose|j: int| 0 <= j < r2.len() && r2[j] == y;
                assert(l2[j + 1] == y);
                if y == x {
                    assert(lex_lt(l2[0], l2[j + 1]));
                    lemma_lex_lt_irreflexive(x);
                }
            }
            if t.contains(y) {
                let j = choose|j: int| 0 <= j < l2.len() && l2[j] == y;
                assert(j != 0);
                assert(r2[j - 1] == y);
            }
        }
        assert(strictly_sorted(r1)) by {
            assert forall|i: int, j: int| 0 <= i < j < r1.len() implies lex_lt(
                #[trigger] r1[i],
                #[trigger] r1[j],
            ) by {
                assert(lex_lt(l1[i + 1], l1[j + 1]));
            }
        }
        assert(strictly_sorted(r2)) by {
            assert forall|i: int, j: int| 0 <= i < j < r2.len() implies lex_lt(
                #[trigger] r2[i],
                #[trigger] r2[j],
            ) by {
                assert(lex_lt(l2[i + 1], l2[j + 1]));
            }
        }
        lemma_listing_unique(r1, r2, t);
        assert(l1 =~= l2) by {
            assert(l1 == seq![x] + r1);
            assert(l2 == seq![x] + r2);
        }
    }
}

/// A sequence that lists `s` is the listing of `s`.
pub proof fn lemma_is_listing_is_the_listing(l: Seq<Seq<char>>, s: Set<Seq<char>>)
    requires
        is_listing(l, s),
    ensures
        listing(s) == l,
{
    let c = listing(s);
    assert(is_listing(c, s));
    lemma_listing_unique(c, l, s);
}

/// What `str::to_lowercase` returns for a character sequence.
pub uninterp spec fn lower_of(s: Seq<char>) -> Seq<char>;

/// Relies on `str::to_lowercase`: Unicode lowercase mapping, a function of the
/// characters alone.
#[verifier::external_body]
pub(crate) fn to_lower(s: &str) -> (r: String)
    ensures
        r@ == lower_of(s@),
{
    s.to_lowercase()
}

} // verus!
