//! Lexicographic order on strings, and sorted lists without repeats.
use vstd::prelude::*;
use crate::repo::texts;

verus! {

/// `a` comes strictly before `b`, comparing characters by code point.
pub open spec fn lex_lt(a: Seq<char>, b: Seq<char>) -> bool
    decreases a.len(),
{
    if a.len() == 0 {
        b.len() > 0
    } else if b.len() == 0 {
        false
    } else if a[0] != b[0] {
        a[0] < b[0]
    } else {
        lex_lt(a.drop_first(), b.drop_first())
    }
}

/// Every string of `s` comes strictly before those after it.
pub open spec fn strictly_sorted(s: Seq<Seq<char>>) -> bool {
    forall|i: int, j: int| 0 <= i < j < s.len() ==> lex_lt(s[i], s[j])
}

pub proof fn lemma_lex_total(a: Seq<char>, b: Seq<char>)
    ensures
        a != b ==> lex_lt(a, b) || lex_lt(b, a),
    decreases a.len(),
{
    if a.len() > 0 && b.len() > 0 && a[0] == b[0] {
        lemma_lex_total(a.drop_first(), b.drop_first());
        if a.drop_first() == b.drop_first() {
            assert(a =~= seq![a[0]] + a.drop_first());
            assert(b =~= seq![b[0]] + b.drop_first());
        }
    }
    if a.len() == 0 && b.len() == 0 {
        assert(a =~= b);
    }
}

pub proof fn lemma_lex_transitive(a: Seq<char>, b: Seq<char>, c: Seq<char>)
    requires
        lex_lt(a, b),
        lex_lt(b, c),
    ensures
        lex_lt(a, c),
    decreases a.len(),
{
    if a.len() > 0 && b.len() > 0 && c.len() > 0 && a[0] == b[0] && b[0] == c[0] {
        lemma_lex_transitive(a.drop_first(), b.drop_first(), c.drop_first());
    }
}

/// Relies on `str`'s `Ord`, which orders strings by their UTF-8 bytes; that is
/// the order of their characters by code point.
#[verifier::external_body]
fn str_lt(a: &str, b: &str) -> (r: bool)
    ensures
        r == lex_lt(a@, b@),
{
    a < b
}

/// The distinct strings of `items`, in lexicographic order.
pub fn sorted_unique(items: &Vec<String>) -> (r: Vec<String>)
    ensures
        strictly_sorted(texts(r@)),
        forall|x: Seq<char>| texts(r@).contains(x) <==> texts(items@).contains(x),
{
    let mut out: Vec<String> = Vec::new();
    let mut i: usize = 0;
    while i < items.len()
        invariant
            i <= items@.len(),
            strictly_sorted(texts(out@)),
            forall|x: Seq<char>| texts(out@).contains(x) <==> texts(items@).subrange(0, i as int).contains(x),
        decreases items@.len() - i,
    {
        let x = &items[i];
        let mut p: usize = 0;
        while p < out.len() && str_lt(out[p].as_str(), x.as_str())
            invariant
                p <= out@.len(),
                forall|q: int| 0 <= q < p ==> lex_lt(out@[q]@, x@),
            decreases out@.len() - p,
        {
            p = p + 1;
        }
        let ghost before = out@;
        let ghost tb = texts(before);
        assert(texts(items@).subrange(0, i + 1 as int) =~= texts(items@).subrange(0, i as int).push(x@));
        if p < out.len() && out[p].eq(x) {
            assert(tb[p as int] == x@);
            assert forall|y: Seq<char>| texts(out@).contains(y) <==> texts(items@).subrange(0, i + 1 as int).contains(y) by {
                if y == x@ {
                    assert(texts(out@)[p as int] == y);
                }
                let s0 = texts(items@).subrange(0, i as int);
                if s0.push(x@).contains(y) {
                    let k = choose|k: int| 0 <= k < s0.len() + 1 && s0.push(x@)[k] == y;
                    if k < s0.len() {
                        assert(s0[k] == y);
                    }
                }
                if s0.contains(y) {
                    let k = choose|k: int| 0 <= k < s0.len() && s0[k] == y;
                    assert(s0.push(x@)[k] == y);
                }
            }
        } else {
            out.insert(p, x.clone());
            let ghost to = texts(out@);
            assert(to =~= tb.insert(p as int, x@));
            proof {
                if p < before.len() {
                    assert(!lex_lt(tb[p as int], x@));
                    lemma_lex_total(tb[p as int], x@);
                    assert(lex_lt(x@, tb[p as int]));
                }
            }
            assert forall|a: int, b: int| 0 <= a < b < to.len() implies lex_lt(to[a], to[b]) by {
                if a == p {
                    if b > p + 1 {
                        lemma_lex_transitive(x@, tb[p as int], tb[b - 1]);
                    }
                } else if a < p && b > p {
                    assert(lex_lt(tb[a], x@));
                    if b > p {
                        if b == p + 1 {
                            lemma_lex_transitive(tb[a], x@, tb[p as int]);
                        } else {
                            lemma_lex_transitive(x@, tb[p as int], tb[b - 1]);
                            lemma_lex_transitive(tb[a], x@, tb[b - 1]);
                        }
                    }
                } else if a < p && b == p {
                    assert(lex_lt(tb[a], x@));
                } else if a > p {
                    assert(lex_lt(tb[a - 1], tb[b - 1]));
                } else {
                    assert(lex_lt(tb[a], tb[b]));
                }
            }
            assert forall|y: Seq<char>| to.contains(y) <==> texts(items@).subrange(0, i + 1 as int).contains(y) by {
                if to.contains(y) {
                    let k = choose|k: int| 0 <= k < to.len() && to[k] == y;
                    if k < p {
                        assert(tb[k] == y);
                    } else if k > p {
                        assert(tb[k - 1] == y);
                    }
                }
                if tb.contains(y) {
                    let k = choose|k: int| 0 <= k < tb.len() && tb[k] == y;
                    if k < p {
                        assert(to[k] == y);
                    } else {
                        assert(to[k + 1] == y);
                    }
                }
                if y == x@ {
                    assert(to[p as int] == y);
                }
                let s0 = texts(items@).subrange(0, i as int);
                if s0.push(x@).contains(y) {
                    let k = choose|k: int| 0 <= k < s0.len() + 1 && s0.push(x@)[k] == y;
                    if k < s0.len() {
                        assert(s0[k] == y);
                    }
                }
                if s0.contains(y) {
                    let k = choose|k: int| 0 <= k < s0.len() && s0[k] == y;
                    assert(s0.push(x@)[k] == y);
                }
                if y == x@ {
                    assert(s0.push(x@)[s0.len() as int] == y);
                }
            }
        }
        i = i + 1;
    }
    assert(texts(items@).subrange(0, items@.len() as int) =~= texts(items@));
    out
}

} // verus!
