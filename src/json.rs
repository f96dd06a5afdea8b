//! JSON values as the library holds them, and lookups on objects.
use vstd::prelude::*;

verus! {

/// A JSON value. A number is kept as the text that denotes it; an object as
/// its members in order.
#[derive(Debug, PartialEq)]
pub enum Json {
    Null,
    Bool(bool),
    Number(String),
    Str(String),
    Array(Vec<Json>),
    Object(Vec<(String, Json)>),
}

/// The value of the first member of `e` whose key is `k`.
pub open spec fn lookup(e: Seq<(String, Json)>, k: Seq<char>) -> Option<Json>
    decreases e.len(),
{
    if e.len() == 0 {
        None
    } else if e[0].0@ == k {
        Some(e[0].1)
    } else {
        lookup(e.drop_first(), k)
    }
}

/// The text of a string member named `k`, if there is one.
pub open spec fn lookup_str(e: Seq<(String, Json)>, k: Seq<char>) -> Option<Seq<char>> {
    match lookup(e, k) {
        Some(Json::Str(s)) => Some(s@),
        _ => None,
    }
}

/// Appending a member changes the lookup of its key only where the key was absent.
pub proof fn lemma_lookup_push(e: Seq<(String, Json)>, x: (String, Json), k: Seq<char>)
    ensures
        lookup(e.push(x), k) == (if lookup(e, k) is Some {
            lookup(e, k)
        } else if x.0@ == k {
            Some(x.1)
        } else {
            None
        }),
    decreases e.len(),
{
    if e.len() > 0 {
        assert(e.push(x)[0] == e[0]);
        assert(e.push(x).drop_first() =~= e.drop_first().push(x));
        lemma_lookup_push(e.drop_first(), x, k);
    } else {
        assert(e.push(x).drop_first() =~= Seq::<(String, Json)>::empty());
        assert(lookup(e.push(x).drop_first(), k) is None);
        assert(e.push(x)[0] == x);
    }
}

/// A lookup in a suffix can be started one member further on.
proof fn lemma_lookup_step(e: Seq<(String, Json)>, i: int, k: Seq<char>)
    requires
        0 <= i < e.len(),
        e[i].0@ != k,
    ensures
        lookup(e.subrange(i, e.len() as int), k) == lookup(e.subrange(i + 1, e.len() as int), k),
{
    assert(e.subrange(i, e.len() as int).drop_first() =~= e.subrange(i + 1, e.len() as int));
}

/// Index of the first member of `e` whose key is `k`.
pub fn find_key(e: &Vec<(String, Json)>, k: &String) -> (r: Option<usize>)
    ensures
        r is None <==> lookup(e@, k@) is None,
        r matches Some(i) ==> i < e@.len() && e@[i as int].0@ == k@ && lookup(e@, k@) == Some(
            e@[i as int].1,
        ),
{
    let mut i: usize = 0;
    assert(e@.subrange(0, e@.len() as int) =~= e@);
    while i < e.len()
        invariant
            i <= e@.len(),
            lookup(e@, k@) == lookup(e@.subrange(i as int, e@.len() as int), k@),
        decreases e@.len() - i,
    {
        if e[i].0 == *k {
            return Some(i);
        }
        proof {
            lemma_lookup_step(e@, i as int, k@);
        }
        i = i + 1;
    }
    None
}

/// The members of `e` without those named `k`, in order.
pub fn without_key(e: Vec<(String, Json)>, k: &String) -> (r: Vec<(String, Json)>)
    ensures
        lookup(r@, k@) is None,
        forall|k2: Seq<char>| k2 != k@ ==> #[trigger] lookup(r@, k2) == lookup(e@, k2),
{
    let mut e = e;
    let ghost e0 = e@;
    let mut kept: Vec<(String, Json)> = Vec::new();
    while e.len() > 0
        invariant
            e0.len() >= e@.len(),
            e@ =~= e0.subrange(e0.len() - e@.len(), e0.len() as int),
            lookup(kept@, k@) is None,
            forall|k2: Seq<char>| k2 != k@ ==> #[trigger] lookup(kept@, k2) == lookup(
                e0.take(e0.len() - e@.len()),
                k2,
            ),
        decreases e@.len(),
    {
        let ghost n = e0.len() - e@.len();
        let x = e.remove(0);
        proof {
            assert(x == e0[n]);
            assert(e0.take(n + 1) =~= e0.take(n).push(x));
        }
        if x.0 == *k {
            proof {
                assert forall|k2: Seq<char>| k2 != k@ implies #[trigger] lookup(kept@, k2) == lookup(
                    e0.take(n + 1),
                    k2,
                ) by {
                    lemma_lookup_push(e0.take(n), x, k2);
                }
            }
        } else {
            let ghost before = kept@;
            kept.push(x);
            proof {
                lemma_lookup_push(before, x, k@);
                assert forall|k2: Seq<char>| k2 != k@ implies #[trigger] lookup(kept@, k2) == lookup(
                    e0.take(n + 1),
                    k2,
                ) by {
                    lemma_lookup_push(before, x, k2);
                    lemma_lookup_push(e0.take(n), x, k2);
                }
            }
        }
    }
    assert(e0.take(e0.len() as int) =~= e0);
    kept
}

} // verus!
