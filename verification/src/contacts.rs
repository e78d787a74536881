//! Which touches and which players are new since the previous frame.
use vstd::prelude::*;

verus! {

/// The pair ordered so that the smaller entity comes first.
pub open spec fn ordered_pair(p: (u64, u64)) -> (u64, u64) {
    if p.0 < p.1 {
        p
    } else {
        (p.1, p.0)
    }
}

/// `s` with later repetitions of an element dropped.
pub open spec fn dedup<A>(s: Seq<A>) -> Seq<A>
    decreases s.len(),
{
    if s.len() == 0 {
        s
    } else if dedup(s.drop_last()).contains(s.last()) {
        dedup(s.drop_last())
    } else {
        dedup(s.drop_last()).push(s.last())
    }
}

/// The elements of `s` that are not in `t`, in order.
pub open spec fn minus<A>(s: Seq<A>, t: Seq<A>) -> Seq<A>
    decreases s.len(),
{
    if s.len() == 0 {
        s
    } else if t.contains(s.last()) {
        minus(s.drop_last(), t)
    } else {
        minus(s.drop_last(), t).push(s.last())
    }
}

/// The touching pairs of this frame: ordered, each once, in order of first report.
pub open spec fn current_contacts(collisions: Seq<(u64, u64)>) -> Seq<(u64, u64)> {
    dedup(collisions.map_values(|p: (u64, u64)| ordered_pair(p)))
}

pub proof fn lemma_dedup_no_duplicates<A>(s: Seq<A>)
    ensures
        dedup(s).no_duplicates(),
        forall|x: A| #[trigger] dedup(s).contains(x) <==> s.contains(x),
    decreases s.len(),
{
    if s.len() > 0 {
        lemma_dedup_no_duplicates(s.drop_last());
        let d = dedup(s.drop_last());
        assert forall|x: A| #[trigger] s.contains(x) <==> (s.drop_last().contains(x) || x == s.last()) by {
            if s.contains(x) {
                let i = choose|i: int| 0 <= i < s.len() && s[i] == x;
                if i < s.len() - 1 {
                    assert(s.drop_last()[i] == x);
                }
            }
            if s.drop_last().contains(x) {
                let i = choose|i: int| 0 <= i < s.drop_last().len() && s.drop_last()[i] == x;
                assert(s[i] == x);
            }
            if x == s.last() {
                assert(s[s.len() - 1] == x);
            }
        }
        if !d.contains(s.last()) {
            assert forall|x: A| #[trigger] d.push(s.last()).contains(x) <==> (d.contains(x) || x
                == s.last()) by {
                if d.push(s.last()).contains(x) {
                    let i = choose|i: int| 0 <= i < d.push(s.last()).len() && d.push(s.last())[i] == x;
                    if i < d.len() {
                        assert(d[i] == x);
                    }
                }
                if d.contains(x) {
                    let i = choose|i: int| 0 <= i < d.len() && d[i] == x;
                    assert(d.push(s.last())[i] == x);
                }
                if x == s.last() {
                    assert(d.push(s.last())[d.len() as int] == x);
                }
            }
        }
    }
}

proof fn lemma_minus_members<A>(s: Seq<A>, t: Seq<A>)
    ensures
        forall|x: A| #[trigger] minus(s, t).contains(x) <==> (s.contains(x) && !t.contains(x)),
    decreases s.len(),
{
    if s.len() > 0 {
        lemma_minus_members(s.drop_last(), t);
        let m = minus(s.drop_last(), t);
        assert forall|x: A| #[trigger] minus(s, t).contains(x) <==> (s.contains(x) && !t.contains(
            x,
        )) by {
            if s.contains(x) {
                let i = choose|i: int| 0 <= i < s.len() && s[i] == x;
                if i < s.len() - 1 {
                    assert(s.drop_last()[i] == x);
                }
            }
            if s.drop_last().contains(x) {
                let i = choose|i: int| 0 <= i < s.drop_last().len() && s.drop_last()[i] == x;
                assert(s[i] == x);
            }
            assert(s[s.len() - 1] == s.last());
            if !t.contains(s.last()) {
                if m.push(s.last()).contains(x) {
                    let i = choose|i: int| 0 <= i < m.push(s.last()).len() && m.push(s.last())[i] == x;
                    if i < m.len() {
                        assert(m[i] == x);
                    }
                }
                if m.contains(x) {
                    let i = choose|i: int| 0 <= i < m.len() && m[i] == x;
                    assert(m.push(s.last())[i] == x);
                }
                if x == s.last() {
                    assert(m.push(s.last())[m.len() as int] == x);
                }
            }
        }
    }
}

fn contains_pair(v: &Vec<(u64, u64)>, p: (u64, u64)) -> (r: bool)
    ensures
        r == v@.contains(p),
{
    let mut i: usize = 0;
    while i < v.len()
        invariant
            i <= v.len(),
            forall|k: int| 0 <= k < i ==> v@[k] != p,
        decreases v.len() - i,
    {
        let q = v[i];
        if q.0 == p.0 && q.1 == p.1 {
            assert(v@[i as int] == p);
            return true;
        }
        i = i + 1;
    }
    false
}

/// Whether `e` occurs in `v`.
pub fn contains_entity(v: &Vec<u64>, e: u64) -> (r: bool)
    ensures
        r == v@.contains(e),
{
    let mut i: usize = 0;
    while i < v.len()
        invariant
            i <= v.len(),
            forall|k: int| 0 <= k < i ==> v@[k] != e,
        decreases v.len() - i,
    {
        if v[i] == e {
            assert(v@[i as int] == e);
            return true;
        }
        i = i + 1;
    }
    false
}

/// The touches that began this frame. `collisions` lists this frame's
/// touching pairs in either order; `previous` holds last frame's pairs and
/// is replaced by this frame's. A pair enters when it touches now and did
/// not touch last frame. The pairs are kept in a `Vec` without repeats in
/// the order they were first reported, rather than in a hash set, so that
/// the order in which entered touches come out (and their handlers run)
/// depends on the input alone and is stated exactly.
pub fn entered_contacts(previous: &mut Vec<(u64, u64)>, collisions: Vec<(u64, u64)>) -> (r: Vec<
    (u64, u64),
>)
    ensures
        final(previous)@ == current_contacts(collisions@),
        r@ == minus(current_contacts(collisions@), old(previous)@),
        final(previous)@.no_duplicates(),
        r@.no_duplicates(),
        forall|p: (u64, u64)|
            #[trigger] r@.contains(p) <==> (collisions@.map_values(
                |q: (u64, u64)| ordered_pair(q),
            ).contains(p) && !old(previous)@.contains(p)),
{
    let ghost ordered = collisions@.map_values(|q: (u64, u64)| ordered_pair(q));
    let mut current: Vec<(u64, u64)> = Vec::new();
    let mut entered: Vec<(u64, u64)> = Vec::new();
    let mut i: usize = 0;
    while i < collisions.len()
        invariant
            i <= collisions.len(),
            ordered == collisions@.map_values(|q: (u64, u64)| ordered_pair(q)),
            current@ == dedup(ordered.take(i as int)),
            entered@ == minus(dedup(ordered.take(i as int)), previous@),
        decreases collisions.len() - i,
    {
        let c = collisions[i];
        let p = if c.0 < c.1 {
            c
        } else {
            (c.1, c.0)
        };
        assert(ordered.take(i + 1).drop_last() == ordered.take(i as int));
        assert(ordered.take(i + 1).last() == p);
        assert(dedup(ordered.take(i as int)).push(p).drop_last() == dedup(ordered.take(i as int)));
        if !contains_pair(&current, p) {
            current.push(p);
            if !contains_pair(previous, p) {
                entered.push(p);
            }
        }
        i = i + 1;
    }
    assert(ordered.take(collisions.len() as int) == ordered);
    proof {
        lemma_dedup_no_duplicates(ordered);
        lemma_minus_members(ordered, previous@);
        lemma_minus_members(dedup(ordered), previous@);
        lemma_minus_no_duplicates(dedup(ordered), previous@);
    }
    *previous = current;
    entered
}

proof fn lemma_minus_no_duplicates<A>(s: Seq<A>, t: Seq<A>)
    requires
        s.no_duplicates(),
    ensures
        minus(s, t).no_duplicates(),
    decreases s.len(),
{
    if s.len() > 0 {
        lemma_minus_members(s.drop_last(), t);
        assert(s.drop_last().no_duplicates());
        lemma_minus_no_duplicates(s.drop_last(), t);
        if !t.contains(s.last()) {
            assert(!s.drop_last().contains(s.last())) by {
                if s.drop_last().contains(s.last()) {
                    let i = choose|i: int| 0 <= i < s.drop_last().len() && s.drop_last()[i] == s.last();
                    assert(s[i] == s[s.len() - 1]);
                }
            }
            let m = minus(s.drop_last(), t);
            assert(!m.contains(s.last()));
            assert forall|a: int, b: int|
                0 <= a < m.push(s.last()).len() && 0 <= b < m.push(s.last()).len() && a != b
                    implies m.push(s.last())[a] != m.push(s.last())[b] by {
                if a == m.len() {
                    assert(m.contains(m[b]));
                } else if b == m.len() {
                    assert(m.contains(m[a]));
                }
            }
        }
    }
}

/// The players that joined since the previous frame. `current` lists this
/// frame's players, each once; `last` holds last frame's and is replaced by
/// this frame's.
pub fn players_joined(last: &mut Vec<u64>, current: Vec<u64>) -> (r: Vec<u64>)
    ensures
        final(last)@ == current@,
        r@ == minus(current@, old(last)@),
        forall|p: u64| #[trigger] r@.contains(p) <==> (current@.contains(p) && !old(last)@.contains(p)),
{
    let mut joined: Vec<u64> = Vec::new();
    let mut i: usize = 0;
    while i < current.len()
        invariant
            i <= current.len(),
            joined@ == minus(current@.take(i as int), last@),
        decreases current.len() - i,
    {
        assert(current@.take(i + 1).drop_last() == current@.take(i as int));
        if !contains_entity(last, current[i]) {
            joined.push(current[i]);
        }
        i = i + 1;
    }
    assert(current@.take(current.len() as int) == current@);
    proof {
        lemma_minus_members(current@, last@);
    }
    *last = current;
    joined
}


/// Nothing of `s` is missing from `s`.
proof fn lemma_minus_self<A>(s: Seq<A>)
    ensures
        minus(s, s).len() == 0,
{
    lemma_minus_members(s, s);
    if minus(s, s).len() > 0 {
        assert(minus(s, s).contains(minus(s, s)[0]));
    }
}

/// A touch that lasts enters only once: after a frame's contacts have been
/// recorded, the same contacts in the next frame make nothing enter, and the
/// record stays the same.
pub proof fn lemma_lasting_touch_enters_once(collisions: Seq<(u64, u64)>)
    ensures
        minus(current_contacts(collisions), current_contacts(collisions)).len() == 0,
{
    lemma_minus_self(current_contacts(collisions));
}

/// A player who stays is reported as joining only once.
pub proof fn lemma_player_joins_once(current: Seq<u64>)
    ensures
        minus(current, current).len() == 0,
{
    lemma_minus_self(current);
}

} // verus!
