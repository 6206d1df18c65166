//! Declaration order of a decoded element tree.
//!
//! The decoder lists an element, then the subtrees of its children, the last
//! child first. Given each listed element's number of children, this module
//! recovers the order in which the elements are declared.
use vstd::prelude::*;

verus! {

/// The subtree listed from position `i`: its positions in declaration order,
/// and the position just after it; `None` when the counts do not describe one.
pub open spec fn subtree(cs: Seq<usize>, i: int) -> Option<(Seq<int>, int)>
    decreases cs.len() - i, 0int,
{
    if 0 <= i < cs.len() {
        match siblings(cs, i + 1, cs[i] as int) {
            Some((body, e)) => Some((seq![i] + body, e)),
            None => None,
        }
    } else {
        None
    }
}

/// `k` sibling subtrees listed from position `j`, the last sibling first: their
/// positions in declaration order, and the position just after them.
pub open spec fn siblings(cs: Seq<usize>, j: int, k: int) -> Option<(Seq<int>, int)>
    decreases cs.len() - j, k,
{
    if k <= 0 {
        Some((Seq::empty(), j))
    } else if j < 0 || j >= cs.len() {
        None
    } else {
        match subtree(cs, j) {
            Some((last, e)) => if j < e <= cs.len() {
                match siblings(cs, e, k - 1) {
                    Some((earlier, e2)) => Some((earlier + last, e2)),
                    None => None,
                }
            } else {
                None
            },
            None => None,
        }
    }
}

/// The positions of a whole listing in declaration order, when the listing is
/// exactly one tree.
pub open spec fn declared(cs: Seq<usize>) -> Option<Seq<int>> {
    match subtree(cs, 0) {
        Some((order, e)) => if e == cs.len() {
            Some(order)
        } else {
            None
        },
        None => None,
    }
}

pub open spec fn ints(v: Seq<usize>) -> Seq<int> {
    v.map_values(|x: usize| x as int)
}

fn subtree_exec(cs: &Vec<usize>, i: usize) -> (r: Option<(Vec<usize>, usize)>)
    ensures
        match subtree(cs@, i as int) {
            Some((o, e)) => r matches Some((v, f)) && ints(v@) == o && f as int == e,
            None => r is None,
        },
    decreases cs@.len() - i, 0int,
{
    if i >= cs.len() {
        return None;
    }
    match siblings_exec(cs, i + 1, cs[i]) {
        Some((body, e)) => {
            let mut v: Vec<usize> = vec![i];
            let ghost b = ints(body@);
            let mut t: usize = 0;
            while t < body.len()
                invariant
                    t <= body@.len(),
                    b == ints(body@),
                    ints(v@) == seq![i as int] + b.subrange(0, t as int),
                decreases body@.len() - t,
            {
                let ghost pre = v@;
                assert(b[t as int] == body@[t as int] as int);
                v.push(body[t]);
                assert(ints(v@) =~= ints(pre).push(body@[t as int] as int));
                t += 1;
                assert(ints(v@) =~= seq![i as int] + b.subrange(0, t as int));
            }
            assert(b.subrange(0, t as int) =~= b);
            Some((v, e))
        },
        None => None,
    }
}

fn siblings_exec(cs: &Vec<usize>, j0: usize, k0: usize) -> (r: Option<(Vec<usize>, usize)>)
    requires
        j0 <= cs@.len(),
    ensures
        match siblings(cs@, j0 as int, k0 as int) {
            Some((o, e)) => r matches Some((v, f)) && ints(v@) == o && f as int == e,
            None => r is None,
        },
    decreases cs@.len() - j0, k0,
{
    let mut acc: Vec<usize> = Vec::new();
    let mut j: usize = j0;
    let mut k: usize = k0;
    assert(ints(acc@) =~= Seq::<int>::empty());
    proof {
        let s0 = siblings(cs@, j0 as int, k0 as int);
        if s0 is Some {
            let (o, e) = s0->Some_0;
            assert(o + ints(acc@) =~= o);
        }
    }
    while k > 0
        invariant
            j0 <= j,
            k <= k0,
            j == j0 ==> k == k0,
            j <= cs@.len(),
            siblings(cs@, j0 as int, k0 as int) == match siblings(cs@, j as int, k as int) {
                Some((o, e)) => Some((o + ints(acc@), e)),
                None => None,
            },
        decreases cs@.len() - j, k,
    {
        if j >= cs.len() {
            return None;
        }
        match subtree_exec(cs, j) {
            Some((last, e)) => {
                if !(j < e && e <= cs.len()) {
                    return None;
                }
                let ghost before = ints(acc@);
                let mut next: Vec<usize> = last;
                let mut t: usize = 0;
                let ghost l = ints(next@);
                while t < acc.len()
                    invariant
                        t <= acc@.len(),
                        ints(next@) == l + ints(acc@).subrange(0, t as int),
                    decreases acc@.len() - t,
                {
                    let ghost pre = next@;
                    assert(ints(acc@)[t as int] == acc@[t as int] as int);
                    next.push(acc[t]);
                    assert(ints(next@) =~= ints(pre).push(acc@[t as int] as int));
                    t += 1;
                    assert(ints(next@) =~= l + ints(acc@).subrange(0, t as int));
                }
                assert(ints(acc@).subrange(0, t as int) =~= ints(acc@));
                proof {
                    let s = siblings(cs@, e as int, k - 1);
                    if s is Some {
                        let (o, e2) = s->Some_0;
                        assert(o + l + before =~= o + (l + before));
                    }
                }
                acc = next;
                j = e;
                k = k - 1;
            },
            None => {
                return None;
            },
        }
    }
    Some((acc, j))
}

/// The positions of a decoded listing in declaration order, given the number
/// of children of each listed element; `None` when the counts do not describe
/// exactly one tree.
pub fn declaration_order(cs: &Vec<usize>) -> (r: Option<Vec<usize>>)
    ensures
        match declared(cs@) {
            Some(o) => r matches Some(v) && ints(v@) == o,
            None => r is None,
        },
{
    match subtree_exec(cs, 0) {
        Some((v, e)) => {
            if e == cs.len() {
                Some(v)
            } else {
                None
            }
        },
        None => None,
    }
}

} // verus!
