//! The order in which the formula fields of a record are computed: each
//! formula after the formulas it refers to, found depth first from each
//! formula in turn, with a circular reference or a chain deeper than the
//! limit stopping the computation.
use vstd::prelude::*;
use crate::text::{str_eq, string_views};

verus! {

broadcast use vstd::string::group_string_axioms;

/// The deepest chain of formula references followed.
pub const MAX_FORMULA_DEPTH: usize = 64;

/// Index of the first formula named `n`.
pub open spec fn formula_index(names: Seq<Seq<char>>, n: Seq<char>, from: int) -> Option<int>
    decreases names.len() - from,
{
    if from < 0 || from >= names.len() {
        None
    } else if names[from] == n {
        Some(from)
    } else {
        formula_index(names, n, from + 1)
    }
}

/// The formulas that a formula with these dependencies refers to, in the
/// order of the dependencies; a dependency that names no formula is left
/// out (it is a stored value).
pub open spec fn formula_refs(names: Seq<Seq<char>>, deps: Seq<Seq<char>>) -> Seq<usize>
    decreases deps.len(),
{
    if deps.len() == 0 {
        Seq::empty()
    } else {
        let rest = formula_refs(names, deps.drop_last());
        match formula_index(names, deps.last(), 0) {
            Some(i) => rest.push(i as usize),
            None => rest,
        }
    }
}

proof fn lemma_formula_index_bound(names: Seq<Seq<char>>, n: Seq<char>, from: int)
    ensures
        formula_index(names, n, from) matches Some(i) ==> 0 <= from <= i < names.len() && names[i] == n,
    decreases names.len() - from,
{
    if 0 <= from < names.len() && names[from] != n {
        lemma_formula_index_bound(names, n, from + 1);
    }
}

fn find_formula(names: &Vec<String>, n: &str) -> (r: Option<usize>)
    ensures
        match r {
            Some(i) => formula_index(string_views(names@), n@, 0) == Some(i as int) && i < names@.len(),
            None => formula_index(string_views(names@), n@, 0) is None,
        },
{
    let mut i: usize = 0;
    while i < names.len()
        invariant
            i <= names.len(),
            formula_index(string_views(names@), n@, 0) == formula_index(string_views(names@), n@, i as int),
        decreases names.len() - i,
    {
        if str_eq(names[i].as_str(), n) {
            return Some(i);
        }
        i += 1;
    }
    None
}

/// The references among formulas: entry `i` lists the formulas that
/// formula `i` (named `names[i]`, with dependencies `deps[i]`) refers to.
pub fn formula_edges(names: &Vec<String>, deps: &Vec<Vec<String>>) -> (r: Vec<Vec<usize>>)
    requires
        deps.len() == names.len(),
    ensures
        r@.len() == names@.len(),
        forall|i: int|
            0 <= i < r@.len() ==> (#[trigger] r@[i])@ == formula_refs(string_views(names@), string_views(deps@[i]@)),
        edges_ok(r@),
{
    let ghost ns = string_views(names@);
    let mut out: Vec<Vec<usize>> = Vec::new();
    let mut i: usize = 0;
    while i < deps.len()
        invariant
            i <= deps.len(),
            deps.len() == names.len(),
            ns == string_views(names@),
            out@.len() == i,
            forall|x: int| 0 <= x < i ==> (#[trigger] out@[x])@ == formula_refs(ns, string_views(deps@[x]@)),
            forall|x: int, y: int|
                0 <= x < i && 0 <= y < out@[x]@.len() ==> (#[trigger] out@[x]@[y]) < names@.len(),
        decreases deps.len() - i,
    {
        let d = &deps[i];
        let mut refs: Vec<usize> = Vec::new();
        let mut j: usize = 0;
        while j < d.len()
            invariant
                j <= d.len(),
                ns == string_views(names@),
                refs@ == formula_refs(ns, string_views(d@.take(j as int))),
                forall|y: int| 0 <= y < refs@.len() ==> #[trigger] refs@[y] < names@.len(),
            decreases d.len() - j,
        {
            assert(string_views(d@.take(j + 1)).drop_last() =~= string_views(d@.take(j as int)));
            assert(string_views(d@.take(j + 1)).last() == d@[j as int]@);
            match find_formula(names, d[j].as_str()) {
                Some(k) => {
                    refs.push(k);
                },
                None => {},
            }
            j += 1;
        }
        assert(d@.take(d.len() as int) =~= d@);
        out.push(refs);
        i += 1;
    }
    out
}

/// Every reference names a formula.
pub open spec fn edges_ok(edges: Seq<Vec<usize>>) -> bool {
    forall|i: int, y: int| 0 <= i < edges.len() && 0 <= y < edges[i]@.len() ==> (#[trigger] edges[i]@[y]) < edges.len()
}

/// Formula `a` refers to formula `b`.
pub open spec fn refers(edges: Seq<Vec<usize>>, a: int, b: int) -> bool {
    0 <= a < edges.len() && 0 <= b && edges[a]@.contains(b as usize)
}

/// Each formula of `p` refers to the next one.
pub open spec fn is_chain(edges: Seq<Vec<usize>>, p: Seq<int>) -> bool {
    forall|k: int| 0 <= k < p.len() - 1 ==> #[trigger] refers(edges, p[k], p[k + 1])
}

/// Formula `c` refers back to itself through a chain of references.
pub open spec fn on_cycle(edges: Seq<Vec<usize>>, c: int) -> bool {
    exists|p: Seq<int>| p.len() >= 2 && p[0] == c && p.last() == c && #[trigger] is_chain(edges, p)
}

/// Why the computation of formulas stops.
pub enum Stop {
    /// The formula refers back to itself.
    Cycle(usize),
    /// A chain of references is deeper than `MAX_FORMULA_DEPTH`.
    TooDeep,
}

/// Formulas in the order they are computed, and why the computation
/// stopped, if it did, after them.
pub struct Resolution {
    pub order: Vec<usize>,
    pub stop: Option<Stop>,
}

/// Each formula computed is computed after those it refers to, and only
/// once.
pub open spec fn order_ok(edges: Seq<Vec<usize>>, order: Seq<usize>) -> bool {
    &&& forall|p: int| 0 <= p < order.len() ==> (#[trigger] order[p]) < edges.len()
    &&& forall|p: int, q: int| 0 <= p < q < order.len() ==> (#[trigger] order[p]) != (#[trigger] order[q])
    &&& refs_first(edges, order)
}

/// Formula `e` is among the first `p` of `order`.
pub open spec fn occurs_before(order: Seq<usize>, e: usize, p: int) -> bool {
    exists|q: int| 0 <= q < p && #[trigger] order[q] == e
}

/// Each formula in `order` comes after every formula it refers to.
pub open spec fn refs_first(edges: Seq<Vec<usize>>, order: Seq<usize>) -> bool {
    forall|p: int, y: int|
        0 <= p < order.len() && 0 <= y < edges[order[p] as int]@.len() ==> #[trigger] occurs_before(
            order,
            edges[order[p] as int]@[y],
            p,
        )
}

/// What the computation of one formula found: it stops at a formula that
/// refers back to itself, or at a chain of more than the limit.
pub open spec fn stop_ok(edges: Seq<Vec<usize>>, s: Stop) -> bool {
    match s {
        Stop::Cycle(c) => c < edges.len() && on_cycle(edges, c as int),
        Stop::TooDeep => exists|p: Seq<int>|
            p.len() == MAX_FORMULA_DEPTH + 2 && #[trigger] is_chain(edges, p),
    }
}

/// The state of the search: `stack` holds the formulas being computed, each
/// referring to the next; they are marked in `visiting` and not done; the
/// done ones are exactly those in `order`.
pub open spec fn search_ok(
    edges: Seq<Vec<usize>>,
    done: Seq<bool>,
    visiting: Seq<bool>,
    order: Seq<usize>,
    stack: Seq<int>,
) -> bool {
    &&& edges_ok(edges)
    &&& done.len() == edges.len()
    &&& visiting.len() == edges.len()
    &&& order_ok(edges, order)
    &&& forall|i: int| 0 <= i < edges.len() ==> (#[trigger] done[i] <==> order.contains(i as usize))
    &&& forall|i: int| 0 <= i < edges.len() ==> (#[trigger] visiting[i] <==> stack.contains(i))
    &&& forall|k: int| 0 <= k < stack.len() ==> 0 <= #[trigger] stack[k] < edges.len() && !done[stack[k]]
    &&& is_chain(edges, stack)
}

proof fn lemma_chain_suffix_push(edges: Seq<Vec<usize>>, stack: Seq<int>, k: int, i: int)
    requires
        is_chain(edges, stack),
        0 <= k < stack.len(),
        refers(edges, stack.last(), i),
    ensures
        is_chain(edges, stack.subrange(k, stack.len() as int).push(i)),
{
    let p = stack.subrange(k, stack.len() as int).push(i);
    assert forall|j: int| 0 <= j < p.len() - 1 implies #[trigger] refers(edges, p[j], p[j + 1]) by {
        if j + 1 < p.len() - 1 {
            assert(p[j] == stack[k + j] && p[j + 1] == stack[k + j + 1]);
            assert(refers(edges, stack[k + j], stack[k + j + 1]));
        } else {
            assert(p[j] == stack.last());
        }
    }
}

proof fn lemma_refs_first_push(edges: Seq<Vec<usize>>, before: Seq<usize>, i: usize)
    requires
        refs_first(edges, before),
        forall|p: int| 0 <= p < before.len() ==> (#[trigger] before[p]) < edges.len(),
        0 <= i < edges.len(),
        forall|z: int| 0 <= z < edges[i as int]@.len() ==> before.contains(#[trigger] edges[i as int]@[z]),
    ensures
        refs_first(edges, before.push(i)),
{
    let after = before.push(i);
    assert forall|p: int, y: int|
        0 <= p < after.len() && 0 <= y < edges[after[p] as int]@.len() implies #[trigger] occurs_before(
            after,
            edges[after[p] as int]@[y],
            p,
        ) by {
        if p < before.len() {
            assert(after[p] == before[p]);
            let e = edges[before[p] as int]@[y];
            assert(occurs_before(before, e, p));
            let q = choose|q: int| 0 <= q < p && #[trigger] before[q] == e;
            assert(after[q] == before[q]);
        } else {
            let e = edges[i as int]@[y];
            assert(before.contains(e));
            let q = choose|q: int| 0 <= q < before.len() && before[q] == e;
            assert(after[q] == e);
        }
    }
}

/// Computes formula `i` after what it refers to (the search of `resolve`).
fn visit(
    edges: &Vec<Vec<usize>>,
    i: usize,
    depth: usize,
    done: &mut Vec<bool>,
    visiting: &mut Vec<bool>,
    order: &mut Vec<usize>,
    Ghost(stack): Ghost<Seq<int>>,
) -> (r: Result<(), Stop>)
    requires
        i < edges.len(),
        depth == stack.len(),
        depth <= MAX_FORMULA_DEPTH + 1,
        search_ok(edges@, old(done)@, old(visiting)@, old(order)@, stack),
        stack.len() > 0 ==> refers(edges@, stack.last(), i as int),
    ensures
        order_ok(edges@, final(order)@),
        r is Ok ==> search_ok(edges@, final(done)@, final(visiting)@, final(order)@, stack),
        r is Ok ==> old(order)@.is_prefix_of(final(order)@),
        r is Ok ==> forall|j: int|
            0 <= j < edges.len() && old(visiting)@[j] ==> !(#[trigger] final(done)@[j]),
        r is Ok ==> final(done)@[i as int],
        r matches Err(s) ==> stop_ok(edges@, s),
    decreases MAX_FORMULA_DEPTH + 1 - depth,
{
    if depth > MAX_FORMULA_DEPTH {
        proof {
            let p = stack.push(i as int);
            lemma_chain_suffix_push(edges@, stack, 0, i as int);
            assert(stack.subrange(0, stack.len() as int) =~= stack);
            assert(is_chain(edges@, p));
        }
        return Err(Stop::TooDeep);
    }
    if done[i] {
        return Ok(());
    }
    if visiting[i] {
        proof {
            assert(stack.contains(i as int));
            let k = choose|k: int| 0 <= k < stack.len() && stack[k] == i as int;
            let p = stack.subrange(k, stack.len() as int).push(i as int);
            lemma_chain_suffix_push(edges@, stack, k, i as int);
            assert(p[0] == i as int);
            assert(is_chain(edges@, p));
        }
        return Err(Stop::Cycle(i));
    }
    let ghost inner = stack.push(i as int);
    visiting.set(i, true);
    proof {
        assert forall|k: int| 0 <= k < inner.len() - 1 implies #[trigger] refers(edges@, inner[k], inner[k + 1]) by {
            if k + 1 < stack.len() {
                assert(inner[k] == stack[k] && inner[k + 1] == stack[k + 1]);
                assert(refers(edges@, stack[k], stack[k + 1]));
            }
        }
        assert forall|x: int| 0 <= x < edges.len() implies (#[trigger] visiting@[x] <==> inner.contains(x)) by {
            if x == i as int {
                assert(inner[inner.len() - 1] == x);
            } else {
                if stack.contains(x) {
                    let k = choose|k: int| 0 <= k < stack.len() && stack[k] == x;
                    assert(inner[k] == x);
                }
                if inner.contains(x) {
                    let k = choose|k: int| 0 <= k < inner.len() && inner[k] == x;
                    assert(stack[k] == x);
                }
            }
        }
        assert(!order@.contains(i as usize));
    }
    let ghost start_visiting = visiting@;
    proof {
        assert forall|x: int| 0 <= x < edges.len() implies (#[trigger] old(visiting)@[x] <==> stack.contains(x)) by {
        }
    }
    let mut y: usize = 0;
    while y < edges[i].len()
        invariant
            i < edges.len(),
            depth == stack.len(),
            depth <= MAX_FORMULA_DEPTH,
            inner == stack.push(i as int),
            search_ok(edges@, done@, visiting@, order@, inner),
            old(order)@.is_prefix_of(order@),
            forall|j: int| 0 <= j < edges.len() && old(visiting)@[j] ==> !(#[trigger] done@[j]),
            forall|j: int| 0 <= j < edges.len() && start_visiting[j] ==> !(#[trigger] done@[j]),
            start_visiting.len() == edges.len(),
            old(visiting)@.len() == edges.len(),
            forall|x: int| 0 <= x < edges.len() ==> (#[trigger] start_visiting[x] <==> inner.contains(x)),
            forall|x: int| 0 <= x < edges.len() ==> (#[trigger] old(visiting)@[x] <==> stack.contains(x)),
            start_visiting[i as int],
            y <= edges[i as int]@.len(),
            forall|z: int| 0 <= z < y ==> #[trigger] done@[edges[i as int]@[z] as int],
        decreases edges[i as int]@.len() - y,
    {
        let d = edges[i][y];
        proof {
            assert(refers(edges@, inner.last(), d as int));
        }
        let ghost before_done = done@;
        let ghost before_order = order@;
        let ghost before_vis = visiting@;
        match visit(edges, d, depth + 1, done, visiting, order, Ghost(inner)) {
            Ok(()) => {},
            Err(s) => {
                return Err(s);
            },
        }
        proof {
            assert forall|z: int| 0 <= z < y + 1 implies #[trigger] done@[edges[i as int]@[z] as int] by {
                if z < y {
                    let e = edges[i as int]@[z] as int;
                    assert(before_done[e]);
                    assert(before_order.contains(e as usize));
                    let q = choose|q: int| 0 <= q < before_order.len() && before_order[q] == e as usize;
                    assert(order@[q] == e as usize);
                    assert(order@.contains(e as usize));
                }
            }
            assert(before_order.is_prefix_of(order@));
            assert forall|j: int| 0 <= j < edges.len() && start_visiting[j] implies !(#[trigger] done@[j]) by {
                assert(inner.contains(j));
                assert(before_vis[j]);
            }
            assert forall|j: int| 0 <= j < edges.len() && old(visiting)@[j] implies !(#[trigger] done@[j]) by {
                assert(stack.contains(j));
                let k = choose|k: int| 0 <= k < stack.len() && stack[k] == j;
                assert(inner[k] == j);
                assert(inner.contains(j));
                assert(before_vis[j]);
            }
        }
        y += 1;
    }
    let ghost before_push = order@;
    order.push(i);
    done.set(i, true);
    visiting.set(i, false);
    proof {
        let n = before_push.len();
        assert(order@[n as int] == i);
        assert forall|p: int| 0 <= p < order@.len() implies (#[trigger] order@[p]) < edges@.len() by {
            if p < n {
                assert(order@[p] == before_push[p]);
            }
        }
        assert forall|p: int, q: int| 0 <= p < q < order@.len() implies (#[trigger] order@[p]) != (#[trigger] order@[q]) by {
            if q == n {
                assert(order@[p] == before_push[p]);
            } else {
                assert(order@[p] == before_push[p] && order@[q] == before_push[q]);
            }
        }
        assert forall|z: int| 0 <= z < edges@[i as int]@.len() implies before_push.contains(
            #[trigger] edges@[i as int]@[z],
        ) by {
            let e = edges@[i as int]@[z];
            assert(done@[e as int] || e == i);
            if e == i {
                assert(false);
            }
        }
        lemma_refs_first_push(edges@, before_push, i);
        assert(order@ == before_push.push(i));
        assert forall|x: int| 0 <= x < edges.len() implies (#[trigger] done@[x] <==> order@.contains(x as usize)) by {
            if x != i as int {
                if order@.contains(x as usize) {
                    let q = choose|q: int| 0 <= q < order@.len() && order@[q] == x as usize;
                    assert(q < n);
                    assert(before_push[q] == x as usize);
                }
                if before_push.contains(x as usize) {
                    let q = choose|q: int| 0 <= q < before_push.len() && before_push[q] == x as usize;
                    assert(order@[q] == x as usize);
                }
            }
        }
        assert forall|x: int| 0 <= x < edges.len() implies (#[trigger] visiting@[x] <==> stack.contains(x)) by {
            if x != i as int {
                if stack.contains(x) {
                    let k = choose|k: int| 0 <= k < stack.len() && stack[k] == x;
                    assert(inner[k] == x);
                }
                if inner.contains(x) {
                    let k = choose|k: int| 0 <= k < inner.len() && inner[k] == x;
                    assert(k < stack.len());
                    assert(stack[k] == x);
                }
            } else {
                if stack.contains(x) {
                    let k = choose|k: int| 0 <= k < stack.len() && stack[k] == x;
                    assert(inner[k] == x);
                }
            }
        }
        assert forall|k: int| 0 <= k < stack.len() implies 0 <= #[trigger] stack[k] < edges.len() && !done@[stack[k]] by {
            assert(inner[k] == stack[k]);
            if stack[k] == i as int {
                assert(inner[k] == i as int);
            }
        }
        assert forall|k: int| 0 <= k < stack.len() - 1 implies #[trigger] refers(edges@, stack[k], stack[k + 1]) by {
            assert(inner[k] == stack[k] && inner[k + 1] == stack[k + 1]);
            assert(refers(edges@, inner[k], inner[k + 1]));
        }
        assert(old(order)@.is_prefix_of(order@));
        assert(order_ok(edges@, order@));
    }
    Ok(())
}

/// The order in which formulas are computed: from each formula in turn,
/// the formulas it refers to first (depth first, in the order of the
/// references), each formula once. The computation stops at a formula that
/// refers back to itself or at a chain of references deeper than
/// `MAX_FORMULA_DEPTH`; the order then holds the formulas computed before.
pub fn resolution_order(edges: &Vec<Vec<usize>>) -> (r: Resolution)
    requires
        edges_ok(edges@),
    ensures
        order_ok(edges@, r.order@),
        r.stop is None ==> forall|i: int| 0 <= i < edges@.len() ==> #[trigger] r.order@.contains(i as usize),
        r.stop matches Some(s) ==> stop_ok(edges@, s),
{
    let n = edges.len();
    let mut done: Vec<bool> = Vec::new();
    let mut visiting: Vec<bool> = Vec::new();
    let mut k: usize = 0;
    while k < n
        invariant
            k <= n,
            n == edges.len(),
            done@.len() == k,
            visiting@.len() == k,
            forall|x: int| 0 <= x < k ==> !(#[trigger] done@[x]) && !visiting@[x],
        decreases n - k,
    {
        done.push(false);
        visiting.push(false);
        k += 1;
    }
    let mut order: Vec<usize> = Vec::new();
    proof {
        assert forall|x: int| 0 <= x < edges.len() implies (#[trigger] done@[x] <==> order@.contains(x as usize)) by {
        }
        assert forall|x: int| 0 <= x < edges.len() implies (#[trigger] visiting@[x] <==> Seq::<int>::empty().contains(x)) by {
            assert(!done@[x]);
            assert(!visiting@[x]);
            assert(!Seq::<int>::empty().contains(x));
        }
    }
    let mut i: usize = 0;
    while i < n
        invariant
            i <= n,
            n == edges.len(),
            search_ok(edges@, done@, visiting@, order@, Seq::empty()),
            forall|x: int| 0 <= x < i ==> #[trigger] done@[x],
        decreases n - i,
    {
        let ghost before = done@;
        let ghost before_order = order@;
        match visit(edges, i, 0, &mut done, &mut visiting, &mut order, Ghost(Seq::empty())) {
            Ok(()) => {},
            Err(s) => {
                return Resolution { order, stop: Some(s) };
            },
        }
        proof {
            assert forall|x: int| 0 <= x < i + 1 implies #[trigger] done@[x] by {
                if x < i {
                    assert(before[x]);
                    assert(before_order.contains(x as usize));
                    let q = choose|q: int| 0 <= q < before_order.len() && before_order[q] == x as usize;
                    assert(order@[q] == x as usize);
                }
            }
        }
        i += 1;
    }
    proof {
        assert forall|x: int| 0 <= x < edges@.len() implies #[trigger] order@.contains(x as usize) by {
            assert(done@[x]);
        }
    }
    Resolution { order, stop: None }
}

} // verus!
