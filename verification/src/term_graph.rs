//! Equalities and inequalities between terms, and the contradictions among them.

use vstd::prelude::*;

use crate::literal::copy_path;
use crate::table::{Duplicate, Key};
use crate::term::{Term, TermV};
use crate::text::views;

verus! {

/// An equality or an inequality between two terms.
#[derive(Debug)]
pub struct Edge {
    pub left: Term,
    pub right: Term,
    /// The step that says so.
    pub pattern_id: usize,
    /// The step that made us look at this instance of the pattern. Where there is none, the
    /// pattern says so without putting anything for variables.
    pub inspiration_id: Option<usize>,
    /// Whether the terms are equal, or known to be different.
    pub equal: bool,
}

/// The model of an edge.
#[verifier::ext_equal]
pub struct EdgeV {
    pub left: TermV,
    pub right: TermV,
    pub pattern_id: usize,
    pub inspiration_id: Option<usize>,
    pub equal: bool,
}

impl View for Edge {
    type V = EdgeV;

    open spec fn view(&self) -> EdgeV {
        EdgeV {
            left: self.left@,
            right: self.right@,
            pattern_id: self.pattern_id,
            inspiration_id: self.inspiration_id,
            equal: self.equal,
        }
    }
}

impl Duplicate for Edge {
    fn duplicate(&self) -> (r: Self) {
        Edge {
            left: self.left.clone(),
            right: self.right.clone(),
            pattern_id: self.pattern_id,
            inspiration_id: self.inspiration_id,
            equal: self.equal,
        }
    }
}

/// The equalities and inequalities that are known.
#[derive(Debug)]
pub struct TermGraph {
    pub edges: Vec<Edge>,
}

impl View for TermGraph {
    type V = Seq<EdgeV>;

    open spec fn view(&self) -> Seq<EdgeV> {
        views(self.edges@)
    }
}

/// The other end of an equality, seen from a term.
pub open spec fn other_end(e: EdgeV, t: TermV) -> Option<TermV> {
    if !e.equal {
        None
    } else if e.left == t {
        Some(e.right)
    } else if e.right == t {
        Some(e.left)
    } else {
        None
    }
}

/// Where the first `n` equalities of a chain lead from a term, if they do.
pub open spec fn leads(edges: Seq<EdgeV>, chain: Seq<usize>, t: TermV, n: nat) -> Option<TermV>
    decreases n,
{
    if n == 0 || n > chain.len() {
        Some(t)
    } else {
        match leads(edges, chain, t, (n - 1) as nat) {
            None => None,
            Some(u) => if chain[n - 1] < edges.len() {
                other_end(edges[chain[n - 1] as int], u)
            } else {
                None
            },
        }
    }
}

/// Whether a set of terms has with one end of an equality the other end too.
pub open spec fn is_closed(edges: Seq<EdgeV>, s: Set<TermV>) -> bool {
    forall|i: int|
        0 <= i < edges.len() && (#[trigger] edges[i]).equal ==> (s.contains(edges[i].left)
            <==> s.contains(edges[i].right))
}

/// Whether the equalities leave two terms apart.
pub open spec fn apart(edges: Seq<EdgeV>, a: TermV, b: TermV) -> bool {
    exists|s: Set<TermV>| #[trigger] is_closed(edges, s) && s.contains(a) && !s.contains(b)
}

/// Terms that are connected by equalities are not apart.
pub proof fn law_connected_terms_are_not_apart(
    edges: Seq<EdgeV>,
    chain: Seq<usize>,
    a: TermV,
    b: TermV,
)
    requires
        leads(edges, chain, a, chain.len()) == Some(b),
    ensures
        !apart(edges, a, b),
{
    if apart(edges, a, b) {
        let s = choose|s: Set<TermV>| #[trigger]
            is_closed(edges, s) && s.contains(a) && !s.contains(b);
        lemma_closed_chain(edges, chain, a, chain.len(), s);
    }
}

proof fn lemma_closed_chain(
    edges: Seq<EdgeV>,
    chain: Seq<usize>,
    a: TermV,
    n: nat,
    s: Set<TermV>,
)
    requires
        n <= chain.len(),
        is_closed(edges, s),
        s.contains(a),
        leads(edges, chain, a, n) is Some,
    ensures
        s.contains(leads(edges, chain, a, n)->0),
    decreases n,
{
    if n > 0 {
        lemma_closed_chain(edges, chain, a, (n - 1) as nat, s);
        let e = edges[chain[n - 1] as int];
        assert(e.equal);
    }
}

/// An inequality, and equalities that lead from one of its sides to the other.
#[derive(Debug)]
pub struct TermGraphContradiction {
    /// The number of the inequality among the edges.
    pub inequality: usize,
    /// The numbers of the equalities.
    pub chain: Vec<usize>,
}

/// Whether this contradicts itself.
pub open spec fn contradicts(edges: Seq<EdgeV>, inequality: int, chain: Seq<usize>) -> bool {
    &&& 0 <= inequality < edges.len()
    &&& !edges[inequality].equal
    &&& leads(edges, chain, edges[inequality].left, chain.len()) == Some(
        edges[inequality].right,
    )
}

/// How many of the first `n` flags are not set.
spec fn unset(flags: Seq<bool>, n: nat) -> nat
    decreases n,
{
    if n == 0 || n > flags.len() {
        0
    } else {
        unset(flags, (n - 1) as nat) + if flags[n - 1] {
            0nat
        } else {
            1
        }
    }
}

proof fn lemma_unset(flags: Seq<bool>, k: int, n: nat)
    requires
        0 <= k < flags.len(),
        n <= flags.len(),
        !flags[k],
    ensures
        unset(flags.update(k, true), n) == unset(flags, n) - if k < n {
            1int
        } else {
            0
        },
    decreases n,
{
    if n > 0 {
        lemma_unset(flags, k, (n - 1) as nat);
    }
}

/// The terms that were reached, with a chain to each.
pub open spec fn reached_terms(r: Seq<(Term, Vec<usize>)>) -> Set<TermV> {
    Set::new(|t: TermV| exists|i: int| 0 <= i < r.len() && (#[trigger] r[i]).0@ == t)
}

fn find_reached(reached: &Vec<(Term, Vec<usize>)>, t: &Term) -> (r: Option<usize>)
    ensures
        match r {
            Some(i) => i < reached.len() && reached@[i as int].0@ == t@ && reached_terms(
                reached@,
            ).contains(t@),
            None => !reached_terms(reached@).contains(t@),
        },
{
    let mut i: usize = 0;
    while i < reached.len()
        invariant
            i <= reached.len(),
            forall|k: int| 0 <= k < i ==> (#[trigger] reached@[k]).0@ != t@,
        decreases reached.len() - i,
    {
        if reached[i].0.same(t) {
            return Some(i);
        }
        i = i + 1;
    }
    None
}

/// Whether each chain leads to the term it comes with.
spec fn chains_lead(edges: Seq<EdgeV>, r: Seq<(Term, Vec<usize>)>, start: TermV) -> bool {
    forall|i: int|
        0 <= i < r.len() ==> leads(edges, (#[trigger] r[i]).1@, start, r[i].1@.len()) == Some(
            r[i].0@,
        )
}

proof fn lemma_leads_push(edges: Seq<EdgeV>, chain: Seq<usize>, k: usize, t: TermV, n: nat)
    requires
        n <= chain.len(),
    ensures
        leads(edges, chain.push(k), t, n) == leads(edges, chain, t, n),
    decreases n,
{
    if n > 0 {
        lemma_leads_push(edges, chain, k, t, (n - 1) as nat);
    }
}

impl TermGraph {
    /// A graph without edges.
    pub fn new() -> (r: TermGraph)
        ensures
            r@ == Seq::<EdgeV>::empty(),
    {
        let r = TermGraph { edges: Vec::new() };
        assert(r@ =~= Seq::<EdgeV>::empty());
        r
    }

    /// Adds an equality.
    pub fn set_terms_equal(
        &mut self,
        left: Term,
        right: Term,
        pattern_id: usize,
        inspiration_id: Option<usize>,
    )
        ensures
            final(self)@ == old(self)@.push(
                EdgeV { left: left@, right: right@, pattern_id, inspiration_id, equal: true },
            ),
    {
        broadcast use crate::text::group_views;
        self.edges.push(Edge { left, right, pattern_id, inspiration_id, equal: true });
    }

    /// Adds an inequality.
    pub fn set_terms_not_equal(&mut self, left: Term, right: Term, pattern_id: usize)
        ensures
            final(self)@ == old(self)@.push(
                EdgeV { left: left@, right: right@, pattern_id, inspiration_id: None, equal: false },
            ),
    {
        broadcast use crate::text::group_views;
        self.edges.push(
            Edge { left, right, pattern_id, inspiration_id: None, equal: false },
        );
    }

    // Finds a chain of equalities from one term to another.
    fn find_chain(&self, a: &Term, b: &Term) -> (r: Option<Vec<usize>>)
        ensures
            match r {
                Some(chain) => leads(self@, chain@, a@, chain@.len()) == Some(b@),
                None => apart(self@, a@, b@),
            },
    {
        let ghost ev = self@;
        let n = self.edges.len();
        let mut used: Vec<bool> = Vec::new();
        let mut i: usize = 0;
        while i < n
            invariant
                i <= n,
                used.len() == i,
                forall|k: int| 0 <= k < i ==> !(#[trigger] used@[k]),
            decreases n - i,
        {
            used.push(false);
            i = i + 1;
        }
        let mut reached: Vec<(Term, Vec<usize>)> = Vec::new();
        reached.push((a.clone(), Vec::new()));
        assert(reached@[0].0@ == a@);
        loop
            invariant
                ev == views(self.edges@),
                self@ == ev,
                n == self.edges.len() == used.len(),
                reached_terms(reached@).contains(a@),
                chains_lead(ev, reached@, a@),
                forall|k: int|
                    0 <= k < n && #[trigger] used@[k] ==> reached_terms(reached@).contains(
                        ev[k].left,
                    ) && reached_terms(reached@).contains(ev[k].right),
            decreases unset(used@, n as nat),
        {
            // Look for an equality that leads somewhere new.
            let mut found: Option<(usize, usize, bool)> = None;
            let mut k: usize = 0;
            while k < n && found.is_none()
                invariant
                    ev == views(self.edges@),
                    k <= n,
                    n == self.edges.len() == used.len(),
                    forall|j: int|
                        0 <= j < n && #[trigger] used@[j] ==> reached_terms(reached@).contains(
                            ev[j].left,
                        ) && reached_terms(reached@).contains(ev[j].right),
                    match found {
                        Some((j, p, forwards)) => j < n && !used@[j as int] && ev[j as int].equal
                            && p < reached.len() && (if forwards {
                            reached@[p as int].0@ == ev[j as int].left && !reached_terms(
                                reached@,
                            ).contains(ev[j as int].right)
                        } else {
                            reached@[p as int].0@ == ev[j as int].right && !reached_terms(
                                reached@,
                            ).contains(ev[j as int].left)
                        }),
                        None => forall|j: int|
                            0 <= j < k && (#[trigger] ev[j]).equal ==> (reached_terms(
                                reached@,
                            ).contains(ev[j].left) <==> reached_terms(reached@).contains(
                                ev[j].right,
                            )),
                    },
                decreases n - k,
            {
                let e = &self.edges[k];
                assert(ev[k as int] == e@);
                if e.equal {
                    match (find_reached(&reached, &e.left), find_reached(&reached, &e.right)) {
                        (Some(p), None) => {
                            found = Some((k, p, true));
                        },
                        (None, Some(p)) => {
                            found = Some((k, p, false));
                        },
                        _ => {},
                    }
                }
                k = k + 1;
            }
            match found {
                None => {
                    assert(is_closed(ev, reached_terms(reached@)));
                    return match find_reached(&reached, b) {
                        Some(p) => Some(copy_path(&reached[p].1)),
                        None => None,
                    };
                },
                Some((j, p, forwards)) => {
                    let ghost before = reached@;
                    let mut chain = copy_path(&reached[p].1);
                    let ghost short = chain@;
                    chain.push(j);
                    let t = if forwards {
                        self.edges[j].right.clone()
                    } else {
                        self.edges[j].left.clone()
                    };
                    proof {
                        assert(ev[j as int] == self.edges@[j as int]@);
                        lemma_leads_push(ev, short, j, a@, short.len());
                        lemma_unset(used@, j as int, n as nat);
                    }
                    let ghost chain_view = chain@;
                    let ghost tv = t@;
                    reached.push((t, chain));
                    proof {
                        assert(leads(ev, chain_view, a@, chain_view.len()) == Some(tv));
                        assert forall|i: int| 0 <= i < reached@.len() implies leads(
                            ev,
                            (#[trigger] reached@[i]).1@,
                            a@,
                            reached@[i].1@.len(),
                        ) == Some(reached@[i].0@) by {
                            if i < before.len() {
                                assert(reached@[i] == before[i]);
                            }
                        }
                        assert forall|x: TermV| reached_terms(before).contains(
                            x,
                        ) implies #[trigger] reached_terms(reached@).contains(x) by {
                            let i = choose|i: int|
                                0 <= i < before.len() && (#[trigger] before[i]).0@ == x;
                            assert(reached@[i] == before[i]);
                        }
                        let last = before.len() as int;
                        assert(reached@[last].0@ == tv);
                        assert(reached_terms(reached@).contains(tv));
                        assert(before[p as int].0@ == reached@[p as int].0@);
                        assert(reached_terms(reached@).contains(reached@[p as int].0@));
                    }
                    used.set(j, true);
                },
            }
        }
    }

    /// Finds an inequality whose sides are equal after all.
    pub fn get_contradiction(&self) -> (r: Option<TermGraphContradiction>)
        ensures
            match r {
                Some(c) => contradicts(self@, c.inequality as int, c.chain@),
                None => forall|i: int|
                    0 <= i < self@.len() && !(#[trigger] self@[i]).equal ==> apart(
                        self@,
                        self@[i].left,
                        self@[i].right,
                    ),
            },
    {
        let mut i: usize = 0;
        while i < self.edges.len()
            invariant
                i <= self.edges.len(),
                forall|k: int|
                    0 <= k < i && !(#[trigger] self@[k]).equal ==> apart(
                        self@,
                        self@[k].left,
                        self@[k].right,
                    ),
            decreases self.edges.len() - i,
        {
            let e = &self.edges[i];
            assert(self@[i as int] == e@);
            if !e.equal {
                if let Some(chain) = self.find_chain(&e.left, &e.right) {
                    return Some(TermGraphContradiction { inequality: i, chain });
                }
            }
            i = i + 1;
        }
        None
    }
}

} // verus!
