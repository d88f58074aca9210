use vstd::prelude::*;
use vstd::string::*;
use crate::middleware::{onion, Middleware, Step};
use crate::path::{join_path, standardized};
use crate::pattern::{parses_to, Path, PathError};

verus! {

broadcast use vstd::std_specs::vec::axiom_vec_index_decreases;

/// A routable path bound to its own middleware chain.
#[derive(Debug)]
pub struct Endpoint<S> {
    pub path: Path,
    pub middleware: Middleware<S>,
}

/// A child of a router: a nested router or an endpoint.
#[derive(Debug)]
pub enum Node<S> {
    Router(Router<S>),
    Endpoint(Endpoint<S>),
}

/// A route tree: a root prefix, middleware for everything under it, and
/// children in registration order.
#[derive(Debug)]
pub struct Router<S> {
    pub root: String,
    pub middleware: Middleware<S>,
    pub nodes: Vec<Node<S>>,
}

/// Each endpoint's chain with `m` run before it.
pub open spec fn prefixed<S>(m: Seq<S>, es: Seq<(Path, Seq<S>)>) -> Seq<(Path, Seq<S>)> {
    es.map_values(|e: (Path, Seq<S>)| (e.0, m + e.1))
}

/// The endpoints under the first `k` children of `r`, depth first, each
/// with the middleware of the routers between `r` and it (not `r`'s own).
pub open spec fn collect<S>(r: Router<S>, k: int) -> Seq<(Path, Seq<S>)>
    decreases r, k,
{
    if k <= 0 || k > r.nodes@.len() {
        seq![]
    } else {
        let prev = collect(r, k - 1);
        match r.nodes@[k - 1] {
            Node::Endpoint(e) => prev.push((e.path, e.middleware.stages@)),
            Node::Router(sub) => prev + prefixed(
                sub.middleware.stages@,
                collect(sub, sub.nodes@.len() as int),
            ),
        }
    }
}

/// Every endpoint of the tree in registration order, depth first, with its
/// full chain: ancestors' middleware first, root-most outermost, then its
/// own.
pub open spec fn flat<S>(r: Router<S>) -> Seq<(Path, Seq<S>)> {
    prefixed(r.middleware.stages@, collect(r, r.nodes@.len() as int))
}

impl<S> Node<S> {
    fn unwrap_router(&mut self) -> (r: &mut Router<S>)
        requires
            *old(self) is Router,
        ensures
            *r == (*old(self))->Router_0,
            *final(self) == Node::Router(*final(r)),
    {
        match self {
            Node::Router(router) => router,
            Node::Endpoint(_) => unreached(),
        }
    }

    fn unwrap_endpoint(&mut self) -> (r: &mut Endpoint<S>)
        requires
            *old(self) is Endpoint,
        ensures
            *r == (*old(self))->Endpoint_0,
            *final(self) == Node::Endpoint(*final(r)),
    {
        match self {
            Node::Endpoint(endpoint) => endpoint,
            Node::Router(_) => unreached(),
        }
    }
}

impl<S: Copy> Endpoint<S> {
    /// Appends a stage to this endpoint's own chain.
    pub fn gate(&mut self, stage: S) -> (r: &mut Endpoint<S>)
        ensures
            r.path == old(self).path,
            r.middleware.stages@ == old(self).middleware.stages@.push(stage),
            *final(self) == *final(r),
    {
        self.middleware.join(stage);
        self
    }
}

impl<S: Copy> Router<S> {
    /// An empty router rooted at `path`.
    pub fn new(path: &str) -> (r: Router<S>)
        ensures
            r.root@ == path@,
            r.middleware.stages@ == Seq::<S>::empty(),
            r.nodes@ == Seq::<Node<S>>::empty(),
    {
        Router { root: String::from_str(path), middleware: Middleware::new(), nodes: Vec::new() }
    }

    /// Appends a stage to this router's chain; it runs around every endpoint
    /// under this router, registered before or after this call.
    pub fn gate(&mut self, stage: S) -> (r: &mut Router<S>)
        ensures
            r.root == old(self).root,
            r.nodes == old(self).nodes,
            r.middleware.stages@ == old(self).middleware.stages@.push(stage),
            *final(self) == *final(r),
    {
        self.middleware.join(stage);
        self
    }

    /// Registers an endpoint at `path` under this router's root. On a
    /// malformed pattern the router is left as it was.
    pub fn on(&mut self, path: &str) -> (r: Result<&mut Endpoint<S>, PathError>)
        ensures
            match r {
                Ok(ep) => {
                    &&& parses_to(standardized(old(self).root@ + seq!['/'] + path@), Ok(ep.path))
                    &&& ep.middleware.stages@ == Seq::<S>::empty()
                    &&& final(self).root == old(self).root
                    &&& final(self).middleware == old(self).middleware
                    &&& final(self).nodes@ == old(self).nodes@.push(Node::Endpoint(*final(ep)))
                },
                Err(e) => {
                    &&& parses_to(standardized(old(self).root@ + seq!['/'] + path@), Err(e))
                    &&& *final(self) == *old(self)
                },
            },
    {
        let full = join_path(self.root.as_str(), path);
        let parsed = Path::parse(full.as_str());
        match parsed {
            Err(e) => Err(e),
            Ok(p) => {
                let index = self.nodes.len();
                self.nodes.push(Node::Endpoint(Endpoint { path: p, middleware: Middleware::new() }));
                Ok(self.nodes[index].unwrap_endpoint())
            },
        }
    }

    /// Registers a nested router rooted at `path` under this router's root.
    pub fn route(&mut self, path: &str) -> (r: &mut Router<S>)
        ensures
            r.root@ == standardized(old(self).root@ + seq!['/'] + path@),
            r.middleware.stages@ == Seq::<S>::empty(),
            r.nodes@ == Seq::<Node<S>>::empty(),
            final(self).root == old(self).root,
            final(self).middleware == old(self).middleware,
            final(self).nodes@ == old(self).nodes@.push(Node::Router(*final(r))),
    {
        let root = join_path(self.root.as_str(), path);
        let router = Router { root, middleware: Middleware::new(), nodes: Vec::new() };
        let index = self.nodes.len();
        self.nodes.push(Node::Router(router));
        self.nodes[index].unwrap_router()
    }
}

/// What a list of endpoints says: each one's path and chain.
pub open spec fn endpoint_views<S>(v: Seq<Endpoint<S>>) -> Seq<(Path, Seq<S>)> {
    v.map_values(|e: Endpoint<S>| (e.path, e.middleware.stages@))
}

proof fn lemma_prefixed_push<S>(m: Seq<S>, es: Seq<(Path, Seq<S>)>, e: (Path, Seq<S>))
    ensures
        prefixed(m, es.push(e)) == prefixed(m, es).push((e.0, m + e.1)),
{
    assert(prefixed(m, es.push(e)) =~= prefixed(m, es).push((e.0, m + e.1)));
}

impl<S: Copy> Router<S> {
    /// Flattens the tree into its endpoints, depth first in registration
    /// order, each with its ancestors' middleware run before its own.
    pub(crate) fn endpoints(self) -> (r: Vec<Endpoint<S>>)
        ensures
            endpoint_views(r@) == flat(self),
        decreases self,
    {
        let ghost orig = self;
        let Router { root: _, middleware, nodes } = self;
        let mut nodes = nodes;
        let n = nodes.len();
        let mut out: Vec<Endpoint<S>> = Vec::new();
        let mut k: usize = 0;
        while k < n
            invariant
                orig == self,
                n == orig.nodes@.len(),
                k <= n,
                middleware == orig.middleware,
                nodes@ == orig.nodes@.subrange(k as int, n as int),
                endpoint_views(out@) == prefixed(middleware.stages@, collect(orig, k as int)),
            decreases n - k,
        {
            let node = nodes.remove(0);
            proof {
                assert(node == orig.nodes@[k as int]);
                assert(nodes@ =~= orig.nodes@.subrange(k + 1, n as int));
            }
            match node {
                Node::Endpoint(e) => {
                    let ghost before = out@;
                    let chain = Middleware::chain(&middleware, &e.middleware);
                    let ghost ev = (e.path, e.middleware.stages@);
                    out.push(Endpoint { path: e.path, middleware: chain });
                    proof {
                        assert(endpoint_views(out@) =~= endpoint_views(before).push(
                            (ev.0, middleware.stages@ + ev.1),
                        ));
                        lemma_prefixed_push(middleware.stages@, collect(orig, k as int), ev);
                    }
                },
                Node::Router(sub) => {
                    proof {
                        assert(decreases_to!(orig => orig.nodes));
                        assert(decreases_to!(orig.nodes => orig.nodes[k as int]));
                    }
                    let ghost sub_flat = flat(sub);
                    let mut rest = sub.endpoints();
                    let m = rest.len();
                    let ghost all = rest@;
                    let ghost base = out@;
                    let mut j: usize = 0;
                    while j < m
                        invariant
                            m == all.len(),
                            j <= m,
                            endpoint_views(all) == sub_flat,
                            rest@ == all.subrange(j as int, m as int),
                            endpoint_views(out@) == endpoint_views(base) + prefixed(
                                middleware.stages@,
                                sub_flat.take(j as int),
                            ),
                        decreases m - j,
                    {
                        let e = rest.remove(0);
                        proof {
                            assert(e == all[j as int]);
                            assert(rest@ =~= all.subrange(j + 1, m as int));
                            assert(sub_flat[j as int] == (e.path, e.middleware.stages@));
                            assert(sub_flat.take(j + 1) =~= sub_flat.take(j as int).push(
                                sub_flat[j as int],
                            ));
                            lemma_prefixed_push(
                                middleware.stages@,
                                sub_flat.take(j as int),
                                sub_flat[j as int],
                            );
                        }
                        let ghost before = out@;
                        let chain = Middleware::chain(&middleware, &e.middleware);
                        out.push(Endpoint { path: e.path, middleware: chain });
                        proof {
                            assert(endpoint_views(out@) =~= endpoint_views(before).push(
                                (sub_flat[j as int].0, middleware.stages@ + sub_flat[j as int].1),
                            ));
                        }
                        j = j + 1;
                    }
                    proof {
                        assert(sub_flat.take(m as int) =~= sub_flat);
                        let c = collect(orig, k as int);
                        assert(collect(orig, k + 1) == c + sub_flat);
                        assert(prefixed(middleware.stages@, c + sub_flat) =~= prefixed(
                            middleware.stages@,
                            c,
                        ) + prefixed(middleware.stages@, sub_flat));
                    }
                },
            }
            k = k + 1;
        }
        out
    }
}

/// With a router-level stage `a` around an endpoint-level stage `b`, the
/// endpoint's chain is `a` then `b`. When both call their continuations the
/// code runs as: `a` pre, `b` pre, leaf, `b` post, `a` post. When `a` does
/// not call its continuation, only `a`'s own code runs: neither `b` nor the
/// leaf.
pub proof fn lemma_router_stage_wraps_endpoint<S>(r: Router<S>, a: S, b: S, calls_b: bool)
    requires
        r.middleware.stages@ == seq![a],
        r.nodes@.len() == 1,
        r.nodes@[0] is Endpoint,
        r.nodes@[0]->Endpoint_0.middleware.stages@ == seq![b],
    ensures
        flat(r).len() == 1,
        flat(r)[0].1 == seq![a, b],
        onion(seq![true, true], 0) == seq![
            Step::Pre(0),
            Step::Pre(1),
            Step::Leaf,
            Step::Post(1),
            Step::Post(0),
        ],
        onion(seq![false, calls_b], 0) == seq![Step::Pre(0), Step::Post(0)],
{
    let e = r.nodes@[0]->Endpoint_0;
    assert(collect(r, 0) == Seq::<(Path, Seq<S>)>::empty());
    assert(collect(r, 1) =~= seq![(e.path, seq![b])]);
    assert(seq![a] + seq![b] =~= seq![a, b]);
    let full = seq![true, true];
    assert(onion(full, 2) == seq![Step::Leaf]);
    assert(onion(full, 1) =~= seq![Step::Pre(1), Step::Leaf, Step::Post(1)]);
    assert(onion(full, 0) =~= seq![
        Step::Pre(0),
        Step::Pre(1),
        Step::Leaf,
        Step::Post(1),
        Step::Post(0),
    ]);
}

} // verus!
