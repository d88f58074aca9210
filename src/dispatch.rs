use vstd::prelude::*;
use vstd::string::*;
use radix_trie::Trie;
use crate::decode::{decode_percent, percent_decoded};
use crate::middleware::Middleware;
use crate::path::{path_segments, segments, standardize_path, standardized};
use crate::pattern::{captured, pair_views, pattern_matches, DynamicPath, Path};
use crate::router::{endpoint_views, flat, Endpoint, Router};
use crate::status::{Status, BAD_REQUEST, NOT_FOUND};
use crate::table::{trie_entries, trie_get, trie_insert, trie_new};
use crate::vars::{Namespace, Variables};

verus! {

/// Two endpoints claim the same static path; holds that path.
#[derive(Debug, Clone)]
pub enum Conflict {
    Path(String),
}

/// The static table after the first `k` endpoints: each static path mapped
/// to the index of the last endpoint that claimed it.
pub open spec fn static_map_of<S>(fl: Seq<(Path, Seq<S>)>, k: int) -> Map<Seq<char>, usize>
    decreases k,
{
    if k <= 0 {
        Map::empty()
    } else {
        let prev = static_map_of(fl, k - 1);
        match fl[k - 1].0 {
            Path::Static(p) => prev.insert(p@, (k - 1) as usize),
            Path::Dynamic(_) => prev,
        }
    }
}

/// The dynamic patterns among the first `k` endpoints, in order, with their
/// indices.
pub open spec fn dynamic_of<S>(fl: Seq<(Path, Seq<S>)>, k: int) -> Seq<(DynamicPath, usize)>
    decreases k,
{
    if k <= 0 {
        seq![]
    } else {
        let prev = dynamic_of(fl, k - 1);
        match fl[k - 1].0 {
            Path::Dynamic(d) => prev.push((d, (k - 1) as usize)),
            Path::Static(_) => prev,
        }
    }
}

/// Endpoint `k` claims a static path that an earlier endpoint claimed.
pub open spec fn conflict_at<S>(fl: Seq<(Path, Seq<S>)>, k: int) -> bool {
    match fl[k].0 {
        Path::Static(p) => static_map_of(fl, k).contains_key(p@),
        Path::Dynamic(_) => false,
    }
}

/// The compiled route table: exact static paths, then dynamic patterns in
/// registration order, each bound to an endpoint's chain.
#[derive(Debug)]
pub struct Dispatcher<S> {
    static_route: Trie<String, usize>,
    dynamic_route: Vec<(DynamicPath, usize)>,
    chains: Vec<Middleware<S>>,
}

impl<S> Dispatcher<S> {
    /// Static path to endpoint index.
    pub closed spec fn static_map(&self) -> Map<Seq<char>, usize> {
        trie_entries(self.static_route)
    }

    /// Dynamic patterns with endpoint indices, in the order they are tried.
    pub closed spec fn dynamic_list(&self) -> Seq<(DynamicPath, usize)> {
        self.dynamic_route@
    }

    /// Each endpoint's full chain.
    pub closed spec fn chains(&self) -> Seq<Seq<S>> {
        self.chains@.map_values(|m: Middleware<S>| m.stages@)
    }
}

/// What compiling the endpoints `fl` gives: the first endpoint that claims
/// an already claimed static path is reported; otherwise the table.
pub open spec fn compiles_to<S>(fl: Seq<(Path, Seq<S>)>, r: Result<Dispatcher<S>, Conflict>) -> bool {
    match r {
        Err(Conflict::Path(p)) => exists|k: int|
            0 <= k < fl.len() && #[trigger] conflict_at(fl, k) && (forall|j: int|
                0 <= j < k ==> !#[trigger] conflict_at(fl, j)) && (fl[k].0 matches Path::Static(q)
                && q@ == p@),
        Ok(d) => {
            &&& forall|k: int| 0 <= k < fl.len() ==> !#[trigger] conflict_at(fl, k)
            &&& d.static_map() == static_map_of(fl, fl.len() as int)
            &&& d.dynamic_list() == dynamic_of(fl, fl.len() as int)
            &&& d.chains() == fl.map_values(|e: (Path, Seq<S>)| e.1)
        },
    }
}

/// The first dynamic pattern from position `j` on that accepts `ws`.
pub open spec fn first_match(dl: Seq<(DynamicPath, usize)>, ws: Seq<Seq<char>>, j: int) -> Option<
    int,
>
    decreases dl.len() - j,
{
    if j < 0 || j >= dl.len() {
        None
    } else if pattern_matches(dl[j].0.segments@, ws) {
        Some(j)
    } else {
        first_match(dl, ws, j + 1)
    }
}

/// Where a decoded request path `t` goes: the static entry for its standard
/// form if there is one (no captures), else the first dynamic pattern that
/// accepts its segments (with what it captured), else nowhere.
pub open spec fn resolves(
    sm: Map<Seq<char>, usize>,
    dl: Seq<(DynamicPath, usize)>,
    t: Seq<char>,
) -> Option<(usize, Seq<(Seq<char>, Seq<char>)>)> {
    if sm.contains_key(standardized(t)) {
        Some((sm[standardized(t)], Seq::empty()))
    } else if first_match(dl, segments(t), 0) is Some {
        let j = first_match(dl, segments(t), 0)->Some_0;
        Some((dl[j].1, captured(dl[j].0.segments@, segments(t))))
    } else {
        None
    }
}

/// `m` with every capture published under the router namespace, in order.
pub open spec fn with_captures(
    m: Map<(Namespace, Seq<char>), Seq<char>>,
    caps: Seq<(Seq<char>, Seq<char>)>,
) -> Map<(Namespace, Seq<char>), Seq<char>>
    decreases caps.len(),
{
    if caps.len() == 0 {
        m
    } else {
        with_captures(m, caps.drop_last()).insert((Namespace::Router, caps.last().0), caps.last().1)
    }
}

/// The message of the failure for a path that does not decode.
pub open spec fn bad_path_message(raw: Seq<char>) -> Seq<char> {
    "path `"@ + raw + "` is not a valid utf-8 string"@
}

impl<S> Dispatcher<S> {
    /// The chain of endpoint `i`.
    pub fn chain(&self, i: usize) -> (r: &Middleware<S>)
        requires
            i < self.chains().len(),
        ensures
            r.stages@ == self.chains()[i as int],
    {
        &self.chains[i]
    }

    /// How many endpoints the table holds.
    pub fn endpoint_count(&self) -> (r: usize)
        ensures
            r == self.chains().len(),
    {
        self.chains.len()
    }

    /// Resolves a decoded request path to an endpoint index and the
    /// captures to publish.
    pub fn resolve(&self, path: &str) -> (r: Option<(usize, Vec<(String, String)>)>)
        ensures
            match r {
                Some(found) => resolves(self.static_map(), self.dynamic_list(), path@) == Some(
                    (found.0, pair_views(found.1@)),
                ),
                None => resolves(self.static_map(), self.dynamic_list(), path@) is None,
            },
    {
        let key = standardize_path(path);
        match trie_get(&self.static_route, key.as_str()) {
            Some(i) => {
                let caps: Vec<(String, String)> = Vec::new();
                proof {
                    assert(pair_views(caps@) =~= seq![]);
                }
                return Some((i, caps));
            },
            None => {},
        }
        let ws = path_segments(path);
        let ghost dl = self.dynamic_route@;
        let ghost wv = segments(path@);
        let mut j: usize = 0;
        while j < self.dynamic_route.len()
            invariant
                dl == self.dynamic_route@,
                j <= dl.len(),
                first_match(dl, wv, 0) == first_match(dl, wv, j as int),
                crate::path::string_views(ws@) == wv,
                wv == segments(path@),
                !trie_entries(self.static_route).contains_key(standardized(path@)),
            decreases dl.len() - j,
        {
            let entry = &self.dynamic_route[j];
            match entry.0.captures(&ws) {
                Some(caps) => {
                    proof {
                        assert(dl[j as int] == *entry);
                        assert(first_match(dl, wv, j as int) == Some(j as int));
                        assert(self.static_map() == trie_entries(self.static_route));
                    }
                    return Some((entry.1, caps));
                },
                None => {},
            }
            j = j + 1;
        }
        None
    }

    /// Routes a raw request path: percent-decodes it, resolves it, and
    /// publishes the captures into `vars` under the router namespace. The
    /// result is the index of the endpoint whose chain runs next.
    pub fn dispatch(&self, raw_path: &str, vars: &mut Variables) -> (r: Result<usize, Status>)
        ensures
            match percent_decoded(raw_path@) {
                None => {
                    &&& r matches Err(s) && s.wf() && s.status_code == BAD_REQUEST && s.expose
                        && s.data@ == bad_path_message(raw_path@)
                    &&& final(vars)@ == old(vars)@
                },
                Some(t) => match resolves(self.static_map(), self.dynamic_list(), t) {
                    None => {
                        &&& r matches Err(s) && s.wf() && s.status_code == NOT_FOUND && !s.expose
                            && s.data@.len() == 0
                        &&& final(vars)@ == old(vars)@
                    },
                    Some(found) => {
                        &&& r matches Ok(i) && i == found.0
                        &&& final(vars)@ == with_captures(old(vars)@, found.1)
                    },
                },
            },
    {
        let decoded = decode_percent(raw_path);
        let text = match decoded {
            None => {
                let mut msg = String::from_str("path `");
                msg.append(raw_path);
                msg.append("` is not a valid utf-8 string");
                proof {
                    reveal_strlit("path `");
                    reveal_strlit("` is not a valid utf-8 string");
                }
                return Err(Status::new(BAD_REQUEST, msg, true));
            },
            Some(t) => t,
        };
        match self.resolve(text.as_str()) {
            None => Err(Status::new(NOT_FOUND, String::new(), false)),
            Some(found) => {
                let (i, caps) = found;
                let ghost cv = pair_views(caps@);
                let ghost start = vars@;
                let n = caps.len();
                let mut rest = caps;
                let mut k: usize = 0;
                while k < n
                    invariant
                        k <= n,
                        n == cv.len(),
                        rest@.len() == n - k,
                        pair_views(rest@) == cv.subrange(k as int, n as int),
                        vars@ == with_captures(start, cv.take(k as int)),
                    decreases n - k,
                {
                    let ghost r0 = rest@;
                    let (name, value) = rest.remove(0);
                    proof {
                        assert(pair_views(r0)[0] == cv[k as int]);
                        assert(cv[k as int] == (name@, value@));
                        assert(rest@ =~= r0.subrange(1, r0.len() as int));
                        assert forall|x: int| 0 <= x < rest@.len() implies pair_views(rest@)[x]
                            == cv.subrange(k + 1, n as int)[x] by {
                            assert(rest@[x] == r0[x + 1]);
                            assert(pair_views(r0)[x + 1] == cv[k + 1 + x]);
                        }
                        assert(pair_views(rest@) =~= cv.subrange(k + 1, n as int));
                        assert(cv.take(k + 1).drop_last() =~= cv.take(k as int));
                    }
                    vars.store(Namespace::Router, name, value);
                    k = k + 1;
                }
                proof {
                    assert(cv.take(n as int) =~= cv);
                }
                Ok(i)
            },
        }
    }
}

impl<S: Copy> Router<S> {
    /// Compiles the tree into its route table, consuming it. Fails on the
    /// first endpoint whose static path an earlier endpoint already claims.
    pub fn handler(self) -> (r: Result<Dispatcher<S>, Conflict>)
        ensures
            compiles_to(flat(self), r),
    {
        let ghost fl = flat(self);
        let mut eps = self.endpoints();
        let ghost all = eps@;
        let n = eps.len();
        let mut static_route = trie_new();
        let mut dynamic_route: Vec<(DynamicPath, usize)> = Vec::new();
        let mut chains: Vec<Middleware<S>> = Vec::new();
        proof {
            assert(trie_entries(static_route) =~= static_map_of(fl, 0));
            assert(chains@.map_values(|m: Middleware<S>| m.stages@) =~= fl.take(0).map_values(
                |e: (Path, Seq<S>)| e.1,
            ));
        }
        let mut k: usize = 0;
        while k < n
            invariant
                fl == flat(self),
                endpoint_views(all) == fl,
                n == all.len(),
                k <= n,
                eps@ == all.subrange(k as int, n as int),
                trie_entries(static_route) == static_map_of(fl, k as int),
                dynamic_route@ == dynamic_of(fl, k as int),
                chains@.map_values(|m: Middleware<S>| m.stages@) == fl.take(k as int).map_values(
                    |e: (Path, Seq<S>)| e.1,
                ),
                forall|j: int| 0 <= j < k ==> !#[trigger] conflict_at(fl, j),
            decreases n - k,
        {
            let ep = eps.remove(0);
            proof {
                assert(ep == all[k as int]);
                assert(eps@ =~= all.subrange(k + 1, n as int));
                assert(fl[k as int] == (ep.path, ep.middleware.stages@));
            }
            let Endpoint { path, middleware } = ep;
            match path {
                Path::Static(p) => {
                    let key = p.clone();
                    match trie_insert(&mut static_route, key, k) {
                        Some(_) => {
                            proof {
                                assert(conflict_at(fl, k as int));
                                assert(fl[k as int].0 matches Path::Static(q) && q@ == p@);
                                assert(0 <= k < fl.len() && conflict_at(fl, k as int) && (forall|j: int|
                                    0 <= j < k ==> !#[trigger] conflict_at(fl, j)) && (
                                fl[k as int].0 matches Path::Static(q) && q@ == p@));
                            }
                            return Err(Conflict::Path(p));
                        },
                        None => {},
                    }
                    proof {
                        assert(!conflict_at(fl, k as int));
                        assert(trie_entries(static_route) =~= static_map_of(fl, k + 1));
                    }
                },
                Path::Dynamic(d) => {
                    dynamic_route.push((d, k));
                    proof {
                        assert(dynamic_route@ =~= dynamic_of(fl, k + 1));
                    }
                },
            }
            let ghost before = chains@;
            chains.push(middleware);
            proof {
                assert(chains@ =~= before.push(middleware));
                assert(middleware.stages@ == fl[k as int].1);
                assert(chains@.map_values(|m: Middleware<S>| m.stages@) =~= before.map_values(
                    |m: Middleware<S>| m.stages@,
                ).push(fl[k as int].1));
                assert(fl.take(k + 1).map_values(|e: (Path, Seq<S>)| e.1) =~= fl.take(
                    k as int,
                ).map_values(|e: (Path, Seq<S>)| e.1).push(fl[k as int].1));
                assert(chains@.map_values(|m: Middleware<S>| m.stages@) =~= fl.take(k + 1).map_values(
                    |e: (Path, Seq<S>)| e.1,
                ));
            }
            k = k + 1;
        }
        proof {
            assert(fl.take(n as int) =~= fl);
        }
        Ok(Dispatcher { static_route, dynamic_route, chains })
    }
}

proof fn lemma_static_claimed<S>(fl: Seq<(Path, Seq<S>)>, i: int, k: int, p: String)
    requires
        0 <= i < k <= fl.len(),
        fl[i].0 == Path::Static(p),
    ensures
        static_map_of(fl, k).contains_key(p@),
    decreases k,
{
    if k > i + 1 {
        lemma_static_claimed(fl, i, k - 1, p);
    }
}

proof fn lemma_static_kept<S>(fl: Seq<(Path, Seq<S>)>, i: int, k: int, p: String)
    requires
        0 <= i < k <= fl.len(),
        fl[i].0 == Path::Static(p),
        forall|j: int| 0 <= j < k ==> !#[trigger] conflict_at(fl, j),
    ensures
        static_map_of(fl, k).contains_key(p@),
        static_map_of(fl, k)[p@] == i as usize,
    decreases k,
{
    if k > i + 1 {
        lemma_static_kept(fl, i, k - 1, p);
        assert(!conflict_at(fl, k - 1));
    }
}

/// A static path that the tree registered, requested as written, resolves
/// to its endpoint from the static table, with no captures: no dynamic
/// pattern is consulted. That endpoint runs its full chain.
pub proof fn lemma_static_precedence<S>(r: Router<S>, d: Dispatcher<S>, i: int, p: String)
    requires
        compiles_to(flat(r), Ok(d)),
        0 <= i < flat(r).len(),
        flat(r)[i].0 == Path::Static(p),
        standardized(p@) == p@,
    ensures
        resolves(d.static_map(), d.dynamic_list(), p@) == Some(
            (i as usize, Seq::<(Seq<char>, Seq<char>)>::empty()),
        ),
        d.chains()[i] == flat(r)[i].1,
{
    let fl = flat(r);
    lemma_static_kept(fl, i, fl.len() as int, p);
}

/// Two endpoints of one tree that claim the same static path make
/// compilation fail; neither is kept silently.
pub proof fn lemma_duplicate_static_conflicts<S>(
    r: Router<S>,
    res: Result<Dispatcher<S>, Conflict>,
    i: int,
    j: int,
    p: String,
    q: String,
)
    requires
        compiles_to(flat(r), res),
        0 <= i < j < flat(r).len(),
        flat(r)[i].0 == Path::Static(p),
        flat(r)[j].0 == Path::Static(q),
        p@ == q@,
    ensures
        res is Err,
{
    let fl = flat(r);
    lemma_static_claimed(fl, i, j, p);
    assert(conflict_at(fl, j));
}

} // verus!
