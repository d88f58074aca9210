use vstd::prelude::*;
use vstd::string::*;
use crate::status::{Status, BAD_REQUEST};

verus! {

/// The namespace half of a variable's key. `Router` is where the dispatcher
/// publishes path captures; `Custom` ones are for other middleware.
#[derive(Debug, Clone, Copy, PartialEq, Eq, Structural)]
pub enum Namespace {
    Router,
    Custom(u64),
}

/// The value most recently stored under `(ns, key)`, if any.
pub open spec fn lookup(
    es: Seq<(Namespace, String, String)>,
    ns: Namespace,
    key: Seq<char>,
) -> Option<Seq<char>>
    decreases es.len(),
{
    if es.len() == 0 {
        None
    } else if es.last().0 == ns && es.last().1@ == key {
        Some(es.last().2@)
    } else {
        lookup(es.drop_last(), ns, key)
    }
}

/// Per-request variables, keyed by namespace and name.
#[derive(Debug, Clone)]
pub struct Variables {
    entries: Vec<(Namespace, String, String)>,
}

impl View for Variables {
    type V = Map<(Namespace, Seq<char>), Seq<char>>;

    closed spec fn view(&self) -> Self::V {
        Map::new(
            |k: (Namespace, Seq<char>)| lookup(self.entries@, k.0, k.1) is Some,
            |k: (Namespace, Seq<char>)| lookup(self.entries@, k.0, k.1)->Some_0,
        )
    }
}

pub open spec fn opt_view(o: Option<String>) -> Option<Seq<char>> {
    match o {
        Some(s) => Some(s@),
        None => None,
    }
}

impl Variables {
    pub fn new() -> (v: Variables)
        ensures
            v@ == Map::<(Namespace, Seq<char>), Seq<char>>::empty(),
    {
        let v = Variables { entries: Vec::new() };
        proof {
            assert(v@ =~= Map::<(Namespace, Seq<char>), Seq<char>>::empty());
        }
        v
    }

    /// Sets `key` in `ns` to `value`, replacing any earlier value.
    pub fn store(&mut self, ns: Namespace, key: String, value: String)
        ensures
            final(self)@ == old(self)@.insert((ns, key@), value@),
    {
        let ghost k = (ns, key@);
        let ghost v = value@;
        self.entries.push((ns, key, value));
        proof {
            let es = self.entries@;
            assert(es.drop_last() =~= old(self).entries@);
            assert(self@ =~= old(self)@.insert(k, v));
        }
    }

    /// The value of `key` in `ns`.
    pub fn load(&self, ns: Namespace, key: &str) -> (r: Option<String>)
        ensures
            opt_view(r) == (if self@.contains_key((ns, key@)) {
                Some(self@[(ns, key@)])
            } else {
                None
            }),
    {
        let wanted = String::from_str(key);
        let mut i: usize = self.entries.len();
        proof {
            assert(self.entries@.take(i as int) =~= self.entries@);
        }
        while i > 0
            invariant
                i <= self.entries@.len(),
                wanted@ == key@,
                lookup(self.entries@, ns, key@) == lookup(self.entries@.take(i as int), ns, key@),
            decreases i,
        {
            let e = &self.entries[i - 1];
            proof {
                assert(self.entries@.take(i as int).drop_last() =~= self.entries@.take(i - 1));
                assert(self.entries@.take(i as int).last() == *e);
            }
            if e.0 == ns && e.1 == wanted {
                proof {
                    assert(lookup(self.entries@, ns, key@) == Some(e.2@));
                    assert(self@.contains_key((ns, key@)));
                }
                return Some(e.2.clone());
            }
            i = i - 1;
        }
        proof {
            assert(lookup(self.entries@, ns, key@) is None);
            assert(!self@.contains_key((ns, key@)));
        }
        None
    }

    /// The path capture `name`, if the dispatcher published one.
    pub fn try_param(&self, name: &str) -> (r: Option<String>)
        ensures
            opt_view(r) == (if self@.contains_key((Namespace::Router, name@)) {
                Some(self@[(Namespace::Router, name@)])
            } else {
                None
            }),
    {
        self.load(Namespace::Router, name)
    }

    /// The path capture `name`; a 400 with an exposed message when it was
    /// never captured.
    pub fn param(&self, name: &str) -> (r: Result<String, Status>)
        ensures
            self@.contains_key((Namespace::Router, name@)) ==> (r matches Ok(v) && v@ == self@[(
                Namespace::Router,
                name@,
            )]),
            !self@.contains_key((Namespace::Router, name@)) ==> (r matches Err(s) && s.wf()
                && s.status_code == BAD_REQUEST && s.expose && s.data@ == missing_param_message(
                name@,
            )),
    {
        match self.try_param(name) {
            Some(v) => Ok(v),
            None => {
                let mut msg = String::from_str("router variable `");
                msg.append(name);
                msg.append("` is required");
                proof {
                    reveal_strlit("router variable `");
                    reveal_strlit("` is required");
                }
                Err(Status::new(BAD_REQUEST, msg, true))
            },
        }
    }
}

/// The message of the failure for a missing capture.
pub open spec fn missing_param_message(name: Seq<char>) -> Seq<char> {
    "router variable `"@ + name + "` is required"@
}

} // verus!
