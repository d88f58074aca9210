use vstd::prelude::*;
use vstd::string::*;
use crate::path::{
    all_segments, is_segment, path_segments, segments, standardize_path, standardized,
    string_views,
};

verus! {

/// One segment of a route pattern.
#[derive(Debug, Clone)]
pub enum Segment {
    /// Matches exactly this text.
    Literal(String),
    /// Matches any non-empty segment and binds it to this name.
    Capture(String),
}

/// A route pattern with at least one capture.
#[derive(Debug, Clone)]
pub struct DynamicPath {
    /// The pattern in standard form.
    pub raw: String,
    pub segments: Vec<Segment>,
}

/// A parsed route: a plain path, or a pattern with captures.
#[derive(Debug, Clone)]
pub enum Path {
    Static(String),
    Dynamic(DynamicPath),
}

/// Why a route pattern was refused.
#[derive(Debug, Clone)]
pub enum PathError {
    /// A `:` segment with no name after it; holds the pattern.
    EmptyVariable(String),
    /// A capture name used twice in one pattern; holds the name.
    DuplicateVariable(String),
}

/// A segment written as `:name`.
pub open spec fn is_capture(w: Seq<char>) -> bool {
    w.len() > 0 && w[0] == ':'
}

pub open spec fn capture_name(w: Seq<char>) -> Seq<char> {
    w.subrange(1, w.len() as int)
}

/// Segment `i` names a capture already named before it.
pub open spec fn repeats_capture(ss: Seq<Seq<char>>, i: int) -> bool {
    exists|j: int|
        0 <= j < i && is_capture(ss[j]) && #[trigger] capture_name(ss[j]) == capture_name(ss[i])
}

/// Segment `i` is a capture that a pattern cannot hold.
pub open spec fn bad_capture(ss: Seq<Seq<char>>, i: int) -> bool {
    is_capture(ss[i]) && (capture_name(ss[i]).len() == 0 || repeats_capture(ss, i))
}

/// The segment a pattern keeps for text `w`.
pub open spec fn segment_for(s: Segment, w: Seq<char>) -> bool {
    match s {
        Segment::Literal(l) => !is_capture(w) && l@ == w,
        Segment::Capture(n) => is_capture(w) && n@ == capture_name(w),
    }
}

pub open spec fn has_capture(ss: Seq<Seq<char>>) -> bool {
    exists|i: int| 0 <= i < ss.len() && #[trigger] is_capture(ss[i])
}

/// What parsing `raw` gives: the first bad capture decides the error; a
/// pattern with no capture is static, in standard form.
pub open spec fn parses_to(raw: Seq<char>, r: Result<Path, PathError>) -> bool {
    let ss = segments(raw);
    match r {
        Err(e) => exists|i: int|
            0 <= i < ss.len() && #[trigger] bad_capture(ss, i) && (forall|j: int|
                0 <= j < i ==> !#[trigger] bad_capture(ss, j)) && match e {
                PathError::EmptyVariable(p) => capture_name(ss[i]).len() == 0 && p@ == raw,
                PathError::DuplicateVariable(n) => capture_name(ss[i]).len() > 0 && n@
                    == capture_name(ss[i]),
            },
        Ok(Path::Static(p)) => !has_capture(ss) && p@ == standardized(raw),
        Ok(Path::Dynamic(d)) => {
            &&& has_capture(ss)
            &&& d.raw@ == standardized(raw)
            &&& d.segments@.len() == ss.len()
            &&& forall|i: int| 0 <= i < ss.len() ==> #[trigger] segment_for(d.segments@[i], ss[i])
            &&& forall|i: int| 0 <= i < ss.len() ==> !#[trigger] bad_capture(ss, i)
        },
    }
}

/// A pattern segment accepts this piece of a request path.
pub open spec fn matches_segment(s: Segment, w: Seq<char>) -> bool {
    match s {
        Segment::Literal(l) => l@ == w,
        Segment::Capture(_) => w.len() > 0,
    }
}

/// The pattern accepts the request's segments, one for one.
pub open spec fn pattern_matches(ps: Seq<Segment>, ws: Seq<Seq<char>>) -> bool {
    &&& ps.len() == ws.len()
    &&& forall|i: int| 0 <= i < ps.len() ==> #[trigger] matches_segment(ps[i], ws[i])
}

/// The (name, value) pairs bound by the captures among the first
/// `ps.len()` segments, in pattern order.
pub open spec fn captured(ps: Seq<Segment>, ws: Seq<Seq<char>>) -> Seq<(Seq<char>, Seq<char>)>
    decreases ps.len(),
{
    if ps.len() == 0 {
        seq![]
    } else {
        let prev = captured(ps.drop_last(), ws);
        match ps.last() {
            Segment::Capture(n) => prev.push((n@, ws[ps.len() - 1])),
            Segment::Literal(_) => prev,
        }
    }
}

pub open spec fn pair_views(v: Seq<(String, String)>) -> Seq<(Seq<char>, Seq<char>)> {
    v.map_values(|p: (String, String)| (p.0@, p.1@))
}

fn contains_name(names: &Vec<String>, name: &String) -> (r: bool)
    ensures
        r == string_views(names@).contains(name@),
{
    let mut m: usize = 0;
    while m < names.len()
        invariant
            m <= names@.len(),
            forall|k: int| 0 <= k < m ==> names@[k]@ != name@,
        decreases names@.len() - m,
    {
        if names[m] == *name {
            proof {
                assert(string_views(names@)[m as int] == name@);
            }
            return true;
        }
        m = m + 1;
    }
    proof {
        if string_views(names@).contains(name@) {
            let k = choose|k: int| 0 <= k < names@.len() && string_views(names@)[k] == name@;
            assert(names@[k]@ == name@);
        }
    }
    false
}

impl Path {
    /// Parses a route: its segments in standard form, where `:name` is a
    /// capture. Capture names must be non-empty and distinct.
    pub fn parse(raw: &str) -> (r: Result<Path, PathError>)
        ensures
            parses_to(raw@, r),
    {
        let ss = path_segments(raw);
        let ghost v = segments(raw@);
        let mut segs: Vec<Segment> = Vec::new();
        let mut names: Vec<String> = Vec::new();
        let mut any = false;
        let mut i: usize = 0;
        while i < ss.len()
            invariant
                string_views(ss@) == v,
                v == segments(raw@),
                all_segments(v),
                i <= v.len(),
                segs@.len() == i,
                forall|k: int| 0 <= k < i ==> #[trigger] segment_for(segs@[k], v[k]),
                forall|k: int| 0 <= k < i ==> !#[trigger] bad_capture(v, k),
                any == exists|k: int| 0 <= k < i && #[trigger] is_capture(v[k]),
                forall|k: int|
                    0 <= k < i && #[trigger] is_capture(v[k]) ==> string_views(names@).contains(
                        capture_name(v[k]),
                    ),
                forall|m: int|
                    #![trigger names@[m]]
                    0 <= m < names@.len() ==> exists|k: int|
                        0 <= k < i && is_capture(v[k]) && #[trigger] capture_name(v[k])
                            == names@[m]@,
            decreases v.len() - i,
        {
            let w = ss[i].as_str();
            proof {
                assert(v[i as int] == w@);
                assert(is_segment(v[i as int]));
            }
            let n = w.unicode_len();
            let first = w.get_char(0);
            if first == ':' {
                let name = String::from_str(w.substring_char(1, n));
                if n == 1 {
                    proof {
                        assert(bad_capture(v, i as int));
                    }
                    return Err(PathError::EmptyVariable(String::from_str(raw)));
                }
                if contains_name(&names, &name) {
                    proof {
                        let m = choose|m: int| 0 <= m < names@.len() && string_views(names@)[m] == name@;
                        assert(names@[m]@ == name@);
                        let k = choose|k: int|
                            0 <= k < i && is_capture(v[k]) && #[trigger] capture_name(v[k]) == names@[m]@;
                        assert(repeats_capture(v, i as int));
                        assert(bad_capture(v, i as int));
                    }
                    return Err(PathError::DuplicateVariable(name));
                }
                proof {
                    assert(!repeats_capture(v, i as int)) by {
                        if repeats_capture(v, i as int) {
                            let k = choose|k: int|
                                0 <= k < i && is_capture(v[k]) && #[trigger] capture_name(v[k])
                                    == capture_name(v[i as int]);
                            assert(string_views(names@).contains(capture_name(v[k])));
                        }
                    }
                }
                let ghost old_names = names@;
                names.push(name.clone());
                proof {
                    assert(string_views(names@) =~= string_views(old_names).push(name@));
                    assert forall|k: int|
                        0 <= k < i + 1 && #[trigger] is_capture(v[k]) implies string_views(
                        names@,
                    ).contains(capture_name(v[k])) by {
                        if k < i {
                            let m = choose|m: int|
                                0 <= m < old_names.len() && string_views(old_names)[m]
                                    == capture_name(v[k]);
                            assert(string_views(names@)[m] == capture_name(v[k]));
                        } else {
                            assert(string_views(names@)[old_names.len() as int] == name@);
                        }
                    }
                    assert forall|m: int|
                        #![trigger names@[m]]
                        0 <= m < names@.len() implies exists|k: int|
                        0 <= k < i + 1 && is_capture(v[k]) && #[trigger] capture_name(v[k])
                            == names@[m]@ by {
                        if m == old_names.len() {
                            assert(capture_name(v[i as int]) == names@[m]@);
                        } else {
                            assert(names@[m] == old_names[m]);
                        }
                    }
                }
                segs.push(Segment::Capture(name));
                any = true;
                proof {
                    assert(is_capture(v[i as int]));
                }
            } else {
                segs.push(Segment::Literal(ss[i].clone()));
                proof {
                    assert(!is_capture(v[i as int]));
                    assert forall|m: int|
                        #![trigger names@[m]]
                        0 <= m < names@.len() implies exists|k: int|
                        0 <= k < i + 1 && is_capture(v[k]) && #[trigger] capture_name(v[k])
                            == names@[m]@ by {
                        let k = choose|k: int|
                            0 <= k < i && is_capture(v[k]) && #[trigger] capture_name(v[k])
                                == names@[m]@;
                    }
                    if exists|k: int| 0 <= k < i + 1 && #[trigger] is_capture(v[k]) {
                        let k = choose|k: int| 0 <= k < i + 1 && #[trigger] is_capture(v[k]);
                        assert(k < i);
                    }
                }
            }
            proof {
                assert(!bad_capture(v, i as int));
            }
            i = i + 1;
        }
        if !any {
            Ok(Path::Static(standardize_path(raw)))
        } else {
            Ok(Path::Dynamic(DynamicPath { raw: standardize_path(raw), segments: segs }))
        }
    }
}

impl DynamicPath {
    /// Matches the segments of a request path against this pattern; on a
    /// match, the captured (name, value) pairs in pattern order.
    pub fn captures(&self, ws: &Vec<String>) -> (r: Option<Vec<(String, String)>>)
        ensures
            r is Some <==> pattern_matches(self.segments@, string_views(ws@)),
            r matches Some(v) ==> pair_views(v@) == captured(self.segments@, string_views(ws@)),
    {
        let ghost wv = string_views(ws@);
        if self.segments.len() != ws.len() {
            return None;
        }
        let mut out: Vec<(String, String)> = Vec::new();
        let mut i: usize = 0;
        while i < ws.len()
            invariant
                wv == string_views(ws@),
                self.segments@.len() == ws@.len(),
                i <= ws@.len(),
                forall|k: int| 0 <= k < i ==> #[trigger] matches_segment(self.segments@[k], wv[k]),
                pair_views(out@) == captured(self.segments@.take(i as int), wv),
            decreases ws@.len() - i,
        {
            let w = &ws[i];
            proof {
                assert(self.segments@.take(i + 1).drop_last() =~= self.segments@.take(i as int));
                assert(wv[i as int] == w@);
            }
            let ghost before = out@;
            match &self.segments[i] {
                Segment::Literal(l) => {
                    if *l != *w {
                        proof {
                            assert(!matches_segment(self.segments@[i as int], wv[i as int]));
                        }
                        return None;
                    }
                },
                Segment::Capture(n) => {
                    if w.as_str().unicode_len() == 0 {
                        proof {
                            assert(!matches_segment(self.segments@[i as int], wv[i as int]));
                        }
                        return None;
                    }
                    out.push((n.clone(), w.clone()));
                    proof {
                        assert(pair_views(out@) =~= pair_views(before).push((n@, w@)));
                    }
                },
            }
            i = i + 1;
        }
        proof {
            assert(self.segments@.take(ws@.len() as int) =~= self.segments@);
        }
        Some(out)
    }
}

} // verus!
