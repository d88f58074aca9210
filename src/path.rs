use vstd::prelude::*;
use vstd::string::*;

verus! {

/// Reading `s` left to right: the non-empty runs of characters between
/// separators seen so far, and whether the next non-separator character
/// starts a new run.
pub open spec fn seg_state(s: Seq<char>) -> (Seq<Seq<char>>, bool)
    decreases s.len(),
{
    if s.len() == 0 {
        (seq![], true)
    } else {
        let (ss, fresh) = seg_state(s.drop_last());
        let c = s.last();
        if c == '/' {
            (ss, true)
        } else if fresh {
            (ss.push(seq![c]), false)
        } else {
            (ss.update(ss.len() - 1, ss.last().push(c)), false)
        }
    }
}

/// The segments of a path: the non-empty pieces between `/` separators.
pub open spec fn segments(s: Seq<char>) -> Seq<Seq<char>> {
    seg_state(s).0
}

/// Each segment preceded by one `/`.
pub open spec fn render(ss: Seq<Seq<char>>) -> Seq<char>
    decreases ss.len(),
{
    if ss.len() == 0 {
        seq![]
    } else {
        render(ss.drop_last()) + seq!['/'] + ss.last()
    }
}

/// The standard form of a path: one leading `/`, no repeated `/`, no
/// trailing `/` except for the root.
pub open spec fn standardized(s: Seq<char>) -> Seq<char> {
    if segments(s).len() == 0 {
        seq!['/']
    } else {
        render(segments(s))
    }
}

/// A valid segment: not empty and free of separators.
pub open spec fn is_segment(w: Seq<char>) -> bool {
    w.len() > 0 && !w.contains('/')
}

pub open spec fn all_segments(ss: Seq<Seq<char>>) -> bool {
    forall|i: int| 0 <= i < ss.len() ==> #[trigger] is_segment(ss[i])
}

pub open spec fn string_views(v: Seq<String>) -> Seq<Seq<char>> {
    v.map_values(|x: String| x@)
}

proof fn lemma_seg_state_shape(s: Seq<char>)
    ensures
        all_segments(seg_state(s).0),
        !seg_state(s).1 ==> seg_state(s).0.len() > 0,
    decreases s.len(),
{
    if s.len() > 0 {
        lemma_seg_state_shape(s.drop_last());
        let (ss, fresh) = seg_state(s.drop_last());
        let c = s.last();
        if c != '/' {
            if fresh {
                let t = ss.push(seq![c]);
                assert forall|i: int| 0 <= i < t.len() implies #[trigger] is_segment(t[i]) by {
                    if i == t.len() - 1 {
                        assert(t[i] == seq![c]);
                        assert(!seq![c].contains('/')) by {
                            if seq![c].contains('/') {
                                let j = choose|j: int| 0 <= j < 1 && seq![c][j] == '/';
                            }
                        }
                    } else {
                        assert(t[i] == ss[i]);
                    }
                }
            } else {
                let l = ss.last();
                let t = ss.update(ss.len() - 1, l.push(c));
                assert(is_segment(ss[ss.len() - 1]));
                assert forall|i: int| 0 <= i < t.len() implies #[trigger] is_segment(t[i]) by {
                    if i == t.len() - 1 {
                        assert(!l.push(c).contains('/')) by {
                            if l.push(c).contains('/') {
                                let j = choose|j: int| 0 <= j < l.len() + 1 && l.push(c)[j] == '/';
                                if j < l.len() {
                                    assert(l[j] == '/');
                                }
                            }
                        }
                    } else {
                        assert(t[i] == ss[i]);
                    }
                }
            }
        }
    }
}

proof fn lemma_seg_word(a: Seq<char>, w: Seq<char>, k: int)
    requires
        seg_state(a).1,
        is_segment(w),
        1 <= k <= w.len(),
    ensures
        seg_state(a + w.take(k)) == (segments(a).push(w.take(k)), false),
    decreases k,
{
    let s = a + w.take(k);
    assert(s.drop_last() =~= a + w.take(k - 1));
    assert(s.last() == w[k - 1]);
    assert(w[k - 1] != '/') by {
        if w[k - 1] == '/' {
            assert(w.contains('/'));
        }
    }
    if k == 1 {
        assert(a + w.take(0) =~= a);
        assert(w.take(1) =~= seq![w[0]]);
    } else {
        lemma_seg_word(a, w, k - 1);
        assert(w.take(k - 1).push(w[k - 1]) =~= w.take(k));
        assert(segments(a).push(w.take(k - 1)).update(segments(a).len() as int, w.take(k))
            =~= segments(a).push(w.take(k)));
    }
}

/// Rendering valid segments and reading them back gives the same segments.
pub proof fn lemma_segments_render(ss: Seq<Seq<char>>)
    requires
        all_segments(ss),
    ensures
        seg_state(render(ss)) == (ss, ss.len() == 0),
    decreases ss.len(),
{
    if ss.len() > 0 {
        let pre = ss.drop_last();
        let w = ss.last();
        assert(all_segments(pre)) by {
            assert forall|i: int| 0 <= i < pre.len() implies #[trigger] is_segment(pre[i]) by {
                assert(pre[i] == ss[i]);
            }
        }
        assert(is_segment(ss[ss.len() - 1]));
        lemma_segments_render(pre);
        let a = render(pre) + seq!['/'];
        assert(a.drop_last() =~= render(pre));
        assert(seg_state(a) == (pre, true));
        lemma_seg_word(a, w, w.len() as int);
        assert(w.take(w.len() as int) =~= w);
        assert(pre.push(w) =~= ss);
    }
}

/// Standardizing a path twice gives the same result as standardizing it
/// once.
pub proof fn lemma_standardize_idempotent(p: Seq<char>)
    ensures
        standardized(standardized(p)) == standardized(p),
        segments(standardized(p)) == segments(p),
{
    lemma_seg_state_shape(p);
    if segments(p).len() == 0 {
        let r = seq!['/'];
        assert(r.drop_last() =~= Seq::<char>::empty());
        assert(seg_state(Seq::<char>::empty()) == (Seq::<Seq<char>>::empty(), true));
        assert(seg_state(r) == (Seq::<Seq<char>>::empty(), true));
    } else {
        lemma_segments_render(segments(p));
    }
}

/// Splits a path into its segments.
pub fn path_segments(s: &str) -> (r: Vec<String>)
    ensures
        string_views(r@) == segments(s@),
        all_segments(segments(s@)),
{
    proof {
        lemma_seg_state_shape(s@);
    }
    let n = s.unicode_len();
    let mut out: Vec<String> = Vec::new();
    let mut cur = String::new();
    let mut fresh = true;
    let mut i: usize = 0;
    while i < n
        invariant
            n == s@.len(),
            i <= n,
            fresh == seg_state(s@.take(i as int)).1,
            fresh ==> string_views(out@) == segments(s@.take(i as int)),
            !fresh ==> string_views(out@).push(cur@) == segments(s@.take(i as int)),
        decreases n - i,
    {
        let ghost prev = s@.take(i as int);
        let c = s.get_char(i);
        proof {
            assert(s@.take(i + 1).drop_last() =~= prev);
            assert(s@.take(i + 1).last() == c);
        }
        if c == '/' {
            if !fresh {
                let ghost before = out@;
                let piece = cur;
                out.push(piece);
                cur = String::new();
                proof {
                    assert(string_views(out@) =~= string_views(before).push(piece@));
                }
            }
            fresh = true;
        } else {
            let one = s.substring_char(i, i + 1);
            proof {
                assert(one@ =~= seq![c]);
            }
            if fresh {
                cur = String::new();
                cur.append(one);
                proof {
                    assert(cur@ =~= seq![c]);
                }
            } else {
                let ghost old_cur = cur@;
                cur.append(one);
                proof {
                    let ss = segments(prev);
                    assert(ss.last() == old_cur);
                    assert(cur@ =~= old_cur.push(c));
                    assert(string_views(out@).push(cur@) =~= ss.update(ss.len() - 1, ss.last().push(c)));
                }
            }
            fresh = false;
        }
        i = i + 1;
    }
    if !fresh {
        let ghost before = out@;
        let piece = cur;
        out.push(piece);
        proof {
            assert(string_views(out@) =~= string_views(before).push(piece@));
        }
    }
    proof {
        assert(s@.take(n as int) =~= s@);
    }
    out
}

/// Writes segments back as a path: each one after a `/`, and `/` alone
/// when there are none.
pub fn render_segments(ss: &Vec<String>) -> (r: String)
    ensures
        r@ == (if ss@.len() == 0 { seq!['/'] } else { render(string_views(ss@)) }),
{
    if ss.len() == 0 {
        proof {
            reveal_strlit("/");
        }
        return String::from_str("/");
    }
    let mut out = String::new();
    let mut k: usize = 0;
    while k < ss.len()
        invariant
            k <= ss@.len(),
            out@ == render(string_views(ss@).take(k as int)),
        decreases ss@.len() - k,
    {
        proof {
            reveal_strlit("/");
            let v = string_views(ss@);
            assert(v.take(k + 1).drop_last() =~= v.take(k as int));
        }
        out.append("/");
        out.append(ss[k].as_str());
        k = k + 1;
    }
    proof {
        assert(string_views(ss@).take(ss@.len() as int) =~= string_views(ss@));
    }
    out
}

/// The standard form of a path: a single leading `/`, repeated separators
/// collapsed, and no trailing `/` except for the root.
pub fn standardize_path(raw_path: &str) -> (r: String)
    ensures
        r@ == standardized(raw_path@),
{
    let ss = path_segments(raw_path);
    render_segments(&ss)
}

/// A child path joined under a parent root, in standard form.
pub fn join_path(root: &str, path: &str) -> (r: String)
    ensures
        r@ == standardized(root@ + seq!['/'] + path@),
{
    let mut whole = String::from_str(root);
    proof {
        reveal_strlit("/");
    }
    whole.append("/");
    whole.append(path);
    proof {
        assert("/"@ =~= seq!['/']);
        assert(whole@ =~= root@ + seq!['/'] + path@);
    }
    standardize_path(whole.as_str())
}

} // verus!
