//! Lexical path handling.
//!
//! The manager keys its reverse index by a canonical form of each source
//! path, so that the same file is found again when the filesystem observer
//! reports it. Canonicalization here is purely lexical: it collapses
//! repeated separators, removes `.` segments and resolves `..` segments
//! where a parent segment is available.

use vstd::prelude::*;

verus! {

/// The file name of a path: the characters after the last `/`, or the whole
/// path when it has no `/`.
pub open spec fn file_name_of(s: Seq<char>) -> Seq<char>
    decreases s.len(),
{
    if s.len() == 0 || s.last() == '/' {
        Seq::empty()
    } else {
        file_name_of(s.drop_last()).push(s.last())
    }
}

/// The characters after the last `.` of `name`, or `None` when `name` has
/// no `.` at all.
pub open spec fn after_last_dot(name: Seq<char>) -> Option<Seq<char>>
    decreases name.len(),
{
    if name.len() == 0 {
        None
    } else if name.last() == '.' {
        Some(Seq::empty())
    } else {
        match after_last_dot(name.drop_last()) {
            Some(e) => Some(e.push(name.last())),
            None => None,
        }
    }
}

/// The extension of a path: the characters after the last `.` of its file
/// name, where a `.` that starts the file name does not count (a name such
/// as `.profile` has no extension).
pub open spec fn extension_of(s: Seq<char>) -> Option<Seq<char>> {
    let name = file_name_of(s);
    if name.len() == 0 {
        None
    } else {
        after_last_dot(name.drop_first())
    }
}

proof fn lemma_file_name_skip(s: Seq<char>, k: int)
    requires
        0 <= k <= s.len(),
        forall|i: int| k <= i < s.len() ==> s[i] != '/',
        k > 0 ==> s[k - 1] == '/',
    ensures
        file_name_of(s) == s.skip(k),
    decreases s.len(),
{
    if s.len() == 0 {
        assert(file_name_of(s) =~= s.skip(k));
    } else if k == s.len() {
        if k > 0 {
            assert(s.last() == '/');
        }
        assert(file_name_of(s) =~= s.skip(k));
    } else {
        assert(s.last() != '/');
        lemma_file_name_skip(s.drop_last(), k);
        assert(file_name_of(s) =~= s.skip(k));
    }
}

proof fn lemma_after_last_dot_some(t: Seq<char>, m: int)
    requires
        0 <= m < t.len(),
        t[m] == '.',
        forall|i: int| m < i < t.len() ==> t[i] != '.',
    ensures
        after_last_dot(t) == Some(t.skip(m + 1)),
    decreases t.len(),
{
    if m == t.len() - 1 {
        assert(t.last() == '.');
        assert(t.skip(m + 1) =~= Seq::<char>::empty());
    } else {
        assert(t.last() != '.');
        lemma_after_last_dot_some(t.drop_last(), m);
        assert(t.drop_last().skip(m + 1).push(t.last()) =~= t.skip(m + 1));
    }
}

proof fn lemma_after_last_dot_none(t: Seq<char>)
    requires
        forall|i: int| 0 <= i < t.len() ==> t[i] != '.',
    ensures
        after_last_dot(t) is None,
    decreases t.len(),
{
    if t.len() > 0 {
        lemma_after_last_dot_none(t.drop_last());
    }
}

/// The segments of a path, split at every `/`. A leading, trailing or
/// repeated `/` contributes an empty segment.
pub open spec fn split_path(s: Seq<char>) -> Seq<Seq<char>>
    decreases s.len(),
{
    if s.len() == 0 {
        seq![Seq::<char>::empty()]
    } else {
        let rest = split_path(s.drop_last());
        if s.last() == '/' {
            rest.push(Seq::empty())
        } else {
            rest.update(rest.len() - 1, rest.last().push(s.last()))
        }
    }
}

proof fn lemma_split_path_nonempty(s: Seq<char>)
    ensures
        split_path(s).len() >= 1,
    decreases s.len(),
{
    if s.len() > 0 {
        lemma_split_path_nonempty(s.drop_last());
    }
}

/// Resolution of a segment list: empty and `.` segments vanish, and a `..`
/// segment removes the segment before it when one is available. In a
/// relative path an unmatched `..` is kept; in an absolute path it is
/// dropped, since the root is its own parent.
pub open spec fn resolve_segments(segs: Seq<Seq<char>>, abs: bool) -> Seq<Seq<char>>
    decreases segs.len(),
{
    if segs.len() == 0 {
        Seq::empty()
    } else {
        let prefix = resolve_segments(segs.drop_last(), abs);
        let seg = segs.last();
        if seg.len() == 0 || seg == seq!['.'] {
            prefix
        } else if seg == seq!['.', '.'] {
            if prefix.len() > 0 && prefix.last() != seq!['.', '.'] {
                prefix.drop_last()
            } else if abs {
                prefix
            } else {
                prefix.push(seg)
            }
        } else {
            prefix.push(seg)
        }
    }
}

/// The segments joined with `/` between them.
pub open spec fn join_segments(segs: Seq<Seq<char>>) -> Seq<char>
    decreases segs.len(),
{
    if segs.len() == 0 {
        Seq::empty()
    } else if segs.len() == 1 {
        segs[0]
    } else {
        join_segments(segs.drop_last()) + seq!['/'] + segs.last()
    }
}

/// The canonical form of a path: its resolved segments joined again, with
/// a leading `/` kept for an absolute path. A path with no segments left
/// becomes `/` when absolute and `.` when relative.
pub open spec fn norm_path(s: Seq<char>) -> Seq<char> {
    let abs = s.len() > 0 && s[0] == '/';
    let segs = resolve_segments(split_path(s), abs);
    if segs.len() == 0 {
        if abs {
            seq!['/']
        } else {
            seq!['.']
        }
    } else if abs {
        seq!['/'] + join_segments(segs)
    } else {
        join_segments(segs)
    }
}

/// The extension of `s`, as [`extension_of`] describes it.
pub fn path_extension(s: &str) -> (r: Option<String>)
    ensures
        match r {
            Some(e) => extension_of(s@) == Some(e@),
            None => extension_of(s@) is None,
        },
{
    let len = s.unicode_len();
    // Find the start of the file name: the index after the last '/'.
    let mut k: usize = len;
    while k > 0 && s.get_char(k - 1) != '/'
        invariant
            0 <= k <= len,
            len == s@.len(),
            forall|i: int| k <= i < len ==> s@[i] != '/',
        decreases k,
    {
        k = k - 1;
    }
    proof {
        lemma_file_name_skip(s@, k as int);
    }
    if k == len {
        // Empty file name: no extension.
        assert(file_name_of(s@).len() == 0);
        return None;
    }
    // Find the last '.' strictly after the first character of the file name.
    let mut j: usize = len;
    let mut dot: Option<usize> = None;
    while j > k + 1
        invariant
            k + 1 <= j <= len,
            len == s@.len(),
            match dot {
                Some(d) => k + 1 <= d < len && s@[d as int] == '.' && forall|i: int|
                    d < i < len ==> s@[i] != '.',
                None => forall|i: int| j <= i < len ==> s@[i] != '.',
            },
        decreases j,
    {
        if dot.is_none() && s.get_char(j - 1) == '.' {
            dot = Some(j - 1);
        }
        j = j - 1;
    }
    proof {
        let name = file_name_of(s@);
        assert(name == s@.skip(k as int));
        assert(name.drop_first() =~= s@.skip(k + 1));
    }
    match dot {
        Some(d) => {
            let e = s.substring_char(d + 1, len).to_owned();
            proof {
                lemma_after_last_dot_some(s@.skip(k + 1), d - k - 1);
                assert(s@.skip(k + 1).skip(d - k) =~= s@.subrange(d + 1, len as int));
            }
            Some(e)
        },
        None => {
            proof {
                lemma_after_last_dot_none(s@.skip(k + 1));
            }
            None
        },
    }
}

fn is_dot(seg: &str) -> (r: bool)
    ensures
        r == (seg@ == seq!['.']),
{
    let r = seg.unicode_len() == 1 && seg.get_char(0) == '.';
    proof {
        if r {
            assert(seg@ =~= seq!['.']);
        }
    }
    r
}

fn is_dotdot(seg: &str) -> (r: bool)
    ensures
        r == (seg@ == seq!['.', '.']),
{
    let r = seg.unicode_len() == 2 && seg.get_char(0) == '.' && seg.get_char(1) == '.';
    proof {
        if r {
            assert(seg@ =~= seq!['.', '.']);
        }
    }
    r
}

fn split_exec(s: &str) -> (segs: Vec<String>)
    ensures
        segs.deep_view() == split_path(s@),
        segs.len() >= 1,
{
    let len = s.unicode_len();
    let mut segs: Vec<String> = Vec::new();
    let mut start: usize = 0;
    let mut i: usize = 0;
    proof {
        assert(s@.take(0).len() == 0);
        assert(segs.deep_view().push(s@.subrange(0, 0)) =~~= split_path(s@.take(0)));
    }
    while i < len
        invariant
            0 <= start <= i <= len,
            len == s@.len(),
            segs.deep_view().push(s@.subrange(start as int, i as int)) == split_path(
                s@.take(i as int),
            ),
        decreases len - i,
    {
        let ghost pre = segs.deep_view();
        let ghost done = s@.take(i as int);
        let c = s.get_char(i);
        if c == '/' {
            segs.push(s.substring_char(start, i).to_owned());
            proof {
                assert(segs.deep_view() =~= pre.push(s@.subrange(start as int, i as int)));
                assert(s@.take(i + 1).drop_last() =~= done);
                assert(s@.take(i + 1).last() == s@[i as int]);
                assert(s@.subrange(i + 1, i + 1) =~= Seq::<char>::empty());
                assert(segs.deep_view().push(s@.subrange(i + 1, i + 1)) =~= split_path(
                    s@.take(i + 1),
                ));
            }
            start = i + 1;
        } else {
            proof {
                let rest = split_path(done);
                lemma_split_path_nonempty(done);
                assert(rest.last() == s@.subrange(start as int, i as int));
                assert(s@.take(i + 1).drop_last() =~= done);
                assert(s@.take(i + 1).last() == s@[i as int]);
                assert(s@.subrange(start as int, i + 1) =~= s@.subrange(
                    start as int,
                    i as int,
                ).push(s@[i as int]));
                assert(pre.push(s@.subrange(start as int, i + 1)) =~= rest.update(
                    rest.len() - 1,
                    rest.last().push(s@[i as int]),
                ));
            }
        }
        i = i + 1;
    }
    segs.push(s.substring_char(start, len).to_owned());
    proof {
        assert(s@.take(len as int) =~= s@);
        assert(segs.deep_view() =~= split_path(s@));
    }
    segs
}

fn resolve_exec(segs: &Vec<String>, abs: bool) -> (out: Vec<String>)
    ensures
        out.deep_view() == resolve_segments(segs.deep_view(), abs),
{
    let mut out: Vec<String> = Vec::new();
    let mut k: usize = 0;
    while k < segs.len()
        invariant
            0 <= k <= segs.len(),
            out.deep_view() == resolve_segments(segs.deep_view().take(k as int), abs),
        decreases segs.len() - k,
    {
        let ghost pre = out.deep_view();
        let ghost done = segs.deep_view().take(k as int);
        proof {
            assert(segs.deep_view().take(k + 1).drop_last() =~= done);
            assert(segs.deep_view().take(k + 1).last() == segs.deep_view()[k as int]);
            assert(segs.deep_view()[k as int] == segs@[k as int]@);
        }
        let seg = &segs[k];
        if seg.as_str().is_empty() || is_dot(seg.as_str()) {
            // Empty and `.` segments vanish.
        } else if is_dotdot(seg.as_str()) {
            let n = out.len();
            proof {
                assert(pre.len() == out@.len());
                if n > 0 {
                    assert(pre.last() == out@[n - 1]@);
                }
            }
            if n > 0 && !is_dotdot(out[n - 1].as_str()) {
                let _ = out.pop();
                proof {
                    assert(out.deep_view() =~= pre.drop_last());
                }
            } else if abs {
                // An unmatched `..` in an absolute path vanishes.
            } else {
                out.push(seg.clone());
                proof {
                    assert(out.deep_view() =~= pre.push(segs@[k as int]@));
                }
            }
        } else {
            out.push(seg.clone());
            proof {
                assert(out.deep_view() =~= pre.push(segs@[k as int]@));
            }
        }
        k = k + 1;
    }
    proof {
        assert(segs.deep_view().take(segs@.len() as int) =~= segs.deep_view());
    }
    out
}

/// The canonical form of `s`, as [`norm_path`] describes it.
pub fn normalize_path(s: &str) -> (r: String)
    ensures
        r@ == norm_path(s@),
{
    let abs = !s.is_empty() && s.get_char(0) == '/';
    let segs = split_exec(s);
    let resolved = resolve_exec(&segs, abs);
    proof {
        reveal_strlit("/");
        reveal_strlit(".");
        reveal_strlit("");
    }
    if resolved.len() == 0 {
        if abs {
            let r = "/".to_owned();
            assert(r@ =~= seq!['/']);
            r
        } else {
            let r = ".".to_owned();
            assert(r@ =~= seq!['.']);
            r
        }
    } else {
        let mut r = "".to_owned();
        assert(r@ =~= Seq::<char>::empty());
        if abs {
            r.append("/");
            assert(r@ =~= seq!['/']);
        }
        let ghost lead: Seq<char> = if abs {
            seq!['/']
        } else {
            Seq::empty()
        };
        r.append(resolved[0].as_str());
        proof {
            assert(resolved.deep_view().take(1).drop_last() =~= Seq::<Seq<char>>::empty());
            assert(r@ =~= lead + join_segments(resolved.deep_view().take(1)));
        }
        let mut k: usize = 1;
        while k < resolved.len()
            invariant
                1 <= k <= resolved.len(),
                r@ == lead + join_segments(resolved.deep_view().take(k as int)),
                lead == (if abs {
                    seq!['/']
                } else {
                    Seq::<char>::empty()
                }),
            decreases resolved.len() - k,
        {
            proof {
                reveal_strlit("/");
            }
            r.append("/");
            r.append(resolved[k].as_str());
            proof {
                let dv = resolved.deep_view();
                assert(dv.take(k + 1).drop_last() =~= dv.take(k as int));
                assert(dv.take(k + 1).last() == dv[k as int]);
                assert(dv[k as int] == resolved@[k as int]@);
                assert(r@ =~= lead + join_segments(dv.take(k + 1)));
            }
            k = k + 1;
        }
        proof {
            assert(resolved.deep_view().take(resolved@.len() as int) =~= resolved.deep_view());
        }
        r
    }
}

} // verus!
