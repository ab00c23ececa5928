use vstd::prelude::*;

use crate::text::{chars_of, contains_at, str_views, string_of, window_eq};

verus! {

/// One package directory to operate on: its absolute path, and its label
/// relative to the root (or the sentinel label for the root itself).
pub struct PackageEntry {
    pub directory: String,
    pub label: String,
}

/// `path` lies strictly below `root`: it extends `root` with a separator and
/// a non-empty remainder.
pub open spec fn is_under(root: Seq<char>, path: Seq<char>) -> bool {
    &&& path.len() > root.len() + 1
    &&& path.subrange(0, root.len() as int) == root
    &&& path[root.len() as int] == '/'
}

/// The part of `path` after `root` and the separator.
pub open spec fn label_of(root: Seq<char>, path: Seq<char>) -> Seq<char> {
    path.skip(root.len() as int + 1)
}

/// `root`, a separator, and `label`.
pub open spec fn joined_path(root: Seq<char>, label: Seq<char>) -> Seq<char> {
    root.push('/') + label
}

/// Computes the label of `path` relative to `root`, when `path` lies below
/// `root`; the label reconstructs the path when joined back to the root.
pub fn relative_label(root: &str, path: &str) -> (r: Option<String>)
    ensures
        r is Some <==> is_under(root@, path@),
        r matches Some(l) ==> l@ == label_of(root@, path@) && path@ == joined_path(root@, l@),
{
    let rv = chars_of(root);
    let pv = chars_of(path);
    let rl: usize = rv.len();
    let pl: usize = pv.len();
    if !(pl > rl && pl - rl > 1) {
        return None;
    }
    let mut i: usize = 0;
    while i < rl
        invariant
            rv@ == root@,
            pv@ == path@,
            rl == rv@.len(),
            pl == pv@.len(),
            pl > rl + 1,
            i <= rl,
            forall|k: int| 0 <= k < i ==> pv@[k] == rv@[k],
        decreases rl - i,
    {
        if pv[i] != rv[i] {
            proof {
                assert(pv@.subrange(0, rl as int)[i as int] == pv@[i as int]);
            }
            return None;
        }
        i += 1;
    }
    proof {
        assert(pv@.subrange(0, rl as int) =~= rv@);
    }
    if pv[rl] != '/' {
        return None;
    }
    let mut out: Vec<char> = Vec::new();
    let mut k: usize = rl + 1;
    proof {
        assert(out@ =~= pv@.subrange(rl + 1, rl + 1));
    }
    while k < pl
        invariant
            rl == rv@.len(),
            pl == pv@.len(),
            pl > rl + 1,
            rl + 1 <= k <= pl,
            out@ == pv@.subrange(rl + 1, k as int),
        decreases pl - k,
    {
        let c = pv[k];
        out.push(c);
        proof {
            assert(out@ =~= pv@.subrange(rl + 1, k + 1));
        }
        k += 1;
    }
    proof {
        assert(out@ =~= pv@.skip(rl + 1));
        assert(pv@ =~= rv@.push('/') + pv@.skip(rl + 1));
    }
    Some(string_of(&out))
}

/// `name` stands as a whole path component of `s`: delimited by separators or
/// the ends of the path.
pub open spec fn component_at(s: Seq<char>, name: Seq<char>, i: int) -> bool {
    &&& contains_at(s, name, i)
    &&& (i == 0 || s[i - 1] == '/')
    &&& (i + name.len() == s.len() || s[i + name.len()] == '/')
}

/// Some component of `s` is `name`.
pub open spec fn has_component(s: Seq<char>, name: Seq<char>) -> bool {
    exists|i: int| component_at(s, name, i)
}

/// A label beneath a dependency-cache directory or a version-control
/// directory: discovery leaves such directories out.
pub open spec fn excluded_label(l: Seq<char>) -> bool {
    has_component(l, "node_modules"@) || has_component(l, ".git"@)
}

pub(crate) fn has_component_exec(v: &Vec<char>, name: &Vec<char>) -> (r: bool)
    requires
        name@.len() > 0,
    ensures
        r == has_component(v@, name@),
{
    let v_len: usize = v.len();
    let n_len: usize = name.len();
    if n_len > v_len {
        proof {
            assert forall|i: int| !component_at(v@, name@, i) by {}
        }
        return false;
    }
    let bound: usize = v_len - n_len;
    let mut i: usize = 0;
    while i <= bound
        invariant
            v_len == v@.len(),
            n_len == name@.len(),
            1 <= n_len <= v_len,
            bound == v_len - n_len,
            i <= bound + 1,
            forall|k: int| 0 <= k < i ==> !component_at(v@, name@, k),
        decreases bound + 1 - i,
    {
        if window_eq(v, name, i) && (i == 0 || v[i - 1] == '/') && (i + n_len == v_len || v[i
            + n_len] == '/') {
            proof {
                assert(component_at(v@, name@, i as int));
            }
            return true;
        }
        i += 1;
    }
    proof {
        assert forall|k: int| !component_at(v@, name@, k) by {
            if 0 <= k <= bound {
                assert(!component_at(v@, name@, k));
            }
        }
    }
    false
}

/// Decides whether a label is excluded from discovery.
pub fn excluded_label_exec(label: &str) -> (r: bool)
    ensures
        r == excluded_label(label@),
{
    proof {
        reveal_strlit("node_modules");
        reveal_strlit(".git");
    }
    let lv = chars_of(label);
    let nm = chars_of("node_modules");
    let git = chars_of(".git");
    has_component_exec(&lv, &nm) || has_component_exec(&lv, &git)
}

/// The labels of the candidates that discovery keeps, in order.
pub open spec fn kept_labels(root: Seq<char>, cs: Seq<Seq<char>>) -> Seq<Seq<char>>
    decreases cs.len(),
{
    if cs.len() == 0 {
        Seq::empty()
    } else {
        let l = label_of(root, cs[0]);
        let rest = kept_labels(root, cs.skip(1));
        if excluded_label(l) {
            rest
        } else {
            seq![l] + rest
        }
    }
}

proof fn lemma_kept_push(root: Seq<char>, cs: Seq<Seq<char>>, c: Seq<char>)
    ensures
        kept_labels(root, cs.push(c)) == kept_labels(root, cs) + (if excluded_label(
            label_of(root, c),
        ) {
            Seq::<Seq<char>>::empty()
        } else {
            seq![label_of(root, c)]
        }),
    decreases cs.len(),
{
    let tail = if excluded_label(label_of(root, c)) {
        Seq::<Seq<char>>::empty()
    } else {
        seq![label_of(root, c)]
    };
    if cs.len() == 0 {
        assert(cs.push(c)[0] == c);
        assert(cs.push(c).skip(1) =~= Seq::<Seq<char>>::empty());
        assert(kept_labels(root, Seq::<Seq<char>>::empty()) =~= Seq::<Seq<char>>::empty());
        assert(kept_labels(root, cs) =~= Seq::<Seq<char>>::empty());
        assert(kept_labels(root, cs.push(c)) =~~= tail);
    } else {
        lemma_kept_push(root, cs.skip(1), c);
        assert(cs.push(c)[0] == cs[0]);
        assert(cs.push(c).skip(1) =~= cs.skip(1).push(c));
        if excluded_label(label_of(root, cs[0])) {
        } else {
            assert(seq![label_of(root, cs[0])] + (kept_labels(root, cs.skip(1)) + tail) =~= (
            seq![label_of(root, cs[0])] + kept_labels(root, cs.skip(1))) + tail);
        }
    }
}

/// Builds the ordered list of package entries: the root first, under the
/// sentinel label, then one entry per candidate manifest directory that no
/// exclusion applies to, in the caller's order.
pub fn discover_packages(root: &str, candidates: &Vec<String>) -> (out: Vec<PackageEntry>)
    requires
        forall|j: int| 0 <= j < candidates@.len() ==> is_under(root@, (#[trigger] candidates@[j])@),
    ensures
        out@.len() == 1 + kept_labels(root@, str_views(candidates@)).len(),
        out@[0].directory@ == root@,
        out@[0].label@ == "_root_"@,
        forall|j: int| 1 <= j < out@.len() ==> (#[trigger] out@[j]).label@ == kept_labels(
            root@,
            str_views(candidates@),
        )[j - 1] && out@[j].directory@ == joined_path(root@, out@[j].label@) && !excluded_label(
            out@[j].label@,
        ),
{
    let n: usize = candidates.len();
    let mut out: Vec<PackageEntry> = Vec::new();
    let root_entry = PackageEntry { directory: root.to_owned(), label: "_root_".to_owned() };
    out.push(root_entry);
    let ghost cviews = str_views(candidates@);
    let mut j: usize = 0;
    proof {
        assert(cviews.take(0) =~= Seq::<Seq<char>>::empty());
    }
    while j < n
        invariant
            n == candidates@.len(),
            cviews == str_views(candidates@),
            forall|k: int| 0 <= k < candidates@.len() ==> is_under(
                root@,
                (#[trigger] candidates@[k])@,
            ),
            j <= n,
            out@.len() == 1 + kept_labels(root@, cviews.take(j as int)).len(),
            out@[0].directory@ == root@,
            out@[0].label@ == "_root_"@,
            forall|k: int| 1 <= k < out@.len() ==> (#[trigger] out@[k]).label@ == kept_labels(
                root@,
                cviews.take(j as int),
            )[k - 1] && out@[k].directory@ == joined_path(root@, out@[k].label@)
                && !excluded_label(out@[k].label@),
        decreases n - j,
    {
        let ghost prefix = cviews.take(j as int);
        let ghost kept0 = kept_labels(root@, prefix);
        proof {
            lemma_kept_push(root@, prefix, cviews[j as int]);
            assert(cviews.take(j + 1) =~= prefix.push(cviews[j as int]));
        }
        let lab_opt = relative_label(root, candidates[j].as_str());
        match lab_opt {
            Some(lab) => {
                if !excluded_label_exec(lab.as_str()) {
                    let ghost out0 = out@;
                    let dir = candidates[j].clone();
                    let entry = PackageEntry { directory: dir, label: lab };
                    out.push(entry);
                    proof {
                        assert(kept_labels(root@, cviews.take(j + 1)) =~= kept0.push(
                            label_of(root@, cviews[j as int]),
                        ));
                        assert forall|k: int| 1 <= k < out@.len() implies (#[trigger] out@[k]).label@
                            == kept_labels(root@, cviews.take(j + 1))[k - 1] && out@[k].directory@
                            == joined_path(root@, out@[k].label@) && !excluded_label(
                            out@[k].label@,
                        ) by {
                            if k < out@.len() - 1 {
                                assert(out@[k] == out0[k]);
                                assert(kept_labels(root@, cviews.take(j + 1))[k - 1] == kept0[k
                                    - 1]);
                            }
                        }
                    }
                } else {
                    proof {
                        assert(kept_labels(root@, cviews.take(j + 1)) =~= kept0);
                    }
                }
            },
            None => {
                proof {
                    assert(is_under(root@, cviews[j as int]));
                    assert(false);
                }
            },
        }
        j += 1;
    }
    proof {
        assert(cviews.take(n as int) =~= cviews);
    }
    out
}

/// Labels every file found under a directory with its path relative to that
/// directory, keeping the caller's order, for archiving.
pub fn list_file_labels(root: &str, files: &Vec<String>) -> (out: Vec<(String, String)>)
    requires
        forall|j: int| 0 <= j < files@.len() ==> is_under(root@, (#[trigger] files@[j])@),
    ensures
        out@.len() == files@.len(),
        forall|j: int| 0 <= j < out@.len() ==> (#[trigger] out@[j]).0@ == files@[j]@ && out@[j].1@
            == label_of(root@, files@[j]@) && files@[j]@ == joined_path(root@, out@[j].1@),
{
    let n: usize = files.len();
    let mut out: Vec<(String, String)> = Vec::new();
    let mut j: usize = 0;
    while j < n
        invariant
            n == files@.len(),
            forall|k: int| 0 <= k < files@.len() ==> is_under(root@, (#[trigger] files@[k])@),
            j <= n,
            out@.len() == j,
            forall|k: int| 0 <= k < j ==> (#[trigger] out@[k]).0@ == files@[k]@ && out@[k].1@
                == label_of(root@, files@[k]@) && files@[k]@ == joined_path(root@, out@[k].1@),
        decreases n - j,
    {
        match relative_label(root, files[j].as_str()) {
            Some(l) => {
                let pair = (files[j].clone(), l);
                out.push(pair);
            },
            None => {
                proof {
                    assert(is_under(root@, files@[j as int]@));
                    assert(false);
                }
            },
        }
        j += 1;
    }
    out
}

} // verus!
