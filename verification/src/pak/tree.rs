//! The PAK folder tree: every folder that holds an entry, or that an entry
//! stands for, each once, ordered component by component.
use vstd::prelude::*;

use crate::browser::{lemma_lex_less_transitive, lemma_lex_order_antisymmetric, lex_order, lex_sign};
use crate::dzip::paths::{path_components, spec_path_components};
use crate::pak::browser::PakItem;
use crate::pak::model::PakEntryKind;
use crate::text::{chars_of, views};

verus! {

/// How two folder paths compare: component by component, a shorter path
/// before its extensions. -1, 0 or 1.
pub open spec fn path_order(a: Seq<Seq<char>>, b: Seq<Seq<char>>) -> int
    decreases a.len(),
{
    if a.len() == 0 {
        if b.len() == 0 {
            0
        } else {
            -1
        }
    } else if b.len() == 0 {
        1
    } else if lex_order(a[0], b[0]) != 0 {
        lex_order(a[0], b[0])
    } else {
        path_order(a.drop_first(), b.drop_first())
    }
}

/// Comparing the other way round turns the sign; only equal paths tie.
pub proof fn lemma_path_order_antisymmetric(a: Seq<Seq<char>>, b: Seq<Seq<char>>)
    ensures
        path_order(a, b) == -path_order(b, a),
        -1 <= path_order(a, b) <= 1,
        path_order(a, b) == 0 <==> a == b,
    decreases a.len(),
{
    if a.len() > 0 && b.len() > 0 {
        lemma_lex_order_antisymmetric(a[0], b[0]);
        lemma_path_order_antisymmetric(a.drop_first(), b.drop_first());
        if lex_order(a[0], b[0]) == 0 && a.drop_first() == b.drop_first() {
            assert(a =~= seq![a[0]] + a.drop_first());
            assert(b =~= seq![b[0]] + b.drop_first());
        }
        if a == b {
            assert(a.drop_first() =~= b.drop_first());
        }
    }
    if a.len() == 0 && b.len() == 0 {
        assert(a =~= b);
    }
}

/// A path before a path before a third comes before the third.
pub proof fn lemma_path_less_transitive(a: Seq<Seq<char>>, b: Seq<Seq<char>>, c: Seq<Seq<char>>)
    requires
        path_order(a, b) == -1,
        path_order(b, c) == -1,
    ensures
        path_order(a, c) == -1,
    decreases a.len(),
{
    if a.len() > 0 && b.len() > 0 && c.len() > 0 {
        lemma_lex_order_antisymmetric(a[0], b[0]);
        lemma_lex_order_antisymmetric(b[0], c[0]);
        lemma_lex_order_antisymmetric(a[0], c[0]);
        crate::browser::lemma_lex_order_chains(a[0], b[0], c[0]);
        if lex_order(a[0], b[0]) == 0 && lex_order(b[0], c[0]) == 0 {
            lemma_path_less_transitive(a.drop_first(), b.drop_first(), c.drop_first());
        }
        if lex_order(a[0], b[0]) == 0 {
            assert(a[0] == b[0]);
        }
        if lex_order(b[0], c[0]) == 0 {
            assert(b[0] == c[0]);
        }
    }
}

/// `path_order` of two component lists.
fn path_sign(a: &Vec<String>, b: &Vec<String>) -> (r: i8)
    ensures
        r == path_order(views(a@), views(b@)),
{
    let ghost va = views(a@);
    let ghost vb = views(b@);
    let mut i: usize = 0;
    assert(va.skip(0) =~= va);
    assert(vb.skip(0) =~= vb);
    while i < a.len() && i < b.len()
        invariant
            va == views(a@),
            vb == views(b@),
            i <= a@.len(),
            i <= b@.len(),
            path_order(va, vb) == path_order(va.skip(i as int), vb.skip(i as int)),
        decreases a@.len() - i,
    {
        let ghost sa = va.skip(i as int);
        let ghost sb = vb.skip(i as int);
        assert(sa[0] == a@[i as int]@);
        assert(sb[0] == b@[i as int]@);
        let ca = chars_of(a[i].as_str());
        let cb = chars_of(b[i].as_str());
        let c = lex_sign(&ca, &cb);
        if c != 0 {
            return c;
        }
        assert(sa.drop_first() =~= va.skip(i + 1));
        assert(sb.drop_first() =~= vb.skip(i + 1));
        i = i + 1;
    }
    if i < a.len() {
        1
    } else if i < b.len() {
        -1
    } else {
        0
    }
}

/// How many leading components of an entry's path name folders: all of a
/// folder entry's, all but the last of any other entry's.
pub open spec fn folder_depth(item: PakItem) -> int {
    let n = spec_path_components(item.path@).len();
    if item.kind == PakEntryKind::Directory {
        n as int
    } else if n > 0 {
        n - 1
    } else {
        0
    }
}

/// Whether `x` is a folder of the archive: some entry's first `l`
/// components, for `l` in `1..=folder_depth`.
pub open spec fn is_folder_of(items: Seq<PakItem>, x: Seq<Seq<char>>) -> bool {
    exists|i: int, l: int|
        0 <= i < items.len() && 1 <= l <= folder_depth(items[i]) && x == #[trigger] spec_path_components(
            items[i].path@,
        ).take(l)
}

/// Whether the folder paths are strictly increasing.
pub open spec fn paths_increasing(v: Seq<Seq<Seq<char>>>) -> bool {
    forall|k: int, l: int| 0 <= k < l < v.len() ==> path_order(#[trigger] v[k], #[trigger] v[l]) == -1
}

/// The component views of a list of folder paths.
pub open spec fn path_views(v: Seq<Vec<String>>) -> Seq<Seq<Seq<char>>> {
    v.map_values(|p: Vec<String>| views(p@))
}

/// Adds `p` to the strictly increasing `set`, unless it is there already.
fn insert_path(set: &mut Vec<Vec<String>>, p: Vec<String>)
    requires
        paths_increasing(path_views(old(set)@)),
    ensures
        paths_increasing(path_views(final(set)@)),
        forall|x: Seq<Seq<char>>| #[trigger] path_views(final(set)@).contains(x) <==> (path_views(old(set)@).contains(x) || x == views(p@)),
{
    let ghost old_views = path_views(set@);
    let ghost key = views(p@);
    let mut pos: usize = 0;
    let mut here_sign: i8 = -1;
    while pos < set.len()
        invariant
            pos <= set@.len(),
            key == views(p@),
            old_views == path_views(set@),
            paths_increasing(old_views),
            forall|q: int| 0 <= q < pos ==> path_order(#[trigger] old_views[q], key) == -1,
        ensures
            pos <= set@.len(),
            forall|q: int| 0 <= q < pos ==> path_order(#[trigger] old_views[q], key) == -1,
            pos < set@.len() ==> here_sign == path_order(old_views[pos as int], key) && here_sign >= 0,
        decreases set@.len() - pos,
    {
        proof {
            lemma_path_order_antisymmetric(old_views[pos as int], key);
        }
        let c = path_sign(&set[pos], &p);
        if c >= 0 {
            here_sign = c;
            break;
        }
        pos = pos + 1;
    }
    assert(old_views.len() == set@.len());
    proof {
        if pos < old_views.len() {
            lemma_path_order_antisymmetric(old_views[pos as int], key);
        }
    }
    if pos < set.len() && here_sign == 0 {
        assert(old_views[pos as int] == key);
        assert(old_views.contains(key));
        return;
    }
    set.insert(pos, p);
    proof {
        let nv = path_views(set@);
        assert(nv =~= old_views.insert(pos as int, key));
        assert forall|k: int, l: int| 0 <= k < l < nv.len() implies path_order(#[trigger] nv[k], #[trigger] nv[l]) == -1 by {
            if l < pos {
                assert(nv[k] == old_views[k] && nv[l] == old_views[l]);
            } else if l == pos {
                assert(nv[k] == old_views[k]);
            } else if k == pos {
                assert(nv[l] == old_views[l - 1]);
                lemma_path_order_antisymmetric(old_views[pos as int], key);
                if l - 1 > pos {
                    lemma_path_less_transitive(key, old_views[pos as int], old_views[l - 1]);
                }
            } else if k < pos {
                assert(nv[k] == old_views[k] && nv[l] == old_views[l - 1]);
            } else {
                assert(nv[k] == old_views[k - 1] && nv[l] == old_views[l - 1]);
            }
        }
        assert forall|x: Seq<Seq<char>>| #[trigger] nv.contains(x) <==> (old_views.contains(x) || x == key) by {
            if nv.contains(x) {
                let w = choose|w: int| 0 <= w < nv.len() && nv[w] == x;
                if w < pos {
                    assert(old_views[w] == x);
                } else if w > pos {
                    assert(old_views[w - 1] == x);
                }
            }
            if old_views.contains(x) {
                let w = choose|w: int| 0 <= w < old_views.len() && old_views[w] == x;
                if w < pos {
                    assert(nv[w] == x);
                } else {
                    assert(nv[w + 1] == x);
                }
            }
            if x == key {
                assert(nv[pos as int] == x);
            }
        }
    }
}

/// Whether `x` is among the first `1..=j` components of `parts`.
pub open spec fn leading_path(parts: Seq<Seq<char>>, j: int, x: Seq<Seq<char>>) -> bool {
    exists|l: int| 1 <= l <= j && x == #[trigger] parts.take(l)
}

/// The folders of the archive, each once, in ascending order.
pub fn all_directories(items: &Vec<PakItem>) -> (dirs: Vec<Vec<String>>)
    ensures
        paths_increasing(path_views(dirs@)),
        forall|x: Seq<Seq<char>>| #[trigger] path_views(dirs@).contains(x) <==> is_folder_of(items@, x),
{
    let mut dirs: Vec<Vec<String>> = Vec::new();
    let mut i: usize = 0;
    while i < items.len()
        invariant
            i <= items@.len(),
            paths_increasing(path_views(dirs@)),
            forall|x: Seq<Seq<char>>| #[trigger] path_views(dirs@).contains(x) <==> is_folder_of(items@.take(i as int), x),
        decreases items@.len() - i,
    {
        let comps = path_components(items[i].path.as_str());
        let ghost parts = spec_path_components(items@[i as int].path@);
        assert(views(comps@) == parts);
        assert(parts.len() == comps@.len());
        let depth = if items[i].kind == PakEntryKind::Directory {
            comps.len()
        } else if comps.len() > 0 {
            comps.len() - 1
        } else {
            0
        };
        assert(depth == folder_depth(items@[i as int]));
        let ghost before = path_views(dirs@);
        assert forall|x: Seq<Seq<char>>| #[trigger] path_views(dirs@).contains(x) <==> (before.contains(x) || leading_path(parts, 0, x)) by {}
        let mut prefix: Vec<String> = Vec::new();
        let mut l: usize = 0;
        while l < depth
            invariant
                i < items@.len(),
                l <= depth <= comps@.len(),
                views(comps@) == parts,
                parts.len() == comps@.len(),
                prefix@.len() == l,
                views(prefix@) == parts.take(l as int),
                paths_increasing(path_views(dirs@)),
                forall|x: Seq<Seq<char>>|
                    #[trigger] path_views(dirs@).contains(x) <==> (before.contains(x) || leading_path(parts, l as int, x)),
            decreases depth - l,
        {
            let ghost old_prefix = views(prefix@);
            let part = comps[l].clone();
            assert(part@ == parts[l as int]);
            prefix.push(part);
            assert forall|j: int| 0 <= j < l + 1 implies #[trigger] views(prefix@)[j] == parts.take(l + 1)[j] by {
                if j < l {
                    assert(views(prefix@)[j] == prefix@[j]@);
                    assert(old_prefix[j] == parts[j]);
                }
            }
            assert(views(prefix@) =~= parts.take(l + 1));
            let mut copy: Vec<String> = Vec::new();
            let mut k: usize = 0;
            while k < prefix.len()
                invariant
                    k <= prefix@.len(),
                    copy@.len() == k,
                    forall|j: int| 0 <= j < k ==> #[trigger] copy@[j]@ == prefix@[j]@,
                decreases prefix@.len() - k,
            {
                copy.push(prefix[k].clone());
                k = k + 1;
            }
            assert(views(copy@) =~= views(prefix@));
            let ghost prev = path_views(dirs@);
            insert_path(&mut dirs, copy);
            assert forall|x: Seq<Seq<char>>|
                #[trigger] path_views(dirs@).contains(x) <==> (before.contains(x) || leading_path(parts, l + 1, x)) by {
                assert(prev.contains(x) <==> (before.contains(x) || leading_path(parts, l as int, x)));
                if leading_path(parts, l + 1, x) {
                    let m = choose|m: int| 1 <= m <= l + 1 && x == #[trigger] parts.take(m);
                    if m <= l {
                        assert(leading_path(parts, l as int, x));
                    }
                }
                if leading_path(parts, l as int, x) {
                    let m = choose|m: int| 1 <= m <= l && x == #[trigger] parts.take(m);
                    assert(leading_path(parts, l + 1, x));
                }
                if x == parts.take(l + 1) {
                    assert(leading_path(parts, l + 1, x));
                }
            }
            l = l + 1;
        }
        proof {
            let s0 = items@.take(i as int);
            let s1 = items@.take(i + 1);
            assert forall|x: Seq<Seq<char>>| #[trigger] path_views(dirs@).contains(x) <==> is_folder_of(s1, x) by {
                assert(before.contains(x) <==> is_folder_of(s0, x));
                if is_folder_of(s1, x) {
                    let (a, m) = choose|a: int, m: int|
                        0 <= a < s1.len() && 1 <= m <= folder_depth(s1[a]) && x == #[trigger] spec_path_components(
                            s1[a].path@,
                        ).take(m);
                    if a < i {
                        assert(s0[a] == s1[a]);
                        assert(is_folder_of(s0, x));
                    } else {
                        assert(s1[a] == items@[i as int]);
                        assert(leading_path(parts, depth as int, x));
                    }
                }
                if is_folder_of(s0, x) {
                    let (a, m) = choose|a: int, m: int|
                        0 <= a < s0.len() && 1 <= m <= folder_depth(s0[a]) && x == #[trigger] spec_path_components(
                            s0[a].path@,
                        ).take(m);
                    assert(s1[a] == s0[a]);
                    assert(is_folder_of(s1, x));
                }
                if leading_path(parts, depth as int, x) {
                    let m = choose|m: int| 1 <= m <= depth && x == #[trigger] parts.take(m);
                    assert(s1[i as int] == items@[i as int]);
                    assert(x == spec_path_components(s1[i as int].path@).take(m));
                    assert(is_folder_of(s1, x));
                }
            }
        }
        i = i + 1;
    }
    assert(items@.take(items@.len() as int) =~= items@);
    dirs
}

} // verus!
