use vstd::prelude::*;

use crate::entry::{EntryView, RawEntry};
use crate::filters::{EntryFilter, EntryMapper};
use crate::paths::{is_strict_ancestor, is_strict_ancestor_of, lemma_strict_ancestor_transitive};

verus! {

/// Position `i` is cut away without its own verdict being taken: some
/// earlier entry is a directory above it that was itself evaluated and
/// rejected by the filter.
pub open spec fn pruned_at<FF: EntryFilter>(s: Seq<EntryView>, f: &FF, i: int) -> bool
    decreases i,
{
    exists|j: int|
        0 <= j < i && !pruned_at(s, f, j) && (#[trigger] s[j]).is_dir && !f.accepts(s[j])
            && is_strict_ancestor(s[j].path, s[i].path)
}

/// Position `i` survives the filter: no rejected directory above it cuts
/// it away, and the filter accepts the entry itself.
pub open spec fn kept_at<FF: EntryFilter>(s: Seq<EntryView>, f: &FF, i: int) -> bool {
    !pruned_at(s, f, i) && f.accepts(s[i])
}

/// The surviving positions among the first `n`, in order.
pub open spec fn kept_positions<FF: EntryFilter>(s: Seq<EntryView>, f: &FF, n: int) -> Seq<int>
    decreases n,
{
    if n <= 0 {
        Seq::empty()
    } else if kept_at(s, f, n - 1) {
        kept_positions(s, f, n - 1).push(n - 1)
    } else {
        kept_positions(s, f, n - 1)
    }
}

/// Every surviving position lies among the first `n`, and it survives.
pub proof fn lemma_kept_positions_sound<FF: EntryFilter>(s: Seq<EntryView>, f: &FF, n: int)
    ensures
        forall|k: int|
            0 <= k < kept_positions(s, f, n).len() ==> 0 <= #[trigger] kept_positions(s, f, n)[k]
                < n && kept_at(s, f, kept_positions(s, f, n)[k]),
    decreases n,
{
    if n > 0 {
        lemma_kept_positions_sound(s, f, n - 1);
        assert forall|k: int|
            0 <= k < kept_positions(s, f, n).len() implies 0 <= #[trigger] kept_positions(
            s,
            f,
            n,
        )[k] < n && kept_at(s, f, kept_positions(s, f, n)[k]) by {
            if kept_at(s, f, n - 1) {
                if k < kept_positions(s, f, n - 1).len() {
                    assert(kept_positions(s, f, n)[k] == kept_positions(s, f, n - 1)[k]);
                } else {
                    assert(kept_positions(s, f, n)[k] == n - 1);
                }
            } else {
                assert(kept_positions(s, f, n)[k] == kept_positions(s, f, n - 1)[k]);
            }
        }
    }
}

/// Every position that survives stands among the surviving positions.
pub proof fn lemma_kept_positions_complete<FF: EntryFilter>(s: Seq<EntryView>, f: &FF, n: int, j: int)
    requires
        0 <= j < n,
        kept_at(s, f, j),
    ensures
        kept_positions(s, f, n).contains(j),
    decreases n,
{
    if j == n - 1 {
        assert(kept_positions(s, f, n).last() == j);
    } else {
        lemma_kept_positions_complete(s, f, n - 1, j);
        let k = choose|k: int|
            0 <= k < kept_positions(s, f, n - 1).len() && #[trigger] kept_positions(
                s,
                f,
                n - 1,
            )[k] == j;
        assert(kept_positions(s, f, n)[k] == j);
    }
}

/// Prune semantics: once the filter rejects a directory entry, no later
/// entry below that directory survives, whether the rejected directory
/// was itself evaluated or had already been cut away by a directory
/// above it.
pub proof fn lemma_prune_semantics<FF: EntryFilter>(s: Seq<EntryView>, f: &FF, d: int, x: int)
    requires
        0 <= d < x < s.len(),
        s[d].is_dir,
        !f.accepts(s[d]),
        is_strict_ancestor(s[d].path, s[x].path),
    ensures
        !kept_at(s, f, x),
{
    if !pruned_at(s, f, d) {
        assert(pruned_at(s, f, x));
    } else {
        let j = choose|j: int|
            0 <= j < d && !pruned_at(s, f, j) && (#[trigger] s[j]).is_dir && !f.accepts(s[j])
                && is_strict_ancestor(s[j].path, s[d].path);
        lemma_strict_ancestor_transitive(s[j].path, s[d].path, s[x].path);
        assert(pruned_at(s, f, x));
    }
}

/// Prune semantics at the level of the collected paths: when the filter
/// rejects a directory entry and the entries carry pairwise distinct
/// paths, the path of a later entry below that directory is not among
/// the surviving paths at all.
pub proof fn lemma_prune_excludes<FF: EntryFilter>(s: Seq<EntryView>, f: &FF, d: int, x: int)
    requires
        0 <= d < x < s.len(),
        s[d].is_dir,
        !f.accepts(s[d]),
        is_strict_ancestor(s[d].path, s[x].path),
        forall|a: int, b: int|
            0 <= a < b < s.len() ==> (#[trigger] s[a]).path != (#[trigger] s[b]).path,
    ensures
        forall|k: int|
            0 <= k < kept_positions(s, f, s.len() as int).len() ==> s[#[trigger] kept_positions(
                s,
                f,
                s.len() as int,
            )[k]].path != s[x].path,
{
    lemma_prune_semantics(s, f, d, x);
    lemma_kept_positions_sound(s, f, s.len() as int);
    assert forall|k: int|
        0 <= k < kept_positions(s, f, s.len() as int).len() implies s[#[trigger] kept_positions(
        s,
        f,
        s.len() as int,
    )[k]].path != s[x].path by {
        let pos = kept_positions(s, f, s.len() as int)[k];
        if s[pos].path == s[x].path {
            if pos < x {
                assert(s[pos].path != s[x].path);
            } else if pos > x {
                assert(s[x].path != s[pos].path);
            } else {
                assert(kept_at(s, f, x));
            }
        }
    }
}

/// Applies the filter over the entries in order, with prune semantics:
/// an entry below an already rejected directory is cut away unseen; any
/// other entry is put to the filter, and a rejected directory entry
/// starts cutting away what lies below it.
#[verifier::loop_isolation(false)]
pub fn apply_filter<FF: EntryFilter>(entries: &Vec<RawEntry>, f: &FF) -> (r: Vec<RawEntry>)
    ensures
        ({
            let vs = entries@.map_values(|e: RawEntry| e@);
            let ks = kept_positions(vs, f, vs.len() as int);
            r@.len() == ks.len() && forall|k: int|
                0 <= k < ks.len() ==> (#[trigger] r@[k])@ == vs[ks[k]]
        }),
{
    let ghost vs = entries@.map_values(|e: RawEntry| e@);
    let n = entries.len();
    let mut rejected: Vec<String> = Vec::new();
    let ghost mut rjs: Seq<int> = Seq::empty();
    let mut out: Vec<RawEntry> = Vec::new();
    let mut i: usize = 0;
    proof {
        lemma_kept_positions_sound(vs, f, n as int);
    }
    while i < n
        invariant
            0 <= i <= n,
            rejected@.len() == rjs.len(),
            forall|k: int| 0 <= k < rjs.len() ==> 0 <= #[trigger] rjs[k] < i,
            forall|k: int| 0 <= k < rjs.len() ==> (#[trigger] rejected@[k])@ == vs[rjs[k]].path,
            forall|k: int|
                0 <= k < rjs.len() ==> !pruned_at(vs, f, #[trigger] rjs[k]) && vs[rjs[k]].is_dir
                    && !f.accepts(vs[rjs[k]]),
            forall|j: int|
                0 <= j < i && !pruned_at(vs, f, j) && (#[trigger] vs[j]).is_dir && !f.accepts(
                    vs[j],
                ) ==> rjs.contains(j),
            out@.len() == kept_positions(vs, f, i as int).len(),
            forall|k: int|
                0 <= k < out@.len() ==> (#[trigger] out@[k])@ == vs[kept_positions(
                    vs,
                    f,
                    i as int,
                )[k]],
        decreases n - i,
    {
        proof {
            lemma_kept_positions_sound(vs, f, i + 1);
        }
        let mut hit = false;
        let ghost mut hitk: int = 0;
        let mut k: usize = 0;
        let rl = rejected.len();
        while k < rl
            invariant
                0 <= k <= rl,
                !hit ==> forall|x: int|
                    0 <= x < k ==> !is_strict_ancestor((#[trigger] rejected@[x])@, vs[i as int].path),
                hit ==> 0 <= hitk < rjs.len() && is_strict_ancestor(
                    vs[rjs[hitk]].path,
                    vs[i as int].path,
                ),
            decreases rl - k,
        {
            if !hit {
                if is_strict_ancestor_of(rejected[k].as_str(), entries[i].path.as_str()) {
                    hit = true;
                    proof {
                        hitk = k as int;
                    }
                }
            }
            k = k + 1;
        }
        if hit {
            proof {
                let j = rjs[hitk];
                assert(0 <= j < i && !pruned_at(vs, f, j) && vs[j].is_dir && !f.accepts(vs[j])
                    && is_strict_ancestor(vs[j].path, vs[i as int].path));
                assert(pruned_at(vs, f, i as int));
                assert(!kept_at(vs, f, i as int));
            }
        } else {
            proof {
                if pruned_at(vs, f, i as int) {
                    let j = choose|j: int|
                        0 <= j < i && !pruned_at(vs, f, j) && (#[trigger] vs[j]).is_dir
                            && !f.accepts(vs[j]) && is_strict_ancestor(
                            vs[j].path,
                            vs[i as int].path,
                        );
                    assert(rjs.contains(j));
                    let k0 = choose|k0: int| 0 <= k0 < rjs.len() && rjs[k0] == j;
                    assert(is_strict_ancestor(rejected@[k0]@, vs[i as int].path));
                    assert(false);
                }
            }
            let v = f.accept(&entries[i]);
            if v {
                out.push(entries[i].duplicate());
                proof {
                    assert(kept_at(vs, f, i as int));
                    assert(kept_positions(vs, f, i + 1) == kept_positions(vs, f, i as int).push(
                        i as int,
                    ));
                }
            } else {
                proof {
                    assert(!kept_at(vs, f, i as int));
                }
                if entries[i].is_dir {
                    rejected.push(entries[i].path.clone());
                    proof {
                        let rjs0 = rjs;
                        rjs = rjs.push(i as int);
                        assert forall|j: int|
                            0 <= j < i + 1 && !pruned_at(vs, f, j) && (#[trigger] vs[j]).is_dir
                                && !f.accepts(vs[j]) implies rjs.contains(j) by {
                            if j < i {
                                assert(rjs0.contains(j));
                                let k1 = choose|k1: int|
                                    0 <= k1 < rjs0.len() && #[trigger] rjs0[k1] == j;
                                assert(rjs[k1] == j);
                            } else {
                                assert(rjs[rjs.len() - 1] == j);
                            }
                        }
                    }
                }
            }
        }
        proof {
            if !kept_at(vs, f, i as int) {
                assert(kept_positions(vs, f, i + 1) == kept_positions(vs, f, i as int));
            }
        }
        i = i + 1;
    }
    out
}

/// Applies the mapper to each surviving entry, in order.
pub fn apply_map<FM: EntryMapper>(entries: &Vec<RawEntry>, m: &FM) -> (r: Vec<FM::Data>)
    ensures
        r@.len() == entries@.len(),
        forall|i: int|
            0 <= i < entries@.len() ==> (#[trigger] r@[i])@ == m.image(entries@[i]@),
{
    let n = entries.len();
    let mut r: Vec<FM::Data> = Vec::new();
    let mut i: usize = 0;
    while i < n
        invariant
            0 <= i <= n,
            n == entries@.len(),
            r@.len() == i,
            forall|k: int| 0 <= k < i ==> (#[trigger] r@[k])@ == m.image(entries@[k]@),
        decreases n - i,
    {
        r.push(m.apply(&entries[i]));
        i = i + 1;
    }
    r
}

} // verus!
