use vstd::prelude::*;

verus! {

/// Index of the last '/' in `s`, or -1 when `s` holds none.
pub open spec fn last_slash(s: Seq<char>) -> int
    decreases s.len(),
{
    if s.len() == 0 {
        -1
    } else if s[s.len() - 1] == '/' {
        s.len() - 1
    } else {
        last_slash(s.drop_last())
    }
}

/// The parent directory of a path, written the way the traversal provider
/// writes paths: everything before the last '/'; "/r" has parent "/"; a
/// path without any '/' and the root "/" itself have none.
pub open spec fn parent_dir(s: Seq<char>) -> Option<Seq<char>> {
    let k = last_slash(s);
    if k < 0 {
        None
    } else if k == 0 {
        if s.len() > 1 {
            Some(s.subrange(0, 1))
        } else {
            None
        }
    } else {
        Some(s.subrange(0, k))
    }
}

/// `a` names a directory strictly above `p` in the hierarchy: either `a`
/// is the root "/" and `p` lies below it, or `a` is a proper prefix of
/// `p` ending at a path separator.
pub open spec fn is_strict_ancestor(a: Seq<char>, p: Seq<char>) -> bool {
    if a == seq!['/'] {
        p.len() > 1 && p[0] == '/'
    } else {
        &&& a.len() < p.len()
        &&& p.subrange(0, a.len() as int) == a
        &&& p[a.len() as int] == '/'
    }
}

/// `last_slash` finds the last separator: it stays inside the sequence,
/// points at a '/', and nothing after it is a '/'.
pub proof fn lemma_last_slash(s: Seq<char>)
    ensures
        -1 <= last_slash(s) < s.len(),
        last_slash(s) >= 0 ==> s[last_slash(s)] == '/',
        forall|j: int| last_slash(s) < j < s.len() ==> s[j] != '/',
    decreases s.len(),
{
    if s.len() == 0 {
    } else if s[s.len() - 1] == '/' {
    } else {
        lemma_last_slash(s.drop_last());
        assert forall|j: int| last_slash(s) < j < s.len() implies s[j] != '/' by {
            if j < s.len() - 1 {
                assert(s.drop_last()[j] == s[j]);
            }
        }
    }
}

/// If `k` points at a '/' and no later position does, then `k` is the
/// last separator.
pub proof fn lemma_last_slash_at(s: Seq<char>, k: int)
    requires
        0 <= k < s.len(),
        s[k] == '/',
        forall|j: int| k < j < s.len() ==> s[j] != '/',
    ensures
        last_slash(s) == k,
    decreases s.len(),
{
    if k == s.len() - 1 {
    } else {
        assert(s[s.len() - 1] != '/');
        assert(forall|j: int| k < j < s.drop_last().len() ==> s.drop_last()[j] == s[j]);
        assert(s.drop_last()[k] == s[k]);
        lemma_last_slash_at(s.drop_last(), k);
    }
}

/// A sequence without any '/' has no last separator.
pub proof fn lemma_no_slash(s: Seq<char>)
    requires
        forall|j: int| 0 <= j < s.len() ==> s[j] != '/',
    ensures
        last_slash(s) == -1,
    decreases s.len(),
{
    if s.len() > 0 {
        assert(forall|j: int| 0 <= j < s.drop_last().len() ==> s.drop_last()[j] == s[j]);
        lemma_no_slash(s.drop_last());
    }
}

/// The parent directory of a path computed on character sequences.
pub fn parent_dir_of(p: &str) -> (r: Option<String>)
    ensures
        match r {
            Some(q) => parent_dir(p@) == Some(q@),
            None => parent_dir(p@) is None,
        },
{
    let n = p.unicode_len();
    let mut i = n;
    loop
        invariant
            0 <= i <= n,
            n == p@.len(),
            forall|j: int| i <= j < n ==> p@[j] != '/',
        decreases i,
    {
        if i == 0 {
            proof {
                lemma_no_slash(p@);
            }
            return None;
        }
        i = i - 1;
        if p.get_char(i) == '/' {
            proof {
                lemma_last_slash_at(p@, i as int);
            }
            if i == 0 {
                if n > 1 {
                    return Some(p.substring_char(0, 1).to_owned());
                } else {
                    return None;
                }
            } else {
                return Some(p.substring_char(0, i).to_owned());
            }
        }
    }
}

/// Whether `a` names a directory strictly above `p`, computed on
/// character sequences.
pub fn is_strict_ancestor_of(a: &str, p: &str) -> (r: bool)
    ensures
        r == is_strict_ancestor(a@, p@),
{
    let alen = a.unicode_len();
    let plen = p.unicode_len();
    if alen == 1 && a.get_char(0) == '/' {
        proof {
            assert(a@ =~= seq!['/']);
        }
        return plen > 1 && p.get_char(0) == '/';
    }
    proof {
        if a@ == seq!['/'] {
            assert(a@.len() == 1 && a@[0] == '/');
        }
    }
    if alen >= plen {
        return false;
    }
    let mut i: usize = 0;
    while i < alen
        invariant
            0 <= i <= alen,
            alen == a@.len(),
            plen == p@.len(),
            alen < plen,
            forall|j: int| 0 <= j < i ==> a@[j] == p@[j],
        decreases alen - i,
    {
        if a.get_char(i) != p.get_char(i) {
            proof {
                assert(p@.subrange(0, alen as int)[i as int] == p@[i as int]);
            }
            return false;
        }
        i = i + 1;
    }
    proof {
        assert(p@.subrange(0, alen as int) =~= a@);
    }
    p.get_char(alen) == '/'
}

/// Being strictly above is transitive: what lies below `b` lies below
/// every directory above `b`.
pub proof fn lemma_strict_ancestor_transitive(a: Seq<char>, b: Seq<char>, c: Seq<char>)
    requires
        is_strict_ancestor(a, b),
        is_strict_ancestor(b, c),
    ensures
        is_strict_ancestor(a, c),
{
    if a == seq!['/'] {
        if b == seq!['/'] {
        } else {
            assert(c[0] == b[0]);
            assert(b[0] == b.subrange(0, a.len() as int)[0]);
        }
    } else if b == seq!['/'] {
        assert(a.len() < 1);
        assert(c.subrange(0, 0) =~= a);
    } else {
        assert forall|j: int| 0 <= j < a.len() implies c[j] == a[j] by {
            assert(c.subrange(0, b.len() as int)[j] == c[j]);
            assert(b.subrange(0, a.len() as int)[j] == b[j]);
        }
        assert(c.subrange(0, a.len() as int) =~= a);
        assert(c[a.len() as int] == c.subrange(0, b.len() as int)[a.len() as int]);
    }
}

} // verus!
