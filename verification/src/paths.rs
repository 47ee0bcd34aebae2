//! Path arithmetic over plain strings: joining components and the
//! descendant check that guards cache deletion.

use vstd::prelude::*;

verus! {

/// `a` and `b` joined with a single separator.
pub open spec fn spec_join(a: Seq<char>, b: Seq<char>) -> Seq<char> {
    a + seq!['/'] + b
}

/// True when `child` names `root` itself or a path strictly below it: it
/// extends `root` with a separator at the boundary.
pub open spec fn spec_is_descendant(child: Seq<char>, root: Seq<char>) -> bool {
    child == root || (child.len() > root.len() && child.subrange(0, root.len() as int) == root
        && child[root.len() as int] == '/')
}

/// Joins two path components with a separator.
pub fn join(a: &str, b: &str) -> (r: String)
    ensures
        r@ == spec_join(a@, b@),
{
    proof {
        reveal_strlit("/");
    }
    let mut s = a.to_owned();
    s.append("/");
    s.append(b);
    proof {
        assert(s@ =~= spec_join(a@, b@));
    }
    s
}

/// Whether `child` lies at or below `root`; deletions inside the cache are
/// attempted only when this holds of the doomed path and the cache root.
pub fn path_is_descendant(child: &str, root: &str) -> (r: bool)
    ensures
        r == spec_is_descendant(child@, root@),
{
    let cl = child.unicode_len();
    let rl = root.unicode_len();
    if cl < rl {
        return false;
    }
    let mut i: usize = 0;
    while i < rl
        invariant
            rl <= cl,
            cl == child@.len(),
            rl == root@.len(),
            i <= rl,
            forall|j: int| 0 <= j < i ==> child@[j] == root@[j],
        decreases rl - i,
    {
        if child.get_char(i) != root.get_char(i) {
            proof {
                assert(child@ != root@);
                assert(child@.len() > root@.len() ==> child@.subrange(0, root@.len() as int)[i
                    as int] != root@[i as int]);
            }
            return false;
        }
        i = i + 1;
    }
    if cl == rl {
        proof {
            assert(child@ =~= root@);
        }
        true
    } else {
        let boundary = child.get_char(rl);
        proof {
            assert(child@.subrange(0, root@.len() as int) =~= root@);
        }
        boundary == '/'
    }
}

/// A joined path always lies strictly below its first component.
pub proof fn lemma_join_is_descendant(a: Seq<char>, b: Seq<char>)
    ensures
        spec_is_descendant(spec_join(a, b), a),
{
    assert(spec_join(a, b).subrange(0, a.len() as int) =~= a);
    assert(spec_join(a, b)[a.len() as int] == '/');
}

} // verus!
