//! Small verified helpers on string slices.

use vstd::prelude::*;

verus! {

/// Lexicographic order on character sequences, by code point: the empty
/// sequence first, then by the first differing character.
pub open spec fn spec_chars_le(a: Seq<char>, b: Seq<char>) -> bool
    decreases a.len(),
{
    if a.len() == 0 {
        true
    } else if b.len() == 0 {
        false
    } else if (a[0] as u32) < (b[0] as u32) {
        true
    } else if (a[0] as u32) > (b[0] as u32) {
        false
    } else {
        spec_chars_le(a.drop_first(), b.drop_first())
    }
}

/// The order is total: of any two sequences, one is less or equal to the
/// other.
pub proof fn lemma_chars_le_total(a: Seq<char>, b: Seq<char>)
    ensures
        spec_chars_le(a, b) || spec_chars_le(b, a),
    decreases a.len(),
{
    if a.len() > 0 && b.len() > 0 && (a[0] as u32) == (b[0] as u32) {
        lemma_chars_le_total(a.drop_first(), b.drop_first());
    }
}

/// The order is transitive.
pub proof fn lemma_chars_le_trans(a: Seq<char>, b: Seq<char>, c: Seq<char>)
    requires
        spec_chars_le(a, b),
        spec_chars_le(b, c),
    ensures
        spec_chars_le(a, c),
    decreases a.len(),
{
    if a.len() > 0 {
        if b.len() > 0 && c.len() > 0 && (a[0] as u32) == (b[0] as u32) && (b[0] as u32) == (c[0]
            as u32) {
            lemma_chars_le_trans(a.drop_first(), b.drop_first(), c.drop_first());
        }
    }
}

/// Whether `a` sorts at or before `b` in the code-point order.
pub fn str_le(a: &str, b: &str) -> (r: bool)
    ensures
        r == spec_chars_le(a@, b@),
{
    let al = a.unicode_len();
    let bl = b.unicode_len();
    let mut i: usize = 0;
    proof {
        assert(a@.skip(0) =~= a@);
        assert(b@.skip(0) =~= b@);
    }
    while i < al && i < bl
        invariant
            al == a@.len(),
            bl == b@.len(),
            i <= al,
            i <= bl,
            spec_chars_le(a@, b@) == spec_chars_le(a@.skip(i as int), b@.skip(i as int)),
        decreases al - i,
    {
        let ca = a.get_char(i) as u32;
        let cb = b.get_char(i) as u32;
        if ca != cb {
            proof {
                assert(a@.skip(i as int)[0] == a@[i as int]);
                assert(b@.skip(i as int)[0] == b@[i as int]);
            }
            return ca < cb;
        }
        proof {
            assert(a@.skip(i as int)[0] == a@[i as int]);
            assert(b@.skip(i as int)[0] == b@[i as int]);
            assert(a@.skip(i as int).drop_first() =~= a@.skip(i + 1 as int));
            assert(b@.skip(i as int).drop_first() =~= b@.skip(i + 1 as int));
        }
        i = i + 1;
    }
    proof {
        if i >= al {
            assert(a@.skip(i as int).len() == 0);
        } else {
            assert(b@.skip(i as int).len() == 0);
            assert(a@.skip(i as int).len() > 0);
        }
    }
    al <= bl
}

/// Whether two string slices hold the same characters.
pub fn str_eq(a: &str, b: &str) -> (r: bool)
    ensures
        r == (a@ == b@),
{
    let al = a.unicode_len();
    let bl = b.unicode_len();
    if al != bl {
        return false;
    }
    let mut i: usize = 0;
    while i < al
        invariant
            al == a@.len(),
            al == b@.len(),
            i <= al,
            forall|j: int| 0 <= j < i ==> a@[j] == b@[j],
        decreases al - i,
    {
        if a.get_char(i) != b.get_char(i) {
            return false;
        }
        i = i + 1;
    }
    proof {
        assert(a@ =~= b@);
    }
    true
}

} // verus!
