use vstd::prelude::*;

verus! {

/// `p` is a leading prefix of `s`.
pub open spec fn is_prefix(p: Seq<char>, s: Seq<char>) -> bool {
    p.len() <= s.len() && s.subrange(0, p.len() as int) == p
}

/// Character-for-character equality of two string slices.
pub fn str_eq(a: &str, b: &str) -> (r: bool)
    ensures
        r == (a@ == b@),
{
    let sa = a.to_owned();
    let sb = b.to_owned();
    sa == sb
}

/// Whether `p` is a leading prefix of `s`.
pub fn str_has_prefix(s: &str, p: &str) -> (r: bool)
    ensures
        r == is_prefix(p@, s@),
{
    let pl = p.unicode_len();
    let sl = s.unicode_len();
    if pl > sl {
        return false;
    }
    let head = s.substring_char(0, pl);
    str_eq(head, p)
}

/// Whether some string of `v` reads as `s`.
pub fn contains_str(v: &Vec<String>, s: &str) -> (r: bool)
    ensures
        r == v.deep_view().contains(s@),
{
    let mut i: usize = 0;
    while i < v.len()
        invariant
            0 <= i <= v.len(),
            forall|k: int| 0 <= k < i ==> v.deep_view()[k] != s@,
        decreases v.len() - i,
    {
        if str_eq(v[i].as_str(), s) {
            assert(v.deep_view()[i as int] == s@);
            return true;
        }
        i += 1;
    }
    false
}

/// The strings of `a` that also stand in `b`, in `a`'s order.
pub open spec fn collisions(a: Seq<Seq<char>>, b: Seq<Seq<char>>) -> Seq<Seq<char>> {
    a.filter(|x: Seq<char>| b.contains(x))
}

/// How `collisions` grows when a string is appended.
pub proof fn lemma_collisions_push(a: Seq<Seq<char>>, b: Seq<Seq<char>>, x: Seq<char>)
    ensures
        collisions(a.push(x), b) == if b.contains(x) {
            collisions(a, b).push(x)
        } else {
            collisions(a, b)
        },
{
    reveal(Seq::filter);
    assert(a.push(x).drop_last() =~= a);
    if b.contains(x) {
        assert(collisions(a.push(x), b) =~= collisions(a, b).push(x));
    } else {
        assert(collisions(a.push(x), b) =~= collisions(a, b));
    }
}

/// The two string sequences have at least one string in common.
pub open spec fn shares_one(a: Seq<Seq<char>>, b: Seq<Seq<char>>) -> bool {
    exists|t: Seq<char>| a.contains(t) && b.contains(t)
}

/// Whether the two string lists share at least one string.
pub fn share_one(a: &Vec<String>, b: &Vec<String>) -> (r: bool)
    ensures
        r == shares_one(a.deep_view(), b.deep_view()),
{
    let mut i: usize = 0;
    while i < a.len()
        invariant
            0 <= i <= a.len(),
            forall|k: int| 0 <= k < i ==> !b.deep_view().contains(#[trigger] a.deep_view()[k]),
        decreases a.len() - i,
    {
        if contains_str(b, a[i].as_str()) {
            assert(a.deep_view().contains(a.deep_view()[i as int]));
            return true;
        }
        i += 1;
    }
    assert forall|t: Seq<char>| a.deep_view().contains(t) implies !b.deep_view().contains(t) by {
        let k = choose|k: int| 0 <= k < a.deep_view().len() && a.deep_view()[k] == t;
        assert(!b.deep_view().contains(a.deep_view()[k]));
    }
    assert(!shares_one(a.deep_view(), b.deep_view()));
    false
}

} // verus!
