use vstd::prelude::*;

verus! {

broadcast use {vstd::std_specs::vec::group_vec_axioms, vstd::seq::group_seq_axioms};

/// `p` occurs in `s` starting at `i`.
pub open spec fn occurs_at(s: Seq<char>, p: Seq<char>, i: int) -> bool {
    0 <= i && i + p.len() <= s.len() && s.subrange(i, i + p.len()) == p
}

/// `p` occurs somewhere in `s`.
pub open spec fn contains(s: Seq<char>, p: Seq<char>) -> bool {
    exists|i: int| occurs_at(s, p, i)
}

/// The position just after the last `c` in `s`, or 0 where there is none.
pub open spec fn after_last(s: Seq<char>, c: char) -> int
    decreases s.len(),
{
    if s.len() == 0 {
        0
    } else if s.last() == c {
        s.len() as int
    } else {
        after_last(s.drop_last(), c)
    }
}

/// The first position at or after `i` that holds `c`, or the end of `s`.
pub open spec fn index_from(s: Seq<char>, c: char, i: int) -> int
    decreases s.len() - i,
{
    if i < 0 || i >= s.len() {
        s.len() as int
    } else if s[i] == c {
        i
    } else {
        index_from(s, c, i + 1)
    }
}

/// What follows the last `c` of `s` (all of `s` where it has none).
pub open spec fn last_piece(s: Seq<char>, c: char) -> Seq<char> {
    s.subrange(after_last(s, c), s.len() as int)
}

/// The second of the `c`-separated pieces of `s`, or empty where `s` has
/// no `c`.
pub open spec fn second_piece(s: Seq<char>, c: char) -> Seq<char> {
    let a = index_from(s, c, 0);
    if a < s.len() {
        s.subrange(a + 1, index_from(s, c, a + 1))
    } else {
        Seq::empty()
    }
}

/// `index_from` lies between `i` and the end, at a `c` unless at the end.
pub proof fn lemma_index_from_bounds(s: Seq<char>, c: char, i: int)
    requires
        0 <= i <= s.len(),
    ensures
        i <= index_from(s, c, i) <= s.len(),
        index_from(s, c, i) < s.len() ==> s[index_from(s, c, i)] == c,
        forall|k: int| i <= k < index_from(s, c, i) ==> s[k] != c,
    decreases s.len() - i,
{
    if i < s.len() && s[i] != c {
        lemma_index_from_bounds(s, c, i + 1);
    }
}

/// `after_last` lies within `s`.
pub proof fn lemma_after_last_bounds(s: Seq<char>, c: char)
    ensures
        0 <= after_last(s, c) <= s.len(),
    decreases s.len(),
{
    if s.len() > 0 && s.last() != c {
        lemma_after_last_bounds(s.drop_last(), c);
    }
}

/// The characters of a string slice.
fn chars_of(s: &str) -> (r: Vec<char>)
    ensures
        r@ == s@,
{
    let n = s.unicode_len();
    let mut out: Vec<char> = Vec::new();
    let mut i: usize = 0;
    while i < n
        invariant
            n == s@.len(),
            i <= n,
            out@ == s@.subrange(0, i as int),
        decreases n - i,
    {
        out.push(s.get_char(i));
        i = i + 1;
    }
    assert(out@ =~= s@);
    out
}

/// Whether `p` occurs in `s` at `i`.
fn occurs_at_exec(s: &Vec<char>, p: &Vec<char>, i: usize) -> (r: bool)
    requires
        i + p@.len() <= s@.len(),
    ensures
        r == occurs_at(s@, p@, i as int),
{
    let mut k: usize = 0;
    let sl = s.len();
    while k < p.len()
        invariant
            sl == s@.len(),
            i + p@.len() <= s@.len(),
            k <= p@.len(),
            forall|j: int| 0 <= j < k ==> s@[i + j] == p@[j],
        decreases p@.len() - k,
    {
        if s[i + k] != p[k] {
            assert(s@.subrange(i as int, i + p@.len())[k as int] != p@[k as int]);
            return false;
        }
        k = k + 1;
    }
    assert(s@.subrange(i as int, i + p@.len()) =~= p@);
    true
}

/// Whether `p` occurs in `s`.
pub fn text_contains(s: &str, p: &str) -> (r: bool)
    ensures
        r == contains(s@, p@),
{
    let sc = chars_of(s);
    let pc = chars_of(p);
    if pc.len() > sc.len() {
        return false;
    }
    if pc.len() == 0 {
        assert(s@.subrange(0, 0) =~= p@);
        assert(occurs_at(s@, p@, 0));
        return true;
    }
    let sl = sc.len();
    let last = sl - pc.len();
    let mut i: usize = 0;
    while i <= last
        invariant
            sl == sc@.len(),
            sc@ == s@,
            pc@ == p@,
            pc@.len() > 0,
            last == sc@.len() - pc@.len(),
            i <= last + 1,
            forall|j: int| 0 <= j < i ==> !occurs_at(s@, p@, j),
        decreases last + 1 - i,
    {
        if occurs_at_exec(&sc, &pc, i) {
            return true;
        }
        i = i + 1;
    }
    assert forall|j: int| !occurs_at(s@, p@, j) by {
        if 0 <= j <= last {
        }
    }
    false
}

/// Whether two strings hold the same text.
pub fn text_equal(a: &str, b: &str) -> (r: bool)
    ensures
        r == (a@ == b@),
{
    let ac = chars_of(a);
    let bc = chars_of(b);
    if ac.len() != bc.len() {
        return false;
    }
    let r = occurs_at_exec(&ac, &bc, 0);
    assert(ac@.subrange(0, ac@.len() as int) =~= ac@);
    r
}

/// What follows the last `c` of `s`.
pub fn last_piece_of(s: &str, c: char) -> (r: String)
    ensures
        r@ == last_piece(s@, c),
{
    let n = s.unicode_len();
    let mut i: usize = n;
    assert(s@.subrange(0, n as int) =~= s@);
    while i > 0 && s.get_char(i - 1) != c
        invariant
            n == s@.len(),
            i <= n,
            after_last(s@, c) == after_last(s@.subrange(0, i as int), c),
        decreases i,
    {
        assert(s@.subrange(0, i as int).drop_last() =~= s@.subrange(0, i - 1));
        i = i - 1;
    }
    proof {
        let t = s@.subrange(0, i as int);
        if i > 0 {
            assert(t.last() == c);
        }
        assert(after_last(t, c) == i);
    }
    String::from_str(s.substring_char(i, n))
}

/// The second of the `c`-separated pieces of `s`, or empty.
pub fn second_piece_of(s: &str, c: char) -> (r: String)
    ensures
        r@ == second_piece(s@, c),
{
    let n = s.unicode_len();
    let mut a: usize = 0;
    while a < n && s.get_char(a) != c
        invariant
            n == s@.len(),
            a <= n,
            index_from(s@, c, 0) == index_from(s@, c, a as int),
        decreases n - a,
    {
        a = a + 1;
    }
    if a >= n {
        return String::new();
    }
    let mut b: usize = a + 1;
    while b < n && s.get_char(b) != c
        invariant
            n == s@.len(),
            a < b <= n,
            index_from(s@, c, a + 1) == index_from(s@, c, b as int),
        decreases n - b,
    {
        b = b + 1;
    }
    String::from_str(s.substring_char(a + 1, b))
}

} // verus!
