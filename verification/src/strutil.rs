//! Character-level string helpers: searching a string for a character and
//! converting between `Vec<char>` and `String`.

use vstd::prelude::*;

verus! {

/// Index of the last occurrence of `c` in `s`, or -1 if `c` does not occur.
pub open spec fn rfind(s: Seq<char>, c: char) -> int
    decreases s.len(),
{
    if s.len() == 0 {
        -1
    } else if s.last() == c {
        s.len() - 1
    } else {
        rfind(s.drop_last(), c)
    }
}

/// `rfind` returns a valid index of `c` exactly when `c` occurs, and nothing
/// after that index is `c`.
pub proof fn lemma_rfind(s: Seq<char>, c: char)
    ensures
        -1 <= rfind(s, c) < s.len(),
        rfind(s, c) >= 0 ==> s[rfind(s, c)] == c,
        rfind(s, c) >= 0 <==> s.contains(c),
        forall|j: int| rfind(s, c) < j < s.len() ==> s[j] != c,
    decreases s.len(),
{
    if s.len() > 0 {
        lemma_rfind(s.drop_last(), c);
        assert forall|j: int| rfind(s, c) < j < s.len() implies s[j] != c by {
            if j < s.len() - 1 && s.last() != c {
                assert(s[j] == s.drop_last()[j]);
            }
        }
        if s.last() == c {
            assert(s.contains(c)) by {
                assert(s[s.len() - 1] == c);
            }
        } else {
            let sub = s.drop_last();
            if sub.contains(c) {
                let w = choose|i: int| 0 <= i < sub.len() && sub[i] == c;
                assert(s[w] == c);
                assert(s.contains(c));
            }
            if s.contains(c) {
                let w = choose|i: int| 0 <= i < s.len() && s[i] == c;
                assert(w < s.len() - 1);
                assert(sub[w] == c);
                assert(sub.contains(c));
            }
        }
    }
}

/// Position of the last `c` in `s`, if `c` occurs in `s` at all.
pub fn rfind_char(s: &str, c: char) -> (r: Option<usize>)
    ensures
        match r {
            Some(i) => i == rfind(s@, c),
            None => rfind(s@, c) == -1,
        },
{
    let n = s.unicode_len();
    let mut found: Option<usize> = None;
    let mut i: usize = 0;
    while i < n
        invariant
            n == s@.len(),
            i <= n,
            match found {
                Some(j) => j < i && j == rfind(s@.take(i as int), c),
                None => rfind(s@.take(i as int), c) == -1,
            },
        decreases n - i,
    {
        let ch = s.get_char(i);
        proof {
            assert(s@.take(i + 1).drop_last() =~= s@.take(i as int));
            assert(s@.take(i + 1).last() == s@[i as int]);
        }
        if ch == c {
            found = Some(i);
        }
        i += 1;
    }
    proof {
        assert(s@.take(n as int) =~= s@);
    }
    found
}

/// Whether `c` occurs anywhere in `s`.
pub fn contains_char(s: &str, c: char) -> (r: bool)
    ensures
        r == s@.contains(c),
{
    let n = s.unicode_len();
    let mut found = false;
    let mut i: usize = 0;
    while i < n
        invariant
            n == s@.len(),
            i <= n,
            found == s@.take(i as int).contains(c),
        decreases n - i,
    {
        let ch = s.get_char(i);
        proof {
            let pre = s@.take(i as int);
            let ext = s@.take(i + 1);
            assert(ext.drop_last() =~= pre);
            assert(ext.last() == s@[i as int]);
            if pre.contains(c) {
                let w = choose|k: int| 0 <= k < pre.len() && pre[k] == c;
                assert(ext[w] == c);
                assert(ext.contains(c));
            } else if s@[i as int] == c {
                assert(ext[i as int] == c);
                assert(ext.contains(c));
            } else {
                assert forall|k: int| 0 <= k < ext.len() implies ext[k] != c by {
                    if k < i {
                        assert(ext[k] == pre[k]);
                    }
                }
            }
        }
        if ch == c {
            found = true;
        }
        i += 1;
    }
    proof {
        assert(s@.take(n as int) =~= s@);
    }
    found
}

/// Whether two strings hold the same characters.
pub fn str_eq(a: &str, b: &str) -> (r: bool)
    ensures
        r == (a@ == b@),
{
    let na = a.unicode_len();
    let nb = b.unicode_len();
    if na != nb {
        return false;
    }
    let mut i: usize = 0;
    while i < na
        invariant
            na == a@.len(),
            na == b@.len(),
            i <= na,
            forall|k: int| 0 <= k < i ==> a@[k] == b@[k],
        decreases na - i,
    {
        if a.get_char(i) != b.get_char(i) {
            return false;
        }
        i += 1;
    }
    proof {
        assert(a@ =~= b@);
    }
    true
}

/// Appends every character of `add` to `out`.
pub fn push_chars(out: &mut Vec<char>, add: &Vec<char>)
    ensures
        final(out)@ == old(out)@ + add@,
{
    let mut j: usize = 0;
    while j < add.len()
        invariant
            j <= add.len(),
            out@ == old(out)@ + add@.take(j as int),
        decreases add.len() - j,
    {
        out.push(add[j]);
        proof {
            assert(add@.take(j + 1) =~= add@.take(j as int).push(add@[j as int]));
            assert(out@ =~= old(out)@ + add@.take(j + 1));
        }
        j += 1;
    }
    proof {
        assert(add@.take(add@.len() as int) =~= add@);
    }
}

/// Appends every character of the string `s` to `out`.
pub fn push_str_chars(out: &mut Vec<char>, s: &str)
    ensures
        final(out)@ == old(out)@ + s@,
{
    let n = s.unicode_len();
    let mut j: usize = 0;
    while j < n
        invariant
            n == s@.len(),
            j <= n,
            out@ == old(out)@ + s@.take(j as int),
        decreases n - j,
    {
        let c = s.get_char(j);
        out.push(c);
        proof {
            assert(s@.take(j + 1) =~= s@.take(j as int).push(s@[j as int]));
            assert(out@ =~= old(out)@ + s@.take(j + 1));
        }
        j += 1;
    }
    proof {
        assert(s@.take(n as int) =~= s@);
    }
}

/// Relies on `String`'s `FromIterator<char>` impl: collecting a sequence of
/// characters yields the string of exactly those characters, in order.
#[verifier::external_body]
pub fn string_from_chars(v: Vec<char>) -> (r: String)
    ensures
        r@ == v@,
{
    String::from_iter(v)
}

} // verus!
