//! Character-level helpers shared by the rest of the library: turning strings
//! into character vectors and back, ASCII case transforms, and searching for a
//! character in a sequence.

use vstd::prelude::*;
use vstd::std_specs::iter::IteratorSpec;

verus! {

broadcast use vstd::string::group_string_axioms;

/// The characters of a string, as a vector.
pub fn chars_of(s: &str) -> (v: Vec<char>)
    ensures
        v@ == s@,
{
    let mut it = s.chars();
    let mut v: Vec<char> = Vec::new();
    loop
        invariant
            it.obeys_prophetic_iter_laws(),
            v@ + it.remaining() == s@,
            v@.len() <= s@.len(),
        ensures
            v@ == s@,
        decreases s@.len() - v@.len(),
    {
        match it.next() {
            Some(c) => {
                v.push(c);
            },
            None => {
                proof {
                    assert(it.remaining().len() == 0);
                    assert(v@ + it.remaining() =~= v@);
                }
                break ;
            },
        }
    }
    v
}

/// Relies on `String::push`: appends one character to the string.
#[verifier::external_body]
pub(crate) fn push_char(s: &mut String, c: char)
    ensures
        final(s)@ == old(s)@.push(c),
{
    s.push(c);
}

/// A string holding exactly the given characters.
pub fn string_of(chars: &Vec<char>) -> (s: String)
    ensures
        s@ == chars@,
{
    let mut s = String::new();
    let mut i: usize = 0;
    while i < chars.len()
        invariant
            i <= chars.len(),
            s@ == chars@.take(i as int),
        decreases chars.len() - i,
    {
        push_char(&mut s, chars[i]);
        i = i + 1;
        proof {
            assert(s@ =~= chars@.take(i as int));
        }
    }
    proof {
        assert(s@ =~= chars@);
    }
    s
}

/// The index of the first occurrence of `c` in `s`, or -1 when absent.
pub open spec fn spec_find_char(s: Seq<char>, c: char) -> int
    decreases s.len(),
{
    if s.len() == 0 {
        -1
    } else if s[0] == c {
        0
    } else {
        let r = spec_find_char(s.drop_first(), c);
        if r < 0 {
            -1
        } else {
            r + 1
        }
    }
}

/// The first occurrence found by `spec_find_char` is an occurrence, is the
/// first one, and exists exactly when the character does.
pub proof fn lemma_find_char(s: Seq<char>, c: char)
    ensures
        spec_find_char(s, c) >= 0 <==> s.contains(c),
        spec_find_char(s, c) >= 0 ==> {
            &&& spec_find_char(s, c) < s.len()
            &&& s[spec_find_char(s, c)] == c
            &&& forall|j: int| 0 <= j < spec_find_char(s, c) ==> s[j] != c
        },
        spec_find_char(s, c) >= -1,
    decreases s.len(),
{
    if s.len() == 0 {
        assert(!s.contains(c));
    } else {
        lemma_find_char(s.drop_first(), c);
        if s[0] == c {
        } else {
            let r = spec_find_char(s.drop_first(), c);
            if r >= 0 {
                assert(s[r + 1] == s.drop_first()[r]);
                assert(forall|j: int|
                    1 <= j < r + 1 ==> s[j] == s.drop_first()[j - 1] && s.drop_first()[j - 1]
                        != c);
            } else {
                if s.contains(c) {
                    let w = choose|w: int| 0 <= w < s.len() && s[w] == c;
                    assert(s.drop_first()[w - 1] == c);
                    assert(s.drop_first().contains(c));
                }
            }
        }
    }
}

/// Index of the first occurrence of `c` among the characters, or the length
/// when absent (so the result is always a valid scan bound).
pub fn find_char(chars: &Vec<char>, c: char) -> (r: Option<usize>)
    ensures
        r is Some <==> spec_find_char(chars@, c) >= 0,
        r is Some ==> r->0 == spec_find_char(chars@, c) && r->0 < chars@.len(),
{
    proof {
        lemma_find_char(chars@, c);
    }
    let mut i: usize = 0;
    while i < chars.len()
        invariant
            i <= chars.len(),
            forall|j: int| 0 <= j < i ==> chars@[j] != c,
        decreases chars.len() - i,
    {
        if chars[i] == c {
            proof {
                lemma_find_char(chars@, c);
                assert(chars@[i as int] == c);
                assert(chars@.contains(c));
                let f = spec_find_char(chars@, c);
                assert(f >= 0);
                if f < i as int {
                    assert(chars@[f] != c);
                    assert(false);
                }
                if f > i as int {
                    assert(chars@[i as int] != c);
                    assert(false);
                }
            }
            return Some(i);
        }
        i = i + 1;
    }
    proof {
        lemma_find_char(chars@, c);
        if chars@.contains(c) {
            let w = choose|w: int| 0 <= w < chars@.len() && chars@[w] == c;
            assert(false);
        }
    }
    None
}

/// Whether the characters contain `c`.
pub fn contains_char(chars: &Vec<char>, c: char) -> (r: bool)
    ensures
        r == chars@.contains(c),
{
    proof {
        lemma_find_char(chars@, c);
    }
    find_char(chars, c).is_some()
}

/// The characters of `chars` between `from` and `to`, as a fresh vector.
pub fn subvec(chars: &Vec<char>, from: usize, to: usize) -> (v: Vec<char>)
    requires
        from <= to <= chars@.len(),
    ensures
        v@ == chars@.subrange(from as int, to as int),
{
    let mut v: Vec<char> = Vec::new();
    let mut i: usize = from;
    while i < to
        invariant
            from <= i <= to <= chars@.len(),
            v@ == chars@.subrange(from as int, i as int),
        decreases to - i,
    {
        v.push(chars[i]);
        i = i + 1;
        proof {
            assert(v@ =~= chars@.subrange(from as int, i as int));
        }
    }
    v
}

/// Appends all characters of `src` to `dst`.
pub fn push_all(dst: &mut Vec<char>, src: &Vec<char>)
    ensures
        final(dst)@ == old(dst)@ + src@,
{
    let mut i: usize = 0;
    while i < src.len()
        invariant
            i <= src@.len(),
            dst@ == old(dst)@ + src@.take(i as int),
        decreases src@.len() - i,
    {
        dst.push(src[i]);
        i = i + 1;
        proof {
            assert(dst@ =~= old(dst)@ + src@.take(i as int));
        }
    }
    proof {
        assert(dst@ =~= old(dst)@ + src@);
    }
}

/// Index of the first occurrence of `c` at or after `from`, or `None` when
/// there is none; stated against the scan of the remainder.
pub fn find_char_from(chars: &Vec<char>, c: char, from: usize) -> (r: Option<usize>)
    requires
        from <= chars@.len(),
    ensures
        r is Some <==> spec_find_char(chars@.skip(from as int), c) >= 0,
        r is Some ==> from <= r->0 && r->0 - from == spec_find_char(chars@.skip(from as int), c)
            && r->0 < chars@.len(),
{
    proof {
        lemma_find_char(chars@.skip(from as int), c);
    }
    let mut i: usize = from;
    while i < chars.len()
        invariant
            from <= i <= chars@.len(),
            forall|j: int| from <= j < i ==> chars@[j] != c,
        decreases chars@.len() - i,
    {
        if chars[i] == c {
            proof {
                let rem = chars@.skip(from as int);
                lemma_find_char(rem, c);
                assert(rem[i - from as int] == c);
                assert(rem.contains(c));
                let f = spec_find_char(rem, c);
                if f < i - from as int {
                    assert(chars@[f + from as int] == rem[f]);
                    assert(false);
                }
                if f > i - from as int {
                    assert(rem[i - from as int] != c);
                    assert(false);
                }
            }
            return Some(i);
        }
        i = i + 1;
    }
    proof {
        let rem = chars@.skip(from as int);
        lemma_find_char(rem, c);
        if rem.contains(c) {
            let w = choose|w: int| 0 <= w < rem.len() && rem[w] == c;
            assert(chars@[w + from as int] == rem[w]);
            assert(false);
        }
    }
    None
}

/// Whether two string slices hold the same characters.
pub fn str_eq(a: &str, b: &str) -> (r: bool)
    ensures
        r == (a@ == b@),
{
    let va = chars_of(a);
    let vb = chars_of(b);
    if va.len() != vb.len() {
        proof {
            assert(a@.len() != b@.len());
        }
        return false;
    }
    let mut i: usize = 0;
    while i < va.len()
        invariant
            i <= va@.len(),
            va@ == a@,
            vb@ == b@,
            va@.len() == vb@.len(),
            forall|j: int| 0 <= j < i ==> va@[j] == vb@[j],
        decreases va@.len() - i,
    {
        if va[i] != vb[i] {
            proof {
                assert(a@[i as int] != b@[i as int]);
            }
            return false;
        }
        i = i + 1;
    }
    proof {
        assert(a@ =~= b@);
    }
    true
}

/// The ASCII uppercase image of a character: `a`..`z` map to `A`..`Z`, all
/// other characters stay themselves.
pub open spec fn spec_to_ascii_upper(c: char) -> char {
    if 'a' <= c && c <= 'z' {
        ((c as u8) - 32) as char
    } else {
        c
    }
}

/// The ASCII lowercase image of a character: `A`..`Z` map to `a`..`z`, all
/// other characters stay themselves.
pub open spec fn spec_to_ascii_lower(c: char) -> char {
    if 'A' <= c && c <= 'Z' {
        ((c as u8) + 32) as char
    } else {
        c
    }
}

/// ASCII uppercasing, as `char::to_ascii_uppercase` performs it.
pub fn to_ascii_upper(c: char) -> (r: char)
    ensures
        r == spec_to_ascii_upper(c),
{
    if 'a' <= c && c <= 'z' {
        ((c as u8) - 32) as char
    } else {
        c
    }
}

/// ASCII lowercasing, as `char::to_ascii_lowercase` performs it.
pub fn to_ascii_lower(c: char) -> (r: char)
    ensures
        r == spec_to_ascii_lower(c),
{
    if 'A' <= c && c <= 'Z' {
        ((c as u8) + 32) as char
    } else {
        c
    }
}

} // verus!
