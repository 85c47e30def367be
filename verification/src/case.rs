//! Title-casing of repository and mod names.
//!
//! A name is split into words on runs of non-alphanumeric characters and on
//! lowercase-to-uppercase transitions; each word starts with its first
//! character mapped to ASCII uppercase, and words are joined by single
//! spaces.

use vstd::prelude::*;

use crate::chars::{char_is_alphanumeric, char_is_lowercase, char_is_uppercase,
    spec_is_alphanumeric, spec_is_lowercase, spec_is_uppercase};
use crate::text::{chars_of, push_char, spec_to_ascii_upper, to_ascii_upper};

verus! {

/// One step of the title-casing scan: what the output gains at character `c`,
/// given the previous character and whether any character was emitted yet.
pub open spec fn title_step(c: char, prev: char, first: bool) -> Seq<char> {
    if spec_is_alphanumeric(c) {
        let boundary = spec_is_lowercase(prev) && spec_is_uppercase(c);
        let before = if boundary {
            ' '
        } else {
            prev
        };
        if spec_is_alphanumeric(before) {
            seq![c]
        } else if first {
            seq![spec_to_ascii_upper(c)]
        } else {
            seq![' ', spec_to_ascii_upper(c)]
        }
    } else {
        Seq::empty()
    }
}

/// The title-cased remainder of `s`, scanned with the given state: `prev` is
/// the character before `s`, `first` whether nothing was emitted yet.
pub open spec fn title_rec(s: Seq<char>, prev: char, first: bool) -> Seq<char>
    decreases s.len(),
{
    if s.len() == 0 {
        Seq::empty()
    } else {
        title_step(s[0], prev, first) + title_rec(
            s.drop_first(),
            s[0],
            first && !spec_is_alphanumeric(s[0]),
        )
    }
}

/// The title-cased form of a whole name.
pub open spec fn spec_title_case(s: Seq<char>) -> Seq<char> {
    title_rec(s, ' ', true)
}

/// Title-cases a name: words begin at non-alphanumeric runs and at
/// lowercase-to-uppercase transitions, keep their characters, get their first
/// character ASCII-uppercased, and are joined by single spaces.  All
/// non-alphanumeric characters disappear.
pub fn to_title_case(s: &str) -> (result: String)
    ensures
        result@ == spec_title_case(s@),
{
    let chars = chars_of(s);
    let mut prev_char: char = ' ';
    let mut is_first_char: bool = true;
    let mut result = String::new();
    let mut i: usize = 0;
    proof {
        assert(s@.skip(0) =~= s@);
        assert(result@ + title_rec(s@, ' ', true) =~= title_rec(s@, ' ', true));
    }
    while i < chars.len()
        invariant
            i <= chars.len(),
            chars@ == s@,
            result@ + title_rec(s@.skip(i as int), prev_char, is_first_char) == spec_title_case(
                s@,
            ),
        decreases chars.len() - i,
    {
        let c = chars[i];
        let ghost prev0 = prev_char;
        let ghost first0 = is_first_char;
        proof {
            assert(s@.skip(i as int)[0] == c);
            assert(s@.skip(i as int).drop_first() =~= s@.skip(i as int + 1));
        }
        if char_is_alphanumeric(c) {
            if char_is_lowercase(prev_char) && char_is_uppercase(c) {
                prev_char = ' ';
            }
            if char_is_alphanumeric(prev_char) {
                push_char(&mut result, c);
            } else {
                if !is_first_char {
                    push_char(&mut result, ' ');
                }
                push_char(&mut result, to_ascii_upper(c));
            }
            is_first_char = false;
        }
        proof {
            assert(result@ + title_rec(s@.skip(i as int + 1), c, first0 && !spec_is_alphanumeric(c))
                =~= spec_title_case(s@));
        }
        prev_char = c;
        is_first_char = is_first_char && !char_is_alphanumeric(c);
        i = i + 1;
    }
    proof {
        assert(s@.skip(i as int) =~= Seq::<char>::empty());
        assert(result@ =~= spec_title_case(s@));
    }
    result
}

/// Relation between the scan state of a first title-casing pass and the scan
/// state of a second pass over the first pass's output: when nothing was
/// emitted yet both previous characters are non-alphanumeric, afterwards the
/// second pass sits on the emitted image of the first pass's previous
/// character.
pub open spec fn scan_states_match(p1: char, f: bool, p2: char) -> bool {
    if f {
        !spec_is_alphanumeric(p1) && !spec_is_alphanumeric(p2)
    } else {
        spec_is_alphanumeric(p1) ==> (p2 == p1 || p2 == spec_to_ascii_upper(p1))
    }
}

/// ASCII uppercasing keeps a character alphanumeric, is idempotent, and its
/// image is never lowercase when it moved the character.
proof fn lemma_upper_image(c: char)
    ensures
        spec_is_alphanumeric(c) ==> spec_is_alphanumeric(spec_to_ascii_upper(c)),
        spec_to_ascii_upper(spec_to_ascii_upper(c)) == spec_to_ascii_upper(c),
        ('a' <= c && c <= 'z') ==> ('A' <= spec_to_ascii_upper(c) && spec_to_ascii_upper(c)
            <= 'Z'),
{
    if 'a' <= c && c <= 'z' {
        assert('A' <= spec_to_ascii_upper(c) && spec_to_ascii_upper(c) <= 'Z');
    }
}

/// Output of a title-casing scan is a fixpoint of a second scan whose state
/// matches the first scan's state.
proof fn lemma_title_fixpoint(s: Seq<char>, p1: char, f: bool, p2: char)
    requires
        scan_states_match(p1, f, p2),
    ensures
        title_rec(title_rec(s, p1, f), p2, f) == title_rec(s, p1, f),
    decreases s.len(),
{
    if s.len() == 0 {
    } else {
        let c = s[0];
        let rest = s.drop_first();
        let step = title_step(c, p1, f);
        let f2 = f && !spec_is_alphanumeric(c);
        let tail = title_rec(rest, c, f2);
        assert(title_rec(s, p1, f) == step + tail);
        lemma_upper_image(c);
        if !spec_is_alphanumeric(c) {
            assert(step + tail =~= tail);
            lemma_title_fixpoint(rest, c, f, p2);
        } else {
            let boundary = spec_is_lowercase(p1) && spec_is_uppercase(c);
            let before = if boundary {
                ' '
            } else {
                p1
            };
            let u = spec_to_ascii_upper(c);
            if spec_is_alphanumeric(before) {
                // Continuation of a word: the step emits the character as is.
                assert(!f);
                assert(step == seq![c]);
                let out = step + tail;
                assert(out[0] == c && out.drop_first() =~= tail);
                // The second pass also continues the word at this character.
                assert(!(spec_is_lowercase(p2) && spec_is_uppercase(c)) && spec_is_alphanumeric(
                    p2,
                )) by {
                    lemma_upper_image(p1);
                }
                assert(title_step(c, p2, false) == seq![c]);
                lemma_title_fixpoint(rest, c, false, c);
                assert(title_rec(out, p2, f) =~= out);
            } else {
                // Start of a word: the step emits the uppercased character,
                // after a separating space unless it opens the output.
                lemma_title_fixpoint(rest, c, false, u);
                if f {
                    assert(step == seq![u]);
                    let out = step + tail;
                    assert(out[0] == u && out.drop_first() =~= tail);
                    // In the second pass the previous character is
                    // non-alphanumeric, so a word starts here as well.
                    let before2 = if spec_is_lowercase(p2) && spec_is_uppercase(u) {
                        ' '
                    } else {
                        p2
                    };
                    assert(!spec_is_alphanumeric(before2));
                    assert(title_step(u, p2, true) == seq![spec_to_ascii_upper(u)]);
                    assert(title_rec(out, p2, f) =~= out);
                } else {
                    assert(step == seq![' ', u]);
                    let out = step + tail;
                    assert(out[0] == ' ');
                    assert(out.drop_first() =~= seq![u] + tail);
                    // The second pass skips the separator, then starts a word.
                    assert(title_step(' ', p2, false) == Seq::<char>::empty());
                    let mid = seq![u] + tail;
                    assert(mid[0] == u && mid.drop_first() =~= tail);
                    let before2 = if spec_is_lowercase(' ') && spec_is_uppercase(u) {
                        ' '
                    } else {
                        ' '
                    };
                    assert(!spec_is_alphanumeric(before2));
                    assert(title_step(u, ' ', false) == seq![' ', spec_to_ascii_upper(u)]);
                    assert(title_rec(out, p2, f) == title_step(' ', p2, false) + title_rec(
                        mid,
                        ' ',
                        false,
                    ));
                    assert(title_rec(mid, ' ', false) == title_step(u, ' ', false) + title_rec(
                        tail,
                        u,
                        false,
                    ));
                    assert(title_rec(tail, u, false) == tail);
                    assert(title_rec(out, p2, f) =~= out);
                }
            }
        }
    }
}

/// Title-casing is idempotent: title-casing an already title-cased name
/// leaves it unchanged.
pub proof fn lemma_title_case_idempotent(s: Seq<char>)
    ensures
        spec_title_case(spec_title_case(s)) == spec_title_case(s),
{
    lemma_title_fixpoint(s, ' ', true, ' ');
}

} // verus!
