//! Escaping of values in `.ini`-style locale files.
//!
//! A locale file looks like
//!
//! ```text
//! [section1]
//! key1=value1
//! key2=value2
//! ```
//!
//! Values that contain a quote or a semicolon must be wrapped in quotes
//! before upload: a semicolon starts a comment and a bare quote confuses the
//! remote parser.  A value that is already wrapped in a quote pair is left
//! alone so that the transform never double-escapes.

use vstd::prelude::*;

use crate::text::{chars_of, find_char, find_char_from, lemma_find_char, push_all, spec_find_char,
    string_of, subvec};

verus! {

/// One line, without its terminator: when it has the shape `key=value` with
/// no `[` before the first `=`, and the value holds a quote or a semicolon
/// and is not already wrapped in quotes, the value is wrapped in quotes;
/// every other line stays as it is.
pub open spec fn spec_escape_line(line: Seq<char>) -> Seq<char> {
    let e = spec_find_char(line, '=');
    let b = spec_find_char(line, '[');
    if e >= 0 && (b < 0 || b > e) {
        let value = line.skip(e + 1);
        let should = value.contains('"') || value.contains(';');
        let already = value.len() >= 1 && value.first() == '"' && value.last() == '"';
        if should && !already {
            line.take(e + 1) + seq!['"'] + value + seq!['"']
        } else {
            line
        }
    } else {
        line
    }
}

/// A line as delimited by line feeds: a trailing carriage return belongs to
/// the terminator and is kept outside the escaped body.
pub open spec fn spec_escape_terminated_line(line: Seq<char>) -> Seq<char> {
    if line.len() > 0 && line.last() == '\r' {
        spec_escape_line(line.drop_last()) + seq!['\r']
    } else {
        spec_escape_line(line)
    }
}

/// A whole file: each line-feed-separated line is escaped on its own and the
/// line terminators are kept exactly.
pub open spec fn spec_escape_text(s: Seq<char>) -> Seq<char>
    decreases s.len(),
    via spec_escape_text_decreases
{
    let n = spec_find_char(s, '\n');
    if n >= 0 {
        spec_escape_terminated_line(s.take(n)) + seq!['\n'] + spec_escape_text(s.skip(n + 1))
    } else {
        spec_escape_terminated_line(s)
    }
}

#[via_fn]
proof fn spec_escape_text_decreases(s: Seq<char>) {
    lemma_find_char(s, '\n');
}

/// Escapes the body of one line.
fn escape_line(line: &Vec<char>) -> (r: Vec<char>)
    ensures
        r@ == spec_escape_line(line@),
{
    let e_opt = find_char(line, '=');
    let b_opt = find_char(line, '[');
    let (is_kv, e) = match (e_opt, b_opt) {
        (Some(e), None) => (true, e),
        (Some(e), Some(b)) => (b > e, e),
        _ => (false, 0),
    };
    if is_kv {
        let n = line.len();
        proof {
            assert(e < n);
        }
        let value = subvec(line, e + 1, n);
        proof {
            assert(value@ =~= line@.skip(e + 1));
        }
        let mut should = false;
        if let Some(_) = find_char(&value, '"') {
            should = true;
        }
        if let Some(_) = find_char(&value, ';') {
            should = true;
        }
        proof {
            lemma_find_char(value@, '"');
            lemma_find_char(value@, ';');
        }
        let already = value.len() >= 1 && value[0] == '"' && value[value.len() - 1] == '"';
        if should && !already {
            let mut out = subvec(line, 0, e + 1);
            out.push('"');
            push_all(&mut out, &value);
            out.push('"');
            proof {
                assert(out@ =~= spec_escape_line(line@));
            }
            out
        } else {
            line.clone()
        }
    } else {
        line.clone()
    }
}

/// Escapes one line as delimited by line feeds, keeping a trailing carriage
/// return in place.
fn escape_terminated_line(line: &Vec<char>) -> (r: Vec<char>)
    ensures
        r@ == spec_escape_terminated_line(line@),
{
    if line.len() > 0 && line[line.len() - 1] == '\r' {
        let body = subvec(line, 0, line.len() - 1);
        proof {
            assert(body@ =~= line@.drop_last());
        }
        let mut out = escape_line(&body);
        out.push('\r');
        out
    } else {
        escape_line(line)
    }
}

/// Escapes every `key=value` line of a locale file whose value holds a quote
/// or a semicolon and is not already quoted; all other lines, and all line
/// endings, are kept exactly.
pub fn escape_strings_in_ini_file(ini_content: &str) -> (r: String)
    ensures
        r@ == spec_escape_text(ini_content@),
{
    let chars = chars_of(ini_content);
    let mut out: Vec<char> = Vec::new();
    let mut pos: usize = 0;
    proof {
        assert(chars@.skip(0) =~= chars@);
    }
    loop
        invariant_except_break
            out@ + spec_escape_text(chars@.skip(pos as int)) == spec_escape_text(chars@),
        invariant
            pos <= chars@.len(),
            chars@ == ini_content@,
        ensures
            out@ == spec_escape_text(chars@),
        decreases chars@.len() - pos,
    {
        let total = chars.len();
        match find_char_from(&chars, '\n', pos) {
            Some(j) => {
                proof {
                    assert(j < total);
                }
                let line = subvec(&chars, pos, j);
                proof {
                    assert(line@ =~= chars@.skip(pos as int).take(j - pos as int));
                }
                let processed = escape_terminated_line(&line);
                push_all(&mut out, &processed);
                out.push('\n');
                proof {
                    assert(chars@.skip(pos as int).skip(j - pos as int + 1) =~= chars@.skip(
                        j + 1,
                    ));
                    assert(out@ + spec_escape_text(chars@.skip(j + 1)) =~= spec_escape_text(
                        chars@,
                    ));
                }
                pos = j + 1;
            },
            None => {
                let line = subvec(&chars, pos, chars.len());
                proof {
                    assert(line@ =~= chars@.skip(pos as int));
                }
                let processed = escape_terminated_line(&line);
                push_all(&mut out, &processed);
                proof {
                    assert(out@ =~= spec_escape_text(chars@));
                }
                break ;
            },
        }
    }
    string_of(&out)
}

/// A value that is already wrapped in a quote pair is never escaped again:
/// on a `key=value` line whose value starts and ends with a quote, the
/// escape transform changes nothing.
pub proof fn lemma_escape_keeps_quoted_value(line: Seq<char>)
    requires
        spec_find_char(line, '=') >= 0,
        ({
            let value = line.skip(spec_find_char(line, '=') + 1);
            value.len() >= 1 && value.first() == '"' && value.last() == '"'
        }),
    ensures
        spec_escape_line(line) == line,
{
}

/// A character present at `e` and absent before it is the one found.
proof fn lemma_find_char_at(s: Seq<char>, c: char, e: int)
    requires
        0 <= e < s.len(),
        s[e] == c,
        forall|j: int| 0 <= j < e ==> s[j] != c,
    ensures
        spec_find_char(s, c) == e,
{
    lemma_find_char(s, c);
    assert(s.contains(c));
    let f = spec_find_char(s, c);
    if f < e {
        assert(s[f] == c);
        assert(false);
    }
    if f > e {
        assert(s[e] != c);
        assert(false);
    }
}

/// Escaping one line introduces no character beyond the line's own and the
/// quote: in particular, a line without a line feed stays without one, and
/// a line not ending in a carriage return still does not end in one.
proof fn lemma_escape_line_chars(line: Seq<char>)
    ensures
        forall|k: int|
            0 <= k < spec_escape_line(line).len() ==> (#[trigger] spec_escape_line(line)[k])
                == '"' || line.contains(spec_escape_line(line)[k]),
        spec_escape_line(line).len() > 0 ==> spec_escape_line(line).last() == '"'
            || spec_escape_line(line).last() == line.last(),
        line.len() > 0 || spec_escape_line(line) == line,
{
    let e = spec_find_char(line, '=');
    let b = spec_find_char(line, '[');
    lemma_find_char(line, '=');
    if e >= 0 && (b < 0 || b > e) {
        let value = line.skip(e + 1);
        let should = value.contains('"') || value.contains(';');
        let already = value.len() >= 1 && value.first() == '"' && value.last() == '"';
        if should && !already {
            let out = line.take(e + 1) + seq!['"'] + value + seq!['"'];
            assert forall|k: int| 0 <= k < out.len() implies (#[trigger] out[k]) == '"'
                || line.contains(out[k]) by {
                if k <= e {
                    assert(out[k] == line[k]);
                } else if k == e + 1 {
                    assert(out[k] == '"');
                } else if k < out.len() - 1 {
                    assert(out[k] == value[k - e - 2]);
                    assert(value[k - e - 2] == line[k - 1]);
                } else {
                    assert(out[k] == '"');
                }
            }
            assert(out.last() == '"');
        } else {
            assert(forall|k: int|
                0 <= k < line.len() ==> line.contains(#[trigger] line[k]));
        }
    } else {
        assert(forall|k: int| 0 <= k < line.len() ==> line.contains(#[trigger] line[k]));
    }
}

/// Escaping one line is idempotent: a wrapped value is already wrapped, so
/// a second pass leaves the line alone.
pub proof fn lemma_escape_line_idempotent(line: Seq<char>)
    ensures
        spec_escape_line(spec_escape_line(line)) == spec_escape_line(line),
{
    let e = spec_find_char(line, '=');
    let b = spec_find_char(line, '[');
    lemma_find_char(line, '=');
    lemma_find_char(line, '[');
    if e >= 0 && (b < 0 || b > e) {
        let value = line.skip(e + 1);
        let should = value.contains('"') || value.contains(';');
        let already = value.len() >= 1 && value.first() == '"' && value.last() == '"';
        if should && !already {
            let out = line.take(e + 1) + seq!['"'] + value + seq!['"'];
            assert(spec_escape_line(line) == out);
            // The second pass finds the same key: the characters up to and
            // including the equals sign are unchanged.
            assert(forall|j: int| 0 <= j <= e ==> #[trigger] out[j] == line[j]);
            assert(out[e] == '=');
            lemma_find_char_at(out, '=', e);
            // No bracket appears before it either.
            lemma_find_char(out, '[');
            let b2 = spec_find_char(out, '[');
            assert(b2 < 0 || b2 > e) by {
                if 0 <= b2 <= e {
                    assert(out[b2] == '[');
                    assert(line[b2] == '[');
                    lemma_find_char(line, '[');
                    assert(line.contains('['));
                    assert(b >= 0);
                    if b < b2 {
                    } else if b > b2 {
                        assert(line[b2] != '[');
                    }
                    assert(b <= e);
                    assert(false);
                }
            }
            // The new value is the old one wrapped in quotes, so the second
            // pass sees it as already escaped.
            let value2 = out.skip(e + 1);
            assert(value2 =~= seq!['"'] + value + seq!['"']);
            assert(value2.len() >= 2);
            assert(value2.first() == '"' && value2.last() == '"');
            assert(spec_escape_line(out) == out);
        }
    }
}

/// Escaping one terminated line is idempotent, and introduces no line feed
/// when the line held none.
proof fn lemma_escape_terminated_idempotent(line: Seq<char>)
    ensures
        spec_escape_terminated_line(spec_escape_terminated_line(line))
            == spec_escape_terminated_line(line),
        !line.contains('\n') ==> forall|k: int|
            0 <= k < spec_escape_terminated_line(line).len() ==> (
            #[trigger] spec_escape_terminated_line(line)[k]) != '\n',
{
    let t = spec_escape_terminated_line(line);
    if line.len() > 0 && line.last() == '\r' {
        let body = line.drop_last();
        lemma_escape_line_idempotent(body);
        lemma_escape_line_chars(body);
        assert(t == spec_escape_line(body) + seq!['\r']);
        assert(t.len() > 0 && t.last() == '\r');
        assert(t.drop_last() =~= spec_escape_line(body));
        assert(spec_escape_terminated_line(t) == spec_escape_line(spec_escape_line(body))
            + seq!['\r']);
        if !line.contains('\n') {
            assert(forall|k: int| 0 <= k < body.len() ==> body.contains(#[trigger] body[k])
                && line.contains(body[k]));
            assert forall|k: int| 0 <= k < t.len() implies (#[trigger] t[k]) != '\n' by {
                if k < t.len() - 1 {
                    assert(t[k] == spec_escape_line(body)[k]);
                    if t[k] != '"' {
                        assert(body.contains(t[k]));
                        let w = choose|w: int| 0 <= w < body.len() && body[w] == t[k];
                        assert(line[w] == t[k]);
                        assert(line.contains(t[k]));
                    }
                } else {
                    assert(t[k] == '\r');
                }
            }
        }
    } else {
        lemma_escape_line_idempotent(line);
        lemma_escape_line_chars(line);
        assert(t == spec_escape_line(line));
        // The escaped line still does not end in a carriage return, so the
        // second pass takes the same branch.
        assert(spec_escape_terminated_line(t) == spec_escape_line(t)) by {
            if t.len() > 0 && t.last() == '\r' {
                assert(t.last() == '"' || t.last() == line.last());
                assert(line.len() > 0);
                assert(false);
            }
        }
        if !line.contains('\n') {
            assert forall|k: int| 0 <= k < t.len() implies (#[trigger] t[k]) != '\n' by {
                if t[k] != '"' {
                    assert(line.contains(t[k]));
                }
            }
        }
    }
}

/// Escaping a whole file is idempotent: escaping an already escaped file
/// changes nothing.
pub proof fn lemma_escape_idempotent(s: Seq<char>)
    ensures
        spec_escape_text(spec_escape_text(s)) == spec_escape_text(s),
    decreases s.len(),
{
    let n = spec_find_char(s, '\n');
    lemma_find_char(s, '\n');
    let r = spec_escape_text(s);
    if n >= 0 {
        let line = s.take(n);
        let t = spec_escape_terminated_line(line);
        let rest = spec_escape_text(s.skip(n + 1));
        assert(r == t + seq!['\n'] + rest);
        assert(!line.contains('\n')) by {
            if line.contains('\n') {
                let w = choose|w: int| 0 <= w < line.len() && line[w] == '\n';
                assert(s[w] == '\n');
                assert(false);
            }
        }
        lemma_escape_terminated_idempotent(line);
        lemma_escape_idempotent(s.skip(n + 1));
        lemma_apply_text_decomposition(r, t, rest);
    } else {
        assert(!s.contains('\n'));
        let t = spec_escape_terminated_line(s);
        assert(r == t);
        lemma_escape_terminated_idempotent(s);
        assert(spec_find_char(t, '\n') < 0) by {
            lemma_find_char(t, '\n');
            if spec_find_char(t, '\n') >= 0 {
                assert(t[spec_find_char(t, '\n')] == '\n');
                assert(false);
            }
        }
        assert(spec_escape_text(t) == spec_escape_terminated_line(t));
    }
}

/// A second escape of a line-feed-terminated decomposition splits at the
/// same place.
proof fn lemma_apply_text_decomposition(r: Seq<char>, t: Seq<char>, rest: Seq<char>)
    requires
        r == t + seq!['\n'] + rest,
        forall|k: int| 0 <= k < t.len() ==> (#[trigger] t[k]) != '\n',
        spec_escape_terminated_line(t) == t,
        spec_escape_text(rest) == rest,
    ensures
        spec_escape_text(r) == r,
{
    assert(r[t.len() as int] == '\n');
    assert(forall|j: int| 0 <= j < t.len() ==> #[trigger] r[j] == t[j]);
    lemma_find_char_at(r, '\n', t.len() as int);
    assert(r.take(t.len() as int) =~= t);
    assert(r.skip(t.len() as int + 1) =~= rest);
    assert(spec_escape_text(r) == spec_escape_terminated_line(t) + seq!['\n']
        + spec_escape_text(rest));
    assert(spec_escape_text(r) =~= r);
}

} // verus!
