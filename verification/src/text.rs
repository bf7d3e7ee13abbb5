//! The text of a stored recording, once it is encoded.
//!
//! An encoder may leave an empty line behind the heading of an entry whose
//! fields form a table of their own. `tidy` takes that line out. It changes
//! nothing else, so the text holds the same recording before and after.

use vstd::prelude::*;
use vstd::string::*;

verus! {

/// `s` with each occurrence of `from` replaced by `to`. Occurrences are found
/// from the left and do not overlap: the search goes on behind an occurrence
/// once it is replaced. An empty `from` occurs nowhere.
pub open spec fn replaced(s: Seq<char>, from: Seq<char>, to: Seq<char>) -> Seq<char>
    decreases s.len(),
{
    if from.len() == 0 || s.len() < from.len() {
        s
    } else if s.take(from.len() as int) == from {
        to + replaced(s.skip(from.len() as int), from, to)
    } else {
        seq![s[0]] + replaced(s.skip(1), from, to)
    }
}

/// The text of a recording with no empty line behind the heading of an entry.
pub open spec fn tidied(text: Seq<char>) -> Seq<char> {
    replaced(text, "[[events]]\n\n"@, "[[events]]\n"@)
}

/// Takes out the empty line that an encoder leaves behind the heading of an
/// entry.
pub fn tidy(text: &str) -> (out: String)
    ensures
        out@ == tidied(text@),
{
    replace_all(text, "[[events]]\n\n", "[[events]]\n")
}

/// `text` with each occurrence of `from` replaced by `to`, occurrences found
/// from the left and not overlapping.
pub fn replace_all(text: &str, from: &str, to: &str) -> (out: String)
    ensures
        out@ == replaced(text@, from@, to@),
{
    let s = chars_of(text);
    let pattern = chars_of(from);
    let n = s.len();
    let m = pattern.len();
    let mut out = String::new();
    if m == 0 {
        out.append(text);
        assert(out@ =~= text@);
        return out;
    }
    let mut i: usize = 0;
    assert(s@.skip(0) =~= s@);
    assert(Seq::<char>::empty() + replaced(s@, from@, to@) =~= replaced(s@, from@, to@));
    while i < n
        invariant
            i <= n,
            n == s.len(),
            m == pattern.len(),
            m > 0,
            s@ == text@,
            pattern@ == from@,
            replaced(text@, from@, to@) == out@ + replaced(s@.skip(i as int), from@, to@),
        decreases n - i,
    {
        let ghost rest = s@.skip(i as int);
        let ghost done = out@;
        if n - i >= m && occurs_at(&s, &pattern, i) {
            out.append(to);
            assert(rest.skip(m as int) =~= s@.skip(i + m));
            assert(done + (to@ + replaced(rest.skip(m as int), from@, to@)) =~= done + to@
                + replaced(rest.skip(m as int), from@, to@));
            i = i + m;
        } else {
            push_char(&mut out, s[i]);
            assert(rest.skip(1) =~= s@.skip(i + 1));
            assert(rest[0] == s@[i as int]);
            assert(replaced(rest, from@, to@) =~= seq![rest[0]] + replaced(
                rest.skip(1),
                from@,
                to@,
            )) by {
                if rest.len() < m {
                    assert(rest.skip(1).len() < m);
                    assert(rest =~= seq![rest[0]] + rest.skip(1));
                }
            }
            assert(done + (seq![rest[0]] + replaced(rest.skip(1), from@, to@)) =~= done.push(
                rest[0],
            ) + replaced(rest.skip(1), from@, to@));
            i = i + 1;
        }
    }
    assert(s@.skip(n as int) =~= Seq::<char>::empty());
    assert(out@ + Seq::<char>::empty() =~= out@);
    out
}

/// The characters of `text`.
pub fn chars_of(text: &str) -> (chars: Vec<char>)
    ensures
        chars@ == text@,
{
    broadcast use vstd::string::group_string_axioms;

    let mut chars: Vec<char> = Vec::new();
    for c in it: text.chars()
        invariant
            it.seq() == text@,
            chars@ == it.seq().take(it.index() as int),
    {
        chars.push(c);
        assert(chars@ =~= it.seq().take(it.index() + 1));
    }
    assert(chars@ =~= text@);
    chars
}

/// Whether `pattern` stands in `s` at place `at`.
fn occurs_at(s: &Vec<char>, pattern: &Vec<char>, at: usize) -> (hit: bool)
    requires
        at + pattern.len() <= s.len(),
    ensures
        hit == (s@.skip(at as int).take(pattern.len() as int) == pattern@),
{
    let m = pattern.len();
    let ghost window = s@.skip(at as int).take(m as int);
    let mut j: usize = 0;
    while j < m
        invariant
            j <= m,
            m == pattern.len(),
            at + m <= s.len(),
            window == s@.skip(at as int).take(m as int),
            forall|k: int| 0 <= k < j ==> window[k] == pattern@[k],
        decreases m - j,
    {
        if s[at + j] != pattern[j] {
            assert(window[j as int] == s@[at + j]);
            return false;
        }
        assert(window[j as int] == s@[at + j]);
        j = j + 1;
    }
    assert(window =~= pattern@);
    true
}

/// `String::push` of the standard library: the character is appended to the
/// end of the string, which is otherwise left as it is.
#[verifier::external_body]
fn push_char(s: &mut String, c: char)
    ensures
        final(s)@ == old(s)@.push(c),
{
    s.push(c);
}

} // verus!
