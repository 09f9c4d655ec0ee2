//! Small text helpers shared by the modules.
use vstd::prelude::*;

verus! {

/// The contents of each string of `v`.
pub open spec fn views(v: Seq<String>) -> Seq<Seq<char>> {
    v.map_values(|a: String| a@)
}

/// Calls `String::push`, which appends one character at the end of a string.
#[verifier::external_body]
pub(crate) fn push_char(s: &mut String, c: char)
    ensures
        final(s)@ == old(s)@.push(c),
{
    s.push(c);
}

/// A copy of each string of `v` from index `start` on, in order.
pub fn clone_strings_from(v: &Vec<String>, start: usize) -> (copy: Vec<String>)
    requires
        start <= v@.len(),
    ensures
        views(copy@) == views(v@).skip(start as int),
{
    let mut copy: Vec<String> = Vec::new();
    let mut i: usize = start;
    while i < v.len()
        invariant
            start <= i <= v@.len(),
            copy@.len() == i - start,
            forall|k: int| 0 <= k < i - start ==> #[trigger] copy@[k]@ == v@[start + k]@,
        decreases v.len() - i,
    {
        copy.push(v[i].clone());
        i = i + 1;
    }
    assert(views(copy@) =~= views(v@).skip(start as int));
    copy
}

/// Pushing a string pushes its contents.
pub proof fn lemma_views_push(v: Seq<String>, x: String)
    ensures
        views(v.push(x)) == views(v).push(x@),
{
    assert(views(v.push(x)) =~= views(v).push(x@));
}

/// The set of a sequence with one more element at its end.
pub proof fn lemma_to_set_push<A>(s: Seq<A>, x: A)
    ensures
        s.push(x).to_set() == s.to_set().insert(x),
{
    let t = s.push(x);
    assert forall|y: A| t.contains(y) <==> (s.contains(y) || y == x) by {
        if t.contains(y) {
            let k = choose|k: int| 0 <= k < t.len() && #[trigger] t[k] == y;
            if k < s.len() {
                assert(s[k] == y);
            }
        }
        if s.contains(y) {
            let k = choose|k: int| 0 <= k < s.len() && #[trigger] s[k] == y;
            assert(t[k] == y);
        }
        if y == x {
            assert(t[s.len() as int] == y);
        }
    }
    assert(t.to_set() =~= s.to_set().insert(x));
}

/// The index of the first `\n` of `s` from `start` on, or the length of `s`
/// when there is none.
pub open spec fn first_newline(s: Seq<char>, start: int) -> int
    decreases s.len() - start,
{
    if start < 0 || start >= s.len() {
        s.len() as int
    } else if s[start] == '\n' {
        start
    } else {
        first_newline(s, start + 1)
    }
}

/// The first `\n` from `start` on lies between `start` and the end, and
/// nothing before it is a `\n`.
pub proof fn lemma_first_newline(s: Seq<char>, start: int)
    requires
        0 <= start <= s.len(),
    ensures
        start <= first_newline(s, start) <= s.len(),
        first_newline(s, start) < s.len() ==> s[first_newline(s, start)] == '\n',
        forall|k: int| start <= k < first_newline(s, start) ==> s[k] != '\n',
    decreases s.len() - start,
{
    if start < s.len() && s[start] != '\n' {
        lemma_first_newline(s, start + 1);
    }
}

/// The lines of `s` as `str::lines` gives them: split at each `\n`, with the
/// `\n` and a `\r` just before it left out; a final line ending is optional,
/// and an empty text has no lines.
pub open spec fn spec_lines(s: Seq<char>) -> Seq<Seq<char>>
    decreases s.len(),
{
    if s.len() == 0 {
        Seq::empty()
    } else {
        let e = first_newline(s, 0);
        proof {
            lemma_first_newline(s, 0);
        }
        let raw = s.subrange(0, e);
        if e < s.len() {
            let line = if raw.len() > 0 && raw.last() == '\r' { raw.drop_last() } else { raw };
            seq![line] + spec_lines(s.subrange(e + 1, s.len() as int))
        } else {
            seq![raw]
        }
    }
}

/// No line holds a `\n`, and a non-empty text without one is a single line.
pub proof fn lemma_lines_laws(s: Seq<char>)
    ensures
        forall|k: int, j: int| 0 <= k < spec_lines(s).len() && 0 <= j < spec_lines(s)[k].len() ==> #[trigger] spec_lines(
            s,
        )[k][j] != '\n',
        (s.len() > 0 && !s.contains('\n')) ==> spec_lines(s) == seq![s],
    decreases s.len(),
{
    if s.len() > 0 {
        lemma_first_newline(s, 0);
        let e = first_newline(s, 0);
        let raw = s.subrange(0, e);
        let lines = spec_lines(s);
        if e < s.len() {
            let rest = s.subrange(e + 1, s.len() as int);
            lemma_lines_laws(rest);
            let line = if raw.len() > 0 && raw.last() == '\r' { raw.drop_last() } else { raw };
            assert(lines == seq![line] + spec_lines(rest));
            assert forall|k: int, j: int| 0 <= k < lines.len() && 0 <= j < lines[k].len() implies #[trigger] lines[k][j]
                != '\n' by {
                if k == 0 {
                    assert(lines[0] == line);
                    assert(line[j] == s[j]);
                } else {
                    assert(lines[k] == spec_lines(rest)[k - 1]);
                }
            }
            assert(s.contains('\n')) by {
                assert(s[e] == '\n');
            }
        } else {
            assert(lines == seq![raw]);
            assert(raw =~= s);
            assert forall|k: int, j: int| 0 <= k < lines.len() && 0 <= j < lines[k].len() implies #[trigger] lines[k][j]
                != '\n' by {
                assert(lines[k] == s);
            }
        }
    }
}

/// Calls `str::lines`. As its documentation says, lines end at `\n` or at
/// `\r\n`, the terminators are left out, the final line ending is optional,
/// and a `\r` not followed by `\n` stays in its line.
#[verifier::external_body]
pub(crate) fn str_lines(s: &str) -> (lines: Vec<String>)
    ensures
        views(lines@) == spec_lines(s@),
{
    s.lines().map(|line| line.to_string()).collect()
}

} // verus!
