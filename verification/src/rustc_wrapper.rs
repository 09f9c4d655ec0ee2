//! The decisions of the `RUSTC_WORKSPACE_WRAPPER` that lintcheck installs in
//! recursive mode: which crates are checked by clippy, and the command line
//! that is run for each crate.
use vstd::prelude::*;
use crate::text::{clone_strings_from, push_char, views};

verus! {

/// The index of the first argument equal to `rustc` from index `i` on, or
/// the number of arguments when there is none.
pub open spec fn first_rustc_from(args: Seq<Seq<char>>, i: int) -> int
    decreases args.len() - i,
{
    if i < 0 || i >= args.len() {
        args.len() as int
    } else if args[i] == "rustc"@ {
        i
    } else {
        first_rustc_from(args, i + 1)
    }
}

/// The index of the first argument equal to `rustc`, or the number of
/// arguments when there is none.
pub open spec fn first_rustc(args: Seq<Seq<char>>) -> int {
    first_rustc_from(args, 0)
}

/// `first_rustc_from` is the index of the first `rustc` from `i` on.
pub proof fn lemma_first_rustc_from(args: Seq<Seq<char>>, i: int)
    requires
        0 <= i <= args.len(),
    ensures
        i <= first_rustc_from(args, i) <= args.len(),
        first_rustc_from(args, i) < args.len() ==> args[first_rustc_from(args, i)] == "rustc"@,
        forall|k: int| i <= k < first_rustc_from(args, i) ==> args[k] != "rustc"@,
    decreases args.len() - i,
{
    if i < args.len() {
        lemma_first_rustc_from(args, i + 1);
    }
}

/// The arguments from the first `rustc` on: the command line of the compiler
/// that cargo asked the wrapper to run.
pub fn args_from_rustc(args: &Vec<String>) -> (rest: Vec<String>)
    ensures
        views(rest@) == views(args@).skip(first_rustc(views(args@))),
{
    proof {
        lemma_first_rustc_from(views(args@), 0);
    }
    let mut start: usize = 0;
    let mut found = false;
    let rustc = String::from_str("rustc");
    while start < args.len() && !found
        invariant
            0 <= start <= args@.len(),
            rustc@ == "rustc"@,
            found ==> start < args@.len() && views(args@)[start as int] == "rustc"@,
            forall|i: int| 0 <= i < start ==> views(args@)[i] != "rustc"@,
        decreases args.len() - start, if found { 0int } else { 1int },
    {
        if args[start] == rustc {
            found = true;
        } else {
            start = start + 1;
        }
    }
    proof {
        let v = views(args@);
        let f = first_rustc(v);
        if start < args@.len() {
            assert(v[start as int] == "rustc"@);
        }
        if f < start {
            assert(v[f] == "rustc"@);
        }
        assert(f == start);
    }
    clone_strings_from(args, start)
}

/// The arguments from `rustc` on start with the first `rustc` of the list
/// and run to its end; no argument before them is `rustc`, and when no
/// argument is `rustc` there are none.
pub proof fn lemma_args_from_rustc_laws(args: Seq<Seq<char>>)
    ensures
        args.contains("rustc"@) ==> ({
            let rest = args.skip(first_rustc(args));
            &&& rest.len() > 0
            &&& rest[0] == "rustc"@
            &&& rest == args.subrange(args.len() - rest.len(), args.len() as int)
            &&& forall|k: int| 0 <= k < args.len() - rest.len() ==> args[k] != "rustc"@
        }),
        !args.contains("rustc"@) ==> args.skip(first_rustc(args)).len() == 0,
{
    lemma_first_rustc_from(args, 0);
    if args.contains("rustc"@) {
        let k = choose|k: int| 0 <= k < args.len() && args[k] == "rustc"@;
        assert(first_rustc(args) <= k);
    } else {
        if first_rustc(args) < args.len() {
            assert(args[first_rustc(args)] == "rustc"@);
        }
    }
}

/// Whether every `--cap-lints` flag that the rewrite reads as a flag has a
/// value after it. The wrapper cannot rewrite an argument list that ends in
/// a bare `--cap-lints`.
pub open spec fn cap_lints_complete(args: Seq<Seq<char>>, i: int) -> bool
    decreases args.len() - i,
{
    if i < 0 || i >= args.len() {
        true
    } else if args[i] == "--cap-lints"@ {
        i + 1 < args.len() && cap_lints_complete(args, i + 2)
    } else {
        cap_lints_complete(args, i + 1)
    }
}

/// The arguments from index `i` on, with `--cap-lints=allow` turned into
/// `--cap-lints=warn` and the value after a separate `--cap-lints` turned
/// into `warn`: clippy skips a crate whose lints are capped at `allow`.
pub open spec fn cap_lints_rewritten(args: Seq<Seq<char>>, i: int) -> Seq<Seq<char>>
    decreases args.len() - i,
{
    if i < 0 || i >= args.len() {
        Seq::empty()
    } else if args[i] == "--cap-lints=allow"@ {
        seq!["--cap-lints=warn"@] + cap_lints_rewritten(args, i + 1)
    } else if args[i] == "--cap-lints"@ && i + 1 < args.len() {
        seq![args[i], "warn"@] + cap_lints_rewritten(args, i + 2)
    } else {
        seq![args[i]] + cap_lints_rewritten(args, i + 1)
    }
}

/// The rewritten arguments from `i` on are as many as the arguments from `i`
/// on.
pub proof fn lemma_rewritten_len(args: Seq<Seq<char>>, i: int)
    requires
        0 <= i <= args.len(),
    ensures
        cap_lints_rewritten(args, i).len() == args.len() - i,
    decreases args.len() - i,
{
    if i < args.len() {
        if args[i] == "--cap-lints=allow"@ {
            lemma_rewritten_len(args, i + 1);
        } else if args[i] == "--cap-lints"@ && i + 1 < args.len() {
            lemma_rewritten_len(args, i + 2);
        } else {
            lemma_rewritten_len(args, i + 1);
        }
    }
}

/// Turns every cap of lints at `allow` into a cap at `warn`, so that clippy
/// does not skip the crate.
pub fn cap_lints_to_warn(args: &Vec<String>) -> (rewritten: Vec<String>)
    requires
        cap_lints_complete(views(args@), 0),
    ensures
        views(rewritten@) == cap_lints_rewritten(views(args@), 0),
{
    let ghost v = views(args@);
    let allow = String::from_str("--cap-lints=allow");
    let cap = String::from_str("--cap-lints");
    let mut out: Vec<String> = Vec::new();
    let mut i: usize = 0;
    while i < args.len()
        invariant
            v == views(args@),
            0 <= i <= args@.len(),
            allow@ == "--cap-lints=allow"@,
            cap@ == "--cap-lints"@,
            cap_lints_complete(v, i as int),
            views(out@) + cap_lints_rewritten(v, i as int) == cap_lints_rewritten(v, 0),
        decreases args.len() - i,
    {
        let ghost before = views(out@);
        assert(v[i as int] == args@[i as int]@);
        proof {
            reveal_strlit("--cap-lints=allow");
            reveal_strlit("--cap-lints");
        }
        if args[i] == allow {
            out.push(String::from_str("--cap-lints=warn"));
            assert(views(out@) == before + seq!["--cap-lints=warn"@]);
            i = i + 1;
        } else if args[i] == cap {
            out.push(args[i].clone());
            out.push(String::from_str("warn"));
            assert(views(out@) == before + seq![v[i as int], "warn"@]);
            i = i + 2;
        } else {
            out.push(args[i].clone());
            assert(views(out@) == before + seq![v[i as int]]);
            i = i + 1;
        }
        assert(views(out@) + cap_lints_rewritten(v, i as int) == cap_lints_rewritten(v, 0));
    }
    assert(views(out@) + Seq::<Seq<char>>::empty() == views(out@));
    out
}

/// The wrapper's rewrite, applied twice, changes nothing more, and keeps
/// every flag complete: once no lints are capped at `allow`, none are.
pub proof fn lemma_cap_lints_idempotent(args: Seq<Seq<char>>, i: int)
    requires
        0 <= i <= args.len(),
        cap_lints_complete(args, i),
    ensures
        cap_lints_complete(cap_lints_rewritten(args, i), 0),
        cap_lints_rewritten(cap_lints_rewritten(args, i), 0) == cap_lints_rewritten(args, i),
    decreases args.len() - i,
{
    reveal_strlit("--cap-lints=allow");
    reveal_strlit("--cap-lints=warn");
    reveal_strlit("--cap-lints");
    reveal_strlit("warn");
    assert("--cap-lints=allow"@.len() == 17);
    assert("--cap-lints=warn"@.len() == 16);
    assert("--cap-lints"@.len() == 11);
    assert("--cap-lints=allow"@ != "--cap-lints"@);
    assert("--cap-lints=warn"@ != "--cap-lints"@);
    assert("--cap-lints=warn"@ != "--cap-lints=allow"@) by {
        assert("--cap-lints=warn"@[12] != "--cap-lints=allow"@[12]);
    }
    let r = cap_lints_rewritten(args, i);
    if i < args.len() {
        if args[i] == "--cap-lints=allow"@ {
            lemma_cap_lints_idempotent(args, i + 1);
            lemma_rewritten_len(args, i + 1);
            lemma_shift(seq!["--cap-lints=warn"@], cap_lints_rewritten(args, i + 1));
        } else if args[i] == "--cap-lints"@ && i + 1 < args.len() {
            lemma_cap_lints_idempotent(args, i + 2);
            lemma_rewritten_len(args, i + 2);
            lemma_shift(seq![args[i], "warn"@], cap_lints_rewritten(args, i + 2));
        } else {
            assert(args[i] != "--cap-lints"@);
            lemma_cap_lints_idempotent(args, i + 1);
            lemma_rewritten_len(args, i + 1);
            lemma_shift(seq![args[i]], cap_lints_rewritten(args, i + 1));
        }
    }
}

/// The rewrite touches nothing but lint caps: arguments without
/// `--cap-lints` or `--cap-lints=allow` pass through unchanged.
pub proof fn lemma_rewrite_keeps_other_args(args: Seq<Seq<char>>, i: int)
    requires
        0 <= i <= args.len(),
        forall|k: int| i <= k < args.len() ==> #[trigger] args[k] != "--cap-lints"@ && args[k] != "--cap-lints=allow"@,
    ensures
        cap_lints_rewritten(args, i) == args.skip(i),
    decreases args.len() - i,
{
    if i < args.len() {
        lemma_rewrite_keeps_other_args(args, i + 1);
        assert(seq![args[i]] + args.skip(i + 1) =~= args.skip(i));
    } else {
        assert(args.skip(i) =~= Seq::<Seq<char>>::empty());
    }
}

/// After the wrapper's rewrite no argument is `--cap-lints=allow` any more,
/// so clippy never finds its lints capped at `allow`.
pub proof fn lemma_no_allow_left(args: Seq<Seq<char>>, i: int)
    requires
        0 <= i <= args.len(),
    ensures
        !cap_lints_rewritten(args, i).contains("--cap-lints=allow"@),
    decreases args.len() - i,
{
    reveal_strlit("--cap-lints=allow");
    reveal_strlit("--cap-lints=warn");
    reveal_strlit("warn");
    assert("--cap-lints=warn"@ != "--cap-lints=allow"@) by {
        assert("--cap-lints=warn"@[12] != "--cap-lints=allow"@[12]);
    }
    assert("warn"@ != "--cap-lints=allow"@) by {
        assert("warn"@.len() != "--cap-lints=allow"@.len());
    }
    if i < args.len() {
        let r = cap_lints_rewritten(args, i);
        if args[i] == "--cap-lints=allow"@ {
            lemma_no_allow_left(args, i + 1);
            let t = cap_lints_rewritten(args, i + 1);
            assert(r == seq!["--cap-lints=warn"@] + t);
            if r.contains("--cap-lints=allow"@) {
                let k = choose|k: int| 0 <= k < r.len() && r[k] == "--cap-lints=allow"@;
                if k > 0 {
                    assert(t[k - 1] == "--cap-lints=allow"@);
                }
            }
        } else if args[i] == "--cap-lints"@ && i + 1 < args.len() {
            lemma_no_allow_left(args, i + 2);
            let t = cap_lints_rewritten(args, i + 2);
            assert(r == seq![args[i], "warn"@] + t);
            if r.contains("--cap-lints=allow"@) {
                let k = choose|k: int| 0 <= k < r.len() && r[k] == "--cap-lints=allow"@;
                if k > 1 {
                    assert(t[k - 2] == "--cap-lints=allow"@);
                }
            }
        } else {
            lemma_no_allow_left(args, i + 1);
            let t = cap_lints_rewritten(args, i + 1);
            assert(r == seq![args[i]] + t);
            if r.contains("--cap-lints=allow"@) {
                let k = choose|k: int| 0 <= k < r.len() && r[k] == "--cap-lints=allow"@;
                if k > 0 {
                    assert(t[k - 1] == "--cap-lints=allow"@);
                }
            }
        }
    }
}

/// Reading the rewrite of `head + tail` past a head of one or two arguments
/// reads the rewrite of `tail`.
proof fn lemma_shift(head: Seq<Seq<char>>, tail: Seq<Seq<char>>)
    requires
        1 <= head.len() <= 2,
        head.len() == 2 ==> head[0] == "--cap-lints"@ && head[1] == "warn"@,
        head.len() == 1 ==> head[0] != "--cap-lints"@,
        head[0] != "--cap-lints=allow"@,
    ensures
        cap_lints_complete(head + tail, 0) == cap_lints_complete(tail, 0),
        cap_lints_rewritten(head + tail, 0) == head + cap_lints_rewritten(tail, 0),
{
    reveal_strlit("--cap-lints=allow");
    reveal_strlit("--cap-lints");
    let s = head + tail;
    let n = head.len() as int;
    lemma_suffix_complete(s, tail, n, 0);
    lemma_suffix_rewritten(s, tail, n, 0);
    assert(s[0] == head[0]);
    if n == 2 {
        assert(s[1] == "warn"@);
        assert(cap_lints_rewritten(s, 0) == seq![s[0], "warn"@] + cap_lints_rewritten(s, 2));
        assert(seq![s[0], "warn"@] == head);
    } else {
        assert(cap_lints_rewritten(s, 0) == seq![s[0]] + cap_lints_rewritten(s, 1));
        assert(seq![s[0]] == head);
    }
}

/// Reading `s` from `n + j` reads `tail` from `j`, where `s` ends in `tail`
/// after `n` arguments: completeness.
proof fn lemma_suffix_complete(s: Seq<Seq<char>>, tail: Seq<Seq<char>>, n: int, j: int)
    requires
        0 <= n,
        0 <= j,
        s.len() == n + tail.len(),
        forall|k: int| 0 <= k < tail.len() ==> s[n + k] == tail[k],
    ensures
        cap_lints_complete(s, n + j) == cap_lints_complete(tail, j),
    decreases tail.len() - j,
{
    if j < tail.len() {
        lemma_suffix_complete(s, tail, n, j + 1);
        if j + 2 <= tail.len() {
            lemma_suffix_complete(s, tail, n, j + 2);
        }
    }
}

/// Reading `s` from `n + j` reads `tail` from `j`, where `s` ends in `tail`
/// after `n` arguments: the rewrite.
proof fn lemma_suffix_rewritten(s: Seq<Seq<char>>, tail: Seq<Seq<char>>, n: int, j: int)
    requires
        0 <= n,
        0 <= j,
        s.len() == n + tail.len(),
        forall|k: int| 0 <= k < tail.len() ==> s[n + k] == tail[k],
    ensures
        cap_lints_rewritten(s, n + j) == cap_lints_rewritten(tail, j),
    decreases tail.len() - j,
{
    if j < tail.len() {
        lemma_suffix_rewritten(s, tail, n, j + 1);
        if j + 2 <= tail.len() {
            lemma_suffix_rewritten(s, tail, n, j + 2);
        }
    }
}

/// `g` with every `*` turned into `.*`.
pub open spec fn expand_stars(g: Seq<char>) -> Seq<char>
    decreases g.len(),
{
    if g.len() == 0 {
        Seq::empty()
    } else {
        expand_stars(g.drop_last()) + if g.last() == '*' {
            seq!['.', '*']
        } else {
            seq![g.last()]
        }
    }
}

/// Expanding the stars of two globs written one after the other expands
/// each in turn: every `*` becomes `.*`, wherever it stands, and every other
/// character is kept.
pub proof fn lemma_expand_stars_append(a: Seq<char>, b: Seq<char>)
    ensures
        expand_stars(a + b) == expand_stars(a) + expand_stars(b),
    decreases b.len(),
{
    if b.len() == 0 {
        assert(a + b == a);
    } else {
        assert((a + b).drop_last() == a + b.drop_last());
        assert((a + b).last() == b.last());
        lemma_expand_stars_append(a, b.drop_last());
    }
}

/// A glob without `*` stands for exactly itself; a `*` alone matches any
/// name.
pub proof fn lemma_glob_regex_laws(g: Seq<char>)
    ensures
        !g.contains('*') ==> glob_regex(g) == seq!['^'] + g + seq!['$'],
        glob_regex(seq!['*']) == seq!['^', '.', '*', '$'],
        glob_regex(g).len() >= g.len() + 2,
        glob_regex(g)[0] == '^',
        glob_regex(g).last() == '$',
    decreases g.len(),
{
    lemma_expand_stars_len(g);
    if !g.contains('*') {
        lemma_expand_stars_no_star(g);
    }
    assert(expand_stars(seq!['*']) == expand_stars(Seq::<char>::empty()) + seq!['.', '*']) by {
        assert(seq!['*'].drop_last() == Seq::<char>::empty());
    }
    assert(glob_regex(seq!['*']) =~= seq!['^', '.', '*', '$']);
}

/// Expanding the stars never shortens a glob.
proof fn lemma_expand_stars_len(g: Seq<char>)
    ensures
        expand_stars(g).len() >= g.len(),
    decreases g.len(),
{
    if g.len() > 0 {
        lemma_expand_stars_len(g.drop_last());
    }
}

/// A glob without `*` is kept as it is.
proof fn lemma_expand_stars_no_star(g: Seq<char>)
    requires
        !g.contains('*'),
    ensures
        expand_stars(g) == g,
    decreases g.len(),
{
    if g.len() > 0 {
        assert(!g.drop_last().contains('*')) by {
            if g.drop_last().contains('*') {
                let k = choose|k: int| 0 <= k < g.drop_last().len() && g.drop_last()[k] == '*';
                assert(g[k] == '*');
            }
        }
        lemma_expand_stars_no_star(g.drop_last());
        assert(g.last() != '*') by {
            assert(g[g.len() - 1] == g.last());
        }
        assert(g.drop_last() + seq![g.last()] =~= g);
    }
}

/// The regular expression that a glob of the ignore list stands for: the
/// whole name must match, and `*` matches any run of characters. No other
/// character of the glob is escaped.
pub open spec fn glob_regex(g: Seq<char>) -> Seq<char> {
    seq!['^'] + expand_stars(g) + seq!['$']
}

/// The regular expression `^glob$`, with every `*` of the glob turned into
/// `.*`.
pub fn glob_to_regex(glob: &str) -> (pattern: String)
    ensures
        pattern@ == glob_regex(glob@),
{
    let mut pattern = String::new();
    push_char(&mut pattern, '^');
    for c in iter: glob.chars()
        invariant
            iter.seq() == glob@,
            pattern@ == seq!['^'] + expand_stars(glob@.take(iter.index())),
    {
        proof {
            assert(glob@.take(iter.index() + 1).drop_last() == glob@.take(iter.index()));
        }
        if c == '*' {
            push_char(&mut pattern, '.');
            push_char(&mut pattern, '*');
        } else {
            push_char(&mut pattern, c);
        }
    }
    proof {
        assert(glob@.take(glob@.len() as int) == glob@);
    }
    push_char(&mut pattern, '$');
    pattern
}

/// Whether `regex::Regex::new` accepts `pattern`.
pub uninterp spec fn regex_compiles(pattern: Seq<char>) -> bool;

/// What `regex::Regex::is_match` answers on `haystack` for the regular
/// expression compiled from `pattern`.
pub uninterp spec fn regex_matches(pattern: Seq<char>, haystack: Seq<char>) -> bool;

/// Calls `regex::Regex::new(pattern)` and, when the pattern compiles,
/// `Regex::is_match(haystack)` on the result. The contract claims only that
/// the answer is `None` exactly when the pattern does not compile, and that
/// otherwise it is what `is_match` answers; both are named, not described.
#[verifier::external_body]
fn regex_is_match(pattern: &str, haystack: &str) -> (result: Option<bool>)
    ensures
        result is Some <==> regex_compiles(pattern@),
        result matches Some(m) ==> m == regex_matches(pattern@, haystack@),
{
    match regex::Regex::new(pattern) {
        Ok(re) => Some(re.is_match(haystack)),
        Err(_) => None,
    }
}

/// What testing `name` against `glob` gives: `None` when the glob's regular
/// expression does not compile, else whether it matches.
pub open spec fn glob_result(glob: Seq<char>, name: Seq<char>) -> Option<bool> {
    if regex_compiles(glob_regex(glob)) {
        Some(regex_matches(glob_regex(glob), name))
    } else {
        None
    }
}

/// The outcome of testing a name against the globs in order, given the
/// result of each test from index `i` on: the name is ignored at the first
/// glob that matches; a glob that does not compile is an error, unless an
/// earlier one matched; the name is checked when no glob matches.
pub open spec fn ignore_outcome(results: Seq<Option<bool>>, i: int) -> Result<bool, usize>
    decreases results.len() - i,
{
    if i < 0 || i >= results.len() {
        Ok(false)
    } else {
        match results[i] {
            None => Err(i as usize),
            Some(true) => Ok(true),
            Some(false) => ignore_outcome(results, i + 1),
        }
    }
}

/// Every test from index `j` up to `i` compiled and did not match.
pub open spec fn none_match_between(results: Seq<Option<bool>>, j: int, i: int) -> bool {
    forall|k: int| j <= k < i ==> #[trigger] results[k] == Some(false)
}

/// Test `i` is the first from `j` on that matches, and every one before it
/// compiled.
pub open spec fn first_match_at(results: Seq<Option<bool>>, j: int, i: int) -> bool {
    j <= i < results.len() && results[i] == Some(true) && none_match_between(results, j, i)
}

/// A name is ignored exactly when some glob matches it and every earlier
/// glob compiles and does not match.
pub proof fn lemma_ignored_iff_first_match(results: Seq<Option<bool>>, j: int)
    requires
        0 <= j <= results.len(),
    ensures
        ignore_outcome(results, j) == Ok::<bool, usize>(true) <==> exists|i: int| #[trigger] first_match_at(results, j, i),
    decreases results.len() - j,
{
    if j < results.len() {
        lemma_ignored_iff_first_match(results, j + 1);
        match results[j] {
            Some(true) => {
                assert(first_match_at(results, j, j));
            },
            Some(false) => {
                if exists|i: int| #[trigger] first_match_at(results, j + 1, i) {
                    let i = choose|i: int| #[trigger] first_match_at(results, j + 1, i);
                    assert(first_match_at(results, j, i));
                }
                if exists|i: int| #[trigger] first_match_at(results, j, i) {
                    let i = choose|i: int| #[trigger] first_match_at(results, j, i);
                    assert(i != j);
                    assert(first_match_at(results, j + 1, i));
                }
            },
            None => {
                assert forall|i: int| !#[trigger] first_match_at(results, j, i) by {
                    if j < i && i < results.len() && none_match_between(results, j, i) {
                        assert(results[j] == Some(false));
                    }
                }
            },
        }
    }
}

/// A name is checked exactly when every glob compiles and none matches it.
pub proof fn lemma_checked_iff_none_match(results: Seq<Option<bool>>, j: int)
    requires
        0 <= j <= results.len(),
    ensures
        ignore_outcome(results, j) == Ok::<bool, usize>(false) <==> none_match_between(results, j, results.len() as int),
    decreases results.len() - j,
{
    if j < results.len() {
        lemma_checked_iff_none_match(results, j + 1);
        if none_match_between(results, j, results.len() as int) {
            assert(results[j] == Some(false));
        }
        if results[j] == Some(false) && none_match_between(results, j + 1, results.len() as int) {
            assert forall|k: int| j <= k < results.len() implies #[trigger] results[k] == Some(false) by {
                if k > j {
                    assert(j + 1 <= k < results.len());
                }
            }
        }
    }
}

/// An error names the first glob that does not compile, every earlier glob
/// compiling and not matching (for any list of results a `Vec` can hold).
pub proof fn lemma_error_names_first_bad_glob(results: Seq<Option<bool>>, j: int)
    requires
        0 <= j <= results.len(),
        results.len() <= usize::MAX,
    ensures
        ignore_outcome(results, j) matches Err(i) ==> {
            &&& j <= i < results.len()
            &&& results[i as int] is None
            &&& none_match_between(results, j, i as int)
        },
    decreases results.len() - j,
{
    if j < results.len() {
        lemma_error_names_first_bad_glob(results, j + 1);
        if results[j] == Some(false) {
            if ignore_outcome(results, j) is Err {
                let i = ignore_outcome(results, j)->Err_0;
                assert forall|k: int| j <= k < i implies #[trigger] results[k] == Some(false) by {
                    if k > j {
                        assert(j + 1 <= k < i);
                    }
                }
            }
        }
    }
}

/// The outcome of the tests of a package name against the ignore globs,
/// given the result of each test: `Ok(true)` at the first match, `Err(i)`
/// when glob `i` does not compile and no earlier glob matched.
pub fn decide_ignored(results: &Vec<Option<bool>>) -> (outcome: Result<bool, usize>)
    ensures
        outcome == ignore_outcome(results@, 0),
{
    let mut i: usize = 0;
    while i < results.len()
        invariant
            0 <= i <= results@.len(),
            ignore_outcome(results@, i as int) == ignore_outcome(results@, 0),
        decreases results.len() - i,
    {
        match results[i] {
            None => return Err(i),
            Some(true) => return Ok(true),
            Some(false) => {},
        }
        i = i + 1;
    }
    Ok(false)
}

/// The results of testing `name` against each glob of `globs`.
pub open spec fn glob_results(globs: Seq<Seq<char>>, name: Seq<char>) -> Seq<Option<bool>> {
    globs.map_values(|g: Seq<char>| glob_result(g, name))
}

/// Whether the wrapper leaves the current crate to plain `rustc`: when cargo
/// did not name the package (`pkg_name` is `None`), or when the package name
/// matches one of the globs of the ignore list. `Err(i)` when glob `i` is not
/// a valid pattern and no earlier glob matched. Globs after the first match
/// are not compiled.
pub fn is_ignored(pkg_name: Option<&str>, ignore: &Vec<String>) -> (outcome: Result<bool, usize>)
    ensures
        outcome == match pkg_name {
            None => Ok(true),
            Some(name) => ignore_outcome(glob_results(views(ignore@), name@), 0),
        },
{
    match pkg_name {
        None => Ok(true),
        Some(name) => {
            let ghost results = glob_results(views(ignore@), name@);
            let mut i: usize = 0;
            while i < ignore.len()
                invariant
                    0 <= i <= ignore@.len(),
                    results == glob_results(views(ignore@), name@),
                    pkg_name == Some(name),
                    results.len() == ignore@.len(),
                    ignore_outcome(results, i as int) == ignore_outcome(results, 0),
                decreases ignore.len() - i,
            {
                let pattern = glob_to_regex(ignore[i].as_str());
                let result = regex_is_match(pattern.as_str(), name);
                assert(views(ignore@)[i as int] == ignore@[i as int]@);
                assert(results[i as int] == glob_result(ignore@[i as int]@, name@));
                assert(result == results[i as int]);
                match result {
                    None => return Err(i),
                    Some(true) => return Ok(true),
                    Some(false) => {},
                }
                i = i + 1;
            }
            Ok(false)
        },
    }
}

/// The command the wrapper runs for one crate.
pub enum WrapperCommand {
    /// Plain `rustc` with these arguments.
    Rustc { args: Vec<String> },
    /// The clippy driver with these arguments.
    ClippyDriver { args: Vec<String> },
}

/// The view of a command: whether it runs the clippy driver, and its
/// arguments.
pub open spec fn command_view(c: WrapperCommand) -> (bool, Seq<Seq<char>>) {
    match c {
        WrapperCommand::Rustc { args } => (false, views(args@)),
        WrapperCommand::ClippyDriver { args } => (true, views(args@)),
    }
}

/// The command for a crate, given the arguments from `rustc` on: `rustc`
/// itself with the remaining arguments when the crate is ignored, else the
/// clippy driver with every cap of lints at `allow` raised to `warn`. `None`
/// when a bare `--cap-lints` ends the arguments of a crate to check.
pub fn wrapper_command(ignored: bool, args: &Vec<String>) -> (command: Option<WrapperCommand>)
    ensures
        match command {
            None => !ignored && !cap_lints_complete(views(args@), 0),
            Some(c) => command_view(c) == if ignored {
                (false, views(args@).skip(if args@.len() == 0 { 0int } else { 1int }))
            } else {
                (true, cap_lints_rewritten(views(args@), 0))
            },
        },
{
    if ignored {
        let start: usize = if args.len() == 0 { 0 } else { 1 };
        Some(WrapperCommand::Rustc { args: clone_strings_from(args, start) })
    } else if cap_lints_check(args) {
        Some(WrapperCommand::ClippyDriver { args: cap_lints_to_warn(args) })
    } else {
        None
    }
}

/// Whether every `--cap-lints` flag of `args` has a value after it.
pub fn cap_lints_check(args: &Vec<String>) -> (complete: bool)
    ensures
        complete == cap_lints_complete(views(args@), 0),
{
    let ghost v = views(args@);
    let cap = String::from_str("--cap-lints");
    let mut i: usize = 0;
    while i < args.len()
        invariant
            v == views(args@),
            0 <= i,
            cap@ == "--cap-lints"@,
            cap_lints_complete(v, i as int) == cap_lints_complete(v, 0),
        decreases args.len() - i,
    {
        assert(v[i as int] == args@[i as int]@);
        if args[i] == cap {
            if i + 1 >= args.len() {
                return false;
            }
            i = i + 2;
        } else {
            i = i + 1;
        }
    }
    true
}

} // verus!
