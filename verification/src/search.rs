//! The decisions of a search run: how a dry run shows the command, what a
//! finished command means, and the order of results.
use vstd::prelude::*;
use vstd::string::StringExecFns;
use crate::common::{Match, MatchView, match_views};
use crate::framework::Cmd;
use crate::tools::Args;
use crate::text::{compare_text, text_order, texts, lemma_text_order_antisymmetric, lemma_text_order_transitive};

verus! {

/// Words in double quotes, separated by single spaces.
pub open spec fn quoted_words(words: Seq<Seq<char>>) -> Seq<char>
    decreases words.len(),
{
    if words.len() == 0 {
        Seq::empty()
    } else if words.len() == 1 {
        "\""@ + words[0] + "\""@
    } else {
        quoted_words(words.drop_last()) + " \""@ + words.last() + "\""@
    }
}

/// How a dry run shows a command: the program, a space, then each argument
/// in double quotes, separated by spaces.
pub open spec fn dry_run_text(program: Seq<char>, args: Seq<Seq<char>>) -> Seq<char> {
    program + " "@ + quoted_words(args)
}

/// The line a dry run prints for a command (see `dry_run_text`).
pub fn dry_run_line(cmd: &Cmd) -> (r: String)
    ensures
        r@ == dry_run_text(cmd.0@, texts(cmd.1@)),
{
    let mut r = String::new();
    r.append(cmd.0.as_str());
    r.append(" ");
    let ghost start = r@;
    let mut i: usize = 0;
    let n: usize = cmd.1.len();
    assert(texts(cmd.1@).take(0) =~= Seq::<Seq<char>>::empty());
    assert(start =~= cmd.0@ + " "@ + quoted_words(texts(cmd.1@).take(0)));
    while i < n
        invariant
            i <= n,
            n == cmd.1@.len(),
            start == cmd.0@ + " "@,
            r@ == start + quoted_words(texts(cmd.1@).take(i as int)),
        decreases n - i,
    {
        let ghost words = texts(cmd.1@).take(i + 1);
        assert(words.drop_last() =~= texts(cmd.1@).take(i as int));
        assert(words.last() == cmd.1@[i as int]@);
        if i > 0 {
            r.append(" \"");
        } else {
            r.append("\"");
        }
        r.append(cmd.1[i].as_str());
        r.append("\"");
        proof {
            if i == 0 {
                assert(words.len() == 1);
                assert(words[0] == cmd.1@[0]@);
            }
        }
        assert(r@ =~= start + quoted_words(words));
        i = i + 1;
    }
    assert(texts(cmd.1@).take(n as int) =~= texts(cmd.1@));
    r
}

/// What a finished search command means.
#[derive(PartialEq, Eq, Structural)]
pub enum RunOutcome {
    /// It found nothing: say so.
    NoMatches,
    /// It failed with a message: show it and stop.
    Failed,
    /// It succeeded: read its output.
    Output,
}

/// What a finished command means: a failure with nothing on its error
/// stream found no matches; a failure with a message failed; a success has
/// output to read.
pub fn outcome(success: bool, stderr_empty: bool) -> (r: RunOutcome)
    ensures
        r == (if !success {
            if stderr_empty { RunOutcome::NoMatches } else { RunOutcome::Failed }
        } else {
            RunOutcome::Output
        }),
{
    if !success {
        if stderr_empty {
            RunOutcome::NoMatches
        } else {
            RunOutcome::Failed
        }
    } else {
        RunOutcome::Output
    }
}

/// The order of results (-1, 0, 1): by file name, then line number, then
/// matched line.
pub open spec fn match_order(a: MatchView, b: MatchView) -> int {
    let f = text_order(a.filename, b.filename);
    if f != 0 {
        f
    } else if a.line < b.line {
        -1
    } else if a.line > b.line {
        1
    } else {
        text_order(a.matched, b.matched)
    }
}

/// Result order is antisymmetric, and results are equal in it exactly when
/// they are the same.
pub proof fn lemma_match_order_antisymmetric(a: MatchView, b: MatchView)
    ensures
        match_order(a, b) == -match_order(b, a),
        -1 <= match_order(a, b) <= 1,
        match_order(a, b) == 0 <==> a == b,
{
    lemma_text_order_antisymmetric(a.filename, b.filename);
    lemma_text_order_antisymmetric(a.matched, b.matched);
}

/// Result order is transitive.
pub proof fn lemma_match_order_transitive(a: MatchView, b: MatchView, c: MatchView)
    requires
        match_order(a, b) <= 0,
        match_order(b, c) <= 0,
    ensures
        match_order(a, c) <= 0,
{
    lemma_text_order_antisymmetric(a.filename, b.filename);
    lemma_text_order_antisymmetric(b.filename, c.filename);
    lemma_text_order_antisymmetric(a.filename, c.filename);
    lemma_text_order_antisymmetric(a.matched, b.matched);
    lemma_text_order_antisymmetric(b.matched, c.matched);
    lemma_text_order_antisymmetric(a.matched, c.matched);
    if text_order(a.filename, b.filename) <= 0 && text_order(b.filename, c.filename) <= 0 {
        lemma_text_order_transitive(a.filename, b.filename, c.filename);
    }
    if text_order(a.matched, b.matched) <= 0 && text_order(b.matched, c.matched) <= 0 {
        lemma_text_order_transitive(a.matched, b.matched, c.matched);
    }
}

/// Compares two results (see `match_order`).
pub fn compare_matches(a: &Match, b: &Match) -> (r: i8)
    ensures
        r == match_order(a@, b@),
{
    let f = compare_text(a.filename.as_str(), b.filename.as_str());
    if f != 0 {
        f
    } else if a.line < b.line {
        -1
    } else if a.line > b.line {
        1
    } else {
        compare_text(a.matched.as_str(), b.matched.as_str())
    }
}

/// Whether results are in order.
pub open spec fn sorted(s: Seq<MatchView>) -> bool {
    forall|i: int, j: int| 0 <= i < j < s.len() ==> match_order(#[trigger] s[i], #[trigger] s[j]) <= 0
}

/// The results in order: the same results, sorted by file name, line number
/// and matched line.
pub fn sort_matches(v: Vec<Match>) -> (r: Vec<Match>)
    ensures
        sorted(match_views(r@)),
        match_views(r@).to_multiset() == match_views(v@).to_multiset(),
{
    broadcast use vstd::seq_lib::group_to_multiset_ensures;

    let mut rest = v;
    let mut res: Vec<Match> = Vec::new();
    assert(match_views(res@) =~= Seq::<MatchView>::empty());
    assert(match_views(rest@) =~= match_views(v@));
    while rest.len() > 0
        invariant
            sorted(match_views(res@)),
            match_views(res@).to_multiset().add(match_views(rest@).to_multiset())
                == match_views(v@).to_multiset(),
        decreases rest@.len(),
    {
        let ghost before_rest = match_views(rest@);
        let m = rest.pop().unwrap();
        assert(match_views(rest@) =~= before_rest.drop_last());
        assert(before_rest =~= match_views(rest@).push(m@));
        let ghost rs = match_views(res@);
        let n: usize = res.len();
        let mut p: usize = 0;
        while p < n && compare_matches(&res[p], &m) <= 0
            invariant
                p <= n,
                n == res@.len(),
                rs == match_views(res@),
                forall|k: int| 0 <= k < p ==> match_order(#[trigger] rs[k], m@) <= 0,
            decreases n - p,
        {
            p = p + 1;
        }
        let ghost mv = m@;
        res.insert(p, m);
        proof {
            let ns = match_views(res@);
            assert(ns =~= rs.insert(p as int, mv));
            assert forall|i: int, j: int| 0 <= i < j < ns.len() implies match_order(
                #[trigger] ns[i],
                #[trigger] ns[j],
            ) <= 0 by {
                if j == p {
                } else if i == p {
                    lemma_match_order_antisymmetric(rs[p as int], mv);
                    if j > p + 1 {
                        lemma_match_order_transitive(mv, rs[p as int], rs[j - 1]);
                    }
                } else if i < p && j > p {
                    lemma_match_order_antisymmetric(rs[p as int], mv);
                    lemma_match_order_transitive(rs[i], mv, rs[p as int]);
                    if j > p + 1 {
                        lemma_match_order_transitive(rs[i], rs[p as int], rs[j - 1]);
                    }
                } else if i > p {
                    assert(ns[i] == rs[i - 1]);
                    assert(ns[j] == rs[j - 1]);
                }
            }
            vstd::seq_lib::to_multiset_insert(rs, p as int, mv);
            vstd::seq_lib::to_multiset_build(match_views(rest@), mv);
            let rest_ms = match_views(rest@).to_multiset();
            assert(ns.to_multiset().add(rest_ms) =~= rs.to_multiset().add(rest_ms.insert(mv))) by {
                broadcast use vstd::multiset::group_multiset_axioms;
            }
        }
    }
    res
}

/// What a search request asks for.
#[derive(PartialEq, Eq, Structural, Debug, Clone, Copy)]
pub enum Request {
    /// List the known tools.
    ListTools,
    /// Show the last search again.
    ShowLast,
    /// Run a search.
    Search,
}

/// What a search request asks for: the list of tools if asked; otherwise a
/// search when there is a pattern, and the last search when there is none.
pub open spec fn request_of(args: Args) -> Request {
    if args.list_tools {
        Request::ListTools
    } else if args.regex_pattern is None {
        Request::ShowLast
    } else {
        Request::Search
    }
}

/// What a search request asks for (see `request_of`).
pub fn request(args: &Args) -> (r: Request)
    ensures
        r == request_of(*args),
{
    if args.list_tools {
        Request::ListTools
    } else if args.regex_pattern.is_none() {
        Request::ShowLast
    } else {
        Request::Search
    }
}

/// Asking for the list of tools lists them, whatever else the request holds;
/// otherwise a request with a pattern runs a search and one without shows
/// the last search.
pub proof fn lemma_request_choice(a: Args)
    ensures
        a.list_tools ==> request_of(a) == Request::ListTools,
        !a.list_tools && a.regex_pattern is Some ==> request_of(a) == Request::Search,
        !a.list_tools && a.regex_pattern is None ==> request_of(a) == Request::ShowLast,
{
}

/// Results in different files are ordered by their file names alone, in
/// text order; in the same file, by line number, then by matched line.
pub proof fn lemma_match_order_by_file(a: MatchView, b: MatchView)
    ensures
        text_order(a.filename, b.filename) != 0 ==> match_order(a, b) == text_order(a.filename, b.filename),
        a.filename == b.filename && a.line < b.line ==> match_order(a, b) == -1,
        a.filename == b.filename && a.line == b.line ==> match_order(a, b) == text_order(a.matched, b.matched),
{
    lemma_text_order_antisymmetric(a.filename, b.filename);
}

/// In sorted results, a result whose file name comes first in text order
/// comes first.
pub proof fn lemma_sorted_by_file(s: Seq<MatchView>, i: int, j: int)
    requires
        sorted(s),
        0 <= i < j < s.len(),
    ensures
        text_order(s[i].filename, s[j].filename) <= 0,
        s[i].filename == s[j].filename ==> s[i].line <= s[j].line,
{
    lemma_match_order_antisymmetric(s[i], s[j]);
    lemma_text_order_antisymmetric(s[i].filename, s[j].filename);
    assert(match_order(s[i], s[j]) <= 0);
}

} // verus!
