//! The text in which results are shown.

use vstd::prelude::*;
use vstd::string::StringExecFns;
use crate::manifest::{Match, MatchView};
use crate::remote::RemoteResult;
use crate::scan::{BucketResult, BucketResultView};
use crate::search::RemoteResultView;

verus! {

/// The line of one match: name and version, and the executable that
/// matched where one did.
pub open spec fn match_line(found: MatchView) -> Seq<char> {
    "    "@ + found.0 + " ("@ + found.1 + ")"@ + if found.2.len() == 0 {
        "\n"@
    } else {
        " --> includes '"@ + found.2 + "'\n"@
    }
}

/// The lines of the matches, one after the other.
pub open spec fn match_lines(matches: Seq<MatchView>) -> Seq<char>
    decreases matches.len(),
{
    if matches.len() == 0 {
        Seq::empty()
    } else {
        match_lines(matches.drop_last()) + match_line(matches.last())
    }
}

/// The text of one bucket's matches: a heading with the bucket's name, the
/// lines of the matches, and an empty line. A bucket without matches has no
/// text.
pub open spec fn result_text(result: BucketResultView) -> Seq<char> {
    if result.1.len() == 0 {
        Seq::empty()
    } else {
        "'"@ + result.0 + "' bucket:\n"@ + match_lines(result.1) + "\n"@
    }
}

/// The texts of the buckets' matches, one after the other.
pub open spec fn results_text(results: Seq<BucketResultView>) -> Seq<char>
    decreases results.len(),
{
    if results.len() == 0 {
        Seq::empty()
    } else {
        results_text(results.drop_last()) + result_text(results.last())
    }
}

/// The lines of the candidates, one after the other.
pub open spec fn candidate_lines(names: Seq<Seq<char>>) -> Seq<char>
    decreases names.len(),
{
    if names.len() == 0 {
        Seq::empty()
    } else {
        candidate_lines(names.drop_last()) + "    "@ + names.last() + "\n"@
    }
}

/// The text of one known bucket's candidates: a heading that says how to
/// install from the bucket, the candidates, and an empty line.
pub open spec fn remote_text(result: RemoteResultView) -> Seq<char> {
    "'"@ + result.0 + "' bucket (install using 'scoop install "@ + result.0 + "/<app>'):\n"@ + candidate_lines(
        result.1,
    ) + "\n"@
}

/// The texts of the known buckets' candidates, one after the other.
pub open spec fn remotes_text(results: Seq<RemoteResultView>) -> Seq<char>
    decreases results.len(),
{
    if results.len() == 0 {
        Seq::empty()
    } else {
        remotes_text(results.drop_last()) + remote_text(results.last())
    }
}

/// What is said above the candidates of known buckets.
pub open spec fn remote_banner() -> Seq<char> {
    "Results from other known buckets...\n(add them using 'scoop bucket add <name>')\n\n"@
}

/// The text of the remote results: the banner, then each bucket's
/// candidates.
pub open spec fn suggestion_text(results: Seq<RemoteResultView>) -> Seq<char> {
    remote_banner() + remotes_text(results)
}

/// What is said where nothing was found.
pub open spec fn nothing_text() -> Seq<char> {
    "No matches found.\n"@
}

/// The line of one match.
fn line_of(found: &Match) -> (r: String)
    ensures
        r@ == match_line(found.deep_view()),
{
    let mut line = String::from_str("    ");
    line.append(found.0.as_str());
    line.append(" (");
    line.append(found.1.as_str());
    line.append(")");
    if found.2.as_str().is_empty() {
        line.append("\n");
        assert(line@ =~= match_line(found.deep_view()));
    } else {
        line.append(" --> includes '");
        line.append(found.2.as_str());
        line.append("'\n");
        assert(line@ =~= match_line(found.deep_view()));
    }
    line
}

/// The text of one bucket's matches.
pub fn print_result(result: &BucketResult) -> (r: String)
    ensures
        r@ == result_text(result.deep_view()),
{
    if result.1.len() == 0 {
        return String::new();
    }
    let mut text = String::from_str("'");
    text.append(result.0.as_str());
    text.append("' bucket:\n");
    let ghost head = text@;
    let ghost all = result.1.deep_view();
    let mut i: usize = 0;
    proof {
        assert(all.take(0) =~= Seq::<MatchView>::empty());
        assert(text@ =~= head + match_lines(all.take(0)));
    }
    while i < result.1.len()
        invariant
            i <= result.1.len(),
            all == result.1.deep_view(),
            text@ == head + match_lines(all.take(i as int)),
        decreases result.1.len() - i,
    {
        let line = line_of(&result.1[i]);
        proof {
            assert(all.take(i + 1).drop_last() =~= all.take(i as int));
            assert(all.take(i + 1).last() == result.1@[i as int].deep_view());
        }
        text.append(line.as_str());
        assert(text@ =~= head + match_lines(all.take(i + 1)));
        i += 1;
    }
    proof {
        assert(all.take(result.1.len() as int) =~= all);
    }
    text.append("\n");
    assert(text@ =~= result_text(result.deep_view()));
    text
}

/// The text of the local results.
pub fn print_results(results: &Vec<BucketResult>) -> (r: String)
    ensures
        r@ == results_text(results.deep_view()),
{
    let ghost all = results.deep_view();
    let mut text = String::new();
    let mut i: usize = 0;
    proof {
        assert(all.take(0) =~= Seq::<BucketResultView>::empty());
    }
    while i < results.len()
        invariant
            i <= results.len(),
            all == results.deep_view(),
            text@ == results_text(all.take(i as int)),
        decreases results.len() - i,
    {
        let part = print_result(&results[i]);
        proof {
            assert(all.take(i + 1).drop_last() =~= all.take(i as int));
            assert(all.take(i + 1).last() == results@[i as int].deep_view());
        }
        text.append(part.as_str());
        i += 1;
    }
    proof {
        assert(all.take(results.len() as int) =~= all);
    }
    text
}

/// The text of one known bucket's candidates.
pub fn print_remote(result: &RemoteResult) -> (r: String)
    ensures
        r@ == remote_text(result.deep_view()),
{
    let mut text = String::from_str("'");
    text.append(result.0.as_str());
    text.append("' bucket (install using 'scoop install ");
    text.append(result.0.as_str());
    text.append("/<app>'):\n");
    let ghost head = text@;
    let ghost all = result.1.deep_view();
    let mut i: usize = 0;
    proof {
        assert(all.take(0) =~= Seq::<Seq<char>>::empty());
        assert(text@ =~= head + candidate_lines(all.take(0)));
    }
    while i < result.1.len()
        invariant
            i <= result.1.len(),
            all == result.1.deep_view(),
            text@ == head + candidate_lines(all.take(i as int)),
        decreases result.1.len() - i,
    {
        proof {
            assert(all.take(i + 1).drop_last() =~= all.take(i as int));
            assert(all.take(i + 1).last() == result.1@[i as int]@);
        }
        text.append("    ");
        text.append(result.1[i].as_str());
        text.append("\n");
        assert(text@ =~= head + candidate_lines(all.take(i + 1)));
        i += 1;
    }
    proof {
        assert(all.take(result.1.len() as int) =~= all);
    }
    text.append("\n");
    assert(text@ =~= remote_text(result.deep_view()));
    text
}

/// The text of the remote results.
pub fn print_suggestions(results: &Vec<RemoteResult>) -> (r: String)
    ensures
        r@ == suggestion_text(results.deep_view()),
{
    let ghost all = results.deep_view();
    let mut text = String::from_str(
        "Results from other known buckets...\n(add them using 'scoop bucket add <name>')\n\n",
    );
    let mut i: usize = 0;
    proof {
        assert(all.take(0) =~= Seq::<RemoteResultView>::empty());
        assert(text@ =~= remote_banner() + remotes_text(all.take(0)));
    }
    while i < results.len()
        invariant
            i <= results.len(),
            all == results.deep_view(),
            text@ == remote_banner() + remotes_text(all.take(i as int)),
        decreases results.len() - i,
    {
        let part = print_remote(&results[i]);
        proof {
            assert(all.take(i + 1).drop_last() =~= all.take(i as int));
            assert(all.take(i + 1).last() == results@[i as int].deep_view());
        }
        text.append(part.as_str());
        assert(text@ =~= remote_banner() + remotes_text(all.take(i + 1)));
        i += 1;
    }
    proof {
        assert(all.take(results.len() as int) =~= all);
    }
    text
}

/// What is said where nothing was found.
pub fn print_nothing() -> (r: String)
    ensures
        r@ == nothing_text(),
{
    String::from_str("No matches found.\n")
}

} // verus!
