use vstd::prelude::*;
use vstd::string::*;

use crate::config::{scenario_views, texts, Scenario, ScenarioView};

verus! {

/// The lines joined by line breaks (no break after the last one).
pub open spec fn joined_lines(lines: Seq<Seq<char>>) -> Seq<char>
    decreases lines.len(),
{
    if lines.len() == 0 {
        Seq::empty()
    } else if lines.len() == 1 {
        lines[0]
    } else {
        joined_lines(lines.drop_last()) + "\n"@ + lines.last()
    }
}

/// The text shown for a scenario: its name, its files and its directories, one
/// per line under their headings, and a blank line after.
pub open spec fn scenario_text(scenario: ScenarioView) -> Seq<char> {
    "NAME: "@ + scenario.label + "\nFILES:\n"@ + joined_lines(scenario.files) + "\nDIRECTORIES:\n"@
        + joined_lines(scenario.directories) + "\n\n"@
}

/// The texts of the scenarios, one after the other.
pub open spec fn listing_text(scenarios: Seq<ScenarioView>) -> Seq<char>
    decreases scenarios.len(),
{
    if scenarios.len() == 0 {
        Seq::empty()
    } else {
        listing_text(scenarios.drop_last()) + scenario_text(scenarios.last())
    }
}

/// The strings joined by line breaks.
fn join_lines(lines: &Vec<String>) -> (joined: String)
    ensures
        joined@ == joined_lines(texts(lines@)),
{
    let ghost all = texts(lines@);
    let mut out = String::new();
    for i in 0..lines.len()
        invariant
            all == texts(lines@),
            out@ == joined_lines(all.take(i as int)),
    {
        assert(all.take(i + 1).drop_last() =~= all.take(i as int));
        assert(all.take(i + 1).last() == lines@[i as int]@);
        if i > 0 {
            out.append("\n");
        } else {
            assert(all.take(0) =~= Seq::<Seq<char>>::empty());
        }
        out.append(lines[i].as_str());
    }
    assert(all.take(lines.len() as int) =~= all);
    out
}

/// The text that lists a scenario.
pub fn print_scenario(scenario: &Scenario) -> (text: String)
    ensures
        text@ == scenario_text(scenario@),
{
    let mut out = String::new();
    out.append("NAME: ");
    out.append(scenario.label.as_str());
    out.append("\nFILES:\n");
    out.append(join_lines(&scenario.files).as_str());
    out.append("\nDIRECTORIES:\n");
    out.append(join_lines(&scenario.directories).as_str());
    out.append("\n\n");
    out
}

/// The text that lists the scenarios, in their order.
pub fn show_list(scenarios: &[Scenario]) -> (text: String)
    ensures
        text@ == listing_text(scenario_views(scenarios@)),
{
    let ghost all = scenario_views(scenarios@);
    let mut out = String::new();
    for i in 0..scenarios.len()
        invariant
            all == scenario_views(scenarios@),
            out@ == listing_text(all.take(i as int)),
    {
        assert(all.take(i + 1).drop_last() =~= all.take(i as int));
        out.append(print_scenario(&scenarios[i]).as_str());
    }
    assert(all.take(scenarios.len() as int) =~= all);
    out
}

/// Listing no scenario gives no text; listing one gives its text.
pub proof fn lemma_listing_single(scenario: ScenarioView)
    ensures
        listing_text(Seq::empty()) == Seq::<char>::empty(),
        listing_text(seq![scenario]) == scenario_text(scenario),
{
    assert(seq![scenario].drop_last() =~= Seq::<ScenarioView>::empty());
    assert(seq![scenario].last() == scenario);
    assert(listing_text(seq![scenario].drop_last()) == Seq::<char>::empty());
    assert(Seq::<char>::empty() + scenario_text(scenario) =~= scenario_text(scenario));
}

/// Listing scenarios one group after another gives the listing of the first
/// group followed by that of the second.
pub proof fn lemma_listing_concat(first: Seq<ScenarioView>, second: Seq<ScenarioView>)
    ensures
        listing_text(first + second) == listing_text(first) + listing_text(second),
    decreases second.len(),
{
    if second.len() == 0 {
        assert(first + second =~= first);
        assert(listing_text(first) + Seq::<char>::empty() =~= listing_text(first));
    } else {
        lemma_listing_concat(first, second.drop_last());
        assert((first + second).drop_last() =~= first + second.drop_last());
        assert((first + second).last() == second.last());
        assert(listing_text(first) + listing_text(second) =~= listing_text(first) + listing_text(
            second.drop_last(),
        ) + scenario_text(second.last()));
    }
}

/// One more line is joined after a line break: joining `lines` followed by
/// `line` gives the joined `lines`, a line break, then `line` (for at least
/// one line before it); a single line is joined to itself.
pub proof fn lemma_joined_lines_push(lines: Seq<Seq<char>>, line: Seq<char>)
    ensures
        lines.len() > 0 ==> joined_lines(lines.push(line)) == joined_lines(lines) + seq!['\n']
            + line,
        joined_lines(seq![line]) == line,
        joined_lines(Seq::empty()) == Seq::<char>::empty(),
{
    reveal_strlit("\n");
    assert("\n"@ =~= seq!['\n']);
    assert(lines.push(line).drop_last() =~= lines);
    assert(lines.push(line).last() == line);
}

/// The number of line breaks in a text.
pub open spec fn line_breaks(text: Seq<char>) -> nat {
    text.filter(|c: char| c == '\n').len()
}

/// Joining lines that hold no line break puts exactly one line break between
/// each two of them: `n` lines give `n - 1` breaks, and the text is as long as
/// the lines together plus those breaks.
pub proof fn lemma_joined_lines_breaks(lines: Seq<Seq<char>>)
    requires
        lines.len() > 0,
        forall|i: int| 0 <= i < lines.len() ==> line_breaks(#[trigger] lines[i]) == 0,
    ensures
        line_breaks(joined_lines(lines)) == lines.len() - 1,
        joined_lines(lines).len() == total_length(lines) + lines.len() - 1,
    decreases lines.len(),
{
    broadcast use Seq::filter_distributes_over_add;
    if lines.len() > 1 {
        let front = lines.drop_last();
        lemma_joined_lines_breaks(front);
        lemma_joined_lines_push(front, lines.last());
        assert(front.push(lines.last()) =~= lines);
        assert(line_breaks(lines[lines.len() - 1]) == 0);
        reveal(Seq::filter);
        assert(seq!['\n'].drop_last() =~= Seq::<char>::empty());
        assert(seq!['\n'].filter(|c: char| c == '\n') =~= seq!['\n']);
        assert(total_length(lines) == total_length(front) + lines.last().len());
        assert(joined_lines(lines) == joined_lines(front) + seq!['\n'] + lines.last());
    } else {
        assert(joined_lines(lines) == lines[0]);
        assert(lines.drop_last() =~= Seq::<Seq<char>>::empty());
        assert(total_length(lines.drop_last()) == 0);
        assert(total_length(lines) == lines[0].len());
    }
}

/// The lengths of the lines added up.
pub open spec fn total_length(lines: Seq<Seq<char>>) -> nat
    decreases lines.len(),
{
    if lines.len() == 0 {
        0
    } else {
        total_length(lines.drop_last()) + lines.last().len()
    }
}

} // verus!
