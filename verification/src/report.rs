//! Rendering the matches of a search as a Markdown report.

use crate::document::{SearchMatch, SearchMatchView};
use vstd::prelude::*;
use vstd::string::StringExecFns;

verus! {

/// The character for the digit `d`.
pub open spec fn digit_of(d: nat) -> char {
    if d == 0 {
        '0'
    } else if d == 1 {
        '1'
    } else if d == 2 {
        '2'
    } else if d == 3 {
        '3'
    } else if d == 4 {
        '4'
    } else if d == 5 {
        '5'
    } else if d == 6 {
        '6'
    } else if d == 7 {
        '7'
    } else if d == 8 {
        '8'
    } else {
        '9'
    }
}

/// `n` written in decimal, without leading zeros.
pub open spec fn decimal(n: nat) -> Seq<char>
    decreases n,
{
    if n < 10 {
        seq![digit_of(n)]
    } else {
        decimal(n / 10).push(digit_of(n % 10))
    }
}

/// The heading of the report.
pub open spec fn report_title() -> Seq<char> {
    "# PDF Search Results\n\n"@
}

/// The line that states how many matches the report holds.
pub open spec fn total_line(count: nat) -> Seq<char> {
    "Total matches found: "@ + decimal(count) + "\n\n"@
}

/// The heading that opens the matches of one file.
pub open spec fn file_heading(found: SearchMatchView) -> Seq<char> {
    "\n## File: `"@ + found.file_path + "`\n"@ + "**Filename:** "@ + found.file_name + "\n\n"@
}

/// The section of the match with number `number`, counted from 1 over the
/// whole report.
pub open spec fn match_section(number: nat, found: SearchMatchView) -> Seq<char> {
    "### Match "@ + decimal(number) + " (Page "@ + decimal(found.page_number as nat) + ")\n\n"@
        + "**Page:** "@ + decimal(found.page_number as nat) + "\n\n"@ + "**Context:**\n\n"@
        + "..."@ + found.context_before + " **"@ + found.matched_text + "** "@
        + found.context_after + "...\n\n"@ + "---\n\n"@
}

/// Whether `matches[i]` is the first of a run of matches of one file: it
/// is the first match of all, or its path differs from that of the match
/// before it.
pub open spec fn opens_file(matches: Seq<SearchMatchView>, i: int) -> bool {
    i == 0 || matches[i].file_path != matches[i - 1].file_path
}

/// The sections of the first `upto` matches, each run of matches of one
/// file under a heading for that file.
pub open spec fn report_body(matches: Seq<SearchMatchView>, upto: int) -> Seq<char>
    decreases upto,
{
    if upto <= 0 || upto > matches.len() {
        Seq::empty()
    } else {
        report_body(matches, upto - 1) + if opens_file(matches, upto - 1) {
            file_heading(matches[upto - 1])
        } else {
            Seq::empty()
        } + match_section(upto as nat, matches[upto - 1])
    }
}

/// The report for `matches`.
pub open spec fn report(matches: Seq<SearchMatchView>) -> Seq<char> {
    report_title() + total_line(matches.len()) + report_body(matches, matches.len() as int)
}

/// The report for no matches states that none was found and has no file section.
pub proof fn lemma_empty_report()
    ensures
        report(Seq::empty()) == "# PDF Search Results\n\n"@ + "Total matches found: "@ + seq!['0']
            + "\n\n"@,
{
    let none = Seq::<SearchMatchView>::empty();
    assert(decimal(0) == seq!['0']);
    assert(report_body(none, 0) == Seq::<char>::empty());
    assert(report(none) =~= "# PDF Search Results\n\n"@ + "Total matches found: "@ + seq!['0']
        + "\n\n"@);
}

/// The character for the digit `d`.
pub fn digit_char(d: usize) -> (r: char)
    requires
        d < 10,
    ensures
        r == digit_of(d as nat),
{
    if d == 0 {
        '0'
    } else if d == 1 {
        '1'
    } else if d == 2 {
        '2'
    } else if d == 3 {
        '3'
    } else if d == 4 {
        '4'
    } else if d == 5 {
        '5'
    } else if d == 6 {
        '6'
    } else if d == 7 {
        '7'
    } else if d == 8 {
        '8'
    } else {
        '9'
    }
}

/// Writes `n` in decimal.
pub fn decimal_string(n: usize) -> (r: String)
    ensures
        r@ == decimal(n as nat),
    decreases n,
{
    if n < 10 {
        let mut out = String::new();
        out.push(digit_char(n));
        proof {
            assert(out@ =~= seq![digit_of(n as nat)]);
        }
        out
    } else {
        let mut out = decimal_string(n / 10);
        out.push(digit_char(n % 10));
        out
    }
}

/// Writes the heading that opens the matches of one file.
pub fn file_heading_of(found: &SearchMatch) -> (r: String)
    ensures
        r@ == file_heading(found@),
{
    let mut out = String::from_str("\n## File: `");
    out.append(found.file_path.as_str());
    out.append("`\n");
    out.append("**Filename:** ");
    out.append(found.file_name.as_str());
    out.append("\n\n");
    out
}

/// Writes the section of the match with number `number`.
pub fn match_section_of(number: usize, found: &SearchMatch) -> (r: String)
    ensures
        r@ == match_section(number as nat, found@),
{
    let page = decimal_string(found.page_number);
    let mut out = String::from_str("### Match ");
    out.append(decimal_string(number).as_str());
    out.append(" (Page ");
    out.append(page.as_str());
    out.append(")\n\n");
    out.append("**Page:** ");
    out.append(page.as_str());
    out.append("\n\n");
    out.append("**Context:**\n\n");
    out.append("...");
    out.append(found.context_before.as_str());
    out.append(" **");
    out.append(found.matched_text.as_str());
    out.append("** ");
    out.append(found.context_after.as_str());
    out.append("...\n\n");
    out.append("---\n\n");
    out
}

/// Renders the matches as a Markdown report: a title, the number of
/// matches, and one section per match, with a file heading wherever the
/// file changes from one match to the next.
pub fn export_to_markdown(matches: &Vec<SearchMatch>) -> (r: String)
    ensures
        r@ == report(matches.deep_view()),
{
    let ghost shown = matches.deep_view();
    let mut body = String::new();
    let mut idx: usize = 0;
    while idx < matches.len()
        invariant
            idx <= matches.len(),
            shown == matches.deep_view(),
            body@ == report_body(shown, idx as int),
        decreases matches.len() - idx,
    {
        let m = &matches[idx];
        let ghost before = body@;
        proof {
            assert(shown[idx as int] == m@);
            if idx > 0 {
                assert(shown[idx - 1] == matches@[idx - 1]@);
            }
        }
        if idx == 0 || !(m.file_path == matches[idx - 1].file_path) {
            body.append(file_heading_of(m).as_str());
        } else {
            proof {
                assert(before + Seq::<char>::empty() =~= before);
            }
        }
        body.append(match_section_of(idx + 1, m).as_str());
        idx += 1;
    }
    let mut markdown = String::from_str("# PDF Search Results\n\n");
    let mut total = String::from_str("Total matches found: ");
    total.append(decimal_string(matches.len()).as_str());
    total.append("\n\n");
    markdown.append(total.as_str());
    markdown.append(body.as_str());
    markdown
}

} // verus!
