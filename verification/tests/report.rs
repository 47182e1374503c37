use pdf_search::report::{decimal_string, digit_char, file_heading_of, match_section_of};
use pdf_search::{export_to_markdown, SearchMatch};

fn found(path: &str, name: &str, page: usize, before: &str, matched: &str, after: &str) -> SearchMatch {
    SearchMatch {
        file_path: path.to_string(),
        file_name: name.to_string(),
        page_number: page,
        context_before: before.to_string(),
        matched_text: matched.to_string(),
        context_after: after.to_string(),
        zotero_link: None,
        zotero_metadata: None,
    }
}

#[test]
fn report_of_no_matches() {
    assert_eq!(
        export_to_markdown(&Vec::new()),
        "# PDF Search Results\n\nTotal matches found: 0\n\n"
    );
    assert!(!export_to_markdown(&Vec::new()).contains("## File"));
}

#[test]
fn report_of_one_match() {
    let matches = vec![found("/c/a.pdf", "a.pdf", 3, "the quick", "brown", "fox jumps")];
    let expected = "# PDF Search Results\n\n\
Total matches found: 1\n\n\
\n## File: `/c/a.pdf`\n\
**Filename:** a.pdf\n\n\
### Match 1 (Page 3)\n\n\
**Page:** 3\n\n\
**Context:**\n\n\
...the quick **brown** fox jumps...\n\n\
---\n\n";
    assert_eq!(export_to_markdown(&matches), expected);
}

#[test]
fn report_groups_runs_of_one_file_under_one_heading() {
    let matches = vec![
        found("/c/a.pdf", "a.pdf", 1, "", "x", ""),
        found("/c/a.pdf", "a.pdf", 2, "", "x", ""),
        found("/c/b.pdf", "b.pdf", 1, "", "x", ""),
        found("/c/a.pdf", "a.pdf", 9, "", "x", ""),
    ];
    let report = export_to_markdown(&matches);
    assert!(report.starts_with("# PDF Search Results\n\nTotal matches found: 4\n\n\n## File: `/c/a.pdf`\n"));
    assert_eq!(report.matches("## File: `/c/a.pdf`").count(), 2);
    assert_eq!(report.matches("## File: `/c/b.pdf`").count(), 1);
    assert_eq!(report.matches("**Filename:** ").count(), 3);
    let order: Vec<usize> = ["### Match 1 (Page 1)", "### Match 2 (Page 2)", "## File: `/c/b.pdf`",
        "### Match 3 (Page 1)", "### Match 4 (Page 9)"]
        .iter()
        .map(|part| report.find(part).unwrap())
        .collect();
    assert!(order.windows(2).all(|w| w[0] < w[1]));
    assert!(report.ends_with("### Match 4 (Page 9)\n\n**Page:** 9\n\n**Context:**\n\n... **x** ...\n\n---\n\n"));
}

#[test]
fn report_has_a_heading_for_a_first_match_without_a_path() {
    let matches = vec![found("", "nameless", 1, "a", "b", "c"), found("/p", "p", 2, "", "b", "")];
    let expected = "# PDF Search Results\n\n\
Total matches found: 2\n\n\
\n## File: ``\n\
**Filename:** nameless\n\n\
### Match 1 (Page 1)\n\n\
**Page:** 1\n\n\
**Context:**\n\n\
...a **b** c...\n\n\
---\n\n\
\n## File: `/p`\n\
**Filename:** p\n\n\
### Match 2 (Page 2)\n\n\
**Page:** 2\n\n\
**Context:**\n\n\
... **b** ...\n\n\
---\n\n";
    assert_eq!(export_to_markdown(&matches), expected);
}

#[test]
fn report_has_one_heading_per_run_of_one_path() {
    let paths = ["", "", "/a", "/a", "", "/b", "/a", "/a"];
    let matches: Vec<SearchMatch> = paths.iter().map(|p| found(p, "n", 1, "", "x", "")).collect();
    let report = export_to_markdown(&matches);
    assert_eq!(report.matches("\n## File: `").count(), 5);
    assert_eq!(report.matches("\n## File: ``\n").count(), 2);
    assert_eq!(report.matches("\n## File: `/a`\n").count(), 2);
    assert_eq!(report.matches("\n## File: `/b`\n").count(), 1);
}

#[test]
fn report_pieces() {
    let m = found("/c/a.pdf", "a.pdf", 12, "l", "m", "r");
    assert_eq!(file_heading_of(&m), "\n## File: `/c/a.pdf`\n**Filename:** a.pdf\n\n");
    assert_eq!(
        match_section_of(107, &m),
        "### Match 107 (Page 12)\n\n**Page:** 12\n\n**Context:**\n\n...l **m** r...\n\n---\n\n"
    );
}

#[test]
fn numbers_are_written_in_decimal() {
    assert_eq!(decimal_string(0), "0");
    assert_eq!(decimal_string(7), "7");
    assert_eq!(decimal_string(10), "10");
    assert_eq!(decimal_string(909), "909");
    assert_eq!(decimal_string(1234567890), "1234567890");
    assert_eq!(decimal_string(usize::MAX), usize::MAX.to_string());
    for d in 0..10 {
        assert_eq!(digit_char(d).to_string(), d.to_string());
    }
}
