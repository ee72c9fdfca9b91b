use braid::issue::{Issue, IssueType, Priority, Status};
use braid::ls::{format_row, format_row_styled, RowStyle};

fn style() -> RowStyle {
    RowStyle {
        dim: "<dim>".to_string(),
        underline: "<u>".to_string(),
        italic: "<i>".to_string(),
        bold: "<b>".to_string(),
        reset: "<reset>".to_string(),
        red: "<red>".to_string(),
        yellow: "<yellow>".to_string(),
        cyan: "<cyan>".to_string(),
        magenta: "<magenta>".to_string(),
        color_reset: "<cr>".to_string(),
    }
}

fn issue(id: &str, p: Priority) -> Issue {
    Issue::new(id.to_string(), "fix it".to_string(), p, vec![])
}

#[test]
fn plain_row_columns() {
    let mut x = issue("brd-aaaa", Priority::P2);
    x.frontmatter.tags = vec!["bug".to_string()];
    assert_eq!(format_row(&x, "3d", ""), "brd-aaaa  P2    3d          open   fix it #bug");
}

#[test]
fn styled_row_open_p0_with_tags() {
    let mut x = issue("brd-aaaa", Priority::P0);
    x.frontmatter.tags = vec!["bug".to_string(), "ui".to_string()];
    assert_eq!(
        format_row_styled(&x, "3d", "", &style()),
        "brd-aaaa  <red>P0<cr>    3d          open   fix it <red>#bug<cr> <cyan>#ui<cr>"
    );
}

#[test]
fn styled_row_doing_design_with_owner() {
    let mut x = issue("brd-bbbb", Priority::P1);
    x.frontmatter.status = Status::Doing;
    x.frontmatter.issue_type = Some(IssueType::Design);
    x.frontmatter.owner = Some("agent-with-a-long-name".to_string());
    assert_eq!(
        format_row_styled(&x, "1h", "", &style()),
        "<u><i>brd-bbbb  <yellow>P1<cr>    1h  design  doing  fix it<reset><magenta> (agent-with-a)<reset>"
    );
}

#[test]
fn styled_row_resolved_is_dimmed_without_priority_colour() {
    let mut x = issue("brd-cccc", Priority::P0);
    x.frontmatter.status = Status::Done;
    assert_eq!(
        format_row_styled(&x, "2w", " (1/1)", &style()),
        "<dim>brd-cccc  P0    2w          done   fix it (1/1)<reset>"
    );
}
