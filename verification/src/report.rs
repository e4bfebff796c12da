//! Deterministic text output: the `summarize` lines and the markdown report.
use vstd::prelude::*;
use crate::analytics::{AnalyticsBundle, ProjectAnalytics, Ratio};
use crate::text::{decimal, decimal_text, digit_char, opt_text, texts};

verus! {

/// How a project root is shown: the empty root reads `(root)`.
pub open spec fn display_root(root: Seq<char>) -> Seq<char> {
    if root.len() == 0 {
        "(root)"@
    } else {
        root
    }
}

/// Normalizes project-root display to avoid empty-string output in reports.
pub fn display_project_root(project_root: &str) -> (r: &str)
    ensures
        r@ == display_root(project_root@),
{
    if project_root.is_empty() {
        "(root)"
    } else {
        project_root
    }
}

/// What `Debug` writes for a string: the text in double quotes, with
/// quotes, backslashes and unprintable characters escaped.
pub uninterp spec fn debug_text(s: Seq<char>) -> Seq<char>;

/// The `Debug` form of a string.
///
/// Calls `format!("{:?}", s)`, std's `Debug` for `str`, whose result
/// depends on the text alone; the contract names that result and says no
/// more of it.
#[verifier::external_body]
fn debug_str(s: &str) -> (r: String)
    ensures
        r@ == debug_text(s@),
{
    format!("{:?}", s)
}

/// The texts joined by `, `, each in its `Debug` form.
pub open spec fn debug_items(items: Seq<Seq<char>>) -> Seq<char>
    decreases items.len(),
{
    if items.len() == 0 {
        Seq::empty()
    } else if items.len() == 1 {
        debug_text(items[0])
    } else {
        debug_items(items.drop_last()) + ", "@ + debug_text(items.last())
    }
}

/// What `Debug` writes for a list of strings.
pub open spec fn debug_list(items: Seq<Seq<char>>) -> Seq<char> {
    "["@ + debug_items(items) + "]"@
}

/// What `Debug` writes for an optional string.
pub open spec fn debug_option(o: Option<Seq<char>>) -> Seq<char> {
    match o {
        None => "None"@,
        Some(s) => "Some("@ + debug_text(s) + ")"@,
    }
}

/// The `Debug` form of a list of strings.
fn debug_string_list(items: &Vec<String>) -> (r: String)
    ensures
        r@ == debug_list(texts(items@)),
{
    let ghost ts = texts(items@);
    let mut out = String::from_str("[");
    let mut i: usize = 0;
    while i < items.len()
        invariant
            ts == texts(items@),
            i <= items@.len(),
            out@ == "["@ + debug_items(ts.take(i as int)),
        decreases items@.len() - i,
    {
        if i > 0 {
            out.append(", ");
        }
        let d = debug_str(items[i].as_str());
        out.append(d.as_str());
        proof {
            let next = ts.take(i + 1);
            assert(next.drop_last() =~= ts.take(i as int));
            assert(next.last() == items@[i as int]@);
            if i == 0 {
                assert(next =~= seq![items@[0]@]);
            }
        }
        i = i + 1;
    }
    assert(ts.take(items@.len() as int) =~= ts);
    out.append("]");
    out
}

/// The `Debug` form of an optional string.
fn debug_string_option(o: &Option<String>) -> (r: String)
    ensures
        r@ == debug_option(crate::text::opt_text(*o)),
{
    match o {
        None => String::from_str("None"),
        Some(s) => {
            let mut out = String::from_str("Some(");
            let d = debug_str(s.as_str());
            out.append(d.as_str());
            out.append(")");
            out
        },
    }
}

/// The share of a ratio in millionths, rounded to nearest with ties to even
/// (as fixed-point output to six places rounds it); zero for a zero denominator.
pub open spec fn ratio_millionths(r: Ratio) -> nat {
    if r.denominator == 0 {
        0
    } else {
        let scaled = (r.numerator as nat) * 1_000_000nat;
        let q = scaled / (r.denominator as nat);
        let rem = scaled % (r.denominator as nat);
        if 2 * rem > r.denominator || (2 * rem == r.denominator && q % 2 == 1) {
            q + 1
        } else {
            q
        }
    }
}

/// The last `width` decimal digits of `n`, with leading zeros.
pub open spec fn padded_digits(n: nat, width: nat) -> Seq<char>
    decreases width,
{
    if width == 0 {
        Seq::empty()
    } else {
        padded_digits(n / 10, (width - 1) as nat).push(digit_char(n % 10))
    }
}

/// A ratio written with six decimal places.
pub open spec fn ratio_text(r: Ratio) -> Seq<char> {
    let m = ratio_millionths(r);
    decimal_text(m / 1_000_000) + "."@ + padded_digits(m % 1_000_000, 6)
}

/// The last `width` decimal digits of `n`, with leading zeros.
fn padded(n: u64, width: u64) -> (s: String)
    ensures
        s@ == padded_digits(n as nat, width as nat),
    decreases width,
{
    if width == 0 {
        String::new()
    } else {
        let mut s = padded(n / 10, width - 1);
        let d = decimal(n % 10);
        assert(d@ == seq![digit_char((n % 10) as nat)]);
        s.append(d.as_str());
        s
    }
}

/// Writes a ratio with six decimal places.
pub fn ratio_to_text(r: Ratio) -> (s: String)
    ensures
        s@ == ratio_text(r),
{
    let m: u128 = if r.denominator == 0 {
        0
    } else {
        let scaled: u128 = (r.numerator as u128) * 1_000_000;
        let d: u128 = r.denominator as u128;
        let q: u128 = scaled / d;
        let rem: u128 = scaled % d;
        assert(q <= scaled) by (nonlinear_arith)
            requires
                q == scaled / d,
                d >= 1,
                scaled >= 0,
        ;
        if 2 * rem > d || (2 * rem == d && q % 2 == 1) {
            q + 1
        } else {
            q
        }
    };
    assert(m == ratio_millionths(r));
    proof {
        if r.denominator > 0 {
            let n = r.numerator as int;
            let d = r.denominator as int;
            let scaled = n * 1_000_000;
            assert(scaled / d <= scaled) by (nonlinear_arith)
                requires
                    d >= 1,
                    scaled >= 0,
            ;
            assert(scaled / d + 1 <= n * 1_000_000 + 1);
            assert((n * 1_000_000 + 1) / 1_000_000 == n) by (nonlinear_arith)
                requires
                    n >= 0,
            ;
            assert(m / 1_000_000 <= (n * 1_000_000 + 1) / 1_000_000) by (nonlinear_arith)
                requires
                    m <= n * 1_000_000 + 1,
            ;
        }
    }
    let whole: u64 = (m / 1_000_000) as u64;
    let frac: u64 = (m % 1_000_000) as u64;
    let mut s = decimal(whole);
    s.append(".");
    let f = padded(frac, 6);
    s.append(f.as_str());
    s
}

/// One line of output: the text and a newline.
pub open spec fn line(text: Seq<char>) -> Seq<char> {
    text + "\n"@
}

/// A labelled line: the label, the value and a newline.
pub open spec fn field(label: Seq<char>, value: Seq<char>) -> Seq<char> {
    label + value + "\n"@
}

/// How `Display` writes a boolean.
pub open spec fn bool_text(b: bool) -> Seq<char> {
    if b {
        "true"@
    } else {
        "false"@
    }
}

/// How `Display` writes a count.
pub open spec fn count_text(n: usize) -> Seq<char> {
    decimal_text(n as nat)
}

/// Appends a line.
fn push_line(out: &mut String, text: &str)
    ensures
        final(out)@ == old(out)@ + line(text@),
{
    out.append(text);
    out.append("\n");
}

/// Appends a labelled line.
fn push_field(out: &mut String, label: &str, value: &str)
    ensures
        final(out)@ == old(out)@ + field(label@, value@),
{
    out.append(label);
    out.append(value);
    out.append("\n");
}

/// Writes a count in decimal.
fn count_to_text(n: usize) -> (s: String)
    ensures
        s@ == count_text(n),
{
    decimal(n as u64)
}

/// Writes a boolean.
fn bool_to_text(b: bool) -> (s: &'static str)
    ensures
        s@ == bool_text(b),
{
    if b {
        "true"
    } else {
        "false"
    }
}

/// The bullet of one counted key.
pub open spec fn count_line(entry: (String, usize)) -> Seq<char> {
    "- `"@ + entry.0@ + "`: "@ + count_text(entry.1) + "\n"@
}

/// The bullets of counted keys, in order.
pub open spec fn count_lines(counts: Seq<(String, usize)>) -> Seq<char>
    decreases counts.len(),
{
    if counts.len() == 0 {
        Seq::empty()
    } else {
        count_lines(counts.drop_last()) + count_line(counts.last())
    }
}

/// A section of counts: its heading, a blank line, one bullet per key (or
/// `- none`), and a blank line.
pub open spec fn count_section(heading: Seq<char>, counts: Seq<(String, usize)>) -> Seq<char> {
    line(heading) + line(""@) + (if counts.len() == 0 {
        line("- none"@)
    } else {
        count_lines(counts)
    }) + line(""@)
}

/// Appends the bullets of counted keys.
fn push_count_lines(out: &mut String, counts: &Vec<(String, usize)>)
    ensures
        final(out)@ == old(out)@ + count_lines(counts@),
{
    let ghost start = out@;
    let mut i: usize = 0;
    while i < counts.len()
        invariant
            i <= counts@.len(),
            out@ == start + count_lines(counts@.take(i as int)),
        decreases counts@.len() - i,
    {
        out.append("- `");
        out.append(counts[i].0.as_str());
        out.append("`: ");
        let n = count_to_text(counts[i].1);
        out.append(n.as_str());
        out.append("\n");
        proof {
            let next = counts@.take(i + 1);
            assert(next.drop_last() =~= counts@.take(i as int));
            assert(next.last() == counts@[i as int]);
        }
        i = i + 1;
    }
    assert(counts@.take(counts@.len() as int) =~= counts@);
}

/// Appends a section of counts.
fn push_count_section(out: &mut String, heading: &str, counts: &Vec<(String, usize)>)
    ensures
        final(out)@ == old(out)@ + count_section(heading@, counts@),
{
    let ghost start = out@;
    push_line(out, heading);
    push_line(out, "");
    if counts.len() == 0 {
        push_line(out, "- none");
    } else {
        push_count_lines(out, counts);
    }
    push_line(out, "");
}

/// Writes a top-level summary count section as deterministic markdown bullets.
pub fn write_count_map_section(report: &mut String, heading: &str, counts: &Vec<(String, usize)>)
    ensures
        final(report)@ == old(report)@ + count_section(heading@, counts@),
{
    push_count_section(report, heading, counts);
}

/// Writes a per-project count subsection as deterministic markdown bullets.
pub fn write_project_count_subsection(
    report: &mut String,
    heading: &str,
    counts: &Vec<(String, usize)>,
)
    ensures
        final(report)@ == old(report)@ + count_section(heading@, counts@),
{
    push_count_section(report, heading, counts);
}

/// The verbose line of one project in the `summarize` output.
pub open spec fn project_summary_line(p: ProjectAnalytics) -> Seq<char> {
    "project: root="@ + display_root(p.project_root@) + " title="@ + p.project.title@
        + " resources="@ + count_text(p.counts.resources_total) + " unknown_ratio="@
        + ratio_text(p.coverage.unknown_ratio) + "\n"@
}

/// The verbose lines of the projects, in order.
pub open spec fn project_summary_lines(ps: Seq<ProjectAnalytics>) -> Seq<char>
    decreases ps.len(),
{
    if ps.len() == 0 {
        Seq::empty()
    } else {
        project_summary_lines(ps.drop_last()) + project_summary_line(ps.last())
    }
}

/// The `summarize` output for an archive and its analytics; with a nonzero
/// verbosity, one more line per project.
pub open spec fn summary_text(archive_path: Seq<char>, b: AnalyticsBundle, verbose: u8) -> Seq<char> {
    field("archive_path: "@, archive_path) + field("archive_kind: "@, b.input.archive_kind@)
        + field("projects_total: "@, count_text(b.summary.projects_total)) + field(
        "selected_project_roots: "@,
        debug_list(texts(b.input.selected_project_roots@)),
    ) + field("resources_total: "@, count_text(b.summary.resources_total)) + field(
        "files_total: "@,
        count_text(b.summary.files_total),
    ) + field("unknown_ratio: "@, ratio_text(b.summary.unknown_ratio)) + if verbose > 0 {
        project_summary_lines(b.projects@)
    } else {
        Seq::empty()
    }
}

/// Appends the verbose line of one project.
fn push_project_summary_line(out: &mut String, p: &ProjectAnalytics)
    ensures
        final(out)@ == old(out)@ + project_summary_line(*p),
{
    let ghost start = out@;
    out.append("project: root=");
    out.append(display_project_root(p.project_root.as_str()));
    out.append(" title=");
    out.append(p.project.title.as_str());
    out.append(" resources=");
    let n = count_to_text(p.counts.resources_total);
    out.append(n.as_str());
    out.append(" unknown_ratio=");
    let r = ratio_to_text(p.coverage.unknown_ratio);
    out.append(r.as_str());
    out.append("\n");
    assert(out@ =~= start + project_summary_line(*p));
}

/// Renders deterministic `summarize` output text from analytics output.
pub fn render_summary_text(archive_path: &str, analytics: &AnalyticsBundle, verbose: u8) -> (r:
    String)
    ensures
        r@ == summary_text(archive_path@, *analytics, verbose),
{
    let mut out = String::new();
    push_field(&mut out, "archive_path: ", archive_path);
    push_field(&mut out, "archive_kind: ", analytics.input.archive_kind.as_str());
    let t = count_to_text(analytics.summary.projects_total);
    push_field(&mut out, "projects_total: ", t.as_str());
    let t = debug_string_list(&analytics.input.selected_project_roots);
    push_field(&mut out, "selected_project_roots: ", t.as_str());
    let t = count_to_text(analytics.summary.resources_total);
    push_field(&mut out, "resources_total: ", t.as_str());
    let t = count_to_text(analytics.summary.files_total);
    push_field(&mut out, "files_total: ", t.as_str());
    let t = ratio_to_text(analytics.summary.unknown_ratio);
    push_field(&mut out, "unknown_ratio: ", t.as_str());
    let ghost head = out@;
    if verbose > 0 {
        let ghost ps = analytics.projects@;
        let mut i: usize = 0;
        while i < analytics.projects.len()
            invariant
                ps == analytics.projects@,
                i <= ps.len(),
                out@ == head + project_summary_lines(ps.take(i as int)),
            decreases ps.len() - i,
        {
            push_project_summary_line(&mut out, &analytics.projects[i]);
            proof {
                let next = ps.take(i + 1);
                assert(next.drop_last() =~= ps.take(i as int));
                assert(next.last() == ps[i as int]);
            }
            i = i + 1;
        }
        assert(ps.take(ps.len() as int) =~= ps);
    }
    assert(out@ =~= summary_text(archive_path@, *analytics, verbose));
    out
}

/// The bullet of one selected root in the report.
pub open spec fn root_bullet(root: Seq<char>) -> Seq<char> {
    "  - `"@ + display_root(root) + "`\n"@
}

/// The bullets of the selected roots, in order.
pub open spec fn root_bullets(roots: Seq<Seq<char>>) -> Seq<char>
    decreases roots.len(),
{
    if roots.len() == 0 {
        Seq::empty()
    } else {
        root_bullets(roots.drop_last()) + root_bullet(roots.last())
    }
}

/// Lines that each hold `prefix` and one issue, in order.
pub open spec fn issue_lines(prefix: Seq<char>, issues: Seq<Seq<char>>) -> Seq<char>
    decreases issues.len(),
{
    if issues.len() == 0 {
        Seq::empty()
    } else {
        issue_lines(prefix, issues.drop_last()) + field(prefix, issues.last())
    }
}

/// The opening of the report: its title and the input summary.
pub open spec fn report_input(b: AnalyticsBundle) -> Seq<char> {
    line("# igniscope report"@) + line(""@) + line("## Input Summary"@) + line(""@) + field(
        "- archive_kind: `"@,
        b.input.archive_kind@ + "`"@,
    ) + field("- projects_total: "@, count_text(b.summary.projects_total)) + line(
        "- selected_project_roots:"@,
    ) + root_bullets(texts(b.input.selected_project_roots@)) + line(""@)
}

/// The aggregate totals over every project.
pub open spec fn report_aggregate(b: AnalyticsBundle) -> Seq<char> {
    line("## Overall Aggregate Summary"@) + line(""@) + field(
        "- resources_total: "@,
        count_text(b.summary.resources_total),
    ) + field("- files_total: "@, count_text(b.summary.files_total)) + field(
        "- binary_only_resources: "@,
        count_text(b.summary.binary_only_resources),
    ) + line(""@)
}

/// The counts over every project and the coverage summary.
pub open spec fn report_counts_and_coverage(b: AnalyticsBundle) -> Seq<char> {
    count_section("## Counts By Section"@, b.summary.resources_by_section@) + count_section(
        "## Counts By Type Key"@,
        b.summary.resources_by_type@,
    ) + count_section("## File Kind Breakdown"@, b.summary.files_by_kind@) + line(
        "## Coverage Summary"@,
    ) + line(""@) + field("- unknown_resources: "@, count_text(b.summary.unknown_resources))
        + field("- unknown_ratio: "@, ratio_text(b.summary.unknown_ratio)) + line(""@)
}

/// The totals and metadata of one project in the report.
pub open spec fn project_facts(p: ProjectAnalytics) -> Seq<char> {
    field("### Project `"@, display_root(p.project_root@) + "`"@) + line(""@) + field(
        "- title: "@,
        p.project.title@,
    ) + field("- description: "@, debug_option(opt_text(p.project.description))) + field(
        "- parent: "@,
        debug_option(opt_text(p.project.parent)),
    ) + field("- enabled: "@, bool_text(p.project.enabled)) + field(
        "- inheritable: "@,
        bool_text(p.project.inheritable),
    ) + field("- resources_total: "@, count_text(p.counts.resources_total)) + field(
        "- files_total: "@,
        count_text(p.counts.files_total),
    ) + field("- binary_only_resources: "@, count_text(p.counts.binary_only_resources)) + field(
        "- unknown_resources: "@,
        count_text(p.coverage.unknown_resources),
    ) + field("- unknown_ratio: "@, ratio_text(p.coverage.unknown_ratio)) + line(""@)
}

/// The details of one project in the report: its facts, its counts and its issues.
pub open spec fn project_details(p: ProjectAnalytics) -> Seq<char> {
    project_facts(p) + count_section("#### Counts By Section"@, p.counts.resources_by_section@)
        + count_section("#### Counts By Type Key"@, p.counts.resources_by_type@) + count_section(
        "#### File Kind Breakdown"@,
        p.counts.files_by_kind@,
    ) + (if p.issues@.len() == 0 {
        line("- issues: no issues"@)
    } else {
        line("- issues:"@) + issue_lines("  - "@, texts(p.issues@))
    }) + line(""@)
}

/// The details of the projects, in order.
pub open spec fn projects_details(ps: Seq<ProjectAnalytics>) -> Seq<char>
    decreases ps.len(),
{
    if ps.len() == 0 {
        Seq::empty()
    } else {
        projects_details(ps.drop_last()) + project_details(ps.last())
    }
}

/// The closing issues section of the report.
pub open spec fn report_issues(b: AnalyticsBundle) -> Seq<char> {
    line("## Issues"@) + line(""@) + if b.issues@.len() == 0 {
        line("No issues."@)
    } else {
        issue_lines("- "@, texts(b.issues@))
    }
}

/// The markdown report of an archive's analytics.
pub open spec fn report_text(b: AnalyticsBundle) -> Seq<char> {
    report_input(b) + report_aggregate(b) + report_counts_and_coverage(b) + line(
        "## Per-Project Details"@,
    ) + line(""@) + projects_details(b.projects@) + report_issues(b)
}

/// Appends lines that each hold `prefix` and one issue.
fn push_issue_lines(out: &mut String, prefix: &str, issues: &Vec<String>)
    ensures
        final(out)@ == old(out)@ + issue_lines(prefix@, texts(issues@)),
{
    let ghost start = out@;
    let ghost ts = texts(issues@);
    let mut i: usize = 0;
    while i < issues.len()
        invariant
            ts == texts(issues@),
            i <= ts.len(),
            out@ == start + issue_lines(prefix@, ts.take(i as int)),
        decreases ts.len() - i,
    {
        push_field(out, prefix, issues[i].as_str());
        proof {
            let next = ts.take(i + 1);
            assert(next.drop_last() =~= ts.take(i as int));
            assert(next.last() == issues@[i as int]@);
        }
        i = i + 1;
    }
    assert(ts.take(ts.len() as int) =~= ts);
}

/// Appends the opening of the report.
fn push_report_input(out: &mut String, b: &AnalyticsBundle)
    ensures
        final(out)@ == old(out)@ + report_input(*b),
{
    let ghost start = out@;
    push_line(out, "# igniscope report");
    push_line(out, "");
    push_line(out, "## Input Summary");
    push_line(out, "");
    let mut kind = String::from_str(b.input.archive_kind.as_str());
    kind.append("`");
    push_field(out, "- archive_kind: `", kind.as_str());
    let t = count_to_text(b.summary.projects_total);
    push_field(out, "- projects_total: ", t.as_str());
    push_line(out, "- selected_project_roots:");
    let ghost mid = out@;
    let ghost roots = texts(b.input.selected_project_roots@);
    let mut i: usize = 0;
    while i < b.input.selected_project_roots.len()
        invariant
            roots == texts(b.input.selected_project_roots@),
            i <= roots.len(),
            out@ == mid + root_bullets(roots.take(i as int)),
        decreases roots.len() - i,
    {
        out.append("  - `");
        out.append(display_project_root(b.input.selected_project_roots[i].as_str()));
        out.append("`\n");
        proof {
            let next = roots.take(i + 1);
            assert(next.drop_last() =~= roots.take(i as int));
            assert(next.last() == b.input.selected_project_roots@[i as int]@);
        }
        i = i + 1;
    }
    assert(roots.take(roots.len() as int) =~= roots);
    push_line(out, "");
    assert(out@ =~= start + report_input(*b));
}

/// Appends the aggregate totals.
fn push_report_aggregate(out: &mut String, b: &AnalyticsBundle)
    ensures
        final(out)@ == old(out)@ + report_aggregate(*b),
{
    let ghost start = out@;
    push_line(out, "## Overall Aggregate Summary");
    push_line(out, "");
    let t = count_to_text(b.summary.resources_total);
    push_field(out, "- resources_total: ", t.as_str());
    let t = count_to_text(b.summary.files_total);
    push_field(out, "- files_total: ", t.as_str());
    let t = count_to_text(b.summary.binary_only_resources);
    push_field(out, "- binary_only_resources: ", t.as_str());
    push_line(out, "");
    assert(out@ =~= start + report_aggregate(*b));
}

/// Appends the counts over every project and the coverage summary.
fn push_report_counts_and_coverage(out: &mut String, b: &AnalyticsBundle)
    ensures
        final(out)@ == old(out)@ + report_counts_and_coverage(*b),
{
    let ghost start = out@;
    write_count_map_section(out, "## Counts By Section", &b.summary.resources_by_section);
    write_count_map_section(out, "## Counts By Type Key", &b.summary.resources_by_type);
    write_count_map_section(out, "## File Kind Breakdown", &b.summary.files_by_kind);
    push_line(out, "## Coverage Summary");
    push_line(out, "");
    let t = count_to_text(b.summary.unknown_resources);
    push_field(out, "- unknown_resources: ", t.as_str());
    let t = ratio_to_text(b.summary.unknown_ratio);
    push_field(out, "- unknown_ratio: ", t.as_str());
    push_line(out, "");
    assert(out@ =~= start + report_counts_and_coverage(*b));
}

/// Appends the totals and metadata of one project.
fn push_project_facts(out: &mut String, p: &ProjectAnalytics)
    ensures
        final(out)@ == old(out)@ + project_facts(*p),
{
    let ghost start = out@;
    let mut root = String::from_str(display_project_root(p.project_root.as_str()));
    root.append("`");
    push_field(out, "### Project `", root.as_str());
    push_line(out, "");
    push_field(out, "- title: ", p.project.title.as_str());
    let t = debug_string_option(&p.project.description);
    push_field(out, "- description: ", t.as_str());
    let t = debug_string_option(&p.project.parent);
    push_field(out, "- parent: ", t.as_str());
    push_field(out, "- enabled: ", bool_to_text(p.project.enabled));
    push_field(out, "- inheritable: ", bool_to_text(p.project.inheritable));
    let t = count_to_text(p.counts.resources_total);
    push_field(out, "- resources_total: ", t.as_str());
    let t = count_to_text(p.counts.files_total);
    push_field(out, "- files_total: ", t.as_str());
    let t = count_to_text(p.counts.binary_only_resources);
    push_field(out, "- binary_only_resources: ", t.as_str());
    let t = count_to_text(p.coverage.unknown_resources);
    push_field(out, "- unknown_resources: ", t.as_str());
    let t = ratio_to_text(p.coverage.unknown_ratio);
    push_field(out, "- unknown_ratio: ", t.as_str());
    push_line(out, "");
    assert(out@ =~= start + project_facts(*p));
}

/// Appends the details of one project.
fn push_project_details(out: &mut String, p: &ProjectAnalytics)
    ensures
        final(out)@ == old(out)@ + project_details(*p),
{
    let ghost start = out@;
    push_project_facts(out, p);
    write_project_count_subsection(out, "#### Counts By Section", &p.counts.resources_by_section);
    write_project_count_subsection(out, "#### Counts By Type Key", &p.counts.resources_by_type);
    write_project_count_subsection(out, "#### File Kind Breakdown", &p.counts.files_by_kind);
    if p.issues.len() == 0 {
        push_line(out, "- issues: no issues");
    } else {
        push_line(out, "- issues:");
        push_issue_lines(out, "  - ", &p.issues);
    }
    push_line(out, "");
    assert(out@ =~= start + project_details(*p));
}

/// Appends the details of the projects, in order.
fn push_projects_details(out: &mut String, projects: &Vec<ProjectAnalytics>)
    ensures
        final(out)@ == old(out)@ + projects_details(projects@),
{
    let ghost start = out@;
    let ghost ps = projects@;
    let mut i: usize = 0;
    while i < projects.len()
        invariant
            ps == projects@,
            i <= ps.len(),
            out@ == start + projects_details(ps.take(i as int)),
        decreases ps.len() - i,
    {
        push_project_details(out, &projects[i]);
        proof {
            let next = ps.take(i + 1);
            assert(next.drop_last() =~= ps.take(i as int));
            assert(next.last() == ps[i as int]);
        }
        i = i + 1;
    }
    assert(ps.take(ps.len() as int) =~= ps);
}

/// Appends the closing issues section.
fn push_report_issues(out: &mut String, b: &AnalyticsBundle)
    ensures
        final(out)@ == old(out)@ + report_issues(*b),
{
    let ghost start = out@;
    push_line(out, "## Issues");
    push_line(out, "");
    if b.issues.len() == 0 {
        push_line(out, "No issues.");
    } else {
        push_issue_lines(out, "- ", &b.issues);
    }
    assert(out@ =~= start + report_issues(*b));
}

/// Renders deterministic markdown report output for `analyze`.
pub fn render_report_markdown(analytics: &AnalyticsBundle) -> (r: String)
    ensures
        r@ == report_text(*analytics),
{
    let mut report = String::new();
    push_report_input(&mut report, analytics);
    assert(report@ =~= report_input(*analytics));
    push_report_aggregate(&mut report, analytics);
    push_report_counts_and_coverage(&mut report, analytics);
    push_line(&mut report, "## Per-Project Details");
    push_line(&mut report, "");
    push_projects_details(&mut report, &analytics.projects);
    push_report_issues(&mut report, analytics);
    report
}

/// `t` occurs in `s` as a contiguous part.
pub open spec fn contains_text(s: Seq<char>, t: Seq<char>) -> bool {
    exists|i: int| 0 <= i && i + t.len() <= s.len() && #[trigger] s.subrange(i, i + t.len()) == t
}

/// A text occurs in anything it begins.
proof fn lemma_contains_start(t: Seq<char>, u: Seq<char>)
    ensures
        contains_text(t + u, t),
{
    let i: int = 0;
    assert((t + u).subrange(i, i + t.len()) =~= t);
}

/// What occurs in a text occurs in it with more after it.
proof fn lemma_contains_append(s: Seq<char>, w: Seq<char>, t: Seq<char>)
    requires
        contains_text(s, t),
    ensures
        contains_text(s + w, t),
{
    let i = choose|i: int| 0 <= i && i + t.len() <= s.len() && #[trigger] s.subrange(i, i + t.len()) == t;
    assert((s + w).subrange(i, i + t.len()) =~= t);
}

/// What occurs in a text occurs in it with more before it.
proof fn lemma_contains_prepend(u: Seq<char>, s: Seq<char>, t: Seq<char>)
    requires
        contains_text(s, t),
    ensures
        contains_text(u + s, t),
{
    let i = choose|i: int| 0 <= i && i + t.len() <= s.len() && #[trigger] s.subrange(i, i + t.len()) == t;
    let j = u.len() + i;
    assert((u + s).subrange(j, j + t.len()) =~= t);
}

/// A text occurs in its own line.
proof fn lemma_contains_line(t: Seq<char>)
    ensures
        contains_text(line(t), t),
{
    lemma_contains_start(t, "\n"@);
}

/// A section of counts holds its heading.
proof fn lemma_count_section_heading(h: Seq<char>, m: Seq<(String, usize)>)
    ensures
        contains_text(count_section(h, m), h),
{
    let body = if m.len() == 0 {
        line("- none"@)
    } else {
        count_lines(m)
    };
    lemma_contains_line(h);
    lemma_contains_append(line(h), line(""@), h);
    lemma_contains_append(line(h) + line(""@), body, h);
    lemma_contains_append(line(h) + line(""@) + body, line(""@), h);
}

/// What occurs in a part of the report occurs in the report.
proof fn lemma_in_report(b: AnalyticsBundle, t: Seq<char>)
    requires
        contains_text(report_input(b), t) || contains_text(report_aggregate(b), t)
            || contains_text(report_counts_and_coverage(b), t) || contains_text(
            line("## Per-Project Details"@),
            t,
        ) || contains_text(report_issues(b), t),
    ensures
        contains_text(report_text(b), t),
{
    let i = report_input(b);
    let a = report_aggregate(b);
    let c = report_counts_and_coverage(b);
    let l1 = line("## Per-Project Details"@);
    let l2 = line(""@);
    let p = projects_details(b.projects@);
    let iss = report_issues(b);
    if contains_text(i, t) {
        lemma_contains_append(i, a, t);
    } else if contains_text(a, t) {
        lemma_contains_prepend(i, a, t);
    }
    if contains_text(i + a, t) {
        lemma_contains_append(i + a, c, t);
    } else if contains_text(c, t) {
        lemma_contains_prepend(i + a, c, t);
    }
    if contains_text(i + a + c, t) {
        lemma_contains_append(i + a + c, l1, t);
    } else if contains_text(l1, t) {
        lemma_contains_prepend(i + a + c, l1, t);
    }
    if contains_text(i + a + c + l1, t) {
        lemma_contains_append(i + a + c + l1, l2, t);
        lemma_contains_append(i + a + c + l1 + l2, p, t);
        lemma_contains_append(i + a + c + l1 + l2 + p, iss, t);
    } else {
        lemma_contains_prepend(i + a + c + l1 + l2 + p, iss, t);
    }
}

/// The opening of the report holds the title and the input summary heading.
proof fn lemma_input_headings(b: AnalyticsBundle)
    ensures
        contains_text(report_input(b), "# igniscope report"@),
        contains_text(report_input(b), "## Input Summary"@),
{
    let i = report_input(b);
    let h1 = "# igniscope report"@;
    let h2 = "## Input Summary"@;
    let x1 = line(h1) + line(""@);
    let rest = i.skip((x1 + line(h2)).len() as int);
    assert(i =~= x1 + line(h2) + rest);
    lemma_contains_line(h1);
    lemma_contains_append(line(h1), line(""@), h1);
    lemma_contains_append(x1, line(h2), h1);
    lemma_contains_append(x1 + line(h2), rest, h1);
    lemma_contains_line(h2);
    lemma_contains_prepend(x1, line(h2), h2);
    lemma_contains_append(x1 + line(h2), rest, h2);
}

/// A text that opens with a heading line holds the heading.
proof fn lemma_opens_with(s: Seq<char>, h: Seq<char>)
    requires
        line(h).is_prefix_of(s),
    ensures
        contains_text(s, h),
{
    let rest = s.skip(line(h).len() as int);
    assert(s =~= line(h) + rest);
    lemma_contains_line(h);
    lemma_contains_append(line(h), rest, h);
}

/// The counts and coverage part holds its four headings.
proof fn lemma_counts_headings(b: AnalyticsBundle)
    ensures
        contains_text(report_counts_and_coverage(b), "## Counts By Section"@),
        contains_text(report_counts_and_coverage(b), "## Counts By Type Key"@),
        contains_text(report_counts_and_coverage(b), "## File Kind Breakdown"@),
        contains_text(report_counts_and_coverage(b), "## Coverage Summary"@),
{
    let c = report_counts_and_coverage(b);
    let cs1 = count_section("## Counts By Section"@, b.summary.resources_by_section@);
    let cs2 = count_section("## Counts By Type Key"@, b.summary.resources_by_type@);
    let cs3 = count_section("## File Kind Breakdown"@, b.summary.files_by_kind@);
    let cov = c.skip((cs1 + cs2 + cs3).len() as int);
    assert(c =~= cs1 + cs2 + cs3 + cov);
    lemma_count_section_heading("## Counts By Section"@, b.summary.resources_by_section@);
    lemma_contains_append(cs1, cs2, "## Counts By Section"@);
    lemma_contains_append(cs1 + cs2, cs3, "## Counts By Section"@);
    lemma_contains_append(cs1 + cs2 + cs3, cov, "## Counts By Section"@);
    lemma_count_section_heading("## Counts By Type Key"@, b.summary.resources_by_type@);
    lemma_contains_prepend(cs1, cs2, "## Counts By Type Key"@);
    lemma_contains_append(cs1 + cs2, cs3, "## Counts By Type Key"@);
    lemma_contains_append(cs1 + cs2 + cs3, cov, "## Counts By Type Key"@);
    lemma_count_section_heading("## File Kind Breakdown"@, b.summary.files_by_kind@);
    lemma_contains_prepend(cs1 + cs2, cs3, "## File Kind Breakdown"@);
    lemma_contains_append(cs1 + cs2 + cs3, cov, "## File Kind Breakdown"@);
    let h = "## Coverage Summary"@;
    assert(line(h).is_prefix_of(cov)) by {
        assert(cov.subrange(0, line(h).len() as int) =~= line(h));
    }
    lemma_opens_with(cov, h);
    lemma_contains_prepend(cs1 + cs2 + cs3, cov, h);
}

/// The report always has its title and every section heading: input summary,
/// overall aggregate, the three count breakdowns, coverage, per-project
/// details and issues.
pub proof fn lemma_report_sections(b: AnalyticsBundle)
    ensures
        contains_text(report_text(b), "# igniscope report"@),
        contains_text(report_text(b), "## Input Summary"@),
        contains_text(report_text(b), "## Overall Aggregate Summary"@),
        contains_text(report_text(b), "## Counts By Section"@),
        contains_text(report_text(b), "## Counts By Type Key"@),
        contains_text(report_text(b), "## File Kind Breakdown"@),
        contains_text(report_text(b), "## Coverage Summary"@),
        contains_text(report_text(b), "## Per-Project Details"@),
        contains_text(report_text(b), "## Issues"@),
{
    lemma_input_headings(b);
    lemma_in_report(b, "# igniscope report"@);
    lemma_in_report(b, "## Input Summary"@);
    let a = report_aggregate(b);
    let h = "## Overall Aggregate Summary"@;
    assert(line(h).is_prefix_of(a)) by {
        assert(a.subrange(0, line(h).len() as int) =~= line(h));
    }
    lemma_opens_with(a, h);
    lemma_in_report(b, h);
    lemma_counts_headings(b);
    lemma_in_report(b, "## Counts By Section"@);
    lemma_in_report(b, "## Counts By Type Key"@);
    lemma_in_report(b, "## File Kind Breakdown"@);
    lemma_in_report(b, "## Coverage Summary"@);
    lemma_contains_line("## Per-Project Details"@);
    lemma_in_report(b, "## Per-Project Details"@);
    let iss = report_issues(b);
    let h = "## Issues"@;
    assert(line(h).is_prefix_of(iss)) by {
        assert(iss.subrange(0, line(h).len() as int) =~= line(h));
    }
    lemma_opens_with(iss, h);
    lemma_in_report(b, h);
}

/// The `summarize` output always opens with the archive path and reports the
/// archive kind, the number of projects and the selected roots.
pub proof fn lemma_summary_fields(archive_path: Seq<char>, b: AnalyticsBundle, verbose: u8)
    ensures
        contains_text(summary_text(archive_path, b, verbose), "archive_path: "@ + archive_path),
        contains_text(
            summary_text(archive_path, b, verbose),
            "archive_kind: "@ + b.input.archive_kind@,
        ),
        contains_text(
            summary_text(archive_path, b, verbose),
            "projects_total: "@ + count_text(b.summary.projects_total),
        ),
        contains_text(
            summary_text(archive_path, b, verbose),
            "selected_project_roots: "@ + debug_list(texts(b.input.selected_project_roots@)),
        ),
{
    let f1 = field("archive_path: "@, archive_path);
    let f2 = field("archive_kind: "@, b.input.archive_kind@);
    let f3 = field("projects_total: "@, count_text(b.summary.projects_total));
    let f4 = field(
        "selected_project_roots: "@,
        debug_list(texts(b.input.selected_project_roots@)),
    );
    let t = summary_text(archive_path, b, verbose);
    let rest = t.skip((f1 + f2 + f3 + f4).len() as int);
    assert(t =~= f1 + f2 + f3 + f4 + rest);
    let t1 = "archive_path: "@ + archive_path;
    let t2 = "archive_kind: "@ + b.input.archive_kind@;
    let t3 = "projects_total: "@ + count_text(b.summary.projects_total);
    let t4 = "selected_project_roots: "@ + debug_list(texts(b.input.selected_project_roots@));
    lemma_contains_line(t1);
    lemma_contains_line(t2);
    lemma_contains_line(t3);
    lemma_contains_line(t4);
    lemma_contains_append(f1, f2, t1);
    lemma_contains_append(f1 + f2, f3, t1);
    lemma_contains_append(f1 + f2 + f3, f4, t1);
    lemma_contains_append(f1 + f2 + f3 + f4, rest, t1);
    lemma_contains_prepend(f1, f2, t2);
    lemma_contains_append(f1 + f2, f3, t2);
    lemma_contains_append(f1 + f2 + f3, f4, t2);
    lemma_contains_append(f1 + f2 + f3 + f4, rest, t2);
    lemma_contains_prepend(f1 + f2, f3, t3);
    lemma_contains_append(f1 + f2 + f3, f4, t3);
    lemma_contains_append(f1 + f2 + f3 + f4, rest, t3);
    lemma_contains_prepend(f1 + f2 + f3, f4, t4);
    lemma_contains_append(f1 + f2 + f3 + f4, rest, t4);
}

/// Texts written one after another.
pub open spec fn joined(parts: Seq<Seq<char>>) -> Seq<char>
    decreases parts.len(),
{
    if parts.len() == 0 {
        Seq::empty()
    } else {
        joined(parts.drop_last()) + parts.last()
    }
}

/// Joining two lists of texts one after the other joins each in turn.
pub proof fn lemma_joined_concat(a: Seq<Seq<char>>, b: Seq<Seq<char>>)
    ensures
        joined(a + b) == joined(a) + joined(b),
    decreases b.len(),
{
    if b.len() == 0 {
        assert(a + b =~= a);
        assert(joined(a) + joined(b) =~= joined(a));
    } else {
        lemma_joined_concat(a, b.drop_last());
        assert((a + b).drop_last() =~= a + b.drop_last());
        assert((a + b).last() == b.last());
        assert(joined(a + b) =~= joined(a) + joined(b));
    }
}

/// The `summarize` line of the `k`-th project, written out field by field.
pub open spec fn verbose_line_of(ps: Seq<ProjectAnalytics>, k: int) -> Seq<char> {
    "project: root="@ + display_root(ps[k].project_root@) + " title="@ + ps[k].project.title@
        + " resources="@ + count_text(ps[k].counts.resources_total) + " unknown_ratio="@
        + ratio_text(ps[k].coverage.unknown_ratio) + "\n"@
}

proof fn lemma_summary_lines_joined(ps: Seq<ProjectAnalytics>)
    ensures
        project_summary_lines(ps) == joined(Seq::new(ps.len(), |k: int| verbose_line_of(ps, k))),
    decreases ps.len(),
{
    if ps.len() > 0 {
        let rest = ps.drop_last();
        lemma_summary_lines_joined(rest);
        let all = Seq::new(ps.len(), |k: int| verbose_line_of(ps, k));
        assert(all.drop_last() =~= Seq::new(rest.len(), |k: int| verbose_line_of(rest, k)));
        assert(all.last() == verbose_line_of(ps, ps.len() - 1));
        assert(project_summary_line(ps.last()) == verbose_line_of(ps, ps.len() - 1));
    }
}

/// With a nonzero verbosity, the `summarize` output is the quiet output
/// followed by exactly one line per project of the bundle, in order: the
/// `k`-th line names the `k`-th project's root, title, resource count and
/// unknown ratio.
pub proof fn lemma_verbose_summary_lines(archive_path: Seq<char>, b: AnalyticsBundle, verbose: u8)
    requires
        verbose > 0,
    ensures
        summary_text(archive_path, b, verbose) == summary_text(archive_path, b, 0) + joined(
            Seq::new(b.projects@.len(), |k: int| verbose_line_of(b.projects@, k)),
        ),
{
    lemma_summary_lines_joined(b.projects@);
    let quiet = summary_text(archive_path, b, 0);
    assert(summary_text(archive_path, b, verbose) =~= quiet + project_summary_lines(b.projects@));
}

/// The details blocks of the projects, one per project in order.
pub open spec fn project_blocks(ps: Seq<ProjectAnalytics>) -> Seq<Seq<char>> {
    Seq::new(ps.len(), |k: int| project_details(ps[k]))
}

proof fn lemma_projects_details_joined(ps: Seq<ProjectAnalytics>)
    ensures
        projects_details(ps) == joined(project_blocks(ps)),
    decreases ps.len(),
{
    if ps.len() > 0 {
        let rest = ps.drop_last();
        lemma_projects_details_joined(rest);
        assert(project_blocks(ps).drop_last() =~= project_blocks(rest));
    }
}

/// The heading that opens the details of a project.
pub open spec fn project_heading(p: ProjectAnalytics) -> Seq<char> {
    "### Project `"@ + display_root(p.project_root@) + "`"@
}

/// Where the details of the `k`-th project begin in the report.
pub open spec fn project_block_offset(b: AnalyticsBundle, k: int) -> int {
    (report_input(b) + report_aggregate(b) + report_counts_and_coverage(b) + line(
        "## Per-Project Details"@,
    ) + line(""@)).len() + joined(project_blocks(b.projects@).take(k)).len() as int
}

/// One text joined is that text.
proof fn lemma_joined_one(x: Seq<char>)
    ensures
        joined(seq![x]) == x,
{
    let one = seq![x];
    assert(one.drop_last() =~= Seq::<Seq<char>>::empty());
    assert(one.last() == x);
    assert(joined(one.drop_last()) == Seq::<char>::empty());
    assert(joined(one) =~= x);
}

/// A text that opens a block of joined texts sits where that block begins.
proof fn lemma_block_start(
    pre: Seq<char>,
    blocks: Seq<Seq<char>>,
    post: Seq<char>,
    k: int,
    h: Seq<char>,
)
    requires
        0 <= k < blocks.len(),
        h.is_prefix_of(blocks[k]),
    ensures
        (pre + joined(blocks) + post).subrange(
            (pre.len() + joined(blocks.take(k)).len()) as int,
            (pre.len() + joined(blocks.take(k)).len() + h.len()) as int,
        ) == h,
{
    let before = joined(blocks.take(k));
    let after = joined(blocks.skip(k + 1));
    assert(blocks =~= blocks.take(k) + seq![blocks[k]] + blocks.skip(k + 1));
    lemma_joined_concat(blocks.take(k) + seq![blocks[k]], blocks.skip(k + 1));
    lemma_joined_concat(blocks.take(k), seq![blocks[k]]);
    lemma_joined_one(blocks[k]);
    let rest = blocks[k].skip(h.len() as int);
    assert(blocks[k] =~= h + rest);
    let r = pre + joined(blocks) + post;
    assert(r =~= pre + before + h + (rest + after + post));
    let o: int = (pre.len() + before.len()) as int;
    assert(r.subrange(o, o + h.len() as int) =~= h);
}

/// The details of a project open with its heading.
proof fn lemma_heading_opens_details(p: ProjectAnalytics)
    ensures
        project_heading(p).is_prefix_of(project_details(p)),
        project_heading(p).len() > 0,
{
    let h = project_heading(p);
    let d = project_details(p);
    assert(d.subrange(0, h.len() as int) =~= h);
    reveal_strlit("### Project `");
}

/// The report is the part before the project details, the details blocks
/// joined, and the issues section.
proof fn lemma_report_layout(b: AnalyticsBundle)
    ensures
        report_text(b) == (report_input(b) + report_aggregate(b) + report_counts_and_coverage(b)
            + line("## Per-Project Details"@) + line(""@)) + joined(project_blocks(b.projects@))
            + report_issues(b),
{
    lemma_projects_details_joined(b.projects@);
}

/// The report's per-project part is one details block per project of the
/// bundle, in order: the `k`-th block opens with the heading of the `k`-th
/// project, and each block begins after the one before it.
#[verifier::rlimit(50)]
pub proof fn lemma_report_project_blocks(b: AnalyticsBundle)
    ensures
        projects_details(b.projects@) == joined(project_blocks(b.projects@)),
        forall|k: int|
            0 <= k < b.projects@.len() ==> report_text(b).subrange(
                project_block_offset(b, k),
                project_block_offset(b, k) + project_heading(b.projects@[k]).len(),
            ) == project_heading(#[trigger] b.projects@[k]),
        forall|k: int|
            0 <= k < b.projects@.len() - 1 ==> #[trigger] project_block_offset(b, k)
                < project_block_offset(b, k + 1),
{
    let ps = b.projects@;
    let blocks = project_blocks(ps);
    lemma_projects_details_joined(ps);
    lemma_report_layout(b);
    let pre = report_input(b) + report_aggregate(b) + report_counts_and_coverage(b) + line(
        "## Per-Project Details"@,
    ) + line(""@);
    assert forall|k: int| 0 <= k < ps.len() implies report_text(b).subrange(
        project_block_offset(b, k),
        project_block_offset(b, k) + project_heading(ps[k]).len(),
    ) == project_heading(#[trigger] ps[k]) by {
        lemma_heading_opens_details(ps[k]);
        assert(blocks[k] == project_details(ps[k]));
        lemma_block_start(pre, blocks, report_issues(b), k, project_heading(ps[k]));
    }
    assert forall|k: int| 0 <= k < ps.len() - 1 implies #[trigger] project_block_offset(b, k)
        < project_block_offset(b, k + 1) by {
        assert(blocks.take(k + 1).drop_last() =~= blocks.take(k));
        assert(blocks.take(k + 1).last() == blocks[k]);
        assert(blocks[k] == project_details(ps[k]));
        lemma_heading_opens_details(ps[k]);
    }
}

} // verus!
