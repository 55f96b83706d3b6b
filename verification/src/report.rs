//! The report of a dialer, as YAML.

use crate::decimal::{decimal, decimal_text};
use crate::text::{join, joined, strings};
use vstd::prelude::*;

verus! {

/// How many decimals a throughput in Gbps is reported with.
pub const GBPS_DECIMALS: usize = 2;

/// How many decimals a latency in milliseconds is reported with.
pub const MS_DECIMALS: usize = 3;

/// A summary whose values are written out.
pub struct FormattedStats {
    pub min: String,
    pub q1: String,
    pub median: String,
    pub q3: String,
    pub max: String,
    pub outliers: Vec<String>,
    pub samples: Vec<String>,
}

/// What `str::to_lowercase` makes of a text.
pub uninterp spec fn lowercase(s: Seq<char>) -> Seq<char>;

/// A text that holds ASCII characters only.
pub open spec fn plain(s: Seq<char>) -> bool {
    forall|i: int| 0 <= i < s.len() ==> (#[trigger] s[i] as u32) < 128
}

/// A text with small letters in place of the capital letters from A to Z.
pub open spec fn small_letters(s: Seq<char>) -> Seq<char> {
    s.map_values(
        |c: char|
            if 'A' <= c && c <= 'Z' {
                (c as u32 + 32) as char
            } else {
                c
            },
    )
}

/// Calls `str::to_lowercase`. Its result depends on the text alone, and in an
/// ASCII text it replaces the letters from A to Z and nothing else.
#[verifier::external_body]
fn to_lowercase(s: &str) -> (r: String)
    ensures
        r@ == lowercase(s@),
        plain(s@) ==> r@ == small_letters(s@),
{
    s.to_lowercase()
}

/// A list in brackets, with a comma between two neighbours.
pub open spec fn list_text(items: Seq<Seq<char>>) -> Seq<char> {
    "["@ + joined(items, ", "@) + "]"@
}

/// A line of the report.
pub open spec fn field_line(name: Seq<char>, value: Seq<char>) -> Seq<char> {
    "  "@ + name + ": "@ + value + "\n"@
}

/// The report on one kind of test.
pub open spec fn results_text(
    label: Seq<char>,
    small_label: Seq<char>,
    iterations: nat,
    stats: FormattedStats,
    unit: Seq<char>,
) -> Seq<char> {
    "# "@ + label + " measurement\n"@ + small_label + ":\n"@ + field_line(
        "iterations"@,
        decimal_text(iterations),
    ) + field_line("min"@, stats.min@) + field_line("q1"@, stats.q1@) + field_line(
        "median"@,
        stats.median@,
    ) + field_line("q3"@, stats.q3@) + field_line("max"@, stats.max@) + field_line(
        "outliers"@,
        list_text(strings(stats.outliers@)),
    ) + field_line("samples"@, list_text(strings(stats.samples@))) + field_line("unit"@, unit)
}

/// A list in brackets.
pub fn format_list(items: &Vec<String>) -> (r: String)
    ensures
        r@ == list_text(strings(items@)),
{
    let mut r = String::from_str("[");
    r.append(join(items, ", ").as_str());
    r.append("]");
    r
}

fn append_field(out: &mut String, name: &str, value: &str)
    ensures
        final(out)@ == old(out)@ + field_line(name@, value@),
{
    out.append("  ");
    out.append(name);
    out.append(": ");
    out.append(value);
    out.append("\n");
    assert(out@ =~= old(out)@ + field_line(name@, value@));
}

/// The report on one kind of test whose label is also given in small letters.
pub fn render_labelled(
    label: &str,
    small_label: &str,
    iterations: usize,
    stats: &FormattedStats,
    unit: &str,
) -> (r: String)
    ensures
        r@ == results_text(label@, small_label@, iterations as nat, *stats, unit@),
{
    let mut out = String::from_str("# ");
    out.append(label);
    out.append(" measurement\n");
    out.append(small_label);
    out.append(":\n");
    append_field(&mut out, "iterations", decimal(iterations as u64).as_str());
    append_field(&mut out, "min", stats.min.as_str());
    append_field(&mut out, "q1", stats.q1.as_str());
    append_field(&mut out, "median", stats.median.as_str());
    append_field(&mut out, "q3", stats.q3.as_str());
    append_field(&mut out, "max", stats.max.as_str());
    append_field(&mut out, "outliers", format_list(&stats.outliers).as_str());
    append_field(&mut out, "samples", format_list(&stats.samples).as_str());
    append_field(&mut out, "unit", unit);
    out
}

/// The report on one kind of test.
pub fn render_results(
    label: &str,
    iterations: usize,
    stats: &FormattedStats,
    unit: &str,
) -> (r: String)
    ensures
        r@ == results_text(label@, lowercase(label@), iterations as nat, *stats, unit@),
        plain(label@) ==> r@ == results_text(
            label@,
            small_letters(label@),
            iterations as nat,
            *stats,
            unit@,
        ),
{
    let small = to_lowercase(label);
    render_labelled(label, small.as_str(), iterations, stats, unit)
}

/// The whole report: uploads, downloads and latencies, with an empty line between
/// two neighbours.
pub fn render_report(
    upload_iters: usize,
    upload: &FormattedStats,
    download_iters: usize,
    download: &FormattedStats,
    latency_iters: usize,
    latency: &FormattedStats,
) -> (r: String)
    ensures
        r@ == results_text("Upload"@, "upload"@, upload_iters as nat, *upload, "Gbps"@) + "\n"@
            + results_text("Download"@, "download"@, download_iters as nat, *download, "Gbps"@)
            + "\n"@ + results_text(
            "Latency"@,
            "latency"@,
            latency_iters as nat,
            *latency,
            "ms"@,
        ),
{
    proof {
        reveal_strlit("Upload");
        reveal_strlit("upload");
        reveal_strlit("Download");
        reveal_strlit("download");
        reveal_strlit("Latency");
        reveal_strlit("latency");
        assert(small_letters("Upload"@) =~= "upload"@);
        assert(small_letters("Download"@) =~= "download"@);
        assert(small_letters("Latency"@) =~= "latency"@);
    }
    let mut out = render_results("Upload", upload_iters, upload, "Gbps");
    out.append("\n");
    out.append(render_results("Download", download_iters, download, "Gbps").as_str());
    out.append("\n");
    out.append(render_results("Latency", latency_iters, latency, "ms").as_str());
    out
}

} // verus!
