//! Prometheus text exposition of the gateway's metrics.
//!
//! Counters are written in decimal; gauges arrive already formatted, since
//! they are floating-point values.
use vstd::prelude::*;

use crate::text::{decimal, push_char, push_decimal, push_str};

verus! {

/// `# HELP` and `# TYPE` lines of a metric family.
pub open spec fn header_text(name: Seq<char>, help: Seq<char>, kind: Seq<char>) -> Seq<char> {
    "# HELP "@ + name + seq![' '] + help + seq!['\n'] + "# TYPE "@ + name + seq![' '] + kind + seq!['\n']
}

/// An unlabeled sample line.
pub open spec fn sample_text(name: Seq<char>, value: Seq<char>) -> Seq<char> {
    name + seq![' '] + value + seq!['\n']
}

/// A metric family with one unlabeled sample.
pub open spec fn metric_text(name: Seq<char>, help: Seq<char>, kind: Seq<char>, value: Seq<char>) -> Seq<char> {
    header_text(name, help, kind) + sample_text(name, value)
}

/// The escaped form of one character of a label value.
pub open spec fn escape_char(c: char) -> Seq<char> {
    if c == '\\' {
        seq!['\\', '\\']
    } else if c == '\n' {
        seq!['\\', 'n']
    } else if c == '"' {
        seq!['\\', '"']
    } else {
        seq![c]
    }
}

/// A label value with backslashes, newlines and quotes escaped.
pub open spec fn escaped(s: Seq<char>) -> Seq<char>
    decreases s.len(),
{
    if s.len() == 0 {
        Seq::empty()
    } else {
        escaped(s.drop_last()) + escape_char(s.last())
    }
}

/// `key="value"` pairs separated by commas.
pub open spec fn labels_text(labels: Seq<(Seq<char>, Seq<char>)>) -> Seq<char>
    decreases labels.len(),
{
    if labels.len() == 0 {
        Seq::empty()
    } else {
        let prev = labels_text(labels.drop_last());
        let l = labels.last();
        (if labels.len() > 1 { prev + seq![','] } else { prev }) + l.0 + "=\""@ + escaped(l.1) + seq!['"']
    }
}

/// A labeled sample line.
pub open spec fn labeled_sample_text(name: Seq<char>, labels: Seq<(Seq<char>, Seq<char>)>, value: Seq<char>) -> Seq<char> {
    name + seq!['{'] + labels_text(labels) + "} "@ + value + seq!['\n']
}

/// Escapes a label value.
pub fn escape_label_value(value: &str) -> (s: String)
    ensures
        s@ == escaped(value@),
{
    let chars = crate::text::chars_of(value);
    let n = chars.len();
    let mut out = String::new();
    for i in 0..n
        invariant
            n == chars@.len(),
            chars@ == value@,
            out@ == escaped(chars@.take(i as int)),
    {
        let c = chars[i];
        proof {
            assert(chars@.take(i + 1).drop_last() =~= chars@.take(i as int));
        }
        if c == '\\' {
            push_char(&mut out, '\\');
            push_char(&mut out, '\\');
        } else if c == '\n' {
            push_char(&mut out, '\\');
            push_char(&mut out, 'n');
        } else if c == '"' {
            push_char(&mut out, '\\');
            push_char(&mut out, '"');
        } else {
            push_char(&mut out, c);
        }
        proof {
            assert(out@ =~= escaped(chars@.take(i as int)) + escape_char(c));
        }
    }
    proof {
        assert(chars@.take(n as int) =~= chars@);
    }
    out
}

/// Appends the `# HELP` and `# TYPE` lines of a metric family.
pub fn write_labeled_header(output: &mut String, name: &str, help: &str, kind: &str)
    ensures
        final(output)@ == old(output)@ + header_text(name@, help@, kind@),
{
    push_str(output, "# HELP ");
    push_str(output, name);
    push_char(output, ' ');
    push_str(output, help);
    push_char(output, '\n');
    push_str(output, "# TYPE ");
    push_str(output, name);
    push_char(output, ' ');
    push_str(output, kind);
    push_char(output, '\n');
    proof {
        assert(output@ =~= old(output)@ + header_text(name@, help@, kind@));
    }
}

/// Appends a metric family with one sample whose value is already formatted.
pub fn write_metric(output: &mut String, name: &str, help: &str, kind: &str, value: &str)
    ensures
        final(output)@ == old(output)@ + metric_text(name@, help@, kind@, value@),
{
    write_labeled_header(output, name, help, kind);
    push_str(output, name);
    push_char(output, ' ');
    push_str(output, value);
    push_char(output, '\n');
    proof {
        assert(output@ =~= old(output)@ + metric_text(name@, help@, kind@, value@));
    }
}

/// Appends a metric family with one counter sample.
pub fn write_count_metric(output: &mut String, name: &str, help: &str, kind: &str, value: u64)
    ensures
        final(output)@ == old(output)@ + metric_text(name@, help@, kind@, decimal(value as nat)),
{
    let mut digits = String::new();
    push_decimal(&mut digits, value);
    proof {
        assert(digits@ =~= decimal(value as nat));
    }
    write_metric(output, name, help, kind, digits.as_str());
}

/// The views of label pairs.
pub open spec fn label_views(labels: Seq<(&str, &str)>) -> Seq<(Seq<char>, Seq<char>)> {
    labels.map_values(|l: (&str, &str)| (l.0@, l.1@))
}

/// Appends a labeled sample whose value is already formatted.
pub fn write_labeled_metric(output: &mut String, name: &str, labels: &[(&str, &str)], value: &str)
    ensures
        final(output)@ == old(output)@ + labeled_sample_text(name@, label_views(labels@), value@),
{
    push_str(output, name);
    push_char(output, '{');
    let ghost start = output@;
    let n = labels.len();
    for i in 0..n
        invariant
            n == labels@.len(),
            output@ == start + labels_text(label_views(labels@.take(i as int))),
    {
        let (key, val) = labels[i];
        proof {
            assert(label_views(labels@.take(i + 1)).drop_last() =~= label_views(labels@.take(i as int)));
            assert(label_views(labels@.take(i + 1)).last() == (key@, val@));
        }
        if i > 0 {
            push_char(output, ',');
        }
        push_str(output, key);
        push_str(output, "=\"");
        let escaped_value = escape_label_value(val);
        push_str(output, escaped_value.as_str());
        push_char(output, '"');
        proof {
            let lt = label_views(labels@.take(i + 1));
            assert(lt.len() == i + 1);
            assert(output@ =~= start + labels_text(lt));
        }
    }
    proof {
        assert(labels@.take(n as int) =~= labels@);
    }
    push_str(output, "} ");
    push_str(output, value);
    push_char(output, '\n');
    proof {
        assert(output@ =~= old(output)@ + labeled_sample_text(name@, label_views(labels@), value@));
    }
}

/// The values the exposition shows. Gauges are formatted numbers.
#[derive(Debug, Clone)]
pub struct PrometheusSnapshot {
    pub total_requests: u64,
    pub successful_requests: u64,
    pub failed_requests: u64,
    pub in_flight_requests: u64,
    pub error_rate: String,
    pub avg_latency_ms: String,
    pub p95_latency_ms: String,
    pub total_provider_attempts: u64,
    pub fallback_attempts: u64,
    pub estimated_total_tokens: u64,
    pub estimated_total_cost_usd: String,
    pub request_errors_by_category: Vec<(String, u64)>,
    pub requests_by_provider: Vec<(String, u64)>,
    pub successes_by_provider: Vec<(String, u64)>,
    pub provider_errors_by_provider_and_category: Vec<(String, Vec<(String, u64)>)>,
    pub avg_latency_ms_by_provider: Vec<(String, String)>,
    pub p95_latency_ms_by_provider: Vec<(String, String)>,
}

/// Samples of a counter family with one label, in order.
pub open spec fn count_samples(name: Seq<char>, label: Seq<char>, rows: Seq<(String, u64)>) -> Seq<char>
    decreases rows.len(),
{
    if rows.len() == 0 {
        Seq::empty()
    } else {
        count_samples(name, label, rows.drop_last()) + labeled_sample_text(
            name,
            seq![(label, rows.last().0@)],
            decimal(rows.last().1 as nat),
        )
    }
}

/// Samples of a gauge family with one label, in order.
pub open spec fn gauge_samples(name: Seq<char>, label: Seq<char>, rows: Seq<(String, String)>) -> Seq<char>
    decreases rows.len(),
{
    if rows.len() == 0 {
        Seq::empty()
    } else {
        gauge_samples(name, label, rows.drop_last()) + labeled_sample_text(name, seq![(label, rows.last().0@)], rows.last().1@)
    }
}

/// Samples of the provider error family, by provider then category.
pub open spec fn provider_error_samples(name: Seq<char>, rows: Seq<(String, Vec<(String, u64)>)>) -> Seq<char>
    decreases rows.len(),
{
    if rows.len() == 0 {
        Seq::empty()
    } else {
        provider_error_samples(name, rows.drop_last()) + category_samples(name, rows.last().0@, rows.last().1@)
    }
}

/// Samples for one provider's error categories.
pub open spec fn category_samples(name: Seq<char>, provider: Seq<char>, rows: Seq<(String, u64)>) -> Seq<char>
    decreases rows.len(),
{
    if rows.len() == 0 {
        Seq::empty()
    } else {
        category_samples(name, provider, rows.drop_last()) + labeled_sample_text(
            name,
            seq![("provider"@, provider), ("category"@, rows.last().0@)],
            decimal(rows.last().1 as nat),
        )
    }
}

/// Appends the samples of a counter family with one label.
fn write_count_samples(output: &mut String, name: &str, label: &str, rows: &Vec<(String, u64)>)
    ensures
        final(output)@ == old(output)@ + count_samples(name@, label@, rows@),
{
    let n = rows.len();
    for i in 0..n
        invariant
            n == rows@.len(),
            output@ == old(output)@ + count_samples(name@, label@, rows@.take(i as int)),
    {
        proof {
            assert(rows@.take(i + 1).drop_last() =~= rows@.take(i as int));
        }
        let mut digits = String::new();
        push_decimal(&mut digits, rows[i].1);
        let labels = [(label, rows[i].0.as_str())];
        write_labeled_metric(output, name, &labels, digits.as_str());
        proof {
            assert(label_views(labels@) =~= seq![(label@, rows@[i as int].0@)]);
            assert(digits@ =~= decimal(rows@[i as int].1 as nat));
            assert(output@ =~= old(output)@ + count_samples(name@, label@, rows@.take(i + 1)));
        }
    }
    proof {
        assert(rows@.take(n as int) =~= rows@);
    }
}

/// Appends the samples of a gauge family with one label.
fn write_gauge_samples(output: &mut String, name: &str, label: &str, rows: &Vec<(String, String)>)
    ensures
        final(output)@ == old(output)@ + gauge_samples(name@, label@, rows@),
{
    let n = rows.len();
    for i in 0..n
        invariant
            n == rows@.len(),
            output@ == old(output)@ + gauge_samples(name@, label@, rows@.take(i as int)),
    {
        proof {
            assert(rows@.take(i + 1).drop_last() =~= rows@.take(i as int));
        }
        let labels = [(label, rows[i].0.as_str())];
        write_labeled_metric(output, name, &labels, rows[i].1.as_str());
        proof {
            assert(label_views(labels@) =~= seq![(label@, rows@[i as int].0@)]);
            assert(output@ =~= old(output)@ + gauge_samples(name@, label@, rows@.take(i + 1)));
        }
    }
    proof {
        assert(rows@.take(n as int) =~= rows@);
    }
}

fn write_category_samples(output: &mut String, name: &str, provider: &str, rows: &Vec<(String, u64)>)
    ensures
        final(output)@ == old(output)@ + category_samples(name@, provider@, rows@),
{
    let n = rows.len();
    for i in 0..n
        invariant
            n == rows@.len(),
            output@ == old(output)@ + category_samples(name@, provider@, rows@.take(i as int)),
    {
        proof {
            assert(rows@.take(i + 1).drop_last() =~= rows@.take(i as int));
        }
        let mut digits = String::new();
        push_decimal(&mut digits, rows[i].1);
        let labels = [("provider", provider), ("category", rows[i].0.as_str())];
        write_labeled_metric(output, name, &labels, digits.as_str());
        proof {
            assert(label_views(labels@) =~= seq![("provider"@, provider@), ("category"@, rows@[i as int].0@)]);
            assert(digits@ =~= decimal(rows@[i as int].1 as nat));
            assert(output@ =~= old(output)@ + category_samples(name@, provider@, rows@.take(i + 1)));
        }
    }
    proof {
        assert(rows@.take(n as int) =~= rows@);
    }
}

fn write_provider_error_samples(output: &mut String, name: &str, rows: &Vec<(String, Vec<(String, u64)>)>)
    ensures
        final(output)@ == old(output)@ + provider_error_samples(name@, rows@),
{
    let n = rows.len();
    for i in 0..n
        invariant
            n == rows@.len(),
            output@ == old(output)@ + provider_error_samples(name@, rows@.take(i as int)),
    {
        proof {
            assert(rows@.take(i + 1).drop_last() =~= rows@.take(i as int));
        }
        write_category_samples(output, name, rows[i].0.as_str(), &rows[i].1);
        proof {
            assert(output@ =~= old(output)@ + provider_error_samples(name@, rows@.take(i + 1)));
        }
    }
    proof {
        assert(rows@.take(n as int) =~= rows@);
    }
}

/// The unlabeled families of the exposition.
pub open spec fn core_text(s: PrometheusSnapshot) -> Seq<char> {
    metric_text("rustygate_requests_total"@, "Total chat requests handled by the gateway."@, "counter"@, decimal(s.total_requests as nat))
        + metric_text(
        "rustygate_requests_success_total"@,
        "Total successful chat requests handled by the gateway."@,
        "counter"@,
        decimal(s.successful_requests as nat),
    ) + metric_text(
        "rustygate_requests_failed_total"@,
        "Total failed chat requests handled by the gateway."@,
        "counter"@,
        decimal(s.failed_requests as nat),
    ) + metric_text("rustygate_in_flight_requests"@, "Current in-flight chat requests."@, "gauge"@, decimal(s.in_flight_requests as nat))
        + metric_text(
        "rustygate_request_error_rate"@,
        "Ratio of failed chat requests to total chat requests."@,
        "gauge"@,
        s.error_rate@,
    ) + metric_text("rustygate_request_latency_ms_avg"@, "Average chat request latency in milliseconds."@, "gauge"@, s.avg_latency_ms@)
        + metric_text("rustygate_request_latency_ms_p95"@, "P95 chat request latency in milliseconds."@, "gauge"@, s.p95_latency_ms@)
        + metric_text(
        "rustygate_provider_attempts_total"@,
        "Total provider attempts made by the gateway."@,
        "counter"@,
        decimal(s.total_provider_attempts as nat),
    ) + metric_text(
        "rustygate_fallback_attempts_total"@,
        "Total fallback provider attempts made by the gateway."@,
        "counter"@,
        decimal(s.fallback_attempts as nat),
    ) + metric_text(
        "rustygate_estimated_tokens_total"@,
        "Total estimated tokens processed by the gateway."@,
        "counter"@,
        decimal(s.estimated_total_tokens as nat),
    ) + metric_text("rustygate_estimated_cost_usd_total"@, "Total estimated token cost in USD."@, "counter"@, s.estimated_total_cost_usd@)
}

/// The labeled families of the exposition.
pub open spec fn labeled_text(s: PrometheusSnapshot) -> Seq<char> {
    header_text("rustygate_request_errors_total"@, "Chat request errors by category."@, "counter"@) + count_samples(
        "rustygate_request_errors_total"@,
        "category"@,
        s.request_errors_by_category@,
    ) + header_text("rustygate_provider_requests_total"@, "Provider attempts by provider."@, "counter"@) + count_samples(
        "rustygate_provider_requests_total"@,
        "provider"@,
        s.requests_by_provider@,
    ) + header_text("rustygate_provider_successes_total"@, "Provider successful attempts by provider."@, "counter"@)
        + count_samples("rustygate_provider_successes_total"@, "provider"@, s.successes_by_provider@) + header_text(
        "rustygate_provider_errors_total"@,
        "Provider failed attempts by provider and category."@,
        "counter"@,
    ) + provider_error_samples("rustygate_provider_errors_total"@, s.provider_errors_by_provider_and_category@) + header_text(
        "rustygate_provider_latency_ms_avg"@,
        "Average provider attempt latency in milliseconds."@,
        "gauge"@,
    ) + gauge_samples("rustygate_provider_latency_ms_avg"@, "provider"@, s.avg_latency_ms_by_provider@) + header_text(
        "rustygate_provider_latency_ms_p95"@,
        "P95 provider attempt latency in milliseconds."@,
        "gauge"@,
    ) + gauge_samples("rustygate_provider_latency_ms_p95"@, "provider"@, s.p95_latency_ms_by_provider@)
}

fn write_core(output: &mut String, s: &PrometheusSnapshot)
    ensures
        final(output)@ == old(output)@ + core_text(*s),
{
    write_count_metric(output, "rustygate_requests_total", "Total chat requests handled by the gateway.", "counter", s.total_requests);
    write_count_metric(
        output,
        "rustygate_requests_success_total",
        "Total successful chat requests handled by the gateway.",
        "counter",
        s.successful_requests,
    );
    write_count_metric(output, "rustygate_requests_failed_total", "Total failed chat requests handled by the gateway.", "counter", s.failed_requests);
    write_count_metric(output, "rustygate_in_flight_requests", "Current in-flight chat requests.", "gauge", s.in_flight_requests);
    write_metric(output, "rustygate_request_error_rate", "Ratio of failed chat requests to total chat requests.", "gauge", s.error_rate.as_str());
    write_metric(output, "rustygate_request_latency_ms_avg", "Average chat request latency in milliseconds.", "gauge", s.avg_latency_ms.as_str());
    write_metric(output, "rustygate_request_latency_ms_p95", "P95 chat request latency in milliseconds.", "gauge", s.p95_latency_ms.as_str());
    write_count_metric(output, "rustygate_provider_attempts_total", "Total provider attempts made by the gateway.", "counter", s.total_provider_attempts);
    write_count_metric(
        output,
        "rustygate_fallback_attempts_total",
        "Total fallback provider attempts made by the gateway.",
        "counter",
        s.fallback_attempts,
    );
    write_count_metric(
        output,
        "rustygate_estimated_tokens_total",
        "Total estimated tokens processed by the gateway.",
        "counter",
        s.estimated_total_tokens,
    );
    write_metric(output, "rustygate_estimated_cost_usd_total", "Total estimated token cost in USD.", "counter", s.estimated_total_cost_usd.as_str());
    proof {
        assert(output@ =~= old(output)@ + core_text(*s));
    }
}

fn write_labeled(output: &mut String, s: &PrometheusSnapshot)
    ensures
        final(output)@ == old(output)@ + labeled_text(*s),
{
    write_labeled_header(output, "rustygate_request_errors_total", "Chat request errors by category.", "counter");
    write_count_samples(output, "rustygate_request_errors_total", "category", &s.request_errors_by_category);
    write_labeled_header(output, "rustygate_provider_requests_total", "Provider attempts by provider.", "counter");
    write_count_samples(output, "rustygate_provider_requests_total", "provider", &s.requests_by_provider);
    write_labeled_header(output, "rustygate_provider_successes_total", "Provider successful attempts by provider.", "counter");
    write_count_samples(output, "rustygate_provider_successes_total", "provider", &s.successes_by_provider);
    write_labeled_header(output, "rustygate_provider_errors_total", "Provider failed attempts by provider and category.", "counter");
    write_provider_error_samples(output, "rustygate_provider_errors_total", &s.provider_errors_by_provider_and_category);
    write_labeled_header(output, "rustygate_provider_latency_ms_avg", "Average provider attempt latency in milliseconds.", "gauge");
    write_gauge_samples(output, "rustygate_provider_latency_ms_avg", "provider", &s.avg_latency_ms_by_provider);
    write_labeled_header(output, "rustygate_provider_latency_ms_p95", "P95 provider attempt latency in milliseconds.", "gauge");
    write_gauge_samples(output, "rustygate_provider_latency_ms_p95", "provider", &s.p95_latency_ms_by_provider);
    proof {
        assert(output@ =~= old(output)@ + labeled_text(*s));
    }
}

/// `text` holds `line` as a whole line: at its start or right after a newline.
#[verifier::opaque]
pub open spec fn has_line(text: Seq<char>, line: Seq<char>) -> bool {
    exists|k: int|
        0 <= k && k + line.len() <= text.len() && #[trigger] text.subrange(k, k + line.len()) == line && (k == 0 || text[k
            - 1] == '\n')
}

proof fn lemma_line_in_prefix(x: Seq<char>, z: Seq<char>, line: Seq<char>)
    requires
        has_line(x, line),
    ensures
        has_line(x + z, line),
{
    reveal(has_line);
    let k = choose|k: int|
        0 <= k && k + line.len() <= x.len() && #[trigger] x.subrange(k, k + line.len()) == line && (k == 0 || x[k - 1] == '\n');
    assert((x + z).subrange(k, k + line.len()) =~= x.subrange(k, k + line.len()));
    if k > 0 {
        assert((x + z)[k - 1] == x[k - 1]);
    }
}

proof fn lemma_line_in_suffix(x: Seq<char>, z: Seq<char>, line: Seq<char>)
    requires
        has_line(z, line),
        x.len() == 0 || x.last() == '\n',
    ensures
        has_line(x + z, line),
{
    reveal(has_line);
    let k = choose|k: int|
        0 <= k && k + line.len() <= z.len() && #[trigger] z.subrange(k, k + line.len()) == line && (k == 0 || z[k - 1] == '\n');
    let k2 = x.len() + k;
    assert((x + z).subrange(k2, k2 + line.len()) =~= z.subrange(k, k + line.len()));
    if k > 0 {
        assert((x + z)[k2 - 1] == z[k - 1]);
    } else if x.len() > 0 {
        assert((x + z)[k2 - 1] == x.last());
    }
}

proof fn lemma_metric_line(name: Seq<char>, help: Seq<char>, kind: Seq<char>, value: Seq<char>)
    ensures
        has_line(metric_text(name, help, kind, value), name + seq![' '] + value + seq!['\n']),
        metric_text(name, help, kind, value).last() == '\n',
{
    reveal(has_line);
    let h = header_text(name, help, kind);
    let m = metric_text(name, help, kind, value);
    let line = name + seq![' '] + value + seq!['\n'];
    assert(m =~= h + line);
    assert(m.subrange(h.len() as int, (h.len() + line.len()) as int) =~= line);
    assert(h.last() == '\n');
    assert(m[h.len() - 1] == h.last());
}

proof fn lemma_ends_with_newline(x: Seq<char>, y: Seq<char>)
    requires
        y.len() > 0,
        y.last() == '\n',
    ensures
        (x + y).last() == '\n',
{
}

/// The parts joined in order.
pub open spec fn concat_parts(ps: Seq<Seq<char>>) -> Seq<char>
    decreases ps.len(),
{
    if ps.len() == 0 {
        Seq::empty()
    } else {
        concat_parts(ps.drop_last()) + ps.last()
    }
}

proof fn lemma_parts_end_with_newline(ps: Seq<Seq<char>>)
    requires
        forall|j: int| 0 <= j < ps.len() ==> (#[trigger] ps[j]).len() == 0 || ps[j].last() == '\n',
    ensures
        concat_parts(ps).len() == 0 || concat_parts(ps).last() == '\n',
    decreases ps.len(),
{
    if ps.len() > 0 {
        let dl = ps.drop_last();
        assert forall|j: int| 0 <= j < dl.len() implies (#[trigger] dl[j]).len() == 0 || dl[j].last() == '\n' by {
            assert(dl[j] == ps[j]);
        }
        lemma_parts_end_with_newline(dl);
        let last = ps[ps.len() - 1];
        if last.len() == 0 {
            assert(concat_parts(ps) =~= concat_parts(dl));
        } else {
            lemma_ends_with_newline(concat_parts(dl), ps.last());
        }
    }
}

/// A whole line of one part is a whole line of the joined parts (followed by
/// anything), when every part ends with a newline.
proof fn lemma_part_line(ps: Seq<Seq<char>>, i: int, line: Seq<char>, tail: Seq<char>)
    requires
        0 <= i < ps.len(),
        has_line(ps[i], line),
        forall|j: int| 0 <= j < ps.len() ==> (#[trigger] ps[j]).len() == 0 || ps[j].last() == '\n',
    ensures
        has_line(concat_parts(ps) + tail, line),
    decreases ps.len(),
{
    let dl = ps.drop_last();
    assert forall|j: int| 0 <= j < dl.len() implies (#[trigger] dl[j]).len() == 0 || dl[j].last() == '\n' by {
        assert(dl[j] == ps[j]);
    }
    if i == ps.len() - 1 {
        lemma_parts_end_with_newline(dl);
        lemma_line_in_suffix(concat_parts(dl), ps.last(), line);
    } else {
        assert(dl[i] == ps[i]);
        lemma_part_line(dl, i, line, Seq::empty());
        assert(concat_parts(dl) + Seq::<char>::empty() =~= concat_parts(dl));
        lemma_line_in_prefix(concat_parts(dl), ps.last(), line);
    }
    lemma_line_in_prefix(concat_parts(ps), tail, line);
}

/// The unlabeled families, in the order of the exposition.
spec fn core_parts(s: PrometheusSnapshot) -> Seq<Seq<char>> {
    seq![
        metric_text("rustygate_requests_total"@, "Total chat requests handled by the gateway."@, "counter"@, decimal(s.total_requests as nat)),
        metric_text("rustygate_requests_success_total"@, "Total successful chat requests handled by the gateway."@, "counter"@, decimal(s.successful_requests as nat)),
        metric_text("rustygate_requests_failed_total"@, "Total failed chat requests handled by the gateway."@, "counter"@, decimal(s.failed_requests as nat)),
        metric_text("rustygate_in_flight_requests"@, "Current in-flight chat requests."@, "gauge"@, decimal(s.in_flight_requests as nat)),
        metric_text("rustygate_request_error_rate"@, "Ratio of failed chat requests to total chat requests."@, "gauge"@, s.error_rate@),
        metric_text("rustygate_request_latency_ms_avg"@, "Average chat request latency in milliseconds."@, "gauge"@, s.avg_latency_ms@),
        metric_text("rustygate_request_latency_ms_p95"@, "P95 chat request latency in milliseconds."@, "gauge"@, s.p95_latency_ms@),
        metric_text("rustygate_provider_attempts_total"@, "Total provider attempts made by the gateway."@, "counter"@, decimal(s.total_provider_attempts as nat)),
        metric_text("rustygate_fallback_attempts_total"@, "Total fallback provider attempts made by the gateway."@, "counter"@, decimal(s.fallback_attempts as nat)),
        metric_text("rustygate_estimated_tokens_total"@, "Total estimated tokens processed by the gateway."@, "counter"@, decimal(s.estimated_total_tokens as nat)),
        metric_text("rustygate_estimated_cost_usd_total"@, "Total estimated token cost in USD."@, "counter"@, s.estimated_total_cost_usd@),
    ]
}

proof fn lemma_core_parts(s: PrometheusSnapshot)
    ensures
        core_text(s) == concat_parts(core_parts(s)),
        forall|j: int| 0 <= j < core_parts(s).len() ==> (#[trigger] core_parts(s)[j]).len() == 0 || core_parts(s)[j].last() == '\n',
{
    reveal_with_fuel(concat_parts, 12);
    assert(core_text(s) =~= concat_parts(core_parts(s)));
    assert forall|j: int| 0 <= j < core_parts(s).len() implies (#[trigger] core_parts(s)[j]).len() == 0 || core_parts(s)[j].last() == '\n' by {
        let m = core_parts(s)[j];
        assert(m.len() > 0 && m.last() == '\n');
    }
}

/// The exposition reports every unlabeled counter with the snapshot count it
/// is named after: it holds the whole line `<family> <count>` for each, the
/// count in decimal.
#[verifier::rlimit(100)]
pub proof fn law_exposition_reports_each_counter(s: PrometheusSnapshot)
    ensures
        has_line(core_text(s) + labeled_text(s), "rustygate_requests_total"@ + seq![' '] + decimal(s.total_requests as nat) + seq!['\n']),
        has_line(core_text(s) + labeled_text(s), "rustygate_requests_success_total"@ + seq![' '] + decimal(s.successful_requests as nat) + seq!['\n']),
        has_line(core_text(s) + labeled_text(s), "rustygate_requests_failed_total"@ + seq![' '] + decimal(s.failed_requests as nat) + seq!['\n']),
        has_line(core_text(s) + labeled_text(s), "rustygate_in_flight_requests"@ + seq![' '] + decimal(s.in_flight_requests as nat) + seq!['\n']),
        has_line(core_text(s) + labeled_text(s), "rustygate_provider_attempts_total"@ + seq![' '] + decimal(s.total_provider_attempts as nat) + seq!['\n']),
        has_line(core_text(s) + labeled_text(s), "rustygate_fallback_attempts_total"@ + seq![' '] + decimal(s.fallback_attempts as nat) + seq!['\n']),
        has_line(core_text(s) + labeled_text(s), "rustygate_estimated_tokens_total"@ + seq![' '] + decimal(s.estimated_total_tokens as nat) + seq!['\n']),
{
    lemma_core_parts(s);
    lemma_metric_line("rustygate_requests_total"@, "Total chat requests handled by the gateway."@, "counter"@, decimal(s.total_requests as nat));
    lemma_part_line(core_parts(s), 0, "rustygate_requests_total"@ + seq![' '] + decimal(s.total_requests as nat) + seq!['\n'], labeled_text(s));
    lemma_metric_line("rustygate_requests_success_total"@, "Total successful chat requests handled by the gateway."@, "counter"@, decimal(s.successful_requests as nat));
    lemma_part_line(core_parts(s), 1, "rustygate_requests_success_total"@ + seq![' '] + decimal(s.successful_requests as nat) + seq!['\n'], labeled_text(s));
    lemma_metric_line("rustygate_requests_failed_total"@, "Total failed chat requests handled by the gateway."@, "counter"@, decimal(s.failed_requests as nat));
    lemma_part_line(core_parts(s), 2, "rustygate_requests_failed_total"@ + seq![' '] + decimal(s.failed_requests as nat) + seq!['\n'], labeled_text(s));
    lemma_metric_line("rustygate_in_flight_requests"@, "Current in-flight chat requests."@, "gauge"@, decimal(s.in_flight_requests as nat));
    lemma_part_line(core_parts(s), 3, "rustygate_in_flight_requests"@ + seq![' '] + decimal(s.in_flight_requests as nat) + seq!['\n'], labeled_text(s));
    lemma_metric_line("rustygate_provider_attempts_total"@, "Total provider attempts made by the gateway."@, "counter"@, decimal(s.total_provider_attempts as nat));
    lemma_part_line(core_parts(s), 7, "rustygate_provider_attempts_total"@ + seq![' '] + decimal(s.total_provider_attempts as nat) + seq!['\n'], labeled_text(s));
    lemma_metric_line("rustygate_fallback_attempts_total"@, "Total fallback provider attempts made by the gateway."@, "counter"@, decimal(s.fallback_attempts as nat));
    lemma_part_line(core_parts(s), 8, "rustygate_fallback_attempts_total"@ + seq![' '] + decimal(s.fallback_attempts as nat) + seq!['\n'], labeled_text(s));
    lemma_metric_line("rustygate_estimated_tokens_total"@, "Total estimated tokens processed by the gateway."@, "counter"@, decimal(s.estimated_total_tokens as nat));
    lemma_part_line(core_parts(s), 9, "rustygate_estimated_tokens_total"@ + seq![' '] + decimal(s.estimated_total_tokens as nat) + seq!['\n'], labeled_text(s));
}

/// The exposition reports every unlabeled gauge with the snapshot value it is
/// named after: it holds the whole line `<family> <value>` for each.
#[verifier::rlimit(100)]
pub proof fn law_exposition_reports_each_gauge(s: PrometheusSnapshot)
    ensures
        has_line(core_text(s) + labeled_text(s), "rustygate_request_error_rate"@ + seq![' '] + s.error_rate@ + seq!['\n']),
        has_line(core_text(s) + labeled_text(s), "rustygate_request_latency_ms_avg"@ + seq![' '] + s.avg_latency_ms@ + seq!['\n']),
        has_line(core_text(s) + labeled_text(s), "rustygate_request_latency_ms_p95"@ + seq![' '] + s.p95_latency_ms@ + seq!['\n']),
        has_line(core_text(s) + labeled_text(s), "rustygate_estimated_cost_usd_total"@ + seq![' '] + s.estimated_total_cost_usd@ + seq!['\n']),
{
    lemma_core_parts(s);
    lemma_metric_line("rustygate_request_error_rate"@, "Ratio of failed chat requests to total chat requests."@, "gauge"@, s.error_rate@);
    lemma_part_line(core_parts(s), 4, "rustygate_request_error_rate"@ + seq![' '] + s.error_rate@ + seq!['\n'], labeled_text(s));
    lemma_metric_line("rustygate_request_latency_ms_avg"@, "Average chat request latency in milliseconds."@, "gauge"@, s.avg_latency_ms@);
    lemma_part_line(core_parts(s), 5, "rustygate_request_latency_ms_avg"@ + seq![' '] + s.avg_latency_ms@ + seq!['\n'], labeled_text(s));
    lemma_metric_line("rustygate_request_latency_ms_p95"@, "P95 chat request latency in milliseconds."@, "gauge"@, s.p95_latency_ms@);
    lemma_part_line(core_parts(s), 6, "rustygate_request_latency_ms_p95"@ + seq![' '] + s.p95_latency_ms@ + seq!['\n'], labeled_text(s));
    lemma_metric_line("rustygate_estimated_cost_usd_total"@, "Total estimated token cost in USD."@, "counter"@, s.estimated_total_cost_usd@);
    lemma_part_line(core_parts(s), 10, "rustygate_estimated_cost_usd_total"@ + seq![' '] + s.estimated_total_cost_usd@ + seq!['\n'], labeled_text(s));
}

proof fn lemma_whole_line(line: Seq<char>)
    ensures
        has_line(line, line),
{
    reveal(has_line);
    assert(line.subrange(0, 0 + line.len() as int) =~= line);
}

proof fn lemma_sample_ends(name: Seq<char>, labels: Seq<(Seq<char>, Seq<char>)>, value: Seq<char>)
    ensures
        labeled_sample_text(name, labels, value).len() > 0,
        labeled_sample_text(name, labels, value).last() == '\n',
{
}

proof fn lemma_count_samples_line(name: Seq<char>, label: Seq<char>, rows: Seq<(String, u64)>, j: int)
    requires
        0 <= j < rows.len(),
    ensures
        has_line(count_samples(name, label, rows), labeled_sample_text(name, seq![(label, rows[j].0@)], decimal(rows[j].1 as nat))),
        count_samples(name, label, rows).len() > 0,
        count_samples(name, label, rows).last() == '\n',
    decreases rows.len(),
{
    let dl = rows.drop_last();
    let last = labeled_sample_text(name, seq![(label, rows.last().0@)], decimal(rows.last().1 as nat));
    let line = labeled_sample_text(name, seq![(label, rows[j].0@)], decimal(rows[j].1 as nat));
    lemma_sample_ends(name, seq![(label, rows.last().0@)], decimal(rows.last().1 as nat));
    if j == rows.len() - 1 {
        lemma_whole_line(line);
        if dl.len() > 0 {
            lemma_count_samples_line(name, label, dl, 0);
        }
        lemma_line_in_suffix(count_samples(name, label, dl), last, line);
    } else {
        assert(dl[j] == rows[j]);
        lemma_count_samples_line(name, label, dl, j);
        lemma_line_in_prefix(count_samples(name, label, dl), last, line);
    }
}

proof fn lemma_gauge_samples_line(name: Seq<char>, label: Seq<char>, rows: Seq<(String, String)>, j: int)
    requires
        0 <= j < rows.len(),
    ensures
        has_line(gauge_samples(name, label, rows), labeled_sample_text(name, seq![(label, rows[j].0@)], rows[j].1@)),
        gauge_samples(name, label, rows).len() > 0,
        gauge_samples(name, label, rows).last() == '\n',
    decreases rows.len(),
{
    let dl = rows.drop_last();
    let last = labeled_sample_text(name, seq![(label, rows.last().0@)], rows.last().1@);
    let line = labeled_sample_text(name, seq![(label, rows[j].0@)], rows[j].1@);
    lemma_sample_ends(name, seq![(label, rows.last().0@)], rows.last().1@);
    if j == rows.len() - 1 {
        lemma_whole_line(line);
        if dl.len() > 0 {
            lemma_gauge_samples_line(name, label, dl, 0);
        }
        lemma_line_in_suffix(gauge_samples(name, label, dl), last, line);
    } else {
        assert(dl[j] == rows[j]);
        lemma_gauge_samples_line(name, label, dl, j);
        lemma_line_in_prefix(gauge_samples(name, label, dl), last, line);
    }
}

/// The line of category row `c` of provider `p`'s errors.
spec fn error_line(name: Seq<char>, p: Seq<char>, c: (String, u64)) -> Seq<char> {
    labeled_sample_text(name, seq![("provider"@, p), ("category"@, c.0@)], decimal(c.1 as nat))
}

proof fn lemma_category_samples_line(name: Seq<char>, p: Seq<char>, rows: Seq<(String, u64)>, j: int)
    requires
        0 <= j < rows.len(),
    ensures
        has_line(category_samples(name, p, rows), error_line(name, p, rows[j])),
        category_samples(name, p, rows).len() > 0,
        category_samples(name, p, rows).last() == '\n',
    decreases rows.len(),
{
    let dl = rows.drop_last();
    let last = error_line(name, p, rows.last());
    let line = error_line(name, p, rows[j]);
    lemma_sample_ends(name, seq![("provider"@, p), ("category"@, rows.last().0@)], decimal(rows.last().1 as nat));
    if j == rows.len() - 1 {
        lemma_whole_line(line);
        if dl.len() > 0 {
            lemma_category_samples_line(name, p, dl, 0);
        }
        lemma_line_in_suffix(category_samples(name, p, dl), last, line);
    } else {
        assert(dl[j] == rows[j]);
        lemma_category_samples_line(name, p, dl, j);
        lemma_line_in_prefix(category_samples(name, p, dl), last, line);
    }
}

proof fn lemma_category_samples_end(name: Seq<char>, p: Seq<char>, rows: Seq<(String, u64)>)
    ensures
        category_samples(name, p, rows).len() == 0 || category_samples(name, p, rows).last() == '\n',
{
    if rows.len() > 0 {
        lemma_category_samples_line(name, p, rows, 0);
    }
}

proof fn lemma_provider_error_samples_end(name: Seq<char>, rows: Seq<(String, Vec<(String, u64)>)>)
    ensures
        provider_error_samples(name, rows).len() == 0 || provider_error_samples(name, rows).last() == '\n',
    decreases rows.len(),
{
    if rows.len() > 0 {
        lemma_provider_error_samples_end(name, rows.drop_last());
        let cs = category_samples(name, rows.last().0@, rows.last().1@);
        lemma_category_samples_end(name, rows.last().0@, rows.last().1@);
        if cs.len() == 0 {
            assert(provider_error_samples(name, rows) =~= provider_error_samples(name, rows.drop_last()));
        }
    }
}

proof fn lemma_provider_error_samples_line(name: Seq<char>, rows: Seq<(String, Vec<(String, u64)>)>, i: int, j: int)
    requires
        0 <= i < rows.len(),
        0 <= j < rows[i].1@.len(),
    ensures
        has_line(provider_error_samples(name, rows), error_line(name, rows[i].0@, rows[i].1@[j])),
    decreases rows.len(),
{
    let dl = rows.drop_last();
    let line = error_line(name, rows[i].0@, rows[i].1@[j]);
    let cs = category_samples(name, rows.last().0@, rows.last().1@);
    if i == rows.len() - 1 {
        lemma_category_samples_line(name, rows.last().0@, rows.last().1@, j);
        lemma_provider_error_samples_end(name, dl);
        lemma_line_in_suffix(provider_error_samples(name, dl), cs, line);
    } else {
        assert(dl[i] == rows[i]);
        lemma_provider_error_samples_line(name, dl, i, j);
        lemma_line_in_prefix(provider_error_samples(name, dl), cs, line);
    }
}

/// The labeled families, in the order of the exposition.
spec fn labeled_parts(s: PrometheusSnapshot) -> Seq<Seq<char>> {
    seq![
        header_text("rustygate_request_errors_total"@, "Chat request errors by category."@, "counter"@),
        count_samples("rustygate_request_errors_total"@, "category"@, s.request_errors_by_category@),
        header_text("rustygate_provider_requests_total"@, "Provider attempts by provider."@, "counter"@),
        count_samples("rustygate_provider_requests_total"@, "provider"@, s.requests_by_provider@),
        header_text("rustygate_provider_successes_total"@, "Provider successful attempts by provider."@, "counter"@),
        count_samples("rustygate_provider_successes_total"@, "provider"@, s.successes_by_provider@),
        header_text("rustygate_provider_errors_total"@, "Provider failed attempts by provider and category."@, "counter"@),
        provider_error_samples("rustygate_provider_errors_total"@, s.provider_errors_by_provider_and_category@),
        header_text("rustygate_provider_latency_ms_avg"@, "Average provider attempt latency in milliseconds."@, "gauge"@),
        gauge_samples("rustygate_provider_latency_ms_avg"@, "provider"@, s.avg_latency_ms_by_provider@),
        header_text("rustygate_provider_latency_ms_p95"@, "P95 provider attempt latency in milliseconds."@, "gauge"@),
        gauge_samples("rustygate_provider_latency_ms_p95"@, "provider"@, s.p95_latency_ms_by_provider@),
    ]
}

#[verifier::rlimit(100)]
proof fn lemma_labeled_concat(s: PrometheusSnapshot)
    ensures
        labeled_text(s) == concat_parts(labeled_parts(s)),
{
    reveal_with_fuel(concat_parts, 13);
    assert(labeled_text(s) =~= concat_parts(labeled_parts(s)));
}

#[verifier::rlimit(100)]
proof fn lemma_labeled_ends(s: PrometheusSnapshot)
    ensures
        forall|j: int| 0 <= j < labeled_parts(s).len() ==> (#[trigger] labeled_parts(s)[j]).len() == 0 || labeled_parts(s)[j].last() == '\n',
{
    let ps = labeled_parts(s);
    if s.request_errors_by_category@.len() > 0 {
        lemma_count_samples_line("rustygate_request_errors_total"@, "category"@, s.request_errors_by_category@, 0);
    }
    if s.requests_by_provider@.len() > 0 {
        lemma_count_samples_line("rustygate_provider_requests_total"@, "provider"@, s.requests_by_provider@, 0);
    }
    if s.successes_by_provider@.len() > 0 {
        lemma_count_samples_line("rustygate_provider_successes_total"@, "provider"@, s.successes_by_provider@, 0);
    }
    lemma_provider_error_samples_end("rustygate_provider_errors_total"@, s.provider_errors_by_provider_and_category@);
    if s.avg_latency_ms_by_provider@.len() > 0 {
        lemma_gauge_samples_line("rustygate_provider_latency_ms_avg"@, "provider"@, s.avg_latency_ms_by_provider@, 0);
    }
    if s.p95_latency_ms_by_provider@.len() > 0 {
        lemma_gauge_samples_line("rustygate_provider_latency_ms_p95"@, "provider"@, s.p95_latency_ms_by_provider@, 0);
    }
    assert forall|j: int| 0 <= j < ps.len() implies (#[trigger] ps[j]).len() == 0 || ps[j].last() == '\n' by {}
}

proof fn lemma_core_ends(s: PrometheusSnapshot)
    ensures
        core_text(s).len() == 0 || core_text(s).last() == '\n',
{
    lemma_core_parts(s);
    lemma_parts_end_with_newline(core_parts(s));
}

/// A line of the labeled part is a line of the whole exposition.
proof fn lemma_labeled_line(s: PrometheusSnapshot, i: int, line: Seq<char>)
    requires
        0 <= i < 12,
        has_line(labeled_parts(s)[i], line),
    ensures
        has_line(core_text(s) + labeled_text(s), line),
{
    lemma_labeled_concat(s);
    lemma_labeled_ends(s);
    lemma_core_ends(s);
    lemma_part_line(labeled_parts(s), i, line, Seq::empty());
    assert(concat_parts(labeled_parts(s)) + Seq::<char>::empty() =~= labeled_text(s));
    lemma_line_in_suffix(core_text(s), labeled_text(s), line);
}

/// `name{label="value"} sample` with the value escaped.
pub open spec fn one_label_line(name: Seq<char>, label: Seq<char>, value: Seq<char>, sample: Seq<char>) -> Seq<char> {
    name + seq!['{'] + label + "=\""@ + escaped(value) + seq!['"'] + "} "@ + sample + seq!['\n']
}

proof fn lemma_one_label(name: Seq<char>, label: Seq<char>, value: Seq<char>, sample: Seq<char>)
    ensures
        labeled_sample_text(name, seq![(label, value)], sample) == one_label_line(name, label, value, sample),
{
    reveal_with_fuel(labels_text, 2);
    assert(seq![(label, value)].drop_last() =~= Seq::<(Seq<char>, Seq<char>)>::empty());
    assert(labeled_sample_text(name, seq![(label, value)], sample) =~= one_label_line(name, label, value, sample));
}

#[verifier::rlimit(100)]
proof fn lemma_rows_category_errors(s: PrometheusSnapshot)
    ensures
        forall|j: int| 0 <= j < s.request_errors_by_category@.len() ==> has_line(core_text(s) + labeled_text(s), one_label_line(
            "rustygate_request_errors_total"@,
            "category"@,
            (#[trigger] s.request_errors_by_category@[j]).0@,
            decimal(s.request_errors_by_category@[j].1 as nat),
        )),
{
    assert forall|j: int| 0 <= j < s.request_errors_by_category@.len() implies has_line(core_text(s) + labeled_text(s), one_label_line(
        "rustygate_request_errors_total"@,
        "category"@,
        (#[trigger] s.request_errors_by_category@[j]).0@,
        decimal(s.request_errors_by_category@[j].1 as nat),
    )) by {
        let r = s.request_errors_by_category@[j];
        lemma_count_samples_line("rustygate_request_errors_total"@, "category"@, s.request_errors_by_category@, j);
        lemma_one_label("rustygate_request_errors_total"@, "category"@, r.0@, decimal(r.1 as nat));
        lemma_labeled_line(s, 1, one_label_line("rustygate_request_errors_total"@, "category"@, r.0@, decimal(r.1 as nat)));
    }
}

#[verifier::rlimit(100)]
proof fn lemma_rows_provider_requests(s: PrometheusSnapshot)
    ensures
        forall|j: int| 0 <= j < s.requests_by_provider@.len() ==> has_line(core_text(s) + labeled_text(s), one_label_line(
            "rustygate_provider_requests_total"@,
            "provider"@,
            (#[trigger] s.requests_by_provider@[j]).0@,
            decimal(s.requests_by_provider@[j].1 as nat),
        )),
{
    assert forall|j: int| 0 <= j < s.requests_by_provider@.len() implies has_line(core_text(s) + labeled_text(s), one_label_line(
        "rustygate_provider_requests_total"@,
        "provider"@,
        (#[trigger] s.requests_by_provider@[j]).0@,
        decimal(s.requests_by_provider@[j].1 as nat),
    )) by {
        let r = s.requests_by_provider@[j];
        lemma_count_samples_line("rustygate_provider_requests_total"@, "provider"@, s.requests_by_provider@, j);
        lemma_one_label("rustygate_provider_requests_total"@, "provider"@, r.0@, decimal(r.1 as nat));
        lemma_labeled_line(s, 3, one_label_line("rustygate_provider_requests_total"@, "provider"@, r.0@, decimal(r.1 as nat)));
    }
}

#[verifier::rlimit(100)]
proof fn lemma_rows_provider_successes(s: PrometheusSnapshot)
    ensures
        forall|j: int| 0 <= j < s.successes_by_provider@.len() ==> has_line(core_text(s) + labeled_text(s), one_label_line(
            "rustygate_provider_successes_total"@,
            "provider"@,
            (#[trigger] s.successes_by_provider@[j]).0@,
            decimal(s.successes_by_provider@[j].1 as nat),
        )),
{
    assert forall|j: int| 0 <= j < s.successes_by_provider@.len() implies has_line(core_text(s) + labeled_text(s), one_label_line(
        "rustygate_provider_successes_total"@,
        "provider"@,
        (#[trigger] s.successes_by_provider@[j]).0@,
        decimal(s.successes_by_provider@[j].1 as nat),
    )) by {
        let r = s.successes_by_provider@[j];
        lemma_count_samples_line("rustygate_provider_successes_total"@, "provider"@, s.successes_by_provider@, j);
        lemma_one_label("rustygate_provider_successes_total"@, "provider"@, r.0@, decimal(r.1 as nat));
        lemma_labeled_line(s, 5, one_label_line("rustygate_provider_successes_total"@, "provider"@, r.0@, decimal(r.1 as nat)));
    }
}

#[verifier::rlimit(100)]
proof fn lemma_rows_provider_latency_avg(s: PrometheusSnapshot)
    ensures
        forall|j: int| 0 <= j < s.avg_latency_ms_by_provider@.len() ==> has_line(core_text(s) + labeled_text(s), one_label_line(
            "rustygate_provider_latency_ms_avg"@,
            "provider"@,
            (#[trigger] s.avg_latency_ms_by_provider@[j]).0@,
            s.avg_latency_ms_by_provider@[j].1@,
        )),
{
    assert forall|j: int| 0 <= j < s.avg_latency_ms_by_provider@.len() implies has_line(core_text(s) + labeled_text(s), one_label_line(
        "rustygate_provider_latency_ms_avg"@,
        "provider"@,
        (#[trigger] s.avg_latency_ms_by_provider@[j]).0@,
        s.avg_latency_ms_by_provider@[j].1@,
    )) by {
        let r = s.avg_latency_ms_by_provider@[j];
        lemma_gauge_samples_line("rustygate_provider_latency_ms_avg"@, "provider"@, s.avg_latency_ms_by_provider@, j);
        lemma_one_label("rustygate_provider_latency_ms_avg"@, "provider"@, r.0@, r.1@);
        lemma_labeled_line(s, 9, one_label_line("rustygate_provider_latency_ms_avg"@, "provider"@, r.0@, r.1@));
    }
}

#[verifier::rlimit(100)]
proof fn lemma_rows_provider_latency_p95(s: PrometheusSnapshot)
    ensures
        forall|j: int| 0 <= j < s.p95_latency_ms_by_provider@.len() ==> has_line(core_text(s) + labeled_text(s), one_label_line(
            "rustygate_provider_latency_ms_p95"@,
            "provider"@,
            (#[trigger] s.p95_latency_ms_by_provider@[j]).0@,
            s.p95_latency_ms_by_provider@[j].1@,
        )),
{
    assert forall|j: int| 0 <= j < s.p95_latency_ms_by_provider@.len() implies has_line(core_text(s) + labeled_text(s), one_label_line(
        "rustygate_provider_latency_ms_p95"@,
        "provider"@,
        (#[trigger] s.p95_latency_ms_by_provider@[j]).0@,
        s.p95_latency_ms_by_provider@[j].1@,
    )) by {
        let r = s.p95_latency_ms_by_provider@[j];
        lemma_gauge_samples_line("rustygate_provider_latency_ms_p95"@, "provider"@, s.p95_latency_ms_by_provider@, j);
        lemma_one_label("rustygate_provider_latency_ms_p95"@, "provider"@, r.0@, r.1@);
        lemma_labeled_line(s, 11, one_label_line("rustygate_provider_latency_ms_p95"@, "provider"@, r.0@, r.1@));
    }
}

#[verifier::rlimit(100)]
proof fn lemma_rows_provider_errors(s: PrometheusSnapshot)
    ensures
        forall|i: int, j: int|
            0 <= i < s.provider_errors_by_provider_and_category@.len() && 0 <= j < (
            #[trigger] s.provider_errors_by_provider_and_category@[i]).1@.len() ==> has_line(
                core_text(s) + labeled_text(s),
                "rustygate_provider_errors_total"@ + seq!['{'] + "provider"@ + "=\""@ + escaped(
                    s.provider_errors_by_provider_and_category@[i].0@,
                ) + seq!['"'] + seq![','] + "category"@ + "=\""@ + escaped(
                    (#[trigger] s.provider_errors_by_provider_and_category@[i].1@[j]).0@,
                ) + seq!['"'] + "} "@ + decimal(s.provider_errors_by_provider_and_category@[i].1@[j].1 as nat) + seq!['\n'],
            ),
{
    assert forall|i: int, j: int|
        0 <= i < s.provider_errors_by_provider_and_category@.len() && 0 <= j < (
        #[trigger] s.provider_errors_by_provider_and_category@[i]).1@.len() implies has_line(
            core_text(s) + labeled_text(s),
            "rustygate_provider_errors_total"@ + seq!['{'] + "provider"@ + "=\""@ + escaped(
                s.provider_errors_by_provider_and_category@[i].0@,
            ) + seq!['"'] + seq![','] + "category"@ + "=\""@ + escaped(
                (#[trigger] s.provider_errors_by_provider_and_category@[i].1@[j]).0@,
            ) + seq!['"'] + "} "@ + decimal(s.provider_errors_by_provider_and_category@[i].1@[j].1 as nat) + seq!['\n'],
        ) by {
        let rows = s.provider_errors_by_provider_and_category@;
        let p = rows[i].0@;
        let c = rows[i].1@[j];
        let name = "rustygate_provider_errors_total"@;
        lemma_provider_error_samples_line(name, rows, i, j);
        let labels = seq![("provider"@, p), ("category"@, c.0@)];
        reveal_with_fuel(labels_text, 3);
        assert(labels.drop_last() =~= seq![("provider"@, p)]);
        assert(seq![("provider"@, p)].drop_last() =~= Seq::<(Seq<char>, Seq<char>)>::empty());
        assert(error_line(name, p, c) =~= name + seq!['{'] + "provider"@ + "=\""@ + escaped(p) + seq!['"'] + seq![','] + "category"@
            + "=\""@ + escaped(c.0@) + seq!['"'] + "} "@ + decimal(c.1 as nat) + seq!['\n']);
        lemma_labeled_line(s, 7, error_line(name, p, c));
    }
}

/// The exposition reports every row of the labeled counters with its own
/// count: for each request-error category, each provider's attempts and
/// successes, and each provider's errors by category, the whole line
/// `<family>{<label>="<escaped value>"} <count>` is in the text.
pub proof fn law_exposition_reports_each_labeled_row(s: PrometheusSnapshot)
    ensures
        forall|j: int| 0 <= j < s.request_errors_by_category@.len() ==> has_line(core_text(s) + labeled_text(s), one_label_line(
            "rustygate_request_errors_total"@,
            "category"@,
            (#[trigger] s.request_errors_by_category@[j]).0@,
            decimal(s.request_errors_by_category@[j].1 as nat),
        )),
        forall|j: int| 0 <= j < s.requests_by_provider@.len() ==> has_line(core_text(s) + labeled_text(s), one_label_line(
            "rustygate_provider_requests_total"@,
            "provider"@,
            (#[trigger] s.requests_by_provider@[j]).0@,
            decimal(s.requests_by_provider@[j].1 as nat),
        )),
        forall|j: int| 0 <= j < s.successes_by_provider@.len() ==> has_line(core_text(s) + labeled_text(s), one_label_line(
            "rustygate_provider_successes_total"@,
            "provider"@,
            (#[trigger] s.successes_by_provider@[j]).0@,
            decimal(s.successes_by_provider@[j].1 as nat),
        )),
        forall|j: int| 0 <= j < s.avg_latency_ms_by_provider@.len() ==> has_line(core_text(s) + labeled_text(s), one_label_line(
            "rustygate_provider_latency_ms_avg"@,
            "provider"@,
            (#[trigger] s.avg_latency_ms_by_provider@[j]).0@,
            s.avg_latency_ms_by_provider@[j].1@,
        )),
        forall|j: int| 0 <= j < s.p95_latency_ms_by_provider@.len() ==> has_line(core_text(s) + labeled_text(s), one_label_line(
            "rustygate_provider_latency_ms_p95"@,
            "provider"@,
            (#[trigger] s.p95_latency_ms_by_provider@[j]).0@,
            s.p95_latency_ms_by_provider@[j].1@,
        )),
        forall|i: int, j: int|
            0 <= i < s.provider_errors_by_provider_and_category@.len() && 0 <= j < (
            #[trigger] s.provider_errors_by_provider_and_category@[i]).1@.len() ==> has_line(
                core_text(s) + labeled_text(s),
                "rustygate_provider_errors_total"@ + seq!['{'] + "provider"@ + "=\""@ + escaped(
                    s.provider_errors_by_provider_and_category@[i].0@,
                ) + seq!['"'] + seq![','] + "category"@ + "=\""@ + escaped(
                    (#[trigger] s.provider_errors_by_provider_and_category@[i].1@[j]).0@,
                ) + seq!['"'] + "} "@ + decimal(s.provider_errors_by_provider_and_category@[i].1@[j].1 as nat) + seq!['\n'],
            ),
{
    lemma_rows_category_errors(s);
    lemma_rows_provider_requests(s);
    lemma_rows_provider_successes(s);
    lemma_rows_provider_latency_avg(s);
    lemma_rows_provider_latency_p95(s);
    lemma_rows_provider_errors(s);
}

/// The Prometheus text exposition of a snapshot.
pub fn render_prometheus(snapshot: &PrometheusSnapshot) -> (text: String)
    ensures
        text@ == core_text(*snapshot) + labeled_text(*snapshot),
{
    let mut output = String::new();
    write_core(&mut output, snapshot);
    write_labeled(&mut output, snapshot);
    proof {
        assert(output@ =~= core_text(*snapshot) + labeled_text(*snapshot));
    }
    output
}

} // verus!
