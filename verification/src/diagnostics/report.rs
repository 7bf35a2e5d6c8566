//! The readable report of a run.
use crate::diagnostics::analysis::{Analysis, Incident};
use crate::diagnostics::keys::{Cause, Count, Measure, CAUSES, COUNTS, MEASURES};
use crate::diagnostics::model::{AnalysisView, IncidentView};
use crate::diagnostics::series::{Series, SeriesView};
use crate::diagnostics::sets;
use crate::metrics::{HostMetrics, MetricsView};
use crate::text;
use vstd::prelude::*;
use vstd::string::*;

verus! {

/// How many samples the 99th percentile needs.
pub const P99_SUPPORT: u64 = 1000;

/// How many samples the 99.9th percentile needs.
pub const P999_SUPPORT: u64 = 10000;

/// `[a, b]`
pub open spec fn pair_text(pair: (int, int)) -> Seq<char> {
    "["@ + text::decimal(pair.0 as nat) + ", "@ + text::decimal(pair.1 as nat) + "]"@
}

pub open spec fn optional_pair_text(pair: Option<(int, int)>) -> Seq<char> {
    match pair {
        Some(pair) => "Some("@ + pair_text(pair) + ")"@,
        None => "None"@,
    }
}

pub open spec fn optional_text(n: Option<u64>) -> Seq<char> {
    match n {
        Some(n) => "Some("@ + text::decimal(n as nat) + ")"@,
        None => "None"@,
    }
}

pub open spec fn flag_text(flag: bool) -> Seq<char> {
    if flag {
        "true"@
    } else {
        "false"@
    }
}

pub open spec fn as_pair(pair: [u64; 2]) -> (int, int) {
    (pair[0] as int, pair[1] as int)
}

pub open spec fn as_optional_pair(pair: Option<[u64; 2]>) -> Option<(int, int)> {
    match pair {
        Some(pair) => Some(as_pair(pair)),
        None => None,
    }
}

pub open spec fn nth_count(position: int) -> Count {
    choose|key: Count| key.position() == position
}

pub open spec fn nth_measure(position: int) -> Measure {
    choose|key: Measure| key.position() == position
}

pub open spec fn nth_cause(position: int) -> Cause {
    choose|cause: Cause| cause.position() == position
}

/// The counts that were made among the first `count` keys, one line each.
pub open spec fn count_lines(counts: Seq<Option<u64>>, count: nat) -> Seq<Seq<char>>
    decreases count,
{
    if count == 0 {
        seq![]
    } else {
        let front = count_lines(counts, (count - 1) as nat);
        match counts[count - 1] {
            Some(n) => front.push(
                nth_count(count - 1).spelling() + "="@ + text::decimal(n as nat),
            ),
            None => front,
        }
    }
}

pub open spec fn mean_text(series: SeriesView) -> Seq<char> {
    if series.n == 0 {
        "unavailable"@
    } else {
        text::decimal((series.sum_ns / (series.n as u128)) as nat)
    }
}

/// A quantile, where there are enough samples for it.
pub open spec fn quantile_text(
    series: SeriesView,
    numerator: u64,
    denominator: u64,
    support: u64,
) -> Seq<char> {
    optional_pair_text(
        if series.n >= support {
            series.quantile(numerator, denominator)
        } else {
            None
        },
    )
}

pub open spec fn tail_text(series: SeriesView) -> Seq<char> {
    if series.n >= P999_SUPPORT {
        "tail ranks available; not independent samples or confidence intervals"@
    } else {
        "insufficient tail support; max/exceed counts still apply"@
    }
}

pub open spec fn series_line(name: Seq<char>, series: SeriesView) -> Seq<char> {
    name + ": n="@ + text::decimal(series.n as nat) + " invalid="@ + text::decimal(
        series.invalid as nat,
    ) + " over_budget="@ + text::decimal(series.over_budget as nat) + " mean_ns="@ + mean_text(
        series,
    ) + " max_ns="@ + text::decimal(series.max_ns as nat) + " p50="@ + quantile_text(
        series,
        50,
        100,
        0,
    ) + " p90="@ + quantile_text(series, 90, 100, 0) + " p99="@ + quantile_text(
        series,
        99,
        100,
        P99_SUPPORT,
    ) + " p99.9="@ + quantile_text(series, 999, 1000, P999_SUPPORT) + " tail_quality="@ + tail_text(
        series,
    )
}

/// The series that were measured among the first `count` keys, one line each.
pub open spec fn series_lines(series: Seq<Option<SeriesView>>, count: nat) -> Seq<Seq<char>>
    decreases count,
{
    if count == 0 {
        seq![]
    } else {
        let front = series_lines(series, (count - 1) as nat);
        match series[count - 1] {
            Some(found) => front.push(series_line(nth_measure(count - 1).spelling(), found)),
            None => front,
        }
    }
}

/// The causes among the first `count`, quoted and separated by commas.
pub open spec fn cause_list(causes: Set<Cause>, count: nat) -> Seq<char>
    decreases count,
{
    if count == 0 {
        seq![]
    } else {
        let front = cause_list(causes, (count - 1) as nat);
        let cause = nth_cause(count - 1);
        if !causes.contains(cause) {
            front
        } else if front.len() == 0 {
            front + "\""@ + cause.spelling() + "\""@
        } else {
            front + ", \""@ + cause.spelling() + "\""@
        }
    }
}

/// The keys in the order of session and sequence.
pub open spec fn ordered_keys(keys: Set<[u64; 2]>) -> Seq<[u64; 2]> {
    choose|listed: Seq<[u64; 2]>| #[trigger] sets::in_order(listed) && listed.to_set() == keys
}

/// The first `count` keys, separated by commas.
pub open spec fn key_list(keys: Seq<[u64; 2]>, count: nat) -> Seq<char>
    decreases count,
{
    if count == 0 {
        seq![]
    } else if count == 1 {
        key_list(keys, 0) + pair_text(as_pair(keys[0]))
    } else {
        key_list(keys, (count - 1) as nat) + ", "@ + pair_text(as_pair(keys[count - 1]))
    }
}

pub open spec fn incident_line(incident: IncidentView) -> Seq<char> {
    "incident="@ + text::decimal(incident.id as nat) + " at_ns="@ + text::decimal(
        incident.started_ns as nat,
    ) + " last_anomaly_ns="@ + text::decimal(incident.last_anomaly_ns as nat) + " frames="@
        + pair_text(as_pair(incident.first_frame)) + ".."@ + pair_text(
        as_pair(incident.last_frame),
    ) + " affected_observations="@ + text::decimal(incident.affected_frames as nat)
        + " recovery_to_os_commit_ns="@ + optional_text(incident.recovery_ns) + " causes={"@
        + cause_list(incident.causes, CAUSES as nat) + "} evidence="@ + text::decimal(
        incident.evidence.len(),
    ) + " omitted="@ + text::decimal(incident.evidence_omitted as nat)
        + " post_context_complete="@ + flag_text(incident.post_context_complete)
}

pub open spec fn affected_line(incident: IncidentView) -> Seq<char> {
    let keys = ordered_keys(incident.affected_frame_keys);
    "  affected_frame_keys={"@ + key_list(keys, keys.len()) + "} omitted_keys="@ + text::decimal(
        incident.affected_keys_omitted as nat,
    ) + " fresh_session_commit_ns="@ + optional_text(incident.fresh_session_commit_ns)
        + " reconstructed_snapshot_ns="@ + optional_text(incident.reconstructed_snapshot_ns)
}

/// The first `count` incidents, two lines each.
pub open spec fn incident_lines(incidents: Seq<IncidentView>, count: nat) -> Seq<Seq<char>>
    decreases count,
{
    if count == 0 {
        seq![]
    } else {
        incident_lines(incidents, (count - 1) as nat).push(
            incident_line(incidents[count - 1]),
        ).push(affected_line(incidents[count - 1]))
    }
}

/// What stands above the counts.
pub open spec fn head_lines(
    metrics: MetricsView,
    analysis: AnalysisView,
    duration: Seq<char>,
    environment_at_stop: Seq<char>,
) -> Seq<Seq<char>> {
    seq![
        "Doritrack diagnostic report schema=2 protocol="@ + text::decimal(
            metrics.protocol_version as nat,
        ) + " transport="@ + metrics.transport + " duration_s="@ + duration,
        "environment="@ + metrics.environment,
        "diagnostic_drop_span_ns="@ + optional_pair_text(
            as_optional_pair(analysis.drop_span_ns),
        ),
        "environment_at_stop="@ + environment_at_stop,
        "budget_ns="@ + text::decimal(analysis.budget_ns as nat) + " diagnostic_records_dropped="@
            + text::decimal(analysis.records_dropped as nat) + " incidents="@ + text::decimal(
            analysis.incidents.len(),
        ) + " omitted_incident_triggers="@ + text::decimal(analysis.incidents_omitted as nat),
        "coverage=host-observed frames only; join Android report to account for frames never received. Any omitted evidence or queue loss makes forensic coverage incomplete."@,
        "latency=OS submission, not game-observed input. No one-way point estimate. Local lower bounds exclude unknown forward transit. Duplex residual includes both directions and endpoint scheduling; never divide by two."@,
        "clock=echo validity <=2s; relative drift allowance 1000ppm is an assumption, not calibration; MotionEvent precision may be 1ms on Android <34."@,
        "parser_invalid="@ + text::decimal(metrics.parser_counters[0] as nat)
            + " parser_discarded_bytes="@ + text::decimal(metrics.parser_counters[1] as nat)
            + " parser_boundary_bytes="@ + text::decimal(metrics.parser_counters[2] as nat),
    ]
}

pub open spec fn histogram_line() -> Seq<char> {
    "histogram=integer nanoseconds; 32 subdivisions/octave; full u64 range; inclusive quantile bounds; exact maximum and strict budget exceed counts; no warmup exclusion"@
}

/// The whole report, line by line.
pub open spec fn report_of(
    metrics: MetricsView,
    analysis: AnalysisView,
    duration: Seq<char>,
    environment_at_stop: Seq<char>,
) -> Seq<Seq<char>> {
    head_lines(metrics, analysis, duration, environment_at_stop) + count_lines(
        analysis.counts,
        COUNTS as nat,
    ) + seq![histogram_line()] + series_lines(analysis.series, MEASURES as nat) + incident_lines(
        analysis.incidents,
        analysis.incidents.len(),
    )
}

fn push_line(lines: &mut Vec<String>, line: String)
    ensures
        text::texts(final(lines)@) == text::texts(old(lines)@).push(line@),
{
    lines.push(line);
    assert(text::texts(lines@) =~= text::texts(old(lines)@).push(line@));
}

fn push_pair(out: &mut String, pair: [u64; 2])
    ensures
        final(out)@ == old(out)@ + pair_text(as_pair(pair)),
{
    out.append("[");
    text::push_decimal(out, pair[0] as u128);
    out.append(", ");
    text::push_decimal(out, pair[1] as u128);
    out.append("]");
    assert(out@ =~= old(out)@ + pair_text(as_pair(pair)));
}

fn push_optional_pair(out: &mut String, pair: Option<[u64; 2]>)
    ensures
        final(out)@ == old(out)@ + optional_pair_text(as_optional_pair(pair)),
{
    match pair {
        Some(pair) => {
            out.append("Some(");
            push_pair(out, pair);
            out.append(")");
            assert(out@ =~= old(out)@ + optional_pair_text(Some(as_pair(pair))));
        },
        None => {
            out.append("None");
        },
    }
}

fn push_optional(out: &mut String, n: Option<u64>)
    ensures
        final(out)@ == old(out)@ + optional_text(n),
{
    match n {
        Some(n) => {
            out.append("Some(");
            text::push_decimal(out, n as u128);
            out.append(")");
            assert(out@ =~= old(out)@ + optional_text(Some(n)));
        },
        None => {
            out.append("None");
        },
    }
}

fn push_flag(out: &mut String, flag: bool)
    ensures
        final(out)@ == old(out)@ + flag_text(flag),
{
    if flag {
        out.append("true");
    } else {
        out.append("false");
    }
}

fn push_quantile(out: &mut String, series: &Series, numerator: u64, denominator: u64, support: u64)
    requires
        series@.wf(),
        denominator > 0,
    ensures
        final(out)@ == old(out)@ + quantile_text(series@, numerator, denominator, support),
{
    let interval: Option<[u64; 2]> = if series.n >= support {
        series.quantile(numerator, denominator)
    } else {
        None
    };
    push_optional_pair(out, interval);
}

fn series_text(name: &str, series: &Series) -> (line: String)
    requires
        series@.wf(),
    ensures
        line@ == series_line(name@, series@),
{
    let mut line: String = name.to_owned();
    line.append(": n=");
    text::push_decimal(&mut line, series.n as u128);
    line.append(" invalid=");
    text::push_decimal(&mut line, series.invalid as u128);
    line.append(" over_budget=");
    text::push_decimal(&mut line, series.over_budget as u128);
    line.append(" mean_ns=");
    if series.n == 0 {
        line.append("unavailable");
    } else {
        text::push_decimal(&mut line, series.sum_ns / (series.n as u128));
    }
    line.append(" max_ns=");
    text::push_decimal(&mut line, series.max_ns as u128);
    line.append(" p50=");
    push_quantile(&mut line, series, 50, 100, 0);
    line.append(" p90=");
    push_quantile(&mut line, series, 90, 100, 0);
    line.append(" p99=");
    push_quantile(&mut line, series, 99, 100, P99_SUPPORT);
    line.append(" p99.9=");
    push_quantile(&mut line, series, 999, 1000, P999_SUPPORT);
    line.append(" tail_quality=");
    if series.n >= P999_SUPPORT {
        line.append("tail ranks available; not independent samples or confidence intervals");
    } else {
        line.append("insufficient tail support; max/exceed counts still apply");
    }
    line
}

fn causes_text(incident: &Incident) -> (list: String)
    ensures
        list@ == cause_list(incident@.causes, CAUSES as nat),
{
    let mut list: String = String::new();
    let mut empty: bool = true;
    let mut i: usize = 0;
    assert(list@ =~= cause_list(incident@.causes, 0));
    while i < CAUSES
        invariant
            i <= CAUSES,
            list@ == cause_list(incident@.causes, i as nat),
            empty == (list@.len() == 0),
        decreases CAUSES - i,
    {
        if let Some(cause) = Cause::at(i) {
            proof {
                sets::cause_positions_differ(cause, nth_cause(i as int));
                reveal_strlit("\"");
                reveal_strlit(", \"");
            }
            if incident.causes.contains(cause) {
                if empty {
                    list.append("\"");
                } else {
                    list.append(", \"");
                }
                list.append(cause.name());
                list.append("\"");
                empty = false;
            }
        }
        i = i + 1;
    }
    list
}

fn keys_text(keys: &Vec<[u64; 2]>) -> (list: String)
    ensures
        list@ == key_list(keys@, keys@.len()),
{
    let mut list: String = String::new();
    let mut i: usize = 0;
    assert(list@ =~= key_list(keys@, 0));
    while i < keys.len()
        invariant
            i <= keys@.len(),
            list@ == key_list(keys@, i as nat),
        decreases keys@.len() - i,
    {
        if i > 0 {
            list.append(", ");
        }
        push_pair(&mut list, keys[i]);
        i = i + 1;
    }
    list
}

fn incident_text(incident: &Incident) -> (line: String)
    ensures
        line@ == incident_line(incident@),
{
    let mut line: String = "incident=".to_owned();
    text::push_decimal(&mut line, incident.id as u128);
    line.append(" at_ns=");
    text::push_decimal(&mut line, incident.started_ns as u128);
    line.append(" last_anomaly_ns=");
    text::push_decimal(&mut line, incident.last_anomaly_ns as u128);
    line.append(" frames=");
    push_pair(&mut line, incident.first_frame);
    line.append("..");
    push_pair(&mut line, incident.last_frame);
    line.append(" affected_observations=");
    text::push_decimal(&mut line, incident.affected_frames as u128);
    line.append(" recovery_to_os_commit_ns=");
    push_optional(&mut line, incident.recovery_ns);
    line.append(" causes={");
    line.append(causes_text(incident).as_str());
    line.append("} evidence=");
    text::push_decimal(&mut line, incident.evidence.len() as u128);
    line.append(" omitted=");
    text::push_decimal(&mut line, incident.evidence_omitted as u128);
    line.append(" post_context_complete=");
    push_flag(&mut line, incident.post_context_complete);
    line
}

fn affected_text(incident: &Incident) -> (line: String)
    requires
        incident.affected_frame_keys.wf(),
    ensures
        line@ == affected_line(incident@),
{
    let keys: &Vec<[u64; 2]> = incident.affected_frame_keys.listed();
    proof {
        assert(sets::in_order(keys@) && keys@.to_set() == incident@.affected_frame_keys);
        sets::ordered_keys_are_unique(keys@, ordered_keys(incident@.affected_frame_keys));
    }
    let mut line: String = "  affected_frame_keys={".to_owned();
    line.append(keys_text(keys).as_str());
    line.append("} omitted_keys=");
    text::push_decimal(&mut line, incident.affected_keys_omitted as u128);
    line.append(" fresh_session_commit_ns=");
    push_optional(&mut line, incident.fresh_session_commit_ns);
    line.append(" reconstructed_snapshot_ns=");
    push_optional(&mut line, incident.reconstructed_snapshot_ns);
    line
}

fn push_head(
    lines: &mut Vec<String>,
    metrics: &HostMetrics,
    analysis: &Analysis,
    duration: &str,
    environment_at_stop: &str,
)
    requires
        old(lines)@.len() == 0,
    ensures
        text::texts(final(lines)@) == head_lines(metrics@, analysis@, duration@, environment_at_stop@),
{
    let mut line: String = "Doritrack diagnostic report schema=2 protocol=".to_owned();
    text::push_decimal(&mut line, metrics.protocol_version as u128);
    line.append(" transport=");
    line.append(metrics.transport.as_str());
    line.append(" duration_s=");
    line.append(duration);
    push_line(lines, line);
    let mut line: String = "environment=".to_owned();
    line.append(metrics.environment.as_str());
    push_line(lines, line);
    let mut line: String = "diagnostic_drop_span_ns=".to_owned();
    push_optional_pair(&mut line, analysis.drop_span());
    push_line(lines, line);
    let mut line: String = "environment_at_stop=".to_owned();
    line.append(environment_at_stop);
    push_line(lines, line);
    let mut line: String = "budget_ns=".to_owned();
    text::push_decimal(&mut line, analysis.budget() as u128);
    line.append(" diagnostic_records_dropped=");
    text::push_decimal(&mut line, analysis.records_dropped() as u128);
    line.append(" incidents=");
    text::push_decimal(&mut line, analysis.incident_count() as u128);
    line.append(" omitted_incident_triggers=");
    text::push_decimal(&mut line, analysis.omitted_incidents() as u128);
    push_line(lines, line);
    push_line(
        lines,
        "coverage=host-observed frames only; join Android report to account for frames never received. Any omitted evidence or queue loss makes forensic coverage incomplete.".to_owned(),
    );
    push_line(
        lines,
        "latency=OS submission, not game-observed input. No one-way point estimate. Local lower bounds exclude unknown forward transit. Duplex residual includes both directions and endpoint scheduling; never divide by two.".to_owned(),
    );
    push_line(
        lines,
        "clock=echo validity <=2s; relative drift allowance 1000ppm is an assumption, not calibration; MotionEvent precision may be 1ms on Android <34.".to_owned(),
    );
    let mut line: String = "parser_invalid=".to_owned();
    text::push_decimal(&mut line, metrics.parser_counters[0] as u128);
    line.append(" parser_discarded_bytes=");
    text::push_decimal(&mut line, metrics.parser_counters[1] as u128);
    line.append(" parser_boundary_bytes=");
    text::push_decimal(&mut line, metrics.parser_counters[2] as u128);
    push_line(lines, line);
    assert(text::texts(lines@) =~= head_lines(metrics@, analysis@, duration@, environment_at_stop@));
}

fn push_counts(lines: &mut Vec<String>, analysis: &Analysis)
    requires
        analysis.wf(),
    ensures
        text::texts(final(lines)@) == text::texts(old(lines)@) + count_lines(analysis@.counts, COUNTS as nat),
{
    let mut i: usize = 0;
    assert(text::texts(lines@) =~= text::texts(old(lines)@) + count_lines(analysis@.counts, 0));
    while i < COUNTS
        invariant
            i <= COUNTS,
            analysis.wf(),
            text::texts(lines@) == text::texts(old(lines)@) + count_lines(analysis@.counts, i as nat),
        decreases COUNTS - i,
    {
        if let Some(key) = Count::at(i) {
            assert(key == nth_count(i as int));
            if let Some(n) = analysis.count_of(key) {
                let mut line: String = key.name().to_owned();
                line.append("=");
                text::push_decimal(&mut line, n as u128);
                push_line(lines, line);
            }
        }
        i = i + 1;
        assert(text::texts(lines@) =~= text::texts(old(lines)@) + count_lines(analysis@.counts, i as nat));
    }
}

fn push_series(lines: &mut Vec<String>, analysis: &Analysis)
    requires
        analysis.wf(),
    ensures
        text::texts(final(lines)@) == text::texts(old(lines)@) + series_lines(
            analysis@.series,
            MEASURES as nat,
        ),
{
    let mut i: usize = 0;
    assert(text::texts(lines@) =~= text::texts(old(lines)@) + series_lines(analysis@.series, 0));
    while i < MEASURES
        invariant
            i <= MEASURES,
            analysis.wf(),
            text::texts(lines@) == text::texts(old(lines)@) + series_lines(analysis@.series, i as nat),
        decreases MEASURES - i,
    {
        if let Some(key) = Measure::at(i) {
            assert(key == nth_measure(i as int));
            if let Some(series) = analysis.series_of(key) {
                push_line(lines, series_text(key.name(), series));
            }
        }
        i = i + 1;
        assert(text::texts(lines@) =~= text::texts(old(lines)@) + series_lines(analysis@.series, i as nat));
    }
}

fn push_incidents(lines: &mut Vec<String>, analysis: &Analysis)
    requires
        analysis.wf(),
    ensures
        text::texts(final(lines)@) == text::texts(old(lines)@) + incident_lines(
            analysis@.incidents,
            analysis@.incidents.len(),
        ),
{
    let mut i: usize = 0;
    assert(text::texts(lines@) =~= text::texts(old(lines)@) + incident_lines(analysis@.incidents, 0));
    while i < analysis.incident_count()
        invariant
            i <= analysis@.incidents.len(),
            analysis.wf(),
            text::texts(lines@) == text::texts(old(lines)@) + incident_lines(analysis@.incidents, i as nat),
        decreases analysis@.incidents.len() - i,
    {
        let incident: &Incident = analysis.incident(i);
        push_line(lines, incident_text(incident));
        push_line(lines, affected_text(incident));
        i = i + 1;
        assert(text::texts(lines@) =~= text::texts(old(lines)@) + incident_lines(
            analysis@.incidents,
            i as nat,
        ));
    }
}

/// The report of a run, line by line. `duration` is the length of the run in seconds.
pub fn report_lines(
    metrics: &HostMetrics,
    analysis: &Analysis,
    duration: &str,
    environment_at_stop: &str,
) -> (lines: Vec<String>)
    requires
        analysis.wf(),
    ensures
        text::texts(lines@) == report_of(metrics@, analysis@, duration@, environment_at_stop@),
{
    let mut lines: Vec<String> = Vec::new();
    push_head(&mut lines, metrics, analysis, duration, environment_at_stop);
    push_counts(&mut lines, analysis);
    push_line(
        &mut lines,
        "histogram=integer nanoseconds; 32 subdivisions/octave; full u64 range; inclusive quantile bounds; exact maximum and strict budget exceed counts; no warmup exclusion".to_owned(),
    );
    push_series(&mut lines, analysis);
    push_incidents(&mut lines, analysis);
    assert(text::texts(lines@) =~= report_of(metrics@, analysis@, duration@, environment_at_stop@));
    lines
}

/// The extension of the structured companion of a report: it never replaces the
/// readable one.
pub fn companion_extension(extension: Option<&String>) -> (companion: &'static str)
    ensures
        companion@ == if extension matches Some(e) && text::uppered(e@) == "JSON"@ {
            "events.json"@
        } else {
            "json"@
        },
{
    match extension {
        Some(extension) => {
            let upper: Vec<char> = text::upper_chars(extension.as_str());
            if text::same_chars(&upper, &text::chars_of("JSON")) {
                "events.json"
            } else {
                "json"
            }
        },
        None => "json",
    }
}

/// Each name has a place of its own, so a place gives its name back.
proof fn places_give_names(count: Count, measure: Measure, cause: Cause)
    ensures
        nth_count(count.position()) == count,
        nth_measure(measure.position()) == measure,
        nth_cause(cause.position()) == cause,
        0 <= count.position() < COUNTS,
        0 <= measure.position() < MEASURES,
        0 <= cause.position() < CAUSES,
{
}

/// Every count that was made has its line, which gives the number after the name.
pub proof fn counts_are_reported(counts: Seq<Option<u64>>, count: nat, key: Count, n: u64)
    requires
        key.position() < count <= COUNTS,
        counts[key.position()] == Some(n),
    ensures
        count_lines(counts, count).contains(key.spelling() + "="@ + text::decimal(n as nat)),
    decreases count,
{
    let line = key.spelling() + "="@ + text::decimal(n as nat);
    let all = count_lines(counts, count);
    places_give_names(key, Measure::HostAckSubmission, Cause::OsSinkRetry);
    let front = count_lines(counts, (count - 1) as nat);
    if key.position() == count - 1 {
        assert(all[front.len() as int] == line);
    } else {
        counts_are_reported(counts, (count - 1) as nat, key, n);
        let i = choose|i: int| 0 <= i < front.len() && front[i] == line;
        assert(all[i] == line);
    }
}

/// Every series that was measured has its line.
pub proof fn series_are_reported(
    series: Seq<Option<SeriesView>>,
    count: nat,
    key: Measure,
    found: SeriesView,
)
    requires
        key.position() < count <= MEASURES,
        series[key.position()] == Some(found),
    ensures
        series_lines(series, count).contains(series_line(key.spelling(), found)),
    decreases count,
{
    let line = series_line(key.spelling(), found);
    let all = series_lines(series, count);
    places_give_names(Count::Connections, key, Cause::OsSinkRetry);
    let front = series_lines(series, (count - 1) as nat);
    if key.position() == count - 1 {
        assert(all[front.len() as int] == line);
    } else {
        series_are_reported(series, (count - 1) as nat, key, found);
        let i = choose|i: int| 0 <= i < front.len() && front[i] == line;
        assert(all[i] == line);
    }
}

/// The line of a series says how many samples there are, how many were invalid or over the
/// budget, the greatest, and the bounds of the median, of the ninth tenth and, with a thousand
/// and ten thousand samples, of the 99th and the 99.9th percentile.
pub proof fn series_line_says(name: Seq<char>, s: SeriesView)
    ensures
        ({
            let line = series_line(name, s);
            &&& text::part_at(line, name, 0)
            &&& text::has_part(line, ": n="@ + text::decimal(s.n as nat) + " "@)
            &&& text::has_part(line, " invalid="@ + text::decimal(s.invalid as nat) + " "@)
            &&& text::has_part(line, " over_budget="@ + text::decimal(s.over_budget as nat) + " "@)
            &&& text::has_part(line, " max_ns="@ + text::decimal(s.max_ns as nat) + " "@)
            &&& text::has_part(line, " p50="@ + optional_pair_text(s.quantile(1, 2)) + " "@)
            &&& text::has_part(line, " p90="@ + optional_pair_text(s.quantile(9, 10)) + " "@)
            &&& s.n >= 1000 ==> text::has_part(
                line,
                " p99="@ + optional_pair_text(s.quantile(99, 100)) + " "@,
            )
            &&& s.n < 1000 ==> text::has_part(line, " p99=None "@)
            &&& s.n >= 10000 ==> text::has_part(
                line,
                " p99.9="@ + optional_pair_text(s.quantile(999, 1000)) + " "@,
            )
            &&& s.n < 10000 ==> text::has_part(line, " p99.9=None "@)
            &&& s.n > 0 ==> text::has_part(
                line,
                " mean_ns="@ + text::decimal((s.sum_ns as nat) / (s.n as nat)) + " "@,
            )
        }),
{
    let line = series_line(name, s);
    let n = s.n as nat;
    assert((n * 50 + 100 - 1) / 100 == (n * 1 + 2 - 1) / 2);
    assert((n * 90 + 100 - 1) / 100 == (n * 9 + 10 - 1) / 10);
    assert(s.quantile(50, 100) == s.quantile(1, 2));
    assert(s.quantile(90, 100) == s.quantile(9, 10));
    reveal_strlit(" ");
    reveal_strlit(": n=");
    reveal_strlit(" invalid=");
    reveal_strlit(" over_budget=");
    reveal_strlit(" mean_ns=");
    reveal_strlit(" max_ns=");
    reveal_strlit(" p50=");
    reveal_strlit(" p90=");
    reveal_strlit(" p99=");
    reveal_strlit(" p99.9=");
    reveal_strlit(" tail_quality=");
    reveal_strlit(" p99=None ");
    reveal_strlit(" p99.9=None ");
    reveal_strlit("None");
    let x0 = name;
    let x1 = x0 + ": n="@;
    let t2 = text::decimal(s.n as nat);
    let x2 = x1 + t2;
    let x3 = x2 + " invalid="@;
    let t4 = text::decimal(s.invalid as nat);
    let x4 = x3 + t4;
    let x5 = x4 + " over_budget="@;
    let t6 = text::decimal(s.over_budget as nat);
    let x6 = x5 + t6;
    let x7 = x6 + " mean_ns="@;
    let t8 = mean_text(s);
    let x8 = x7 + t8;
    let x9 = x8 + " max_ns="@;
    let t10 = text::decimal(s.max_ns as nat);
    let x10 = x9 + t10;
    let x11 = x10 + " p50="@;
    let t12 = optional_pair_text(s.quantile(1, 2));
    let x12 = x11 + t12;
    let x13 = x12 + " p90="@;
    let t14 = optional_pair_text(s.quantile(9, 10));
    let x14 = x13 + t14;
    let x15 = x14 + " p99="@;
    let t16 = quantile_text(s, 99, 100, P99_SUPPORT);
    let x16 = x15 + t16;
    let x17 = x16 + " p99.9="@;
    let t18 = quantile_text(s, 999, 1000, P999_SUPPORT);
    let x18 = x17 + t18;
    let x19 = x18 + " tail_quality="@;
    let t20 = tail_text(s);
    let x20 = x19 + t20;
    assert(line == x20);
    assert(line.subrange(0, line.len() as int) =~= line);
    shorter_start(line, x19, t20);
    shorter_start(line, x18, " tail_quality="@);
    shorter_start(line, x17, t18);
    shorter_start(line, x16, " p99.9="@);
    shorter_start(line, x15, t16);
    shorter_start(line, x14, " p99="@);
    shorter_start(line, x13, t14);
    shorter_start(line, x12, " p90="@);
    shorter_start(line, x11, t12);
    shorter_start(line, x10, " p50="@);
    shorter_start(line, x9, t10);
    shorter_start(line, x8, " max_ns="@);
    shorter_start(line, x7, t8);
    shorter_start(line, x6, " mean_ns="@);
    shorter_start(line, x5, t6);
    shorter_start(line, x4, " over_budget="@);
    shorter_start(line, x3, t4);
    shorter_start(line, x2, " invalid="@);
    shorter_start(line, x1, t2);
    shorter_start(line, x0, ": n="@);
    labelled_part(line, x0, ": n="@, t2, " invalid="@);
    labelled_part(line, x2, " invalid="@, t4, " over_budget="@);
    labelled_part(line, x4, " over_budget="@, t6, " mean_ns="@);
    labelled_part(line, x6, " mean_ns="@, t8, " max_ns="@);
    labelled_part(line, x8, " max_ns="@, t10, " p50="@);
    labelled_part(line, x10, " p50="@, t12, " p90="@);
    labelled_part(line, x12, " p90="@, t14, " p99="@);
    labelled_part(line, x14, " p99="@, t16, " p99.9="@);
    labelled_part(line, x16, " p99.9="@, t18, " tail_quality="@);
    assert(" p99=None "@ =~= " p99="@ + "None"@ + " "@);
    assert(" p99.9=None "@ =~= " p99.9="@ + "None"@ + " "@);
}

/// The text starts with this.
spec fn starts_with(line: Seq<char>, start: Seq<char>) -> bool {
    start.len() <= line.len() && line.subrange(0, start.len() as int) == start
}

proof fn shorter_start(line: Seq<char>, start: Seq<char>, more: Seq<char>)
    requires
        starts_with(line, start + more),
    ensures
        starts_with(line, start),
{
    let all = start + more;
    assert(line.subrange(0, start.len() as int) =~= line.subrange(0, all.len() as int).subrange(
        0,
        start.len() as int,
    ));
    assert(all.subrange(0, start.len() as int) =~= start);
}

proof fn labelled_part(
    line: Seq<char>,
    start: Seq<char>,
    label: Seq<char>,
    value: Seq<char>,
    next: Seq<char>,
)
    requires
        starts_with(line, start + label + value + next),
        next.len() > 0,
        next[0] == ' ',
    ensures
        text::has_part(line, label + value + " "@),
{
    reveal_strlit(" ");
    let all = start + label + value + next;
    let part = label + value + " "@;
    let at = start.len() as int;
    let head = line.subrange(0, all.len() as int);
    assert(line.subrange(at, at + part.len()) =~= part) by {
        assert forall|i: int| 0 <= i < part.len() implies line.subrange(at, at + part.len())[i]
            == part[i] by {
            assert(head[at + i] == line[at + i]);
            assert(all[at + i] == part[i]);
        }
    }
    assert(text::part_at(line, part, at));
}

/// What an incident is blamed on stands in its line by name.
pub proof fn causes_are_reported(causes: Set<Cause>, count: nat, cause: Cause)
    requires
        cause.position() < count <= CAUSES,
        causes.contains(cause),
    ensures
        text::has_part(cause_list(causes, count), "\""@ + cause.spelling() + "\""@),
    decreases count,
{
    places_give_names(Count::Connections, Measure::HostAckSubmission, cause);
    let part = "\""@ + cause.spelling() + "\""@;
    let front = cause_list(causes, (count - 1) as nat);
    let all = cause_list(causes, count);
    if cause.position() == count - 1 {
        let at = all.len() - part.len();
        reveal_strlit(", \"");
        reveal_strlit("\"");
        assert(all.subrange(at, all.len() as int) =~= part);
        assert(text::part_at(all, part, at));
    } else {
        causes_are_reported(causes, (count - 1) as nat, cause);
        let at = choose|at: int| text::part_at(front, part, at);
        assert(all.subrange(at, at + part.len()) =~= front.subrange(at, at + part.len()));
        assert(text::part_at(all, part, at));
    }
}

/// Every incident is reported, in order, on two lines: what it was, and which frames it
/// affected.
pub proof fn incidents_are_reported(incidents: Seq<IncidentView>, count: nat, at: int)
    requires
        count <= incidents.len(),
        0 <= at < count,
    ensures
        incident_lines(incidents, count).len() == 2 * count,
        incident_lines(incidents, count)[2 * at] == incident_line(incidents[at]),
        incident_lines(incidents, count)[2 * at + 1] == affected_line(incidents[at]),
    decreases count,
{
    reveal_with_fuel(incident_lines, 2);
    if count > 1 {
        incidents_are_reported(
            incidents,
            (count - 1) as nat,
            if at < count - 1 {
                at
            } else {
                0
            },
        );
    }
}

/// A mean is the sum of the samples over their number, rounded down, and there is none without
/// a sample; the tail is called supported from ten thousand samples on.
pub proof fn means_are_rounded_down(series: SeriesView, mean: nat)
    ensures
        series.n > 0 && mean * series.n <= series.sum_ns && series.sum_ns < (mean + 1) * series.n
            ==> mean_text(series) == text::decimal(mean),
        series.n == 0 ==> mean_text(series) == "unavailable"@,
        series.n < 10_000 ==> tail_text(series)
            == "insufficient tail support; max/exceed counts still apply"@,
        series.n >= 10_000 ==> tail_text(series)
            == "tail ranks available; not independent samples or confidence intervals"@,
{
    if series.n > 0 && mean * series.n <= series.sum_ns && series.sum_ns < (mean + 1) * series.n {
        let sum = series.sum_ns as int;
        let n = series.n as int;
        assert(sum / n == mean) by (nonlinear_arith)
            requires
                n > 0,
                mean * n <= sum,
                sum < (mean + 1) * n,
        ;
    }
}

} // verus!
