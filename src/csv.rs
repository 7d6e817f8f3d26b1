//! The CSV form of evicted steps.
//!
//! A header row, then one row per evicted step in chronological order:
//! `time,tx_packets,rx_packets,rx_packets_sent_here,total_latency_sent_here`.
//! The output is flushed at least once per wall-clock second.

use vstd::prelude::*;

use crate::stats::Stats;

verus! {

/// Milliseconds between two flushes of the output.
pub const FLUSH_INTERVAL_MS: u64 = 1000;

/// The decimal digits of `n`, as ASCII bytes.
pub open spec fn decimal(n: nat) -> Seq<u8>
    decreases n,
{
    if n < 10 {
        seq![(48 + n) as u8]
    } else {
        decimal(n / 10) + seq![(48 + n % 10) as u8]
    }
}

/// The CSV row of the step that starts at `time`.
pub open spec fn csv_row(time: u64, s: Stats) -> Seq<u8> {
    decimal(time as nat) + seq![44u8] + decimal(s.tx_packets as nat) + seq![44u8] + decimal(
        s.rx_packets as nat,
    ) + seq![44u8] + decimal(s.rx_packets_sent_here as nat) + seq![44u8] + decimal(
        s.total_latency_sent_here as nat,
    ) + seq![10u8]
}

/// Appends the decimal digits of `n` to `out`.
fn push_decimal(out: &mut Vec<u8>, n: u64)
    ensures
        final(out)@ == old(out)@ + decimal(n as nat),
    decreases n,
{
    if n >= 10 {
        push_decimal(out, n / 10);
    }
    out.push(48u8 + (n % 10) as u8);
    assert(out@ =~= old(out)@ + decimal(n as nat));
}

/// The header row.
pub fn csv_header() -> (r: String)
    ensures
        r@ == "time,tx_packets,rx_packets,rx_packets_sent_here,total_latency_sent_here\n"@,
{
    "time,tx_packets,rx_packets,rx_packets_sent_here,total_latency_sent_here\n".to_owned()
}

/// Appends the CSV row of the step that starts at `time` to `out`.
pub fn push_csv_row(out: &mut Vec<u8>, time: u64, s: &Stats)
    ensures
        final(out)@ == old(out)@ + csv_row(time, *s),
{
    push_decimal(out, time);
    out.push(44u8);
    push_decimal(out, s.tx_packets);
    out.push(44u8);
    push_decimal(out, s.rx_packets);
    out.push(44u8);
    push_decimal(out, s.rx_packets_sent_here);
    out.push(44u8);
    push_decimal(out, s.total_latency_sent_here);
    out.push(10u8);
    assert(out@ =~= old(out)@ + csv_row(time, *s));
}

/// Writes evicted steps as CSV rows, and says when the output is due for a flush.
pub struct CsvStatsWriter {
    /// Time of the last flush, in milliseconds.
    last_flush_ms: u64,
}

impl CsvStatsWriter {
    pub closed spec fn spec_last_flush(&self) -> u64 {
        self.last_flush_ms
    }

    /// Appends the row of the step that starts at `time` to `out`. Returns
    /// whether to flush now, at `now_ms`: when more than a second has passed
    /// since the last flush, which is then counted from `now_ms`.
    pub fn write(&mut self, out: &mut Vec<u8>, time: u64, stat: &Stats, now_ms: u64) -> (flush: bool)
        ensures
            final(out)@ == old(out)@ + csv_row(time, *stat),
            flush == (now_ms > old(self).spec_last_flush() + FLUSH_INTERVAL_MS),
            flush ==> final(self).spec_last_flush() == now_ms,
            !flush ==> final(self).spec_last_flush() == old(self).spec_last_flush(),
    {
        push_csv_row(out, time, stat);
        if now_ms > self.last_flush_ms && now_ms - self.last_flush_ms > FLUSH_INTERVAL_MS {
            self.last_flush_ms = now_ms;
            true
        } else {
            false
        }
    }
}

/// A writer whose output starts at `now_ms`, with the header row to write first.
pub fn get_writer(now_ms: u64) -> (r: (CsvStatsWriter, String))
    ensures
        r.0.spec_last_flush() == now_ms,
        r.1@ == "time,tx_packets,rx_packets,rx_packets_sent_here,total_latency_sent_here\n"@,
{
    (CsvStatsWriter { last_flush_ms: now_ms }, csv_header())
}

/// The row `start_ms,end_ms,count` of the packet generator's counts.
pub open spec fn count_row(start_ms: u64, end_ms: u64, count: u64) -> Seq<u8> {
    decimal(start_ms as nat) + seq![44u8] + decimal(end_ms as nat) + seq![44u8] + decimal(
        count as nat,
    ) + seq![10u8]
}

/// The header row of the packet generator's counts.
pub fn count_rows_header() -> (r: String)
    ensures
        r@ == "start_ms,end_ms,count\n"@,
{
    "start_ms,end_ms,count\n".to_owned()
}

/// Appends the row of a step of the packet generator's counts to `out`.
pub fn push_count_row(out: &mut Vec<u8>, start_ms: u64, end_ms: u64, count: u64)
    ensures
        final(out)@ == old(out)@ + count_row(start_ms, end_ms, count),
{
    push_decimal(out, start_ms);
    out.push(44u8);
    push_decimal(out, end_ms);
    out.push(44u8);
    push_decimal(out, count);
    out.push(10u8);
    assert(out@ =~= old(out)@ + count_row(start_ms, end_ms, count));
}

} // verus!
