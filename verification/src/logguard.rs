//! A bounded buffer of the daemon's log lines, dumped when a circuit is
//! closed.
//!
//! Times are milliseconds since the Unix epoch.

use crate::text::opt_str_view;
use crate::clock::now_millis;
use crate::config::{LogLevel, LogguardConfig};
use crate::text::{concat, decimal, spec_decimal};
use std::collections::VecDeque;
use vstd::prelude::*;

verus! {

/// What `chrono` writes for the time `millis` milliseconds after the Unix
/// epoch, in UTC and in the form of `Thu Jan  1 00:00:00 1970`; `None`
/// where `chrono` cannot represent the time.
pub uninterp spec fn formatted_time(millis: i64) -> Option<Seq<char>>;

/// Makes a UTC time of `millis` with `chrono`'s
/// `DateTime::from_timestamp_millis`, which refuses what lies outside its
/// range, and writes it with `DateTime::format` under the pattern
/// `%a %b %e %H:%M:%S %Y`. The text depends on `millis` alone and is the
/// named result `formatted_time`.
#[verifier::external_body]
fn chrono_format(millis: i64) -> (r: Option<String>)
    ensures
        match r {
            Some(s) => formatted_time(millis) == Some(s@),
            None => formatted_time(millis) is None,
        },
{
    match chrono::DateTime::from_timestamp_millis(millis) {
        Some(dt) => Some(dt.format("%a %b %e %H:%M:%S %Y").to_string()),
        None => None,
    }
}

/// `n` in three decimal digits, for `n` below 1000.
pub open spec fn three_digits(n: nat) -> Seq<char> {
    if n < 10 {
        "00"@ + spec_decimal(n)
    } else if n < 100 {
        "0"@ + spec_decimal(n)
    } else {
        spec_decimal(n)
    }
}

/// The text for the time `millis`: what `chrono` writes for it, and the
/// seconds with three decimals where `chrono` cannot represent it.
pub open spec fn time_text(millis: u64) -> Seq<char> {
    if millis <= i64::MAX && formatted_time(millis as i64) is Some {
        formatted_time(millis as i64)->0
    } else {
        spec_decimal((millis / 1000) as nat) + "."@ + three_digits((millis % 1000) as nat)
    }
}

/// The text for the time `millis`.
pub fn format_timestamp(millis: u64) -> (r: String)
    ensures
        r@ == time_text(millis),
{
    if millis <= 0x7fff_ffff_ffff_ffff {
        if let Some(s) = chrono_format(millis as i64) {
            return s;
        }
    }
    let secs = decimal(millis / 1000);
    let frac = millis % 1000;
    let pad: &str = if frac < 10 {
        "00"
    } else if frac < 100 {
        "0"
    } else {
        ""
    };
    proof {
        reveal_strlit("");
        assert(""@ + spec_decimal(frac as nat) =~= spec_decimal(frac as nat));
    }
    let tail = concat(pad, decimal(frac).as_str());
    let head = concat(secs.as_str(), ".");
    concat(head.as_str(), tail.as_str())
}

/// A log line of the daemon.
#[derive(Debug, Clone)]
pub struct LogEntry {
    /// The severity that the daemon gave the line.
    pub runlevel: String,
    /// The text of the line.
    pub message: String,
    /// When the line arrived.
    pub arrived_at: u64,
}

/// The mathematical content of a [`LogEntry`].
pub ghost struct EntryView {
    pub runlevel: Seq<char>,
    pub message: Seq<char>,
    pub arrived_at: u64,
}

impl View for LogEntry {
    type V = EntryView;

    open spec fn view(&self) -> EntryView {
        EntryView { runlevel: self.runlevel@, message: self.message@, arrived_at: self.arrived_at }
    }
}

impl EntryView {
    /// The line as it is shown: severity, time in brackets, text.
    pub open spec fn formatted(self) -> Seq<char> {
        "TOR_"@ + self.runlevel + "["@ + time_text(self.arrived_at) + "]: "@ + self.message
    }
}

/// The views of the entries of `buffer`.
pub open spec fn entry_views(buffer: Seq<LogEntry>) -> Seq<EntryView> {
    Seq::new(buffer.len(), |i: int| buffer[i]@)
}

/// The last `limit` elements of `entries`.
pub open spec fn last_n(entries: Seq<EntryView>, limit: usize) -> Seq<EntryView> {
    if entries.len() > limit {
        entries.skip(entries.len() - limit)
    } else {
        entries
    }
}

/// The buffer after a line was added: the line goes to the end, and the
/// oldest lines beyond `limit` are dropped.
pub open spec fn with_entry(
    entries: Seq<EntryView>,
    runlevel: Seq<char>,
    message: Seq<char>,
    arrived_at: u64,
    limit: usize,
) -> Seq<EntryView> {
    last_n(entries.push(EntryView { runlevel, message, arrived_at }), limit)
}

/// The lines that a dump of `entries` writes for circuit `circ_id`: for
/// each entry, in order, the moment `when`, the circuit and the entry as it
/// is shown.
pub open spec fn dump_lines(entries: Seq<EntryView>, circ_id: Seq<char>, when: Seq<char>) -> Seq<
    Seq<char>,
> {
    Seq::new(
        entries.len(),
        |i: int| when + "-close CIRC ID="@ + circ_id + " Tor log: "@ + entries[i].formatted(),
    )
}

impl LogEntry {
    /// A line that arrived at `arrived_at`.
    pub fn with_timestamp(runlevel: &str, message: &str, arrived_at: u64) -> (r: Self)
        ensures
            r@ == (EntryView { runlevel: runlevel@, message: message@, arrived_at }),
    {
        LogEntry {
            runlevel: String::from_str(runlevel),
            message: String::from_str(message),
            arrived_at,
        }
    }

    /// A line that arrived now, by the system clock.
    pub fn new(runlevel: &str, message: &str) -> (r: Self)
        ensures
            r@ == (EntryView { runlevel: runlevel@, message: message@, arrived_at: r.arrived_at }),
    {
        let now = now_millis();
        LogEntry::with_timestamp(runlevel, message, now)
    }

    /// The line as it is shown.
    pub fn format(&self) -> (r: String)
        ensures
            r@ == self@.formatted(),
    {
        let time = format_timestamp(self.arrived_at);
        let a = concat("TOR_", self.runlevel.as_str());
        let b = concat(a.as_str(), "[");
        let c = concat(b.as_str(), time.as_str());
        let d = concat(c.as_str(), "]: ");
        concat(d.as_str(), self.message.as_str())
    }
}

/// The buffer of log lines.
#[derive(Debug, Clone)]
pub struct LogGuard {
    /// The lines, oldest first.
    pub log_buffer: VecDeque<LogEntry>,
    /// Least severity of the lines kept.
    pub log_level: LogLevel,
    /// Most lines kept.
    pub log_limit: usize,
}

/// The names of the daemon's log events from `dump_level` up, least
/// severe first.
pub open spec fn spec_log_event_types(dump_level: LogLevel) -> Seq<Seq<char>> {
    seq!["DEBUG"@, "INFO"@, "NOTICE"@, "WARN"@, "ERR"@].skip(dump_level.spec_rank() as int)
}

/// The views of string slices.
pub open spec fn str_views(v: Seq<&'static str>) -> Seq<Seq<char>> {
    Seq::new(v.len(), |i: int| v[i]@)
}

impl LogGuard {
    /// An empty buffer with the level and the limit of `config`.
    pub fn new(config: &LogguardConfig) -> (r: Self)
        ensures
            r.log_buffer@ == Seq::<LogEntry>::empty(),
            r.log_level == config.dump_level,
            r.log_limit == config.dump_limit,
    {
        LogGuard {
            log_buffer: VecDeque::new(),
            log_level: config.dump_level,
            log_limit: config.dump_limit,
        }
    }

    /// Adds a line that arrived at `arrived_at` and drops the oldest lines
    /// beyond the limit.
    pub fn log_event_with_timestamp(&mut self, runlevel: &str, message: &str, arrived_at: u64)
        ensures
            entry_views(final(self).log_buffer@) == with_entry(
                entry_views(old(self).log_buffer@),
                runlevel@,
                message@,
                arrived_at,
                old(self).log_limit,
            ),
            final(self).log_level == old(self).log_level,
            final(self).log_limit == old(self).log_limit,
    {
        let entry = LogEntry::with_timestamp(runlevel, message, arrived_at);
        let ghost before = entry_views(self.log_buffer@);
        self.log_buffer.push_back(entry);
        let ghost full = entry_views(self.log_buffer@);
        proof {
            assert(full =~= before.push(
                EntryView { runlevel: runlevel@, message: message@, arrived_at },
            ));
            assert(full.skip(0) =~= full);
        }
        while self.log_buffer.len() > self.log_limit
            invariant
                self.log_limit == old(self).log_limit,
                self.log_level == old(self).log_level,
                self.log_buffer@.len() <= full.len(),
                self.log_buffer@.len() >= self.log_limit || self.log_buffer@.len() == full.len(),
                full == entry_views(old(self).log_buffer@).push(
                    EntryView { runlevel: runlevel@, message: message@, arrived_at },
                ),
                entry_views(self.log_buffer@) == full.skip(full.len() - self.log_buffer@.len()),
            decreases self.log_buffer@.len(),
        {
            let ghost prev = self.log_buffer@;
            self.log_buffer.pop_front();
            proof {
                assert(self.log_buffer@ =~= prev.skip(1));
                let now = entry_views(self.log_buffer@);
                let want = full.skip(full.len() - self.log_buffer@.len());
                let off = full.len() - prev.len();
                assert(entry_views(prev).len() == prev.len());
                assert(now.len() == want.len());
                assert forall|i: int| 0 <= i < now.len() implies now[i] == want[i] by {
                    assert(now[i] == prev[i + 1]@);
                    assert(entry_views(prev)[i + 1] == prev[i + 1]@);
                    assert(full.skip(off)[i + 1] == full[off + i + 1]);
                }
                assert(now =~= want);
            }
        }
    }

    /// Adds a line that arrived now, by the system clock.
    pub fn log_event(&mut self, runlevel: &str, message: &str)
        ensures
            exists|now: u64|
                entry_views(final(self).log_buffer@) == #[trigger] with_entry(
                    entry_views(old(self).log_buffer@),
                    runlevel@,
                    message@,
                    now,
                    old(self).log_limit,
                ),
            final(self).log_level == old(self).log_level,
            final(self).log_limit == old(self).log_limit,
    {
        let now = now_millis();
        self.log_event_with_timestamp(runlevel, message, now);
    }

    /// The notice that passes on a warning of the daemon.
    pub fn log_warn_event(&self, message: &str) -> (r: String)
        ensures
            r@ == "Tor log warn: "@ + message@,
    {
        concat("Tor log warn: ", message)
    }

    /// Empties the buffer and hands back one line for each entry, oldest
    /// first, as `dump_lines` says.
    pub fn dump_log_queue(&mut self, circ_id: &str, when: &str) -> (r: Vec<String>)
        ensures
            crate::text::string_views(r@) == dump_lines(
                entry_views(old(self).log_buffer@),
                circ_id@,
                when@,
            ),
            final(self).log_buffer@ == Seq::<LogEntry>::empty(),
            final(self).log_level == old(self).log_level,
            final(self).log_limit == old(self).log_limit,
    {
        let mut out: Vec<String> = Vec::new();
        let ghost all = entry_views(self.log_buffer@);
        let ghost want = dump_lines(all, circ_id@, when@);
        proof {
            assert(all.skip(0) =~= all);
        }
        loop
            invariant_except_break
                crate::text::string_views(out@) == want.take(out@.len() as int),
                entry_views(self.log_buffer@) == all.skip(out@.len() as int),
            invariant
                want == dump_lines(all, circ_id@, when@),
                out@.len() <= all.len(),
                self.log_limit == old(self).log_limit,
                self.log_level == old(self).log_level,
            ensures
                crate::text::string_views(out@) == want,
                self.log_buffer@ == Seq::<LogEntry>::empty(),
            decreases self.log_buffer@.len(),
        {
            let ghost prev = self.log_buffer@;
            let ghost done = out@.len() as int;
            match self.log_buffer.pop_front() {
                Some(entry) => {
                    proof {
                        assert(entry_views(prev).len() == prev.len());
                        assert(all.skip(done).len() == prev.len());
                        assert(done < all.len());
                        assert(entry_views(prev)[0] == entry@);
                        assert(all.skip(done)[0] == all[done]);
                    }
                    let a = concat(when, "-close CIRC ID=");
                    let b = concat(a.as_str(), circ_id);
                    let c = concat(b.as_str(), " Tor log: ");
                    let line = concat(c.as_str(), entry.format().as_str());
                    let ghost before = crate::text::string_views(out@);
                    out.push(line);
                    proof {
                        assert(self.log_buffer@ =~= prev.skip(1));
                        let now = entry_views(self.log_buffer@);
                        assert(now.len() == all.skip(done + 1).len());
                        assert forall|i: int| 0 <= i < now.len() implies now[i] == all.skip(
                            done + 1,
                        )[i] by {
                            assert(now[i] == prev[i + 1]@);
                            assert(entry_views(prev)[i + 1] == prev[i + 1]@);
                            assert(all.skip(done)[i + 1] == all[done + i + 1]);
                        }
                        assert(now =~= all.skip(done + 1));
                        assert(line@ == want[done]);
                        assert(crate::text::string_views(out@) =~= before.push(want[done]));
                        assert(want.take(done + 1) =~= want.take(done).push(want[done]));
                    }
                },
                None => {
                    proof {
                        assert(all.skip(done).len() == 0);
                        assert(want.take(done) =~= want);
                        assert(self.log_buffer@ =~= Seq::<LogEntry>::empty());
                    }
                    break ;
                },
            }
        }
        out
    }

    /// Takes in a circuit event: where a circuit closed or failed at the
    /// monitor's request, the buffer is dumped for it.
    pub fn circ_event(&mut self, circ_id: &str, status: &str, reason: Option<&str>) -> (r: Vec<
        String,
    >)
        ensures
            ({
                let dumps = (status@ == "CLOSED"@ || status@ == "FAILED"@) && opt_str_view(reason)
                    == Some("REQUESTED"@);
                &&& crate::text::string_views(r@) == (if dumps {
                    dump_lines(entry_views(old(self).log_buffer@), circ_id@, "Post"@)
                } else {
                    Seq::<Seq<char>>::empty()
                })
                &&& entry_views(final(self).log_buffer@) == (if dumps {
                    Seq::<EntryView>::empty()
                } else {
                    entry_views(old(self).log_buffer@)
                })
            }),
            final(self).log_level == old(self).log_level,
            final(self).log_limit == old(self).log_limit,
    {
        let requested = match reason {
            Some(r) => r.eq("REQUESTED"),
            None => false,
        };
        if (status.eq("CLOSED") || status.eq("FAILED")) && requested {
            let lines = self.dump_log_queue(circ_id, "Post");
            proof {
                assert(entry_views(self.log_buffer@) =~= Seq::<EntryView>::empty());
            }
            lines
        } else {
            let out: Vec<String> = Vec::new();
            proof {
                assert(crate::text::string_views(out@) =~= Seq::<Seq<char>>::empty());
            }
            out
        }
    }

    /// Number of lines in the buffer.
    pub fn buffer_len(&self) -> (n: usize)
        ensures
            n == self.log_buffer@.len(),
    {
        self.log_buffer.len()
    }

    /// Empties the buffer.
    pub fn clear(&mut self)
        ensures
            final(self).log_buffer@ == Seq::<LogEntry>::empty(),
            final(self).log_level == old(self).log_level,
            final(self).log_limit == old(self).log_limit,
    {
        self.log_buffer.clear();
    }

    /// The names of the daemon's log events from `dump_level` up, least
    /// severe first.
    pub fn get_log_event_types(dump_level: LogLevel) -> (r: Vec<&'static str>)
        ensures
            str_views(r@) == spec_log_event_types(dump_level),
    {
        let mut events: Vec<&'static str> = Vec::new();
        let rank = dump_level.rank();
        if rank <= 0 {
            events.push("DEBUG");
        }
        if rank <= 1 {
            events.push("INFO");
        }
        if rank <= 2 {
            events.push("NOTICE");
        }
        if rank <= 3 {
            events.push("WARN");
        }
        events.push("ERR");
        proof {
            assert(str_views(events@) =~= spec_log_event_types(dump_level));
        }
        events
    }
}

} // verus!
