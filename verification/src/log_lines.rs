//! Lines of several logs, in order of time, read batch by batch.
use std::collections::VecDeque;
use vstd::multiset::Multiset;
use vstd::prelude::*;
use vstd::seq_lib::*;
use vstd::utf8::*;
use crate::cursor::BatchLimits;
use crate::number::{lemma_signed_reads_back_wide, parse_i64, read_i64, signed_decimal};
use crate::text::{lemma_span_unique, opt_view, same, split_once, split_once_at};

verus! {

/// A line of the log of a service.
#[derive(Debug)]
pub struct LogLine {
    pub timestamp: i64,
    pub service: String,
    pub line: String,
}

/// The time and the text of a line as it stands in a log file: the time, a tab, and the text.
pub open spec fn read_entry(text: Seq<char>) -> Option<(int, Seq<char>)> {
    match split_once_at(text, '\t') {
        Some((time, line)) => match read_i64(time) {
            Some(t) => Some((t, line)),
            None => None,
        },
        None => None,
    }
}

/// A line as it stands in the log file of a service.
pub fn parse_entry(service: &str, text: &str) -> (r: Option<LogLine>)
    ensures
        match r {
            Some(l) => l.service@ == service@ && read_entry(text@) == Some(
                (l.timestamp as int, l.line@),
            ),
            None => read_entry(text@) is None,
        },
{
    match split_once(text, '\t') {
        Some((time, line)) => match parse_i64(time.as_str()) {
            Some(timestamp) => Some(LogLine { timestamp, service: service.to_owned(), line }),
            None => None,
        },
        None => None,
    }
}

/// The service that a log file belongs to, by the name of the file: the service, the stream and
/// `log`, with dots between them.
pub open spec fn file_service(name: Seq<char>) -> Option<Seq<char>> {
    match split_once_at(name, '.') {
        Some((service, rest)) => match split_once_at(rest, '.') {
            Some((_, end)) => if end == "log"@ {
                Some(service)
            } else {
                None
            },
            None => None,
        },
        None => None,
    }
}

/// The service that a log file belongs to, by the name of the file.
pub fn service_of_file(name: &str) -> (r: Option<String>)
    ensures
        opt_view(r) == file_service(name@),
{
    match split_once(name, '.') {
        Some((service, rest)) => match split_once(rest.as_str(), '.') {
            Some((_, end)) => if same(end.as_str(), "log") {
                Some(service)
            } else {
                None
            },
            None => None,
        },
        None => None,
    }
}

/// The size that a line is taken to have: that of its service and its text, and some more.
pub open spec fn line_size(l: LogLine) -> int {
    20 + (encode_utf8(l.service@).len() as usize) + (encode_utf8(l.line@).len() as usize)
}

/// The size of the first `n` lines.
pub open spec fn sizes(lines: Seq<LogLine>, n: nat) -> int
    decreases n,
{
    if n == 0 {
        0
    } else {
        sizes(lines, (n - 1) as nat) + line_size(lines[n - 1])
    }
}

/// Whether the line after the first `n` goes into the same batch: the first always does; any
/// other if the size stays below the budget and the number below the limit.
pub open spec fn goes_in(lines: Seq<LogLine>, limits: BatchLimits, n: nat) -> bool {
    n == 0 || (sizes(lines, n) + line_size(lines[n as int]) < limits.budget() && n
        < limits.max_entries)
}

/// Whether the first `n` lines are the next batch: as many as go in.
pub open spec fn is_batch(lines: Seq<LogLine>, limits: BatchLimits, n: nat) -> bool {
    &&& n <= lines.len()
    &&& forall|k: nat| k < n ==> #[trigger] goes_in(lines, limits, k)
    &&& n < lines.len() ==> !goes_in(lines, limits, n)
}

/// The log whose next line is the earliest, among the first `n`; of equal ones the first.
pub open spec fn earliest(logs: Seq<Seq<LogLine>>, n: nat) -> Option<int>
    decreases n,
{
    if n == 0 {
        None
    } else {
        let k = n - 1;
        match earliest(logs, (n - 1) as nat) {
            None => if logs[k].len() > 0 {
                Some(k)
            } else {
                None
            },
            Some(b) => if logs[k].len() > 0 && logs[k][0].timestamp < logs[b][0].timestamp {
                Some(k)
            } else {
                Some(b)
            },
        }
    }
}

/// How many lines the first `n` logs hold.
pub open spec fn line_count(logs: Seq<Seq<LogLine>>, n: nat) -> nat
    decreases n,
{
    if n == 0 {
        0
    } else {
        line_count(logs, (n - 1) as nat) + logs[n - 1].len()
    }
}

/// The logs without the next line of one of them.
pub open spec fn without_next(logs: Seq<Seq<LogLine>>, k: int) -> Seq<Seq<LogLine>> {
    logs.update(k, logs[k].skip(1))
}

/// The first `n` lines of all logs, the earliest next line first.
pub open spec fn merged(logs: Seq<Seq<LogLine>>, n: nat) -> Seq<LogLine>
    decreases n,
{
    if n == 0 {
        seq![]
    } else {
        match earliest(logs, logs.len()) {
            None => seq![],
            Some(k) => seq![logs[k][0]] + merged(without_next(logs, k), (n - 1) as nat),
        }
    }
}

/// The lines of all logs, the earliest next line first.
pub open spec fn all_lines(logs: Seq<Seq<LogLine>>) -> Seq<LogLine> {
    merged(logs, line_count(logs, logs.len()))
}

/// The lines that the first `n` logs hold, however often each.
pub open spec fn held_lines(logs: Seq<Seq<LogLine>>, n: nat) -> Multiset<LogLine>
    decreases n,
{
    if n == 0 {
        Multiset::empty()
    } else {
        held_lines(logs, (n - 1) as nat).add(logs[n - 1].to_multiset())
    }
}

/// Whether lines come by time.
pub open spec fn by_time(lines: Seq<LogLine>) -> bool {
    forall|i: int, j: int|
        0 <= i < j < lines.len() ==> (#[trigger] lines[i]).timestamp <= (
        #[trigger] lines[j]).timestamp
}

proof fn lemma_earliest(logs: Seq<Seq<LogLine>>, n: nat)
    requires
        n <= logs.len(),
    ensures
        match earliest(logs, n) {
            None => forall|i: int| 0 <= i < n ==> (#[trigger] logs[i]).len() == 0,
            Some(k) => 0 <= k < n && logs[k].len() > 0 && forall|i: int|
                0 <= i < n && (#[trigger] logs[i]).len() > 0 ==> logs[k][0].timestamp
                    <= logs[i][0].timestamp,
        },
    decreases n,
{
    if n > 0 {
        lemma_earliest(logs, (n - 1) as nat);
    }
}

proof fn lemma_no_lines(logs: Seq<Seq<LogLine>>, n: nat)
    requires
        n <= logs.len(),
        forall|i: int| 0 <= i < n ==> (#[trigger] logs[i]).len() == 0,
    ensures
        line_count(logs, n) == 0,
        held_lines(logs, n) =~= Multiset::empty(),
    decreases n,
{
    if n > 0 {
        lemma_no_lines(logs, (n - 1) as nat);
        assert(logs[n - 1] =~= Seq::<LogLine>::empty());
        logs[n - 1].to_multiset_ensures();
        assert(logs[n - 1].to_multiset().len() == 0);
    }
}

/// Taking the next line of a log leaves one line less.
proof fn lemma_without_next(logs: Seq<Seq<LogLine>>, k: int, n: nat)
    requires
        0 <= k < logs.len(),
        n <= logs.len(),
        logs[k].len() > 0,
    ensures
        line_count(without_next(logs, k), n) == line_count(logs, n) - (if k < n {
            1int
        } else {
            0int
        }),
        held_lines(logs, n) =~= if k < n {
            Multiset::singleton(logs[k][0]).add(held_lines(without_next(logs, k), n))
        } else {
            held_lines(without_next(logs, k), n)
        },
    decreases n,
{
    if n > 0 {
        lemma_without_next(logs, k, (n - 1) as nat);
        if k == n - 1 {
            let head = seq![logs[k][0]];
            assert(logs[k] =~= head + logs[k].skip(1));
            lemma_multiset_commutative(head, logs[k].skip(1));
            assert(head =~= Seq::<LogLine>::empty().push(logs[k][0]));
            Seq::<LogLine>::empty().to_multiset_ensures();
            assert(head.to_multiset() =~= Multiset::singleton(logs[k][0]));
        }
    }
}

/// The next line of all, and what comes after it.
proof fn lemma_next_line(logs: Seq<Seq<LogLine>>, k: int)
    requires
        earliest(logs, logs.len()) == Some(k),
    ensures
        0 <= k < logs.len(),
        logs[k].len() > 0,
        all_lines(logs) == seq![logs[k][0]] + all_lines(without_next(logs, k)),
{
    lemma_earliest(logs, logs.len());
    lemma_without_next(logs, k, logs.len());
}

proof fn lemma_nothing_left(logs: Seq<Seq<LogLine>>)
    requires
        earliest(logs, logs.len()) is None,
    ensures
        all_lines(logs) == Seq::<LogLine>::empty(),
{
    lemma_earliest(logs, logs.len());
    lemma_no_lines(logs, logs.len());
}

/// The lines of several logs that were not read yet.
pub struct LogQueue {
    logs: Vec<VecDeque<LogLine>>,
}

impl LogQueue {
    /// The lines of each log.
    pub closed spec fn logs(self) -> Seq<Seq<LogLine>> {
        self.logs@.map_values(|l: VecDeque<LogLine>| l@)
    }

    /// No logs.
    pub fn new() -> (r: Self)
        ensures
            r.logs() == Seq::<Seq<LogLine>>::empty(),
    {
        let r = LogQueue { logs: Vec::new() };
        assert(r.logs() =~= Seq::<Seq<LogLine>>::empty());
        r
    }

    /// How many logs there are.
    pub fn log_count(&self) -> (r: usize)
        ensures
            r == self.logs().len(),
    {
        self.logs.len()
    }

    /// Adds a log without lines.
    pub fn add_log(&mut self)
        ensures
            final(self).logs() == old(self).logs().push(seq![]),
    {
        let ghost before = self.logs();
        self.logs.push(VecDeque::new());
        assert(self.logs() =~= before.push(seq![]));
    }

    /// Adds a line to a log.
    pub fn add_line(&mut self, log: usize, line: LogLine)
        requires
            log < old(self).logs().len(),
        ensures
            final(self).logs() == old(self).logs().update(
                log as int,
                old(self).logs()[log as int].push(line),
            ),
    {
        let ghost before = self.logs();
        self.logs[log].push_back(line);
        assert(self.logs() =~= before.update(log as int, before[log as int].push(line)));
    }

    /// The log whose next line is the earliest.
    fn next_log(&self) -> (r: Option<usize>)
        ensures
            match r {
                Some(k) => earliest(self.logs(), self.logs().len()) == Some(k as int),
                None => earliest(self.logs(), self.logs().len()) is None,
            },
    {
        let ghost logs = self.logs();
        let mut best: Option<usize> = None;
        let n: usize = self.logs.len();
        let mut i: usize = 0;
        while i < n
            invariant
                i <= n,
                n == self.logs@.len(),
                logs == self.logs(),
                logs.len() == n,
                match best {
                    Some(k) => k < i && earliest(logs, i as nat) == Some(k as int)
                        && logs[k as int].len() > 0,
                    None => earliest(logs, i as nat) is None,
                },
            decreases n - i,
        {
            assert(logs[i as int] == self.logs@[i as int]@);
            if self.logs[i].len() > 0 {
                match best {
                    Some(k) => {
                        assert(logs[k as int] == self.logs@[k as int]@);
                        if self.logs[i][0].timestamp < self.logs[k][0].timestamp {
                            best = Some(i);
                        }
                    },
                    None => {
                        best = Some(i);
                    },
                }
            }
            i += 1;
        }
        best
    }

    /// Takes the next batch of lines, and tells whether there are more.
    pub fn read_batch(&mut self, limits: &BatchLimits) -> (r: (Vec<LogLine>, bool))
        ensures
            ({
                let all = all_lines(old(self).logs());
                let n = r.0@.len();
                &&& is_batch(all, *limits, n)
                &&& r.0@ == all.take(n as int)
                &&& all_lines(final(self).logs()) == all.skip(n as int)
                &&& r.1 == (n < all.len())
            }),
    {
        let ghost all = all_lines(self.logs());
        let budget: u128 = limits.response_budget() as u128;
        let mut out: Vec<LogLine> = Vec::new();
        let mut size: u128 = 0;
        assert(all.skip(0) =~= all);
        assert(out@ =~= all.take(0));
        loop
            invariant
                all == all_lines(old(self).logs()),
                budget == limits.budget(),
                budget <= usize::MAX,
                out@.len() <= all.len(),
                out@ == all.take(out@.len() as int),
                all_lines(self.logs()) == all.skip(out@.len() as int),
                size == sizes(all, out@.len()),
                size < budget + 3 * usize::MAX,
                out@.len() <= 1 || size < budget,
                forall|k: nat| k < out@.len() ==> #[trigger] goes_in(all, *limits, k),
            ensures
                is_batch(all, *limits, out@.len()),
                out@ == all.take(out@.len() as int),
                all_lines(self.logs()) == all.skip(out@.len() as int),
            decreases all.len() - out@.len(),
        {
            let ghost logs = self.logs();
            let ghost n = out@.len();
            let k: usize = match self.next_log() {
                Some(k) => k,
                None => {
                    proof {
                        lemma_nothing_left(logs);
                        assert(all.skip(n as int).len() == 0);
                    }
                    break;
                },
            };
            proof {
                lemma_next_line(logs, k as int);
                assert(all.skip(n as int).len() > 0);
                assert(all.skip(n as int)[0] == all[n as int]);
                assert(logs[k as int] == self.logs@[k as int]@);
            }
            let next: &LogLine = &self.logs[k][0];
            let one: u128 = 20 + next.service.as_str().len() as u128 + next.line.as_str().len()
                as u128;
            assert(*next == all[n as int]);
            assert(one == line_size(all[n as int]));
            if out.len() > 0 && (size + one >= budget || out.len() >= limits.max_entries) {
                assert(!goes_in(all, *limits, n));
                break;
            }
            assert(goes_in(all, *limits, n));
            if let Some(line) = self.logs[k].pop_front() {
                proof {
                    assert(line == all[n as int]);
                    assert(self.logs() =~= without_next(logs, k as int));
                    let rest = all_lines(without_next(logs, k as int));
                    assert(all.skip(n as int + 1) =~= all.skip(n as int).skip(1));
                    assert((seq![line] + rest).skip(1) =~= rest);
                    assert(all.take(n as int + 1) =~= all.take(n as int).push(line));
                }
                size = size + one;
                out.push(line);
            }
        }
        let more: bool = self.next_log().is_some();
        proof {
            let logs = self.logs();
            let n = out@.len() as int;
            if more {
                lemma_next_line(logs, earliest(logs, logs.len())->0);
                assert(all.skip(n).len() > 0);
            } else {
                lemma_nothing_left(logs);
                assert(all.skip(n).len() == 0);
            }
        }
        (out, more)
    }
}

/// Whether reading again and again until nothing is left, with no line added meanwhile, gives
/// these batches of these lines.
pub open spec fn read_in_turn(
    lines: Seq<LogLine>,
    limits: BatchLimits,
    batches: Seq<Seq<LogLine>>,
) -> bool
    decreases batches.len(),
{
    batches.len() > 0 && {
        let n = batches[0].len();
        &&& is_batch(lines, limits, n)
        &&& batches[0] == lines.take(n as int)
        &&& if n < lines.len() {
            read_in_turn(lines.skip(n as int), limits, batches.skip(1))
        } else {
            batches.len() == 1
        }
    }
}

/// Reading again and again until nothing is left gives every line once, in order: the batches,
/// joined, are the lines. No batch is larger than the limit, but for a single line, and none is
/// empty while there are lines.
pub proof fn law_batches_give_all_lines(
    lines: Seq<LogLine>,
    limits: BatchLimits,
    batches: Seq<Seq<LogLine>>,
)
    requires
        read_in_turn(lines, limits, batches),
    ensures
        batches.flatten() == lines,
        forall|i: int|
            0 <= i < batches.len() ==> (#[trigger] batches[i]).len() <= 1 || batches[i].len()
                <= limits.max_entries,
        lines.len() > 0 ==> forall|i: int|
            0 <= i < batches.len() ==> (#[trigger] batches[i]).len() > 0,
    decreases batches.len(),
{
    let n = batches[0].len();
    let rest = batches.drop_first();
    assert(rest =~= batches.skip(1));
    assert(n <= 1 || n <= limits.max_entries) by {
        if n > 1 && n > limits.max_entries {
            assert(goes_in(lines, limits, (n - 1) as nat));
        }
    }
    assert(lines.len() > 0 ==> n > 0) by {
        if n == 0 && lines.len() > 0 {
            assert(goes_in(lines, limits, 0));
        }
    }
    if n < lines.len() {
        law_batches_give_all_lines(lines.skip(n as int), limits, rest);
        assert(lines =~= lines.take(n as int) + lines.skip(n as int));
    } else {
        assert(rest =~= Seq::<Seq<LogLine>>::empty());
        assert(rest.flatten() =~= Seq::<LogLine>::empty());
        assert(lines.take(n as int) =~= lines);
    }
    assert(batches.flatten() == batches.first() + rest.flatten());
    assert forall|i: int| 0 <= i < batches.len() implies ((#[trigger] batches[i]).len() <= 1
        || batches[i].len() <= limits.max_entries) && (lines.len() > 0 ==> batches[i].len() > 0) by {
        if i > 0 {
            assert(batches[i] == rest[i - 1]);
        }
    }
}

/// The lines of all logs are those that each log holds, each as often.
pub proof fn law_every_line_once(logs: Seq<Seq<LogLine>>)
    ensures
        all_lines(logs).to_multiset() == held_lines(logs, logs.len()),
    decreases line_count(logs, logs.len()),
{
    lemma_earliest(logs, logs.len());
    match earliest(logs, logs.len()) {
        None => {
            lemma_nothing_left(logs);
            lemma_no_lines(logs, logs.len());
            all_lines(logs).to_multiset_ensures();
            assert(all_lines(logs).to_multiset() =~= Multiset::empty());
        },
        Some(k) => {
            let rest = without_next(logs, k);
            lemma_next_line(logs, k);
            lemma_without_next(logs, k, logs.len());
            law_every_line_once(rest);
            let head = seq![logs[k][0]];
            lemma_multiset_commutative(head, all_lines(rest));
            assert(head =~= Seq::<LogLine>::empty().push(logs[k][0]));
            Seq::<LogLine>::empty().to_multiset_ensures();
            assert(head.to_multiset() =~= Multiset::singleton(logs[k][0]));
            assert(all_lines(logs).to_multiset() =~= held_lines(logs, logs.len()));
        },
    }
}

/// Where the lines of each log come by time, those of all logs do.
pub proof fn law_lines_by_time(logs: Seq<Seq<LogLine>>)
    requires
        forall|k: int| 0 <= k < logs.len() ==> by_time(#[trigger] logs[k]),
    ensures
        by_time(all_lines(logs)),
    decreases line_count(logs, logs.len()),
{
    lemma_earliest(logs, logs.len());
    match earliest(logs, logs.len()) {
        None => {
            lemma_nothing_left(logs);
        },
        Some(k) => {
            let rest = without_next(logs, k);
            lemma_next_line(logs, k);
            lemma_without_next(logs, k, logs.len());
            let t = logs[k][0].timestamp;
            assert forall|i: int| 0 <= i < rest.len() implies by_time(#[trigger] rest[i]) && (
            forall|j: int| 0 <= j < rest[i].len() ==> t <= (#[trigger] rest[i][j]).timestamp) by {
                assert(by_time(logs[i]));
                assert forall|j: int| 0 <= j < rest[i].len() implies t <= (
                #[trigger] rest[i][j]).timestamp by {
                    if i == k {
                        assert(rest[i][j] == logs[k][j + 1]);
                    } else {
                        assert(logs[i].len() > 0);
                        if j > 0 {
                            assert(logs[i][0].timestamp <= logs[i][j].timestamp);
                        }
                    }
                }
                if i == k {
                    assert forall|a: int, b: int| 0 <= a < b < rest[i].len() implies (
                    #[trigger] rest[i][a]).timestamp <= (#[trigger] rest[i][b]).timestamp by {
                        assert(rest[i][a] == logs[k][a + 1]);
                        assert(rest[i][b] == logs[k][b + 1]);
                    }
                }
            }
            law_lines_by_time(rest);
            lemma_not_before(rest, t);
            let all = all_lines(logs);
            assert forall|i: int, j: int| 0 <= i < j < all.len() implies (
            #[trigger] all[i]).timestamp <= (#[trigger] all[j]).timestamp by {
                assert(all[j] == all_lines(rest)[j - 1]);
                if i > 0 {
                    assert(all[i] == all_lines(rest)[i - 1]);
                }
            }
        },
    }
}

/// Where no log holds a line from before a time, there is none among all lines.
proof fn lemma_not_before(logs: Seq<Seq<LogLine>>, t: i64)
    requires
        forall|i: int, j: int|
            0 <= i < logs.len() && 0 <= j < logs[i].len() ==> t <= (
            #[trigger] logs[i][j]).timestamp,
    ensures
        forall|i: int| 0 <= i < all_lines(logs).len() ==> t <= (#[trigger] all_lines(
            logs,
        )[i]).timestamp,
    decreases line_count(logs, logs.len()),
{
    lemma_earliest(logs, logs.len());
    match earliest(logs, logs.len()) {
        None => {
            lemma_nothing_left(logs);
        },
        Some(k) => {
            let rest = without_next(logs, k);
            lemma_next_line(logs, k);
            lemma_without_next(logs, k, logs.len());
            assert forall|i: int, j: int| 0 <= i < rest.len() && 0 <= j < rest[i].len() implies t
                <= (#[trigger] rest[i][j]).timestamp by {
                if i == k {
                    assert(rest[i][j] == logs[k][j + 1]);
                } else {
                    assert(rest[i][j] == logs[i][j]);
                }
            }
            lemma_not_before(rest, t);
            assert forall|i: int| 0 <= i < all_lines(logs).len() implies t <= (
            #[trigger] all_lines(logs)[i]).timestamp by {
                if i > 0 {
                    assert(all_lines(logs)[i] == all_lines(rest)[i - 1]);
                }
            }
        },
    }
}

/// Reading logs whose lines come by time again and again until nothing is left, with no line
/// added meanwhile, gives every line of every log once, by time.
pub proof fn law_reading_gives_every_line_once(
    logs: Seq<Seq<LogLine>>,
    limits: BatchLimits,
    batches: Seq<Seq<LogLine>>,
)
    requires
        forall|k: int| 0 <= k < logs.len() ==> by_time(#[trigger] logs[k]),
        read_in_turn(all_lines(logs), limits, batches),
    ensures
        batches.flatten().to_multiset() == held_lines(logs, logs.len()),
        by_time(batches.flatten()),
{
    law_batches_give_all_lines(all_lines(logs), limits, batches);
    law_every_line_once(logs);
    law_lines_by_time(logs);
}

/// A line in a log file is its time, a tab and its text, which may hold further tabs; what has no
/// tab is no line.
pub proof fn law_lines_in_log_files(
    service: &str,
    time: i64,
    line: Seq<char>,
    text: &str,
    r: Option<LogLine>,
)
    requires
        call_ensures(parse_entry, (service, text), r),
    ensures
        text@ == signed_decimal(time as int) + seq!['\t'] + line ==> (r matches Some(l)
            && l.timestamp == time && l.line@ == line && l.service@ == service@),
        (forall|j: int| 0 <= j < text@.len() ==> #[trigger] text@[j] != '\t') ==> r is None,
{
    let d = signed_decimal(time as int);
    if text@ == d + seq!['\t'] + line {
        lemma_signed_reads_back_wide(time);
        assert forall|j: int| 0 <= j < d.len() implies #[trigger] text@[j] != '\t' by {
            assert(text@[j] == d[j]);
        }
        assert(text@[d.len() as int] == '\t');
        lemma_span_unique(text@, '\t', d.len() as int);
        assert(text@.take(d.len() as int) == d);
        assert(text@.skip(d.len() as int + 1) == line);
    }
    if forall|j: int| 0 <= j < text@.len() ==> #[trigger] text@[j] != '\t' {
        lemma_span_unique(text@, '\t', text@.len() as int);
    }
}

/// A log file is named by its service, its stream and `log`.
pub proof fn law_names_of_log_files(
    service: Seq<char>,
    stream: Seq<char>,
    ending: Seq<char>,
    name: &str,
    r: Option<String>,
)
    requires
        call_ensures(service_of_file, (name,), r),
        name@ == service + seq!['.'] + (stream + seq!['.'] + ending),
        forall|j: int| 0 <= j < service.len() ==> #[trigger] service[j] != '.',
        forall|j: int| 0 <= j < stream.len() ==> #[trigger] stream[j] != '.',
    ensures
        ending == "log"@ ==> (r matches Some(s) && s@ == service),
        ending != "log"@ ==> r is None,
{
    let rest = stream + seq!['.'] + ending;
    assert forall|j: int| 0 <= j < service.len() implies #[trigger] name@[j] != '.' by {
        assert(name@[j] == service[j]);
    }
    assert(name@[service.len() as int] == '.');
    lemma_span_unique(name@, '.', service.len() as int);
    assert(name@.take(service.len() as int) == service);
    assert(name@.skip(service.len() as int + 1) == rest);
    assert forall|j: int| 0 <= j < stream.len() implies #[trigger] rest[j] != '.' by {
        assert(rest[j] == stream[j]);
    }
    assert(rest[stream.len() as int] == '.');
    lemma_span_unique(rest, '.', stream.len() as int);
    assert(rest.take(stream.len() as int) == stream);
    assert(rest.skip(stream.len() as int + 1) == ending);
}

/// Of lines with the same time that of the first log comes first.
pub proof fn law_equal_times_keep_the_order_of_logs(logs: Seq<Seq<LogLine>>, i: int)
    requires
        0 <= i < logs.len(),
        logs[i].len() > 0,
        forall|j: int|
            0 <= j < i && (#[trigger] logs[j]).len() > 0 ==> logs[j][0].timestamp
                > logs[i][0].timestamp,
        forall|j: int|
            i < j < logs.len() && (#[trigger] logs[j]).len() > 0 ==> logs[j][0].timestamp
                >= logs[i][0].timestamp,
    ensures
        all_lines(logs).len() > 0,
        all_lines(logs)[0] == logs[i][0],
{
    lemma_first_earliest(logs, i, logs.len());
    lemma_next_line(logs, i);
}

/// The first of the earliest logs is chosen.
proof fn lemma_first_earliest(logs: Seq<Seq<LogLine>>, i: int, n: nat)
    requires
        0 <= i < n <= logs.len(),
        logs[i].len() > 0,
        forall|j: int|
            0 <= j < i && (#[trigger] logs[j]).len() > 0 ==> logs[j][0].timestamp
                > logs[i][0].timestamp,
        forall|j: int|
            i < j < logs.len() && (#[trigger] logs[j]).len() > 0 ==> logs[j][0].timestamp
                >= logs[i][0].timestamp,
    ensures
        earliest(logs, n) == Some(i),
    decreases n,
{
    if i < n - 1 {
        lemma_first_earliest(logs, i, (n - 1) as nat);
        assert(logs[n - 1].len() > 0 ==> logs[n - 1][0].timestamp >= logs[i][0].timestamp);
    } else {
        lemma_earliest(logs, (n - 1) as nat);
    }
}

/// What lines take in a message: twenty bytes each, and the bytes of the service and of the text.
pub open spec fn bytes_of(lines: Seq<LogLine>) -> int
    decreases lines.len(),
{
    if lines.len() == 0 {
        0
    } else {
        let l = lines.last();
        bytes_of(lines.drop_last()) + 20 + (encode_utf8(l.service@).len() as usize) + (encode_utf8(
            l.line@,
        ).len() as usize)
    }
}

/// The sizes of the first lines are what they take together.
proof fn lemma_bytes_of(lines: Seq<LogLine>, n: nat)
    requires
        n <= lines.len(),
    ensures
        sizes(lines, n) == bytes_of(lines.take(n as int)),
    decreases n,
{
    if n > 0 {
        lemma_bytes_of(lines, (n - 1) as nat);
        assert(lines.take(n as int).drop_last() == lines.take(n - 1));
    }
}

/// A batch of more than one line takes less than eight tenths of a message and has no more lines
/// than asked for; it ends only where the next line would break one of these, or nothing is left.
pub proof fn law_batch_fills_its_budget(
    queue: &mut LogQueue,
    limits: BatchLimits,
    r: (Vec<LogLine>, bool),
)
    requires
        call_ensures(LogQueue::read_batch, (queue, &limits), r),
    ensures
        ({
            let all = all_lines(old(queue).logs());
            let n = r.0@.len() as int;
            let budget = limits.max_message_size as int * 8 / 10;
            &&& n >= 2 ==> bytes_of(r.0@) < budget && n <= limits.max_entries
            &&& all.len() > 0 ==> n >= 1
            &&& 1 <= n < all.len() ==> bytes_of(all.take(n + 1)) >= budget || n
                >= limits.max_entries
            &&& r.1 <==> n < all.len()
        }),
{
    let all = all_lines(old(queue).logs());
    let n = r.0@.len();
    lemma_bytes_of(all, n);
    if n >= 2 {
        assert(goes_in(all, limits, (n - 1) as nat));
    }
    if n < all.len() {
        lemma_bytes_of(all, n + 1);
        assert(!goes_in(all, limits, n));
    }
}

} // verus!
