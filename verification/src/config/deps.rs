//! What a service waits for before it starts.
use vstd::prelude::*;
use vstd::string::*;
use crate::config::duration::Duration;
use crate::name_map::NameMap;
use crate::number::{
    decimal, format_i64, is_digit, lemma_decimal_reads_back, parse_i32, read_i32, signed_decimal,
};
use crate::text::{
    concat3, lemma_span_unique, lemma_trimmed_fixed, same, split_once, split_once_at, trim,
    trimmed, views,
};

verus! {

/// The condition that a dependency has to meet.
#[derive(Debug, Clone, Copy, PartialEq, Eq, Structural)]
pub enum DependencyCondition {
    /// It runs.
    ServiceStarted,
    /// It is healthy.
    ServiceHealthy,
    /// It ended with code zero.
    ServiceCompletedSuccessfully,
    /// It was healthy and is no longer.
    ServiceUnhealthy,
    /// It failed.
    ServiceFailed,
    /// It ended.
    ServiceStopped,
}

impl Default for DependencyCondition {
    fn default() -> (r: Self)
        ensures
            r == DependencyCondition::ServiceStarted,
    {
        DependencyCondition::ServiceStarted
    }
}

impl DependencyCondition {
    /// Whether the condition is met in the course of a start; the others are met later or never.
    pub open spec fn startup(self) -> bool {
        self == DependencyCondition::ServiceStarted || self == DependencyCondition::ServiceHealthy
            || self == DependencyCondition::ServiceCompletedSuccessfully
    }

    /// Whether the condition is met in the course of a start.
    pub fn is_startup_condition(&self) -> (r: bool)
        ensures
            r == self.startup(),
    {
        match self {
            DependencyCondition::ServiceStarted => true,
            DependencyCondition::ServiceHealthy => true,
            DependencyCondition::ServiceCompletedSuccessfully => true,
            _ => false,
        }
    }
}

/// The exit codes from `start` to `end`, both included.
#[derive(Debug, Clone, Copy, PartialEq, Eq, Structural)]
pub struct ExitCodeRange {
    pub start: i32,
    pub end: i32,
}

/// A list of exit code ranges.
#[derive(Debug)]
pub struct ExitCodeFilter(pub Vec<ExitCodeRange>);

/// An entry of an exit code filter as it is written.
#[derive(Debug)]
pub enum ExitCodeEntry {
    Range(String),
    Single(i32),
}

/// Whether a code is in one of the ranges; without ranges every code is.
pub open spec fn code_matches(ranges: Seq<ExitCodeRange>, code: i32) -> bool {
    ranges.len() == 0 || exists|i: int|
        0 <= i < ranges.len() && (#[trigger] ranges[i]).start <= code <= ranges[i].end
}

/// The range that an entry stands for, or why it is none.
pub open spec fn read_entry(e: ExitCodeEntry) -> Result<ExitCodeRange, Seq<char>> {
    match e {
        ExitCodeEntry::Single(n) => Ok(ExitCodeRange { start: n, end: n }),
        ExitCodeEntry::Range(s) => read_range(s@),
    }
}

/// The range that a text such as `1:5` stands for, or why it is none.
pub open spec fn read_range(s: Seq<char>) -> Result<ExitCodeRange, Seq<char>> {
    let head = "invalid exit code range '"@ + s + "': "@;
    match split_once_at(s, ':') {
        None => Err(head + "expected 'start:end'"@),
        Some((a, b)) => match read_i32(trimmed(a)) {
            None => Err(head + "start is not a valid integer"@),
            Some(start) => match read_i32(trimmed(b)) {
                None => Err(head + "end is not a valid integer"@),
                Some(end) => if start > end {
                    Err(
                        head + "start ("@ + signed_decimal(start) + ") > end ("@ + signed_decimal(
                            end,
                        ) + ")"@,
                    )
                } else {
                    Ok(ExitCodeRange { start: start as i32, end: end as i32 })
                },
            },
        },
    }
}

/// The ranges of a list of entries, or the message on the first that is none.
pub open spec fn read_entries(entries: Seq<ExitCodeEntry>) -> Result<Seq<ExitCodeRange>, Seq<char>>
    decreases entries.len(),
{
    if entries.len() == 0 {
        Ok(seq![])
    } else {
        match read_entries(entries.drop_last()) {
            Err(e) => Err(e),
            Ok(ranges) => match read_entry(entries.last()) {
                Err(e) => Err(e),
                Ok(r) => Ok(ranges.push(r)),
            },
        }
    }
}

/// An entry stands for a range if it is the one code of the range, or names its two ends.
pub open spec fn entry_for(e: ExitCodeEntry, r: ExitCodeRange) -> bool {
    if r.start == r.end {
        e == ExitCodeEntry::Single(r.start)
    } else {
        e matches ExitCodeEntry::Range(s) && s@ == range_text(r)
    }
}

/// The notation of a range.
pub open spec fn range_text(r: ExitCodeRange) -> Seq<char> {
    signed_decimal(r.start as int) + ":"@ + signed_decimal(r.end as int)
}

/// Reads a text such as `1:5`.
fn parse_range(s: &str) -> (r: Result<ExitCodeRange, String>)
    ensures
        match r {
            Ok(x) => read_range(s@) == Ok::<ExitCodeRange, Seq<char>>(x),
            Err(e) => read_range(s@) == Err::<ExitCodeRange, Seq<char>>(e@),
        },
{
    let mut head = concat3("invalid exit code range '", s, "': ");
    match split_once(s, ':') {
        None => {
            head.append("expected 'start:end'");
            Err(head)
        },
        Some((a, b)) => {
            let start: i32 = match parse_i32(trim(a.as_str()).as_str()) {
                Some(n) => n,
                None => {
                    head.append("start is not a valid integer");
                    return Err(head);
                },
            };
            let end: i32 = match parse_i32(trim(b.as_str()).as_str()) {
                Some(n) => n,
                None => {
                    head.append("end is not a valid integer");
                    return Err(head);
                },
            };
            if start > end {
                head.append("start (");
                head.append(format_i64(start as i64).as_str());
                head.append(") > end (");
                head.append(format_i64(end as i64).as_str());
                head.append(")");
                return Err(head);
            }
            Ok(ExitCodeRange { start, end })
        },
    }
}

impl ExitCodeFilter {
    /// Whether the code is in one of the ranges; without ranges every code is.
    pub fn matches(&self, code: i32) -> (r: bool)
        ensures
            r == code_matches(self.0@, code),
    {
        if self.0.len() == 0 {
            return true;
        }
        let mut i: usize = 0;
        while i < self.0.len()
            invariant
                i <= self.0@.len(),
                self.0@.len() > 0,
                forall|j: int|
                    0 <= j < i ==> !((#[trigger] self.0@[j]).start <= code <= self.0@[j].end),
            decreases self.0@.len() - i,
        {
            if self.0[i].start <= code && code <= self.0[i].end {
                assert(self.0@[i as int].start <= code <= self.0@[i as int].end);
                return true;
            }
            i += 1;
        }
        false
    }

    /// Whether there are no ranges.
    pub fn is_empty(&self) -> (r: bool)
        ensures
            r == (self.0@.len() == 0),
    {
        self.0.len() == 0
    }

    /// The filter that a list of entries stands for.
    pub fn from_entries(entries: &Vec<ExitCodeEntry>) -> (r: Result<ExitCodeFilter, String>)
        ensures
            match r {
                Ok(f) => read_entries(entries@) == Ok::<Seq<ExitCodeRange>, Seq<char>>(f.0@),
                Err(e) => read_entries(entries@) == Err::<Seq<ExitCodeRange>, Seq<char>>(e@),
            },
    {
        let mut ranges: Vec<ExitCodeRange> = Vec::new();
        let mut i: usize = 0;
        while i < entries.len()
            invariant
                i <= entries@.len(),
                read_entries(entries@.take(i as int)) == Ok::<Seq<ExitCodeRange>, Seq<char>>(
                    ranges@,
                ),
            decreases entries@.len() - i,
        {
            assert(entries@.take(i + 1).drop_last() == entries@.take(i as int));
            match &entries[i] {
                ExitCodeEntry::Single(n) => {
                    ranges.push(ExitCodeRange { start: *n, end: *n });
                },
                ExitCodeEntry::Range(s) => match parse_range(s.as_str()) {
                    Ok(r) => {
                        ranges.push(r);
                    },
                    Err(e) => {
                        proof {
                            lemma_entries_error(entries@, i + 1, entries@.len() as int);
                            assert(entries@.take(entries@.len() as int) == entries@);
                        }
                        return Err(e);
                    },
                },
            }
            i += 1;
        }
        assert(entries@.take(i as int) == entries@);
        Ok(ExitCodeFilter(ranges))
    }

    /// The entries that the filter is written as.
    pub fn to_entries(&self) -> (r: Vec<ExitCodeEntry>)
        ensures
            r@.len() == self.0@.len(),
            forall|i: int| 0 <= i < r@.len() ==> entry_for(#[trigger] r@[i], self.0@[i]),
    {
        let mut out: Vec<ExitCodeEntry> = Vec::new();
        let mut i: usize = 0;
        while i < self.0.len()
            invariant
                i <= self.0@.len(),
                out@.len() == i,
                forall|j: int| 0 <= j < i ==> entry_for(#[trigger] out@[j], self.0@[j]),
            decreases self.0@.len() - i,
        {
            let r = self.0[i];
            if r.start == r.end {
                out.push(ExitCodeEntry::Single(r.start));
            } else {
                out.push(
                    ExitCodeEntry::Range(
                        concat3(
                            format_i64(r.start as i64).as_str(),
                            ":",
                            format_i64(r.end as i64).as_str(),
                        ),
                    ),
                );
            }
            i += 1;
        }
        out
    }
}

/// The message on an entry is the message on every longer list.
proof fn lemma_entries_error(entries: Seq<ExitCodeEntry>, n: int, m: int)
    requires
        0 <= n <= m <= entries.len(),
        read_entries(entries.take(n)) is Err,
    ensures
        read_entries(entries.take(m)) == read_entries(entries.take(n)),
    decreases m,
{
    if n < m {
        lemma_entries_error(entries, n, m - 1);
        assert(entries.take(m).drop_last() == entries.take(m - 1));
    }
}

proof fn lemma_signed_reads_back(n: i32)
    ensures
        read_i32(signed_decimal(n as int)) == Some(n as int),
        trimmed(signed_decimal(n as int)) == signed_decimal(n as int),
        forall|j: int|
            0 <= j < signed_decimal(n as int).len() ==> (#[trigger] signed_decimal(n as int)[j])
                != ':',
{
    let s = signed_decimal(n as int);
    if n < 0 {
        let d = decimal((-n) as nat);
        lemma_decimal_reads_back((-n) as nat);
        assert(s.skip(1) == d);
        assert(s[0] == '-');
        assert(s.last() == d.last());
        assert(is_digit(d[d.len() - 1]));
        assert forall|j: int| 0 <= j < s.len() implies (#[trigger] s[j]) != ':' by {
            if j > 0 {
                assert(s[j] == d[j - 1]);
                assert(is_digit(d[j - 1]));
            }
        }
        lemma_trimmed_fixed(s);
    } else {
        lemma_decimal_reads_back(n as nat);
        assert(is_digit(s[0]));
        assert(is_digit(s[s.len() - 1]));
        assert forall|j: int| 0 <= j < s.len() implies (#[trigger] s[j]) != ':' by {
            assert(is_digit(s[j]));
        }
        lemma_trimmed_fixed(s);
    }
}

/// Reading the entries that a filter is written as gives back its ranges.
pub proof fn law_exit_codes_round_trip(ranges: Seq<ExitCodeRange>, entries: Seq<ExitCodeEntry>)
    requires
        entries.len() == ranges.len(),
        forall|i: int| 0 <= i < entries.len() ==> entry_for(#[trigger] entries[i], ranges[i]),
        forall|i: int| 0 <= i < ranges.len() ==> (#[trigger] ranges[i]).start <= ranges[i].end,
    ensures
        read_entries(entries) == Ok::<Seq<ExitCodeRange>, Seq<char>>(ranges),
    decreases ranges.len(),
{
    if ranges.len() > 0 {
        let last = ranges.len() - 1;
        let front = ranges.drop_last();
        assert forall|i: int| 0 <= i < front.len() implies entry_for(
            #[trigger] entries.drop_last()[i],
            front[i],
        ) by {
            assert(entry_for(entries[i], ranges[i]));
        }
        assert forall|i: int| 0 <= i < front.len() implies (#[trigger] front[i]).start
            <= front[i].end by {
            assert(ranges[i].start <= ranges[i].end);
        }
        law_exit_codes_round_trip(front, entries.drop_last());
        let r = ranges[last];
        assert(entry_for(entries[last], r));
        if r.start != r.end {
            reveal_strlit(":");
            let a = signed_decimal(r.start as int);
            let b = signed_decimal(r.end as int);
            let s = range_text(r);
            lemma_signed_reads_back(r.start);
            lemma_signed_reads_back(r.end);
            assert forall|j: int| 0 <= j < a.len() implies s[j] != ':' by {
                assert(s[j] == a[j]);
            }
            assert(s[a.len() as int] == ':');
            lemma_span_unique(s, ':', a.len() as int);
            assert(s.take(a.len() as int) == a);
            assert(s.skip(a.len() as int + 1) == b);
        }
        assert(front.push(r) == ranges);
    } else {
        assert(ranges =~= Seq::<ExitCodeRange>::empty());
    }
}

/// What a service asks of one dependency.
#[derive(Debug)]
pub struct DependencyConfig {
    pub condition: DependencyCondition,
    /// How long to wait for the condition.
    pub timeout: Option<Duration>,
    /// Whether the service is restarted when the dependency is.
    pub restart: bool,
    /// Which exit codes count for the conditions that speak of an exit.
    pub exit_code: ExitCodeFilter,
    /// Whether a start waits for the dependency; by default this depends on the condition.
    pub wait: Option<bool>,
    /// Whether a dependency that is skipped counts as met.
    pub allow_skipped: bool,
}

/// The model of what a service asks of one dependency.
#[verifier::ext_equal]
pub struct DependencyRule {
    pub condition: DependencyCondition,
    pub timeout: Option<Duration>,
    pub restart: bool,
    pub exit_code: Seq<ExitCodeRange>,
    pub wait: Option<bool>,
    pub allow_skipped: bool,
}

impl View for DependencyConfig {
    type V = DependencyRule;

    open spec fn view(&self) -> DependencyRule {
        DependencyRule {
            condition: self.condition,
            timeout: self.timeout,
            restart: self.restart,
            exit_code: self.exit_code.0@,
            wait: self.wait,
            allow_skipped: self.allow_skipped,
        }
    }
}

/// What is asked of a dependency that is only named.
pub open spec fn plain_rule() -> DependencyRule {
    DependencyRule {
        condition: DependencyCondition::ServiceStarted,
        timeout: None,
        restart: false,
        exit_code: seq![],
        wait: None,
        allow_skipped: false,
    }
}

impl Default for DependencyConfig {
    fn default() -> (r: Self)
        ensures
            r@ == plain_rule(),
    {
        let r = DependencyConfig {
            condition: DependencyCondition::ServiceStarted,
            timeout: None,
            restart: false,
            exit_code: ExitCodeFilter(Vec::new()),
            wait: None,
            allow_skipped: false,
        };
        assert(r@ =~= plain_rule());
        r
    }
}

impl Clone for DependencyConfig {
    fn clone(&self) -> (r: Self)
        ensures
            r@ == self@,
    {
        let codes = self.exit_code.0.clone();
        assert(codes@ =~= self.exit_code.0@);
        DependencyConfig {
            condition: self.condition,
            timeout: self.timeout,
            restart: self.restart,
            exit_code: ExitCodeFilter(codes),
            wait: self.wait,
            allow_skipped: self.allow_skipped,
        }
    }
}

/// One entry of a list of dependencies: a name, or names with what is asked of each.
#[derive(Debug)]
pub enum DependencyEntry {
    Simple(String),
    Extended(NameMap<DependencyConfig>),
}

impl Clone for DependencyEntry {
    fn clone(&self) -> (r: Self)
        ensures
            match (*self, r) {
                (DependencyEntry::Simple(a), DependencyEntry::Simple(b)) => a == b,
                (DependencyEntry::Extended(a), DependencyEntry::Extended(b)) => cloned(a, b),
                _ => false,
            },
    {
        match self {
            DependencyEntry::Simple(name) => DependencyEntry::Simple(name.clone()),
            DependencyEntry::Extended(m) => DependencyEntry::Extended(m.clone()),
        }
    }
}

/// A list of dependencies as it is written.
#[derive(Debug)]
pub enum DependsOnFormat {
    List(Vec<DependencyEntry>),
    Mapping(NameMap<DependencyConfig>),
}

/// The dependencies of a service.
#[derive(Debug)]
pub struct DependsOn(pub Vec<DependencyEntry>);

impl Clone for DependsOn {
    fn clone(&self) -> (r: Self)
        ensures
            cloned(self.0, r.0),
    {
        DependsOn(self.0.clone())
    }
}

/// The names and rules of one entry.
pub open spec fn entry_rules(e: DependencyEntry) -> Seq<(Seq<char>, DependencyRule)> {
    match e {
        DependencyEntry::Simple(name) => seq![(name@, plain_rule())],
        DependencyEntry::Extended(m) => Seq::new(
            m.keys().len(),
            |i: int| (m.keys()[i], m.values()[i]@),
        ),
    }
}

/// The names and rules of a list of entries.
pub open spec fn list_rules(entries: Seq<DependencyEntry>) -> Seq<(Seq<char>, DependencyRule)>
    decreases entries.len(),
{
    if entries.len() == 0 {
        seq![]
    } else {
        list_rules(entries.drop_last()) + entry_rules(entries.last())
    }
}

/// The first rule for a name.
pub open spec fn rule_for(rules: Seq<(Seq<char>, DependencyRule)>, name: Seq<char>) -> Option<
    DependencyRule,
>
    decreases rules.len(),
{
    if rules.len() == 0 {
        None
    } else if rules[0].0 == name {
        Some(rules[0].1)
    } else {
        rule_for(rules.skip(1), name)
    }
}

/// What `rule_for` finds.
proof fn lemma_rule_for(rules: Seq<(Seq<char>, DependencyRule)>, name: Seq<char>, k: int)
    requires
        0 <= k <= rules.len(),
        forall|j: int| 0 <= j < k ==> (#[trigger] rules[j]).0 != name,
        k < rules.len() ==> rules[k].0 == name,
    ensures
        rule_for(rules, name) == if k < rules.len() {
            Some(rules[k].1)
        } else {
            None
        },
    decreases k,
{
    if k > 0 {
        assert(rules[0].0 != name);
        assert forall|j: int| 0 <= j < k - 1 implies (#[trigger] rules.skip(1)[j]).0 != name by {
            assert(rules.skip(1)[j] == rules[j + 1]);
        }
        lemma_rule_for(rules.skip(1), name, k - 1);
    }
}

/// The names of a list of rules.
pub open spec fn rule_names(rules: Seq<(Seq<char>, DependencyRule)>) -> Seq<Seq<char>> {
    rules.map_values(|p: (Seq<char>, DependencyRule)| p.0)
}

/// The views of a list of names and configurations.
pub open spec fn pair_views(list: Seq<(String, DependencyConfig)>) -> Seq<
    (Seq<char>, DependencyRule),
> {
    list.map_values(|p: (String, DependencyConfig)| (p.0@, p.1@))
}

impl DependsOn {
    /// The names and rules of all dependencies in order.
    pub open spec fn rules(self) -> Seq<(Seq<char>, DependencyRule)> {
        list_rules(self.0@)
    }

    /// The names of all dependencies in order.
    pub open spec fn dep_names(self) -> Seq<Seq<char>> {
        rule_names(self.rules())
    }

    /// The dependencies that a written list stands for: a map counts as one entry.
    pub fn from_format(format: DependsOnFormat) -> (r: DependsOn)
        ensures
            match format {
                DependsOnFormat::List(entries) => r.0 == entries,
                DependsOnFormat::Mapping(m) => r.0@ == seq![DependencyEntry::Extended(m)],
            },
    {
        match format {
            DependsOnFormat::List(entries) => DependsOn(entries),
            DependsOnFormat::Mapping(m) => {
                let mut entries: Vec<DependencyEntry> = Vec::new();
                entries.push(DependencyEntry::Extended(m));
                DependsOn(entries)
            },
        }
    }

    /// The names and configurations of all dependencies in order.
    pub fn iter(&self) -> (r: Vec<(String, DependencyConfig)>)
        ensures
            pair_views(r@) == self.rules(),
    {
        let mut out: Vec<(String, DependencyConfig)> = Vec::new();
        assert(pair_views(out@) == Seq::<(Seq<char>, DependencyRule)>::empty());
        let mut i: usize = 0;
        while i < self.0.len()
            invariant
                i <= self.0@.len(),
                pair_views(out@) == list_rules(self.0@.take(i as int)),
            decreases self.0@.len() - i,
        {
            let ghost done = pair_views(out@);
            assert(self.0@.take(i + 1).drop_last() == self.0@.take(i as int));
            match &self.0[i] {
                DependencyEntry::Simple(name) => {
                    let config = DependencyConfig::default();
                    out.push((name.clone(), config));
                    assert(pair_views(out@) == done.push((name@, config@)));
                    assert(done + entry_rules(self.0@[i as int]) == done.push(
                        (name@, config@),
                    ));
                },
                DependencyEntry::Extended(m) => {
                    let ghost rules = entry_rules(self.0@[i as int]);
                    let n: usize = m.len();
                    let mut j: usize = 0;
                    assert(done + rules.take(0) == done);
                    while j < n
                        invariant
                            j <= n,
                            n == m.keys().len(),
                            rules == entry_rules(DependencyEntry::Extended(*m)),
                            pair_views(out@) == done + rules.take(j as int),
                        decreases n - j,
                    {
                        let ghost before = pair_views(out@);
                        let key = m.key_at(j).clone();
                        let config = m.value_at(j).clone();
                        out.push((key, config));
                        assert(pair_views(out@) == before.push((key@, config@)));
                        assert(rules[j as int] == (key@, config@));
                        assert(done + rules.take(j + 1) == (done + rules.take(j as int)).push(
                            rules[j as int],
                        ));
                        j += 1;
                    }
                    assert(rules.take(n as int) == rules);
                },
            }
            i += 1;
        }
        assert(self.0@.take(i as int) == self.0@);
        out
    }

    /// The names of all dependencies in order.
    pub fn names(&self) -> (r: Vec<String>)
        ensures
            views(r@) == self.dep_names(),
    {
        let pairs = self.iter();
        let mut out: Vec<String> = Vec::new();
        let mut i: usize = 0;
        while i < pairs.len()
            invariant
                i <= pairs@.len(),
                pair_views(pairs@) == self.rules(),
                views(out@) == self.dep_names().take(i as int),
            decreases pairs@.len() - i,
        {
            let ghost before = views(out@);
            out.push(pairs[i].0.clone());
            assert(views(out@) == before.push(pairs@[i as int].0@));
            assert(pair_views(pairs@)[i as int].0 == pairs@[i as int].0@);
            assert(self.dep_names().take(i + 1) == self.dep_names().take(i as int).push(
                self.dep_names()[i as int],
            ));
            i += 1;
        }
        assert(self.dep_names().take(i as int) == self.dep_names());
        out
    }

    /// What is asked of a dependency; the first entry with the name counts.
    pub fn get(&self, name: &str) -> (r: Option<DependencyConfig>)
        ensures
            match r {
                Some(c) => rule_for(self.rules(), name@) == Some(c@),
                None => rule_for(self.rules(), name@) is None,
            },
    {
        let pairs = self.iter();
        let ghost rules = self.rules();
        let mut i: usize = 0;
        while i < pairs.len()
            invariant
                i <= pairs@.len(),
                pair_views(pairs@) == rules,
                rules == self.rules(),
                forall|j: int| 0 <= j < i ==> (#[trigger] rules[j]).0 != name@,
            decreases pairs@.len() - i,
        {
            assert(rules[i as int] == (pairs@[i as int].0@, pairs@[i as int].1@));
            if same(pairs[i].0.as_str(), name) {
                proof {
                    lemma_rule_for(rules, name@, i as int);
                }
                return Some(pairs[i].1.clone());
            }
            i += 1;
        }
        proof {
            lemma_rule_for(rules, name@, i as int);
        }
        None
    }

    /// Whether there are no entries.
    pub fn is_empty(&self) -> (r: bool)
        ensures
            r == (self.0@.len() == 0),
    {
        self.0.len() == 0
    }

    /// Whether the service is restarted when the dependency is.
    pub fn should_restart_on_dependency(&self, dependency_name: &str) -> (r: bool)
        ensures
            r == (rule_for(self.rules(), dependency_name@) matches Some(rule) && rule.restart),
    {
        match self.get(dependency_name) {
            Some(config) => config.restart,
            None => false,
        }
    }

    /// The names of the dependencies whose restart restarts the service, in order.
    pub fn dependencies_with_restart(&self) -> (r: Vec<String>)
        ensures
            views(r@) == restarting_names(self.rules()),
    {
        let pairs = self.iter();
        let ghost rules = self.rules();
        let ghost keep = |p: (Seq<char>, DependencyRule)| p.1.restart;
        let mut out: Vec<String> = Vec::new();
        let mut i: usize = 0;
        assert(rules.take(0).filter(keep) == Seq::<(Seq<char>, DependencyRule)>::empty()) by {
            reveal(Seq::filter);
        }
        assert(views(out@) == rule_names(rules.take(0).filter(keep)));
        while i < pairs.len()
            invariant
                i <= pairs@.len(),
                pair_views(pairs@) == rules,
                rules == self.rules(),
                keep == |p: (Seq<char>, DependencyRule)| p.1.restart,
                views(out@) == rule_names(rules.take(i as int).filter(keep)),
            decreases pairs@.len() - i,
        {
            let ghost before = views(out@);
            let ghost kept = rules.take(i as int).filter(keep);
            proof {
                assert(rules[i as int] == (pairs@[i as int].0@, pairs@[i as int].1@));
                assert(rules.take(i + 1) == rules.take(i as int).push(rules[i as int]));
                rules.take(i as int).lemma_filter_push(rules[i as int], keep);
            }
            if pairs[i].1.restart {
                out.push(pairs[i].0.clone());
                assert(views(out@) == before.push(pairs@[i as int].0@));
                assert(rule_names(kept.push(rules[i as int])) == rule_names(kept).push(
                    rules[i as int].0,
                ));
            }
            i += 1;
        }
        assert(rules.take(i as int) == rules);
        out
    }
}

impl Default for DependsOn {
    fn default() -> (r: Self)
        ensures
            r.0@.len() == 0,
    {
        DependsOn(Vec::new())
    }
}

/// The rules of a list of names.
pub open spec fn plain_rules(names: Seq<Seq<char>>) -> Seq<(Seq<char>, DependencyRule)> {
    names.map_values(|n: Seq<char>| (n, plain_rule()))
}

impl DependsOn {
    /// The dependencies with the given names and nothing asked of them but that they run.
    pub fn from_names(names: Vec<String>) -> (r: DependsOn)
        ensures
            r.rules() == plain_rules(views(names@)),
            r.dep_names() == views(names@),
    {
        let mut entries: Vec<DependencyEntry> = Vec::new();
        let ghost all = views(names@);
        let mut i: usize = 0;
        while i < names.len()
            invariant
                i <= names@.len(),
                all == views(names@),
                list_rules(entries@) == plain_rules(all.take(i as int)),
            decreases names@.len() - i,
        {
            let ghost before = entries@;
            entries.push(DependencyEntry::Simple(names[i].clone()));
            assert(entries@.drop_last() == before);
            assert(all.take(i + 1) == all.take(i as int).push(names@[i as int]@));
            assert(plain_rules(all.take(i + 1)) == plain_rules(all.take(i as int)) + seq![
                (names@[i as int]@, plain_rule()),
            ]);
            i += 1;
        }
        assert(all.take(i as int) == all);
        assert(rule_names(plain_rules(all)) == all);
        DependsOn(entries)
    }
}

impl From<Vec<String>> for DependsOn {
    fn from(names: Vec<String>) -> (r: Self)
        ensures
            r.rules() == plain_rules(views(names@)),
            r.dep_names() == views(names@),
    {
        DependsOn::from_names(names)
    }
}

impl vstd::std_specs::convert::FromSpecImpl<Vec<String>> for DependsOn {
    open spec fn obeys_from_spec() -> bool {
        false
    }

    open spec fn from_spec(names: Vec<String>) -> Self {
        arbitrary()
    }
}

/// Something is asked of a name exactly if it is among the names; the first rule with the name
/// counts.
pub proof fn law_named_rules(rules: Seq<(Seq<char>, DependencyRule)>, name: Seq<char>)
    ensures
        rule_for(rules, name) is Some <==> rule_names(rules).contains(name),
        rule_for(rules, name) matches Some(rule) ==> exists|k: int|
            0 <= k < rules.len() && #[trigger] rules[k] == (name, rule) && forall|j: int|
                0 <= j < k ==> (#[trigger] rules[j]).0 != name,
    decreases rules.len(),
{
    let names = rule_names(rules);
    if rules.len() > 0 {
        if rules[0].0 == name {
            assert(names[0] == name);
            assert(rules[0] == (name, rules[0].1));
        } else {
            let rest = rules.skip(1);
            law_named_rules(rest, name);
            assert(rule_names(rest) =~= names.skip(1));
            if names.contains(name) {
                let k = names.index_of(name);
                assert(names.skip(1)[k - 1] == name);
            }
            if rule_names(rest).contains(name) {
                let k = rule_names(rest).index_of(name);
                assert(names[k + 1] == name);
            }
            if let Some(rule) = rule_for(rest, name) {
                let k = choose|k: int|
                    0 <= k < rest.len() && #[trigger] rest[k] == (name, rule) && forall|j: int|
                        0 <= j < k ==> (#[trigger] rest[j]).0 != name;
                assert(rules[k + 1] == (name, rule));
                assert forall|j: int| 0 <= j < k + 1 implies (#[trigger] rules[j]).0 != name by {
                    if j > 0 {
                        assert(rest[j - 1] == rules[j]);
                    }
                }
            }
        }
    }
}

/// Of dependencies that are given by name alone nothing is asked but that they run, and none
/// restarts the service.
pub proof fn law_names_alone_ask_nothing_more(names: Seq<Seq<char>>, name: Seq<char>)
    ensures
        rule_for(plain_rules(names), name) == if names.contains(name) {
            Some(plain_rule())
        } else {
            None::<DependencyRule>
        },
        restarting_names(plain_rules(names)).len() == 0,
{
    let rules = plain_rules(names);
    assert(rule_names(rules) =~= names);
    law_named_rules(rules, name);
    let restarting = restarting_names(rules);
    if restarting.len() > 0 {
        lemma_restarting(rules, restarting[0]);
        assert(restarting.contains(restarting[0]));
    }
}

/// The names whose restart restarts the service.
pub open spec fn restarting_names(rules: Seq<(Seq<char>, DependencyRule)>) -> Seq<Seq<char>> {
    rule_names(rules.filter(|p: (Seq<char>, DependencyRule)| p.1.restart))
}

proof fn lemma_restarting(rules: Seq<(Seq<char>, DependencyRule)>, name: Seq<char>)
    ensures
        restarting_names(rules).contains(name) <==> exists|k: int|
            0 <= k < rules.len() && (#[trigger] rules[k]).0 == name && rules[k].1.restart,
        rule_names(rules).no_duplicates() ==> restarting_names(rules).no_duplicates(),
    decreases rules.len(),
{
    reveal(Seq::filter);
    let all = restarting_names(rules);
    if rules.len() > 0 {
        let front = rules.drop_last();
        let last = rules.last();
        let before = restarting_names(front);
        lemma_restarting(front, name);
        lemma_restarting(front, last.0);
        assert(all =~= if last.1.restart {
            before.push(last.0)
        } else {
            before
        });
        assert(rules[rules.len() - 1] == last);
        if all.contains(name) {
            let i = all.index_of(name);
            if i < before.len() {
                assert(before[i] == name);
                let k = choose|k: int|
                    0 <= k < front.len() && (#[trigger] front[k]).0 == name && front[k].1.restart;
                assert(rules[k].0 == name && rules[k].1.restart);
            }
        }
        if exists|k: int|
            0 <= k < rules.len() && (#[trigger] rules[k]).0 == name && rules[k].1.restart {
            let k = choose|k: int|
                0 <= k < rules.len() && (#[trigger] rules[k]).0 == name && rules[k].1.restart;
            if k < front.len() {
                assert(front[k] == rules[k]);
                assert(all[before.index_of(name)] == name);
            } else {
                assert(all[before.len() as int] == name);
            }
        }
        if rule_names(rules).no_duplicates() {
            assert(rule_names(front) =~= rule_names(rules).drop_last());
            if before.contains(last.0) {
                let k = choose|k: int|
                    0 <= k < front.len() && (#[trigger] front[k]).0 == last.0 && front[k].1.restart;
                assert(rule_names(rules)[k] == rule_names(rules)[rules.len() - 1]);
            }
            assert forall|i: int, j: int|
                0 <= i < all.len() && 0 <= j < all.len() && i != j implies all[i] != all[j] by {
                if i < before.len() {
                    assert(before.contains(before[i]));
                }
                if j < before.len() {
                    assert(before.contains(before[j]));
                }
            }
        }
    } else {
        assert(all.len() == 0);
    }
}

/// Where no name occurs twice, the names whose restart restarts the service are those of which
/// that is asked, each once.
pub proof fn law_restarting_names(rules: Seq<(Seq<char>, DependencyRule)>, name: Seq<char>)
    requires
        rule_names(rules).no_duplicates(),
    ensures
        restarting_names(rules).no_duplicates(),
        restarting_names(rules).contains(name) <==> (rule_for(rules, name) matches Some(rule)
            && rule.restart),
{
    lemma_restarting(rules, name);
    law_named_rules(rules, name);
    let names = rule_names(rules);
    if restarting_names(rules).contains(name) {
        let k = choose|k: int|
            0 <= k < rules.len() && (#[trigger] rules[k]).0 == name && rules[k].1.restart;
        assert(names[k] == name);
        let rule = rule_for(rules, name)->0;
        let q = choose|q: int| 0 <= q < rules.len() && #[trigger] rules[q] == (name, rule);
        assert(names[q] == name);
    }
}

/// A range of exit codes is written as its two ends with a colon between them; it lets through the
/// codes from the first to the second, both included, and is refused if the first is greater. A
/// code alone lets through itself.
pub proof fn law_exit_code_range_includes_its_ends(
    a: i32,
    b: i32,
    s: String,
    one: Vec<ExitCodeEntry>,
    two: Vec<ExitCodeEntry>,
    single: Result<ExitCodeFilter, String>,
    range: Result<ExitCodeFilter, String>,
    code: i32,
    in_single: bool,
    in_range: bool,
)
    requires
        s@ == signed_decimal(a as int) + seq![':'] + signed_decimal(b as int),
        one@ == seq![ExitCodeEntry::Single(a)],
        two@ == seq![ExitCodeEntry::Range(s)],
        call_ensures(ExitCodeFilter::from_entries, (&one,), single),
        call_ensures(ExitCodeFilter::from_entries, (&two,), range),
    ensures
        single is Ok,
        call_ensures(ExitCodeFilter::matches, (&single->Ok_0, code), in_single) ==> in_single == (
        code == a),
        a <= b ==> range is Ok,
        a > b ==> range is Err,
        range is Ok && call_ensures(ExitCodeFilter::matches, (&range->Ok_0, code), in_range)
            ==> in_range == (a <= code <= b),
{
    reveal_with_fuel(read_entries, 2);
    assert(one@.drop_last() =~= Seq::<ExitCodeEntry>::empty());
    assert(two@.drop_last() =~= Seq::<ExitCodeEntry>::empty());
    let x = signed_decimal(a as int);
    let y = signed_decimal(b as int);
    let t = s@;
    lemma_signed_reads_back(a);
    lemma_signed_reads_back(b);
    assert forall|j: int| 0 <= j < x.len() implies t[j] != ':' by {
        assert(t[j] == x[j]);
    }
    assert(t[x.len() as int] == ':');
    lemma_span_unique(t, ':', x.len() as int);
    assert(t.take(x.len() as int) == x);
    assert(t.skip(x.len() as int + 1) == y);
    let r1 = ExitCodeRange { start: a, end: a };
    assert(single->Ok_0.0@ =~= seq![r1]);
    assert(single->Ok_0.0@[0] == r1);
    if a <= b {
        let r2 = ExitCodeRange { start: a, end: b };
        assert(range->Ok_0.0@ =~= seq![r2]);
        assert(range->Ok_0.0@[0] == r2);
    }
}

/// Without ranges every code is let through, and each range lets through what it would alone.
pub proof fn law_ranges_add_up(f: ExitCodeFilter, code: i32, r: bool, k: int)
    requires
        call_ensures(ExitCodeFilter::matches, (&f, code), r),
    ensures
        f.0@.len() == 0 ==> r,
        0 <= k < f.0@.len() && f.0@[k].start <= code && code <= f.0@[k].end ==> r,
        f.0@.len() > 0 && r ==> exists|i: int|
            0 <= i < f.0@.len() && (#[trigger] f.0@[i]).start <= code && code <= f.0@[i].end,
{
    if f.0@.len() > 0 && r {
        let i = choose|i: int|
            0 <= i < f.0@.len() && (#[trigger] f.0@[i]).start <= code <= f.0@[i].end;
        assert(f.0@[i].start <= code && code <= f.0@[i].end);
    }
}

/// Of a dependency that is only named it is asked that it runs: no time is set, nothing restarts
/// with it, every code counts, and it must not be skipped.
pub proof fn law_named_dependency_has_to_run(names: Vec<String>, d: DependsOn, i: int)
    requires
        call_ensures(DependsOn::from_names, (names,), d),
        0 <= i < names@.len(),
    ensures
        d.rules().len() == names@.len(),
        ({
            let (name, rule) = d.rules()[i];
            &&& name == names@[i]@
            &&& rule.condition == DependencyCondition::ServiceStarted
            &&& rule.timeout is None
            &&& !rule.restart
            &&& rule.exit_code.len() == 0
            &&& rule.wait is None
            &&& !rule.allow_skipped
        }),
{
}

/// A service restarts with a dependency exactly if the first entry with the name says so.
pub proof fn law_first_entry_decides(
    d: DependsOn,
    name: &str,
    k: int,
    restarts: bool,
    asked: Option<DependencyConfig>,
)
    requires
        call_ensures(DependsOn::should_restart_on_dependency, (&d, name), restarts),
        call_ensures(DependsOn::get, (&d, name), asked),
    ensures
        0 <= k < d.rules().len() && d.rules()[k].0 == name@ && (forall|j: int|
            0 <= j < k ==> (#[trigger] d.rules()[j]).0 != name@) ==> restarts
            == d.rules()[k].1.restart && (asked matches Some(c) && c@ == d.rules()[k].1),
        (forall|j: int| 0 <= j < d.rules().len() ==> (#[trigger] d.rules()[j]).0 != name@)
            ==> !restarts && asked is None,
{
    let rules = d.rules();
    law_named_rules(rules, name@);
    if 0 <= k < rules.len() && rules[k].0 == name@ && (forall|j: int|
        0 <= j < k ==> (#[trigger] rules[j]).0 != name@) {
        assert(rule_names(rules)[k] == name@);
        let rule = rule_for(rules, name@)->0;
        let q = choose|q: int|
            0 <= q < rules.len() && #[trigger] rules[q] == (name@, rule) && forall|j: int|
                0 <= j < q ==> (#[trigger] rules[j]).0 != name@;
        if q < k {
            assert(rules[q].0 != name@);
        }
        if k < q {
            assert(rules[k].0 != name@);
        }
    }
    if forall|j: int| 0 <= j < rules.len() ==> (#[trigger] rules[j]).0 != name@ {
        if rule_names(rules).contains(name@) {
            let j = rule_names(rules).index_of(name@);
            assert(rules[j].0 == name@);
        }
    }
}

/// A start waits for a dependency to start, to be healthy or to complete; the other conditions are
/// met later.
pub proof fn law_startup_conditions(c: DependencyCondition, r: bool)
    requires
        call_ensures(DependencyCondition::is_startup_condition, (&c,), r),
    ensures
        match c {
            DependencyCondition::ServiceStarted => r,
            DependencyCondition::ServiceHealthy => r,
            DependencyCondition::ServiceCompletedSuccessfully => r,
            DependencyCondition::ServiceUnhealthy => !r,
            DependencyCondition::ServiceFailed => !r,
            DependencyCondition::ServiceStopped => !r,
        },
{
}

/// The dependencies whose restart restarts a service are those of which that is asked, where no
/// name occurs twice.
pub proof fn law_restarting_dependencies(
    d: DependsOn,
    name: &str,
    list: Vec<String>,
    restarts: bool,
    names: Vec<String>,
)
    requires
        call_ensures(DependsOn::dependencies_with_restart, (&d,), list),
        call_ensures(DependsOn::should_restart_on_dependency, (&d, name), restarts),
        call_ensures(DependsOn::names, (&d,), names),
        views(names@).no_duplicates(),
    ensures
        views(list@).contains(name@) <==> restarts,
        views(names@).len() == d.rules().len(),
{
    law_restarting_names(d.rules(), name@);
}

/// A mapping asks of each of its names what it says, and a list what its entries say, in order.
pub proof fn law_written_dependencies(
    m: NameMap<DependencyConfig>,
    entries: Vec<DependencyEntry>,
    of_map: DependsOn,
    of_list: DependsOn,
    i: int,
)
    requires
        call_ensures(DependsOn::from_format, (DependsOnFormat::Mapping(m),), of_map),
        call_ensures(DependsOn::from_format, (DependsOnFormat::List(entries),), of_list),
        m.values().len() == m.keys().len(),
    ensures
        of_map.rules().len() == m.keys().len(),
        0 <= i < m.keys().len() ==> of_map.rules()[i] == (m.keys()[i], m.values()[i]@),
        of_list.0 == entries,
{
    let e = DependencyEntry::Extended(m);
    assert(of_map.0@.drop_last() =~= Seq::<DependencyEntry>::empty());
    assert(of_map.0@.last() == e);
    reveal_with_fuel(list_rules, 2);
    assert(of_map.rules() =~= entry_rules(e));
}

} // verus!
