//! Log lines of the form `timestamp|LEVEL|message`, and queries over them.

use vstd::prelude::*;
use crate::text::{
    contains_text, find_text, parse_unsigned, same_text, split, split_on, texts, to_chars,
    to_string, unsigned_of,
};

verus! {

#[derive(Debug, Clone, PartialEq)]
pub struct LogEntry {
    pub timestamp: u64,
    pub level: LogLevel,
    pub message: String,
}

#[derive(Debug, PartialEq, Eq, Hash, Clone, Copy, Structural)]
pub enum LogLevel {
    Debug,
    Info,
    Warning,
    Error,
}

/// What a log entry holds.
pub ghost struct EntryText {
    pub timestamp: u64,
    pub level: LogLevel,
    pub message: Seq<char>,
}

impl View for LogEntry {
    type V = EntryText;

    open spec fn view(&self) -> EntryText {
        EntryText { timestamp: self.timestamp, level: self.level, message: self.message@ }
    }
}

/// What the entries of `entries` hold, in order.
pub open spec fn views(entries: Seq<LogEntry>) -> Seq<EntryText> {
    entries.map_values(|e: LogEntry| e@)
}

/// The level that `name` names, in capitals.
pub open spec fn level_of(name: Seq<char>) -> Option<LogLevel> {
    if name == "DEBUG"@ {
        Some(LogLevel::Debug)
    } else if name == "INFO"@ {
        Some(LogLevel::Info)
    } else if name == "WARNING"@ {
        Some(LogLevel::Warning)
    } else if name == "ERROR"@ {
        Some(LogLevel::Error)
    } else {
        None
    }
}

/// The entry that `line` holds: exactly three parts between vertical bars,
/// which are an unsigned decimal number of 64 bits, the name of a level, and
/// the message.
pub open spec fn entry_of(line: Seq<char>) -> Option<EntryText> {
    let parts = split_on(line, '|');
    if parts.len() != 3 {
        None
    } else {
        match (unsigned_of(parts[0], u64::MAX as int), level_of(parts[1])) {
            (Some(timestamp), Some(level)) => Some(
                EntryText { timestamp: timestamp as u64, level, message: parts[2] },
            ),
            _ => None,
        }
    }
}

/// The entries that `lines` hold, in order; lines that hold none are left
/// out.
pub open spec fn entries_of(lines: Seq<String>) -> Seq<EntryText>
    decreases lines.len(),
{
    if lines.len() == 0 {
        Seq::<EntryText>::empty()
    } else {
        let before = entries_of(lines.drop_last());
        match entry_of(lines.last()@) {
            Some(entry) => before.push(entry),
            None => before,
        }
    }
}

/// Where `entry` goes among `sorted` so that later times come first: before
/// the first entry that is not later than it.
pub open spec fn place_of(sorted: Seq<EntryText>, entry: EntryText, from: int) -> int
    decreases sorted.len() - from,
{
    if from < 0 || from >= sorted.len() {
        sorted.len() as int
    } else if sorted[from].timestamp <= entry.timestamp {
        from
    } else {
        place_of(sorted, entry, from + 1)
    }
}

/// The entries of `entries` with later times first; of two entries with the
/// same time, the one that stands later in `entries` comes first.
pub open spec fn recent_first(entries: Seq<EntryText>) -> Seq<EntryText>
    decreases entries.len(),
{
    if entries.len() == 0 {
        entries
    } else {
        let before = recent_first(entries.drop_last());
        before.insert(place_of(before, entries.last(), 0), entries.last())
    }
}

pub proof fn lemma_place_of(sorted: Seq<EntryText>, entry: EntryText, from: int)
    requires
        0 <= from <= sorted.len(),
    ensures
        from <= place_of(sorted, entry, from) <= sorted.len(),
        forall|i: int|
            from <= i < place_of(sorted, entry, from) ==> sorted[i].timestamp > entry.timestamp,
        place_of(sorted, entry, from) < sorted.len() ==> sorted[place_of(
            sorted,
            entry,
            from,
        )].timestamp <= entry.timestamp,
    decreases sorted.len() - from,
{
    if from < sorted.len() && sorted[from].timestamp > entry.timestamp {
        lemma_place_of(sorted, entry, from + 1);
    }
}

/// Order law: `recent_first` holds the same entries, each as often, and no
/// entry in it is later than one before it.
pub proof fn law_recent_first_is_ordered(entries: Seq<EntryText>)
    ensures
        recent_first(entries).len() == entries.len(),
        recent_first(entries).to_multiset() == entries.to_multiset(),
        forall|i: int, j: int|
            0 <= i < j < entries.len() ==> recent_first(entries)[i].timestamp >= recent_first(
                entries,
            )[j].timestamp,
    decreases entries.len(),
{
    if entries.len() > 0 {
        let before = recent_first(entries.drop_last());
        let last = entries.last();
        law_recent_first_is_ordered(entries.drop_last());
        lemma_place_of(before, last, 0);
        let p = place_of(before, last, 0);
        let after = before.insert(p, last);
        assert forall|i: int, j: int| 0 <= i < j < after.len() implies after[i].timestamp
            >= after[j].timestamp by {
            let i0 = if i < p { i } else { i - 1 };
            let j0 = if j < p { j } else { j - 1 };
            if i != p && j != p {
                assert(after[i] == before[i0]);
                assert(after[j] == before[j0]);
            } else if i == p {
                assert(after[j] == before[j0]);
                assert(before[p].timestamp <= last.timestamp);
                if j0 > p {
                    assert(before[p].timestamp >= before[j0].timestamp);
                }
            } else {
                assert(after[i] == before[i0]);
            }
        }
        vstd::seq_lib::to_multiset_remove(after, p);
        assert(after.remove(p) =~= before);
        after.to_multiset_ensures();
        assert(after[p] == last);
        assert(after.contains(last));
        assert(after.to_multiset() =~= before.to_multiset().insert(last));
        assert(entries =~= entries.drop_last().push(last));
        vstd::seq_lib::to_multiset_build(entries.drop_last(), last);
    }
}

impl LogEntry {
    /// The entry that `line` holds.
    pub fn parse(line: &str) -> (r: Option<LogEntry>)
        ensures
            match r {
                Some(entry) => entry_of(line@) == Some(entry@),
                None => entry_of(line@) is None,
            },
    {
        let chars: Vec<char> = to_chars(line);
        let parts: Vec<Vec<char>> = split(&chars, '|');
        if parts.len() != 3 {
            return None;
        }
        assert(texts(parts@)[0] == parts@[0]@);
        assert(texts(parts@)[1] == parts@[1]@);
        assert(texts(parts@)[2] == parts@[2]@);
        let timestamp: u64 = match parse_unsigned(&parts[0], u64::MAX) {
            Some(n) => n,
            None => {
                return None;
            },
        };
        let level: LogLevel = if same_text(&parts[1], &to_chars("DEBUG")) {
            LogLevel::Debug
        } else if same_text(&parts[1], &to_chars("INFO")) {
            LogLevel::Info
        } else if same_text(&parts[1], &to_chars("WARNING")) {
            LogLevel::Warning
        } else if same_text(&parts[1], &to_chars("ERROR")) {
            LogLevel::Error
        } else {
            return None;
        };
        Some(LogEntry { timestamp, level, message: to_string(&parts[2]) })
    }

    pub fn new(timestamp: u64, level: LogLevel, message: String) -> (entry: Self)
        ensures
            entry.timestamp == timestamp,
            entry.level == level,
            entry.message == message,
    {
        LogEntry { timestamp, level, message }
    }
}

/// What a query asks of an entry.
pub enum Criterion {
    /// The entry has this level.
    Level(LogLevel),
    /// The entry's time lies between the two, both included.
    Between(u64, u64),
    /// The entry's message holds this text.
    Containing(Vec<char>),
}

/// Whether `entry` is what `criterion` asks for.
pub open spec fn meets(criterion: Criterion, entry: EntryText) -> bool {
    match criterion {
        Criterion::Level(level) => entry.level == level,
        Criterion::Between(start, end) => start <= entry.timestamp <= end,
        Criterion::Containing(text) => contains_text(entry.message, text@),
    }
}

/// How many entries of each level a log holds.
#[derive(Debug, Clone, Copy, PartialEq, Eq, Structural)]
pub struct LevelCounts {
    debug: usize,
    info: usize,
    warning: usize,
    error: usize,
}

/// The number of entries in `entries` that have the level `level`.
pub open spec fn count_of(entries: Seq<EntryText>, level: LogLevel) -> nat {
    entries.filter(|e: EntryText| e.level == level).len()
}

impl LevelCounts {
    /// The number of entries counted for `level`.
    pub closed spec fn count(&self, level: LogLevel) -> nat {
        match level {
            LogLevel::Debug => self.debug as nat,
            LogLevel::Info => self.info as nat,
            LogLevel::Warning => self.warning as nat,
            LogLevel::Error => self.error as nat,
        }
    }

    /// The count for `level`, where there is an entry of that level.
    pub fn get(&self, level: &LogLevel) -> (r: Option<&usize>)
        ensures
            match r {
                Some(n) => *n > 0 && *n == self.count(*level),
                None => self.count(*level) == 0,
            },
    {
        let n: &usize = match level {
            LogLevel::Debug => &self.debug,
            LogLevel::Info => &self.info,
            LogLevel::Warning => &self.warning,
            LogLevel::Error => &self.error,
        };
        if *n > 0 {
            Some(n)
        } else {
            None
        }
    }

    /// Whether no entry was counted.
    pub fn is_empty(&self) -> (b: bool)
        ensures
            b == forall|level: LogLevel| self.count(level) == 0,
    {
        let b: bool = self.debug == 0 && self.info == 0 && self.warning == 0 && self.error == 0;
        proof {
            if !b {
                assert(self.count(LogLevel::Debug) > 0 || self.count(LogLevel::Info) > 0
                    || self.count(LogLevel::Warning) > 0 || self.count(LogLevel::Error) > 0);
            }
        }
        b
    }

    /// The number of levels of which there is an entry.
    pub fn len(&self) -> (n: usize)
        ensures
            n == (if self.count(LogLevel::Debug) > 0 { 1int } else { 0 }) + (if self.count(
                LogLevel::Info,
            ) > 0 { 1int } else { 0 }) + (if self.count(LogLevel::Warning) > 0 { 1int } else { 0 })
                + (if self.count(LogLevel::Error) > 0 { 1int } else { 0 }),
    {
        let mut n: usize = 0;
        if self.debug > 0 {
            n = n + 1;
        }
        if self.info > 0 {
            n = n + 1;
        }
        if self.warning > 0 {
            n = n + 1;
        }
        if self.error > 0 {
            n = n + 1;
        }
        n
    }
}

pub struct LogAnalyzer<'a> {
    lines: &'a [String],
}

fn duplicate(entry: &LogEntry) -> (copy: LogEntry)
    ensures
        copy == *entry,
{
    LogEntry { timestamp: entry.timestamp, level: entry.level, message: entry.message.clone() }
}

impl<'a> LogAnalyzer<'a> {
    /// The lines that the analyzer reads.
    pub closed spec fn lines(&self) -> Seq<String> {
        self.lines@
    }

    /// The entries that the analyzer's lines hold.
    pub open spec fn entries(&self) -> Seq<EntryText> {
        entries_of(self.lines())
    }

    pub fn new(lines: &'a [String]) -> (analyzer: Self)
        ensures
            analyzer.lines() == lines@,
    {
        LogAnalyzer { lines }
    }

    /// The entries of the lines that hold one, in the order of the lines.
    pub fn parse_entries(&self) -> (r: Vec<LogEntry>)
        ensures
            views(r@) == self.entries(),
            r.len() <= self.lines().len(),
    {
        let mut r: Vec<LogEntry> = Vec::new();
        let mut i: usize = 0;
        assert(self.lines@.take(0) =~= Seq::<String>::empty());
        assert(views(r@) =~= Seq::<EntryText>::empty());
        while i < self.lines.len()
            invariant
                i <= self.lines.len(),
                r.len() <= i,
                views(r@) == entries_of(self.lines@.take(i as int)),
            decreases self.lines.len() - i,
        {
            proof {
                assert(self.lines@.take(i + 1).drop_last() =~= self.lines@.take(i as int));
                assert(self.lines@.take(i + 1).last() == self.lines@[i as int]);
            }
            match LogEntry::parse(self.lines[i].as_str()) {
                Some(entry) => {
                    let ghost before = r@;
                    r.push(entry);
                    assert(views(r@) =~= views(before).push(entry@));
                },
                None => {},
            }
            i = i + 1;
        }
        assert(self.lines@.take(self.lines@.len() as int) =~= self.lines@);
        r
    }

    /// The entries that meet `criterion`, in the order of the lines.
    pub fn select(&self, criterion: &Criterion) -> (r: Vec<LogEntry>)
        ensures
            views(r@) == self.entries().filter(|e: EntryText| meets(*criterion, e)),
    {
        let all: Vec<LogEntry> = self.parse_entries();
        let ghost wanted = |e: EntryText| meets(*criterion, e);
        let mut r: Vec<LogEntry> = Vec::new();
        let mut i: usize = 0;
        proof {
            reveal(Seq::filter);
            assert(views(all@).take(0) =~= Seq::<EntryText>::empty());
            assert(views(r@) =~= Seq::<EntryText>::empty());
        }
        while i < all.len()
            invariant
                i <= all.len(),
                wanted == |e: EntryText| meets(*criterion, e),
                views(r@) == views(all@).take(i as int).filter(wanted),
            decreases all.len() - i,
        {
            let entry: &LogEntry = &all[i];
            proof {
                reveal(Seq::filter);
                assert(views(all@).take(i + 1).drop_last() =~= views(all@).take(i as int));
                assert(views(all@).take(i + 1).last() == entry@);
            }
            let keep: bool = match criterion {
                Criterion::Level(level) => entry.level == *level,
                Criterion::Between(start, end) => *start <= entry.timestamp && entry.timestamp
                    <= *end,
                Criterion::Containing(text) => find_text(
                    &to_chars(entry.message.as_str()),
                    text,
                    0,
                ).is_some(),
            };
            assert(keep == meets(*criterion, entry@));
            if keep {
                let ghost before = r@;
                let copy: LogEntry = duplicate(entry);
                r.push(copy);
                assert(views(r@) =~= views(before).push(entry@));
            }
            i = i + 1;
        }
        assert(views(all@).take(all@.len() as int) =~= views(all@));
        r
    }

    /// The entries of level `Error`.
    pub fn errors_only(&self) -> (r: Vec<LogEntry>)
        ensures
            views(r@) == self.entries().filter(
                |e: EntryText| meets(Criterion::Level(LogLevel::Error), e),
            ),
    {
        self.select(&Criterion::Level(LogLevel::Error))
    }

    /// The entries whose time lies from `start` to `end`, both included.
    pub fn in_time_range(&self, start: u64, end: u64) -> (r: Vec<LogEntry>)
        ensures
            views(r@) == self.entries().filter(
                |e: EntryText| meets(Criterion::Between(start, end), e),
            ),
    {
        self.select(&Criterion::Between(start, end))
    }

    /// The entries of level `level`.
    pub fn filter_by_level(&self, level: LogLevel) -> (r: Vec<LogEntry>)
        ensures
            views(r@) == self.entries().filter(|e: EntryText| meets(Criterion::Level(level), e)),
    {
        self.select(&Criterion::Level(level))
    }

    /// The entries whose message holds `substring`.
    pub fn messages_containing(&self, substring: &str) -> (r: Vec<LogEntry>)
        ensures
            exists|text: Vec<char>|
                text@ == substring@ && views(r@) == self.entries().filter(
                    |e: EntryText| meets(Criterion::Containing(text), e),
                ),
    {
        let text: Vec<char> = to_chars(substring);
        let criterion = Criterion::Containing(text);
        let r: Vec<LogEntry> = self.select(&criterion);
        assert(criterion->Containing_0@ == substring@);
        r
    }

    /// The number of lines that hold an entry.
    pub fn total_entries(&self) -> (n: usize)
        ensures
            n == self.entries().len(),
    {
        let all: Vec<LogEntry> = self.parse_entries();
        all.len()
    }

    /// How many entries there are of each level.
    pub fn count_by_level(&self) -> (counts: LevelCounts)
        ensures
            forall|level: LogLevel| counts.count(level) == count_of(self.entries(), level),
    {
        let all: Vec<LogEntry> = self.parse_entries();
        let mut counts = LevelCounts { debug: 0, info: 0, warning: 0, error: 0 };
        let mut i: usize = 0;
        proof {
            reveal(Seq::filter);
            assert(views(all@).take(0) =~= Seq::<EntryText>::empty());
        }
        while i < all.len()
            invariant
                i <= all.len(),
                forall|level: LogLevel| #[trigger]
                    counts.count(level) == count_of(views(all@).take(i as int), level),
                forall|level: LogLevel| #[trigger] counts.count(level) <= i,
            decreases all.len() - i,
        {
            let ghost before = counts;
            proof {
                reveal(Seq::filter);
                assert(views(all@).take(i + 1).drop_last() =~= views(all@).take(i as int));
                assert(views(all@).take(i + 1).last() == all@[i as int]@);
                assert(before.count(LogLevel::Debug) <= i);
                assert(before.count(LogLevel::Info) <= i);
                assert(before.count(LogLevel::Warning) <= i);
                assert(before.count(LogLevel::Error) <= i);
            }
            match all[i].level {
                LogLevel::Debug => {
                    counts.debug = counts.debug + 1;
                },
                LogLevel::Info => {
                    counts.info = counts.info + 1;
                },
                LogLevel::Warning => {
                    counts.warning = counts.warning + 1;
                },
                LogLevel::Error => {
                    counts.error = counts.error + 1;
                },
            }
            proof {
                assert forall|level: LogLevel| #[trigger]
                    counts.count(level) == count_of(views(all@).take(i + 1), level) by {
                    assert(before.count(level) == count_of(views(all@).take(i as int), level));
                }
                assert forall|level: LogLevel| #[trigger] counts.count(level) <= i + 1 by {
                    assert(before.count(level) <= i);
                }
            }
            i = i + 1;
        }
        assert(views(all@).take(all@.len() as int) =~= views(all@));
        counts
    }

    /// The `n` latest entries, the latest first; all of them where there are
    /// fewer than `n`. Of two entries with the same time, the one from the
    /// later line comes first.
    pub fn most_recent(&self, n: usize) -> (r: Vec<LogEntry>)
        ensures
            views(r@) == recent_first(self.entries()).take(
                if n <= self.entries().len() {
                    n as int
                } else {
                    self.entries().len() as int
                },
            ),
    {
        let all: Vec<LogEntry> = self.parse_entries();
        let mut sorted: Vec<LogEntry> = Vec::new();
        let mut i: usize = 0;
        proof {
            assert(views(all@).take(0) =~= Seq::<EntryText>::empty());
            assert(views(sorted@) =~= Seq::<EntryText>::empty());
        }
        while i < all.len()
            invariant
                i <= all.len(),
                sorted.len() == i,
                views(sorted@) == recent_first(views(all@).take(i as int)),
            decreases all.len() - i,
        {
            let entry: &LogEntry = &all[i];
            proof {
                assert(views(all@).take(i + 1).drop_last() =~= views(all@).take(i as int));
                assert(views(all@).take(i + 1).last() == entry@);
            }
            let mut p: usize = 0;
            while p < sorted.len() && sorted[p].timestamp > entry.timestamp
                invariant
                    p <= sorted.len(),
                    place_of(views(sorted@), entry@, 0) == place_of(
                        views(sorted@),
                        entry@,
                        p as int,
                    ),
                decreases sorted.len() - p,
            {
                assert(views(sorted@)[p as int] == sorted@[p as int]@);
                p = p + 1;
            }
            proof {
                if p < sorted.len() {
                    assert(views(sorted@)[p as int] == sorted@[p as int]@);
                }
            }
            let ghost before = sorted@;
            let copy: LogEntry = duplicate(entry);
            sorted.insert(p, copy);
            assert(views(sorted@) =~= views(before).insert(p as int, entry@));
            i = i + 1;
        }
        assert(views(all@).take(all@.len() as int) =~= views(all@));
        let ghost whole = sorted@;
        sorted.truncate(n);
        proof {
            if n <= whole.len() {
                assert(views(sorted@) =~= views(whole).take(n as int));
            } else {
                assert(views(sorted@) =~= views(whole).take(whole.len() as int));
            }
        }
        sorted
    }
}

} // verus!
