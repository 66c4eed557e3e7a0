//! Plugins behind a common interface.

use vstd::prelude::*;
use crate::text::{
    decimal_of, find_from, find_text, parse_unsigned, part, push_decimal, push_str, slice,
    to_chars, to_string, trim, trimmed, unsigned_of,
};

verus! {

pub trait Plugin {
    /// The plugin's name.
    spec fn name_text(&self) -> Seq<char>;

    /// The line that running the plugin reports.
    spec fn report(&self) -> Seq<char>;

    fn name(&self) -> (name: &str)
        ensures
            name@ == self.name_text(),
    ;

    fn execute(&self) -> (line: String)
        ensures
            line@ == self.report(),
    ;
}

pub trait Configurable {
    fn configure(&mut self, config: &str);
}

/// The value that `config` gives behind `key`: the text from the first
/// occurrence of `key` up to the next one, or to the end, without the white
/// space around it. `None` where `key` does not occur.
pub open spec fn setting_of(config: Seq<char>, key: Seq<char>) -> Option<Seq<char>> {
    match find_from(config, key, 0) {
        None => None,
        Some(at) => {
            let start = at + key.len();
            let end = match find_from(config, key, start) {
                Some(next) => next,
                None => config.len() as int,
            };
            Some(trimmed(part(config, start, end)))
        },
    }
}

/// The value that `config` gives behind `key`.
fn read_setting(config: &str, key: &str) -> (r: Option<Vec<char>>)
    ensures
        match r {
            Some(value) => setting_of(config@, key@) == Some(value@),
            None => setting_of(config@, key@) is None,
        },
{
    let text: Vec<char> = to_chars(config);
    let pattern: Vec<char> = to_chars(key);
    match find_text(&text, &pattern, 0) {
        None => None,
        Some(at) => {
            let start: usize = at + pattern.len();
            let end: usize = match find_text(&text, &pattern, start) {
                Some(next) => next,
                None => text.len(),
            };
            Some(trim(&slice(&text, start, end)))
        },
    }
}

pub struct LogPlugin {
    name: String,
    level: String,
}

impl LogPlugin {
    /// The level at which the plugin logs.
    pub closed spec fn level_text(&self) -> Seq<char> {
        self.level@
    }

    /// A plugin that logs at level `info`.
    pub fn new(name: String) -> (plugin: Self)
        ensures
            plugin.name_text() == name@,
            plugin.level_text() == "info"@,
    {
        LogPlugin { name, level: to_string(&to_chars("info")) }
    }

    pub fn level(&self) -> (level: &str)
        ensures
            level@ == self.level_text(),
    {
        self.level.as_str()
    }
}

impl Plugin for LogPlugin {
    closed spec fn name_text(&self) -> Seq<char> {
        self.name@
    }

    open spec fn report(&self) -> Seq<char> {
        "Logging at "@ + self.level_text() + " level"@
    }

    fn name(&self) -> (name: &str) {
        self.name.as_str()
    }

    fn execute(&self) -> (line: String) {
        let mut out: Vec<char> = Vec::new();
        push_str(&mut out, "Logging at ");
        push_str(&mut out, self.level.as_str());
        push_str(&mut out, " level");
        assert(out@ =~= "Logging at "@ + self.level@ + " level"@);
        to_string(&out)
    }
}

impl Configurable for LogPlugin {
    /// Takes the level from what `config` gives behind `level=`; without
    /// that, nothing changes.
    fn configure(&mut self, config: &str)
        ensures
            final(self).name_text() == old(self).name_text(),
            final(self).level_text() == match setting_of(config@, "level="@) {
                Some(level) => level,
                None => old(self).level_text(),
            },
    {
        match read_setting(config, "level=") {
            Some(level) => {
                self.level = to_string(&level);
            },
            None => {},
        }
    }
}

pub struct MetricsPlugin {
    name: String,
    interval: u32,
}

impl MetricsPlugin {
    /// The seconds between two collections.
    pub closed spec fn interval_seconds(&self) -> u32 {
        self.interval
    }

    pub fn new(name: String, interval: u32) -> (plugin: Self)
        ensures
            plugin.name_text() == name@,
            plugin.interval_seconds() == interval,
    {
        MetricsPlugin { name, interval }
    }

    pub fn interval(&self) -> (interval: u32)
        ensures
            interval == self.interval_seconds(),
    {
        self.interval
    }
}

impl Plugin for MetricsPlugin {
    closed spec fn name_text(&self) -> Seq<char> {
        self.name@
    }

    open spec fn report(&self) -> Seq<char> {
        "Collecting metrics every "@ + decimal_of(self.interval_seconds() as nat) + " seconds"@
    }

    fn name(&self) -> (name: &str) {
        self.name.as_str()
    }

    fn execute(&self) -> (line: String) {
        let mut out: Vec<char> = Vec::new();
        push_str(&mut out, "Collecting metrics every ");
        push_decimal(&mut out, self.interval as u64);
        push_str(&mut out, " seconds");
        assert(out@ =~= "Collecting metrics every "@ + decimal_of(self.interval as nat)
            + " seconds"@);
        to_string(&out)
    }
}

/// The interval that `config` asks for: what it gives behind `interval=`,
/// where that is an unsigned decimal number of 32 bits.
pub open spec fn interval_of(config: Seq<char>) -> Option<u32> {
    match setting_of(config, "interval="@) {
        Some(value) => match unsigned_of(value, u32::MAX as int) {
            Some(n) => Some(n as u32),
            None => None,
        },
        None => None,
    }
}

impl Configurable for MetricsPlugin {
    /// Takes the interval that `config` asks for; without one, nothing
    /// changes.
    fn configure(&mut self, config: &str)
        ensures
            final(self).name_text() == old(self).name_text(),
            final(self).interval_seconds() == match interval_of(config@) {
                Some(interval) => interval,
                None => old(self).interval_seconds(),
            },
    {
        match read_setting(config, "interval=") {
            Some(value) => match parse_unsigned(&value, 4294967295) {
                Some(n) => {
                    self.interval = n as u32;
                },
                None => {},
            },
            None => {},
        }
    }
}

pub struct PluginManager {
    plugins: Vec<Box<dyn Plugin>>,
}

impl PluginManager {
    /// The registered plugins, in the order in which they were registered.
    pub closed spec fn plugins(&self) -> Seq<Box<dyn Plugin>> {
        self.plugins@
    }

    pub fn new() -> (manager: Self)
        ensures
            manager.plugins().len() == 0,
    {
        PluginManager { plugins: Vec::new() }
    }

    pub fn register(&mut self, plugin: Box<dyn Plugin>)
        ensures
            final(self).plugins() == old(self).plugins().push(plugin),
    {
        self.plugins.push(plugin);
    }

    /// Runs every plugin, in order, and returns the lines that they report.
    pub fn run_all(&self) -> (lines: Vec<String>)
        ensures
            lines@.len() == self.plugins().len(),
            forall|i: int| 0 <= i < lines@.len() ==> lines@[i]@ == self.plugins()[i].report(),
    {
        let mut lines: Vec<String> = Vec::new();
        let mut i: usize = 0;
        while i < self.plugins.len()
            invariant
                i <= self.plugins.len(),
                lines@.len() == i,
                forall|k: int| 0 <= k < i ==> lines@[k]@ == self.plugins@[k].report(),
            decreases self.plugins.len() - i,
        {
            let line: String = self.plugins[i].execute();
            lines.push(line);
            i = i + 1;
        }
        lines
    }

    pub fn plugin_count(&self) -> (n: usize)
        ensures
            n == self.plugins().len(),
    {
        self.plugins.len()
    }

    /// The names of the plugins, in order.
    pub fn get_plugin_names(&self) -> (names: Vec<&str>)
        ensures
            names@.len() == self.plugins().len(),
            forall|i: int|
                0 <= i < names@.len() ==> names@[i]@ == self.plugins()[i].name_text(),
    {
        let mut names: Vec<&str> = Vec::new();
        let mut i: usize = 0;
        while i < self.plugins.len()
            invariant
                i <= self.plugins.len(),
                names@.len() == i,
                forall|k: int| 0 <= k < i ==> names@[k]@ == self.plugins@[k].name_text(),
            decreases self.plugins.len() - i,
        {
            let name: &str = self.plugins[i].name();
            names.push(name);
            i = i + 1;
        }
        names
    }
}

} // verus!
