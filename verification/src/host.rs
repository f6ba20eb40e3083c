//! The host state that plugins reach through the host API: named counters
//! and a log, and the example announcer plugin that uses them.
use vstd::prelude::*;
use crate::strmap::StrMap;

verus! {

/// `a + b`, capped at `u32::MAX`.
pub open spec fn saturating_add(a: u32, b: u32) -> u32 {
    if a + b > u32::MAX {
        u32::MAX
    } else {
        (a + b) as u32
    }
}

/// The value a counter has, counting a missing counter as zero.
pub open spec fn counter_value(counters: Map<Seq<char>, u32>, key: Seq<char>) -> u32 {
    if counters.contains_key(key) {
        counters[key]
    } else {
        0
    }
}

pub struct HostState {
    counters: StrMap<u32>,
    log_lines: Vec<String>,
}

impl HostState {
    pub closed spec fn wf(&self) -> bool {
        self.counters.wf()
    }

    /// The counters: name -> value.
    pub closed spec fn counters(&self) -> Map<Seq<char>, u32> {
        self.counters@
    }

    /// The logged messages, oldest first.
    pub closed spec fn log_lines(&self) -> Seq<Seq<char>> {
        self.log_lines@.map_values(|s: String| s@)
    }

    pub fn new() -> (h: Self)
        ensures
            h.wf(),
            h.counters() == Map::<Seq<char>, u32>::empty(),
            h.log_lines() == Seq::<Seq<char>>::empty(),
    {
        let h = HostState { counters: StrMap::new(), log_lines: Vec::new() };
        assert(h.log_lines() =~= Seq::<Seq<char>>::empty());
        h
    }

    /// Append a message to the log.
    pub fn log(&mut self, message: &str)
        requires
            old(self).wf(),
        ensures
            final(self).wf(),
            final(self).counters() == old(self).counters(),
            final(self).log_lines() == old(self).log_lines().push(message@),
    {
        self.log_lines.push(message.to_owned());
        assert(self.log_lines() =~= old(self).log_lines().push(message@));
    }

    /// The logged messages, oldest first.
    pub fn logged(&self) -> (lines: &Vec<String>)
        ensures
            lines@.map_values(|s: String| s@) == self.log_lines(),
    {
        &self.log_lines
    }

    /// The number of counters.
    pub fn counter_len(&self) -> (n: u64)
        requires
            self.wf(),
        ensures
            n == self.counters().dom().len(),
    {
        self.counters.len() as u64
    }

    /// The value of a counter, if it exists.
    pub fn get_counter(&self, key: &str) -> (v: Option<u32>)
        requires
            self.wf(),
        ensures
            v is None <==> !self.counters().contains_key(key@),
            v matches Some(x) ==> x == self.counters()[key@],
    {
        match self.counters.get(key) {
            None => None,
            Some(v) => Some(*v),
        }
    }

    /// Set a counter, returning its previous value.
    pub fn insert_counter(&mut self, key: &str, value: u32) -> (prev: Option<u32>)
        requires
            old(self).wf(),
        ensures
            final(self).wf(),
            final(self).counters() == old(self).counters().insert(key@, value),
            final(self).log_lines() == old(self).log_lines(),
            prev is None <==> !old(self).counters().contains_key(key@),
            prev matches Some(x) ==> x == old(self).counters()[key@],
    {
        self.counters.insert(key.to_owned(), value)
    }

    /// Add `amount` to a counter (created at zero if missing), saturating at
    /// `u32::MAX`; returns the new value.
    pub fn increment_counter(&mut self, key: &str, amount: u32) -> (v: u32)
        requires
            old(self).wf(),
        ensures
            final(self).wf(),
            v == saturating_add(counter_value(old(self).counters(), key@), amount),
            final(self).counters() == old(self).counters().insert(key@, v),
            final(self).log_lines() == old(self).log_lines(),
    {
        let current = match self.counters.get(key) {
            None => 0,
            Some(c) => *c,
        };
        let v = current.saturating_add(amount);
        self.counters.insert(key.to_owned(), v);
        v
    }
}

/// Reading a counter gives back what was last written to it.
pub proof fn lemma_counter_read_after_write(h: HostState, key: Seq<char>, value: u32, other: Seq<char>)
    requires
        h.wf(),
    ensures
        counter_value(h.counters().insert(key, value), key) == value,
        other != key ==> counter_value(h.counters().insert(key, value), other) == counter_value(
            h.counters(),
            other,
        ),
{
}

/// The example announcer plugin: counts the callbacks it receives and
/// reports them to the host.
pub struct AnnouncerPlugin {
    pub starts_seen: u32,
    pub joins_seen: u32,
}

impl AnnouncerPlugin {
    pub fn new() -> (p: Self)
        ensures
            p.starts_seen == 0,
            p.joins_seen == 0,
    {
        AnnouncerPlugin { starts_seen: 0, joins_seen: 0 }
    }

    /// The plugin's name.
    pub fn name(&self) -> (n: &'static str)
        ensures
            n@ == "announcer"@,
    {
        "announcer"
    }

    /// On server start: count it, log it to the host and bump the host's
    /// `server_starts` counter; returns how many starts this plugin has seen.
    pub fn on_server_start(&mut self, host: &mut HostState, ticks: u64) -> (r: u32)
        requires
            old(host).wf(),
        ensures
            final(host).wf(),
            final(self).starts_seen == saturating_add(old(self).starts_seen, 1),
            final(self).joins_seen == old(self).joins_seen,
            r == final(self).starts_seen,
            final(host).log_lines() == old(host).log_lines().push("announcer observed server start"@),
            final(host).counters() == old(host).counters().insert(
                "server_starts"@,
                saturating_add(counter_value(old(host).counters(), "server_starts"@), 1),
            ),
    {
        self.starts_seen = self.starts_seen.saturating_add(1);
        host.log("announcer observed server start");
        host.increment_counter("server_starts", 1);
        self.starts_seen
    }

    /// On player join: count it, log it to the host, bump the host's counter
    /// for that player and its `player_joins` counter; returns the total joins.
    pub fn on_player_join(&mut self, host: &mut HostState, player: &str) -> (r: u32)
        requires
            old(host).wf(),
        ensures
            final(host).wf(),
            final(self).joins_seen == saturating_add(old(self).joins_seen, 1),
            final(self).starts_seen == old(self).starts_seen,
            final(host).log_lines() == old(host).log_lines().push("announcer observed player join"@),
            ({
                let after_player = old(host).counters().insert(
                    player@,
                    saturating_add(counter_value(old(host).counters(), player@), 1),
                );
                &&& r == saturating_add(counter_value(after_player, "player_joins"@), 1)
                &&& final(host).counters() == after_player.insert("player_joins"@, r)
            }),
    {
        self.joins_seen = self.joins_seen.saturating_add(1);
        host.log("announcer observed player join");
        host.increment_counter(player, 1);
        host.increment_counter("player_joins", 1)
    }
}

/// The example file name of a plugin library on the given target OS.
pub open spec fn library_hint_of(target_os: Seq<char>) -> Seq<char> {
    if target_os == "windows"@ {
        "your_plugin.dll"@
    } else if target_os == "macos"@ {
        "libyour_plugin.dylib"@
    } else {
        "libyour_plugin.so"@
    }
}

/// The example plugin library name shown in the usage message.
pub fn plugin_library_hint(target_os: &str) -> (hint: &'static str)
    ensures
        hint@ == library_hint_of(target_os@),
{
    let os = target_os.to_owned();
    if os == String::from_str("windows") {
        "your_plugin.dll"
    } else if os == String::from_str("macos") {
        "libyour_plugin.dylib"
    } else {
        "libyour_plugin.so"
    }
}

/// A file extension of a dynamic library that may hold a plugin.
pub open spec fn is_library_extension(ext: Seq<char>) -> bool {
    ext == "so"@ || ext == "dll"@ || ext == "dylib"@
}

/// Whether a file with this extension is loaded as a plugin.
pub fn is_plugin_extension(ext: &str) -> (r: bool)
    ensures
        r == is_library_extension(ext@),
{
    let e = ext.to_owned();
    e == String::from_str("so") || e == String::from_str("dll") || e == String::from_str("dylib")
}

/// Saturating addition is the sum when it fits in a `u32` and `u32::MAX`
/// otherwise; a missing counter counts as zero.
pub proof fn lemma_counter_arithmetic(a: u32, b: u32, counters: Map<Seq<char>, u32>, key: Seq<char>)
    ensures
        a + b <= u32::MAX ==> saturating_add(a, b) == a + b,
        a + b > u32::MAX ==> saturating_add(a, b) == u32::MAX,
        saturating_add(a, b) >= a,
        counters.contains_key(key) ==> counter_value(counters, key) == counters[key],
        !counters.contains_key(key) ==> counter_value(counters, key) == 0,
{
}

/// The library hint is the `.dll` name on Windows, the `.dylib` name on
/// macOS and the `.so` name elsewhere; plugin libraries are the files ending
/// in `so`, `dll` or `dylib`.
pub proof fn lemma_library_names(target_os: Seq<char>, ext: Seq<char>)
    ensures
        target_os == "windows"@ ==> library_hint_of(target_os) == "your_plugin.dll"@,
        target_os == "macos"@ ==> library_hint_of(target_os) == "libyour_plugin.dylib"@,
        target_os != "windows"@ && target_os != "macos"@ ==> library_hint_of(target_os)
            == "libyour_plugin.so"@,
        is_library_extension(ext) <==> (ext == "so"@ || ext == "dll"@ || ext == "dylib"@),
{
    reveal_strlit("windows");
    reveal_strlit("macos");
    assert("windows"@[0] != "macos"@[0]);
}

} // verus!
