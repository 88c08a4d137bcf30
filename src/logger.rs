use vstd::prelude::*;
use std::collections::BTreeMap;
use vstd::utf8::encode_utf8;

verus! {

/// Severity of a log event, from the most severe to the most verbose.
#[derive(Clone, Copy, Debug, PartialEq, Eq, Structural)]
pub enum Level {
    Error,
    Warn,
    Info,
    Debug,
    Trace,
}

/// Rank of a level by verbosity: a more verbose level ranks higher.
pub open spec fn verbosity(level: Level) -> int {
    match level {
        Level::Error => 0,
        Level::Warn => 1,
        Level::Info => 2,
        Level::Debug => 3,
        Level::Trace => 4,
    }
}

/// The rank of `level` by verbosity, see `verbosity`.
pub fn level_rank(level: Level) -> (r: u8)
    ensures
        r == verbosity(level),
{
    match level {
        Level::Error => 0,
        Level::Warn => 1,
        Level::Info => 2,
        Level::Debug => 3,
        Level::Trace => 4,
    }
}

/// A log event as recorded: where it came from, its level, and its fields with
/// their values written out.
#[derive(Clone, Debug)]
pub struct CollectedEvent {
    pub target: String,
    pub level: Level,
    pub fields: BTreeMap<String, String>,
}

impl CollectedEvent {
    pub fn new(target: String, level: Level, fields: BTreeMap<String, String>) -> (r: Self)
        ensures
            r.target == target,
            r.level == level,
            r.fields == fields,
    {
        CollectedEvent { target, level, fields }
    }
}

/// Two recorded events with the same target, level and fields.
pub open spec fn same_event(a: CollectedEvent, b: CollectedEvent) -> bool {
    &&& a.target@ == b.target@
    &&& a.level == b.level
    &&& a.fields@ == b.fields@
}

/// The targets whose events are kept: all of them, or those that start with one
/// of the given prefixes.
#[derive(Clone, Debug)]
pub enum AllowedTargets {
    All,
    Selected(Vec<String>),
}

/// `prefix` is a prefix of `s`.
pub open spec fn is_prefix_of(prefix: Seq<u8>, s: Seq<u8>) -> bool {
    prefix.len() <= s.len() && s.subrange(0, prefix.len() as int) == prefix
}

/// Whether the UTF-8 text of `target` starts with that of `prefix`.
pub fn starts_with(target: &str, prefix: &str) -> (r: bool)
    ensures
        r == is_prefix_of(encode_utf8(prefix@), encode_utf8(target@)),
{
    let t = target.as_bytes();
    let p = prefix.as_bytes();
    if p.len() > t.len() {
        return false;
    }
    let mut i: usize = 0;
    while i < p.len()
        invariant
            p.len() <= t.len(),
            t@ == encode_utf8(target@),
            p@ == encode_utf8(prefix@),
            i <= p.len(),
            forall|j: int| 0 <= j < i ==> t[j] == p[j],
        decreases p.len() - i,
    {
        if t[i] != p[i] {
            assert(t@.subrange(0, p@.len() as int)[i as int] != p@[i as int]);
            return false;
        }
        i += 1;
    }
    assert(t@.subrange(0, p@.len() as int) =~= p@);
    true
}

/// Events from `target` are kept under `allowed`.
pub open spec fn target_allowed(allowed: AllowedTargets, target: String) -> bool {
    match allowed {
        AllowedTargets::All => true,
        AllowedTargets::Selected(selection) => exists|k: int|
            0 <= k < selection@.len() && is_prefix_of(
                encode_utf8((#[trigger] selection@[k])@),
                encode_utf8(target@),
            ),
    }
}

/// Collects the log events that pass a level and a target filter, in the order
/// in which they come.
pub struct EventCollector {
    pub allowed_targets: AllowedTargets,
    pub level: Level,
    pub events: Vec<CollectedEvent>,
}

impl EventCollector {
    /// A collector that keeps every event, at every level.
    pub fn new() -> (r: Self)
        ensures
            r.allowed_targets == AllowedTargets::All,
            r.level == Level::Trace,
            r.events@.len() == 0,
    {
        EventCollector { allowed_targets: AllowedTargets::All, level: Level::Trace, events: Vec::new() }
    }

    /// The same collector, keeping events at most as verbose as `level`.
    pub fn with_level(self, level: Level) -> (r: Self)
        ensures
            r.level == level,
            r.allowed_targets == self.allowed_targets,
            r.events == self.events,
    {
        EventCollector { level, ..self }
    }

    /// The same collector, keeping events from the targets that `allowed_targets` allows.
    pub fn allowed_targets(self, allowed_targets: AllowedTargets) -> (r: Self)
        ensures
            r.allowed_targets == allowed_targets,
            r.level == self.level,
            r.events == self.events,
    {
        EventCollector { allowed_targets, ..self }
    }

    /// Whether an event from `target` at `level` is kept.
    pub fn admits(&self, target: &String, level: Level) -> (r: bool)
        ensures
            r == (verbosity(level) <= verbosity(self.level) && target_allowed(self.allowed_targets, *target)),
    {
        if level_rank(level) > level_rank(self.level) {
            return false;
        }
        match &self.allowed_targets {
            AllowedTargets::All => true,
            AllowedTargets::Selected(selection) => {
                let mut k: usize = 0;
                while k < selection.len()
                    invariant
                        k <= selection@.len(),
                        self.allowed_targets == AllowedTargets::Selected(*selection),
                        verbosity(level) <= verbosity(self.level),
                        forall|j: int|
                            0 <= j < k ==> !is_prefix_of(
                                encode_utf8((#[trigger] selection@[j])@),
                                encode_utf8(target@),
                            ),
                    decreases selection@.len() - k,
                {
                    if starts_with(target.as_str(), selection[k].as_str()) {
                        assert(is_prefix_of(encode_utf8(selection@[k as int]@), encode_utf8(target@)));
                        assert(self.allowed_targets->Selected_0@[k as int] == selection@[k as int]);
                        return true;
                    }
                    k += 1;
                }
                false
            },
        }
    }

    /// Keeps `event` when the filters admit it, after those kept before.
    pub fn collect(&mut self, event: CollectedEvent)
        ensures
            final(self).allowed_targets == old(self).allowed_targets,
            final(self).level == old(self).level,
            final(self).events@ == if verbosity(event.level) <= verbosity(old(self).level)
                && target_allowed(old(self).allowed_targets, event.target) {
                old(self).events@.push(event)
            } else {
                old(self).events@
            },
    {
        if self.admits(&event.target, event.level) {
            self.events.push(event);
        }
    }

    /// A copy of the events kept so far, in order.
    pub fn events(&self) -> (r: Vec<CollectedEvent>)
        ensures
            r@.len() == self.events@.len(),
            forall|k: int| 0 <= k < r@.len() ==> same_event(#[trigger] r@[k], self.events@[k]),
    {
        let mut r: Vec<CollectedEvent> = Vec::new();
        let mut k: usize = 0;
        while k < self.events.len()
            invariant
                k <= self.events@.len(),
                r@.len() == k,
                forall|j: int| 0 <= j < k ==> same_event(#[trigger] r@[j], self.events@[j]),
            decreases self.events@.len() - k,
        {
            let e = &self.events[k];
            r.push(CollectedEvent { target: e.target.clone(), level: e.level, fields: e.fields.clone() });
            k += 1;
        }
        r
    }

    /// Forgets the events kept so far.
    pub fn clear(&mut self)
        ensures
            final(self).allowed_targets == old(self).allowed_targets,
            final(self).level == old(self).level,
            final(self).events@.len() == 0,
    {
        self.events = Vec::new();
    }
}

} // verus!
