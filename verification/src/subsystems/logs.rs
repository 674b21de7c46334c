//! The `logs/` scope: log entries are zero-byte files named
//! `logs/{timestamp}_({message})`.
use vstd::prelude::*;
use crate::trie::Trie;
use crate::dispatcher::Scope;
use crate::effector::{Effect, EffectView, effects_view};
use crate::strings::concat5;
use crate::subsystems::{FsEvent, FsEventKind, Subsystem};

verus! {

/// The path of the log entry for `message` stamped `stamp`.
pub open spec fn log_path(stamp: Seq<char>, message: Seq<char>) -> Seq<char> {
    "logs/"@ + stamp + "_("@ + message + ")"@
}

/// The subsystem of the `logs/` scope. Log entries cause nothing.
pub struct LogsSubsystem;

impl LogsSubsystem {
    pub fn new() -> (s: LogsSubsystem) {
        LogsSubsystem
    }

    /// The effect that writes a log entry for `message` stamped `stamp`.
    pub fn log_effect_at(stamp: &str, message: &str) -> (e: Effect)
        ensures
            e@ == EffectView::Touch(log_path(stamp@, message@)),
    {
        Effect::Touch { path: concat5("logs/", stamp, "_(", message, ")") }
    }

    /// The effect that writes a log entry for `message`, stamped now.
    pub fn log_effect(message: &str) -> (e: Effect)
        ensures
            exists|stamp: Seq<char>| stamp.len() == 19 && e@ == EffectView::Touch(#[trigger] log_path(stamp, message@)),
    {
        let stamp = crate::clock::utc_stamp();
        let e = Self::log_effect_at(stamp.as_str(), message);
        assert(e@ == EffectView::Touch(log_path(stamp@, message@)));
        e
    }
}

impl Subsystem for LogsSubsystem {
    open spec fn spec_scope(&self) -> Scope {
        Scope::Logs
    }

    /// It answers with no effect.
    open spec fn answers(&self, event: (FsEventKind, Seq<Seq<char>>, Scope), trie: Trie, effects: Seq<EffectView>) -> bool {
        effects.len() == 0
    }

    fn scope(&self) -> (s: Scope) {
        Scope::Logs
    }

    /// A log entry causes no effect.
    fn handle(&self, event: &FsEvent, trie: &Trie) -> (r: Vec<Effect>) {
        Vec::new()
    }
}

} // verus!
