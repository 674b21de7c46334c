//! Screening of raw filesystem notifications into watch events.
use vstd::prelude::*;
use crate::parser::{components, path_components, strip_components};
use crate::strings::{join_seq, join_strings, owned, starts_with_char, str_eq, strings_view};
use crate::effector::PendingSet;
use crate::subsystems::FsEventKind;

verus! {

/// A screened filesystem event, ready for dispatch.
#[derive(Debug, Clone)]
pub struct WatchEvent {
    /// The kind of change.
    pub kind: FsEventKind,
    /// The path relative to the filesystem root, `/`-separated.
    pub relative_path: String,
    /// The absolute path.
    pub absolute_path: String,
}

/// The categories of a raw notification.
#[derive(Debug, Clone, Copy, PartialEq, Eq, Structural)]
pub enum RawEventKind {
    /// Something was created.
    Create,
    /// Something was removed.
    Remove,
    /// Something was renamed.
    Rename,
    /// Content or metadata was modified.
    Modify,
    /// Access or anything else.
    Other,
}

/// The event kind of a raw notification: creation and modification assert,
/// removal retracts, renaming transforms, anything else is ignored.
pub open spec fn kind_of(raw: RawEventKind) -> Option<FsEventKind> {
    match raw {
        RawEventKind::Create => Some(FsEventKind::Assert),
        RawEventKind::Remove => Some(FsEventKind::Retract),
        RawEventKind::Rename => Some(FsEventKind::Transform),
        RawEventKind::Modify => Some(FsEventKind::Assert),
        RawEventKind::Other => None,
    }
}

/// Classify a raw notification.
pub fn classify_raw(raw: RawEventKind) -> (r: Option<FsEventKind>)
    ensures
        r == kind_of(raw),
{
    match raw {
        RawEventKind::Create => Some(FsEventKind::Assert),
        RawEventKind::Remove => Some(FsEventKind::Retract),
        RawEventKind::Rename => Some(FsEventKind::Transform),
        RawEventKind::Modify => Some(FsEventKind::Assert),
        RawEventKind::Other => None,
    }
}

/// The final component of a path, as `Path::file_name` gives it: none for
/// an empty path, the root, `.` or `..`.
pub open spec fn file_name(p: Seq<char>) -> Option<Seq<char>> {
    let cs = path_components(p);
    if cs.len() > 0 && cs.last() != seq!['/'] && cs.last() != seq!['.'] && cs.last() != seq!['.', '.'] {
        Some(cs.last())
    } else {
        None
    }
}

/// What a notification of kind `raw` on the absolute path `abs` becomes:
/// nothing for an ignored kind, a dotfile, or a path outside the root;
/// otherwise the event with the path relative to the root.
pub open spec fn screened(raw: RawEventKind, abs: Seq<char>, fs_root: Seq<char>) -> Option<(FsEventKind, Seq<char>)> {
    let cs = path_components(abs);
    let root = path_components(fs_root);
    if kind_of(raw) is None {
        None
    } else if file_name(abs) matches Some(n) && n.len() > 0 && n[0] == '.' {
        None
    } else if !crate::strings::is_prefix(root, cs) {
        None
    } else {
        Some((kind_of(raw)->0, join_seq(cs.skip(root.len() as int), seq!['/'])))
    }
}

/// Screen a notification on the absolute path `abs`. Whether the engine
/// itself caused the change is decided afterwards, against the effector's
/// pending set.
pub fn screen_event(raw: RawEventKind, abs: &str, fs_root: &str) -> (r: Option<WatchEvent>)
    ensures
        match screened(raw, abs@, fs_root@) {
            Some((k, rel)) => r matches Some(w) && w.kind == k && w.relative_path@ == rel && w.absolute_path@ == abs@,
            None => r is None,
        },
{
    let kind = match classify_raw(raw) {
        Some(k) => k,
        None => {
            return None;
        },
    };
    let cs = components(abs);
    let root = components(fs_root);
    let ghost csv = strings_view(cs@);
    let ghost rootv = strings_view(root@);
    proof {
        reveal_strlit("/");
        reveal_strlit(".");
        reveal_strlit("..");
        assert("/"@ =~= seq!['/']);
        assert("."@ =~= seq!['.']);
        assert(".."@ =~= seq!['.', '.']);
    }
    if cs.len() > 0 {
        let last = cs[cs.len() - 1].as_str();
        assert(csv.last() == last@);
        let is_name = !str_eq(last, "/") && !str_eq(last, ".") && !str_eq(last, "..");
        assert(is_name == (file_name(abs@) is Some));
        if is_name && starts_with_char(last, '.') {
            return None;
        }
    }
    assert(!(file_name(abs@) matches Some(n) && n.len() > 0 && n[0] == '.'));
    if root.len() > cs.len() {
        return None;
    }
    let mut i: usize = 0;
    while i < root.len()
        invariant
            csv == strings_view(cs@),
            rootv == strings_view(root@),
            csv == path_components(abs@),
            rootv == path_components(fs_root@),
            kind_of(raw) == Some(kind),
            !(file_name(abs@) matches Some(n) && n.len() > 0 && n[0] == '.'),
            root@.len() <= cs@.len(),
            i <= root@.len(),
            forall|j: int| 0 <= j < i ==> csv[j] == rootv[j],
        decreases root@.len() - i,
    {
        if !str_eq(cs[i].as_str(), root[i].as_str()) {
            assert(csv.subrange(0, rootv.len() as int)[i as int] != rootv[i as int]);
            return None;
        }
        i += 1;
    }
    assert(csv.subrange(0, rootv.len() as int) =~= rootv);
    let relative = crate::strings::join_tail(cs.as_slice(), root.len(), "/");
    Some(WatchEvent { kind, relative_path: relative, absolute_path: owned(abs) })
}

/// Admit a notification on the absolute path `abs`: screen it, then pass
/// over it when the engine caused it, that is when `abs` is in `pending`
/// (the effector's pending set, as its lock holder has it), consuming the
/// entry. Otherwise the screened event comes out and the set is unchanged.
pub fn admit_event(pending: &mut PendingSet, raw: RawEventKind, abs: &str, fs_root: &str) -> (r: Option<WatchEvent>)
    ensures
        match screened(raw, abs@, fs_root@) {
            None => r is None && final(pending)@ == old(pending)@,
            Some((k, rel)) => if old(pending)@.contains(abs@) {
                r is None && final(pending)@ == old(pending)@.remove(abs@)
            } else {
                r matches Some(w) && w.kind == k && w.relative_path@ == rel && w.absolute_path@ == abs@
                    && final(pending)@ == old(pending)@
            },
        },
{
    let event = match screen_event(raw, abs, fs_root) {
        Some(e) => e,
        None => {
            return None;
        },
    };
    if pending.remove(abs) {
        None
    } else {
        assert(old(pending)@.remove(abs@) =~= old(pending)@);
        Some(event)
    }
}

} // verus!
