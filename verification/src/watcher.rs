//! What the content watcher does with the events it receives.

use vstd::prelude::*;

verus! {

/// An event of the file watcher.
pub enum WatchEvent {
    Chmod(String),
    Create(String),
    Remove(String),
    Write(String),
    /// A rename, from the first path to the second.
    Rename(String, String),
    /// Any other event.
    Other,
}

/// The content path that an event changes: the path of a permission change,
/// a creation, a removal or a write, the new path of a rename; `None` for
/// other events.
pub fn changed_path(event: WatchEvent) -> (r: Option<String>)
    ensures
        event matches WatchEvent::Chmod(p) ==> r == Some(p),
        event matches WatchEvent::Create(p) ==> r == Some(p),
        event matches WatchEvent::Remove(p) ==> r == Some(p),
        event matches WatchEvent::Write(p) ==> r == Some(p),
        event matches WatchEvent::Rename(_, p) ==> r == Some(p),
        event is Other ==> r is None,
{
    match event {
        WatchEvent::Chmod(p) => Some(p),
        WatchEvent::Create(p) => Some(p),
        WatchEvent::Remove(p) => Some(p),
        WatchEvent::Write(p) => Some(p),
        WatchEvent::Rename(_, p) => Some(p),
        WatchEvent::Other => None,
    }
}

/// Reacts to a change of the content at `path`: nothing is done yet.
pub fn on_content_change(path: String) {
}

} // verus!
