//! The change router: one filesystem event in, at most one notification out.
//!
//! The router owns no state of its own: it drives the aggregate store from
//! plain change events and returns the summary string to display, or `None`
//! when nothing should be shown. Reading the file's bytes and delivering the
//! notification are the caller's outside work.

use vstd::prelude::*;

use crate::formatter::spec_message;
use crate::formatter::test_report_message;
use crate::parser::read_test_suites_from_report;
use crate::parser::spec_suites_of;
use crate::parser::xml_tokens;
use crate::store::AggregateStore;
use crate::suite::SuiteView;

verus! {

/// One debounced filesystem change event, with the changed file's bytes
/// already read by the caller: `content` is `None` when the file could not
/// be opened, and absent for events that need no re-parse.
pub enum WatchEvent {
    /// A file appeared under `path`.
    Created { path: String, content: Option<Vec<u8>> },
    /// The file at `path` was written to.
    Modified { path: String, content: Option<Vec<u8>> },
    /// The file at `path` is gone.
    Removed { path: String },
    /// The file moved from `old_path` to `new_path`; `content` holds the
    /// bytes now at `new_path`.
    Renamed { old_path: String, new_path: String, content: Option<Vec<u8>> },
    /// Any other kind of event; ignored.
    Other,
}

/// Re-derives `path`'s contribution to the aggregate from the file's current
/// bytes and returns the new summary to display. When the bytes could not be
/// read (`content` is `None`), the aggregate is left unchanged and nothing
/// is emitted; a parse that stops early still replaces the entry with
/// whatever was read before the stop.
pub fn update_path_and_notify(
    store: &mut AggregateStore,
    path: String,
    content: Option<Vec<u8>>,
) -> (r: Option<String>)
    requires
        old(store).wf(),
    ensures
        final(store).wf(),
        content matches Some(bytes) ==> final(store)@ =~= old(store)@.insert(
            path@,
            spec_suites_of(xml_tokens(bytes@)),
        ) && (r matches Some(m) && m@ == spec_message(final(store).flat())),
        content is None ==> final(store)@ == old(store)@ && r is None,
{
    match content {
        Some(bytes) => {
            let suites = read_test_suites_from_report(bytes.as_slice());
            store.upsert(path, suites);
            let all = store.all_suites();
            Some(test_report_message(&all))
        },
        None => None,
    }
}

/// Routes one change event: re-parses on creation and modification, drops
/// the entry on removal, re-keys on a rename, and ignores everything else.
/// Returns the summary to display, or `None` when nothing should be shown;
/// in particular an aggregate left empty emits nothing.
pub fn route_event(store: &mut AggregateStore, event: WatchEvent) -> (r: Option<String>)
    requires
        old(store).wf(),
    ensures
        final(store).wf(),
        match event {
            WatchEvent::Created { path, content } => match content {
                Some(bytes) => final(store)@ =~= old(store)@.insert(
                    path@,
                    spec_suites_of(xml_tokens(bytes@)),
                ) && (r matches Some(m) && m@ == spec_message(final(store).flat())),
                None => final(store)@ == old(store)@ && r is None,
            },
            WatchEvent::Modified { path, content } => match content {
                Some(bytes) => final(store)@ =~= old(store)@.insert(
                    path@,
                    spec_suites_of(xml_tokens(bytes@)),
                ) && (r matches Some(m) && m@ == spec_message(final(store).flat())),
                None => final(store)@ == old(store)@ && r is None,
            },
            WatchEvent::Removed { path } => final(store)@ =~= old(store)@.remove(path@) && (!old(
                store,
            )@.contains_key(path@) ==> final(store)@ =~= old(store)@) && (if final(store)@ =~= Map::<
                Seq<char>,
                Seq<SuiteView>,
            >::empty() {
                r is None
            } else {
                r matches Some(m) && m@ == spec_message(final(store).flat())
            }),
            WatchEvent::Renamed { old_path, new_path, content } => match content {
                Some(bytes) => final(store)@ =~= old(store)@.remove(old_path@).insert(
                    new_path@,
                    spec_suites_of(xml_tokens(bytes@)),
                ) && (r matches Some(m) && m@ == spec_message(final(store).flat())),
                None => final(store)@ =~= old(store)@.remove(old_path@) && r is None,
            },
            WatchEvent::Other => final(store)@ == old(store)@ && r is None,
        },
{
    match event {
        WatchEvent::Created { path, content } => update_path_and_notify(store, path, content),
        WatchEvent::Modified { path, content } => update_path_and_notify(store, path, content),
        WatchEvent::Removed { path } => {
            store.remove(path.as_str());
            if store.is_empty() {
                None
            } else {
                let all = store.all_suites();
                Some(test_report_message(&all))
            }
        },
        WatchEvent::Renamed { old_path, new_path, content } => {
            store.remove(old_path.as_str());
            update_path_and_notify(store, new_path, content)
        },
        WatchEvent::Other => None,
    }
}

} // verus!
