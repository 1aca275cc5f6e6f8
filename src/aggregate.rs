//! Per-repository decisions of the aggregation: which backend runs, and
//! which repositories are skipped as stale.
use vstd::prelude::*;
use crate::scanner::{repo_kind, RepoKind};
use crate::window::Window;

verus! {

/// Whether a marker time lies before the window.
pub open spec fn stale(window: Window, mtime: Option<i128>) -> bool {
    mtime matches Some(m) && m < window.start_nanos
}

/// The backend to run on a repository, from the markers it has and their
/// modification times (the native head file, the log marker directory),
/// or `None` where it has no marker or its marker predates the window.
pub fn plan_repository(
    window: &Window,
    has_native_marker: bool,
    has_log_marker: bool,
    native_head_mtime: Option<i128>,
    log_marker_mtime: Option<i128>,
) -> (r: Option<RepoKind>)
    ensures
        r == (if has_native_marker {
            if stale(*window, native_head_mtime) {
                None
            } else {
                Some(RepoKind::NativeFormat)
            }
        } else if has_log_marker {
            if stale(*window, log_marker_mtime) {
                None
            } else {
                Some(RepoKind::LogSubprocess)
            }
        } else {
            None
        }),
{
    match repo_kind(has_native_marker, has_log_marker) {
        Some(RepoKind::NativeFormat) => if window.is_stale(native_head_mtime) {
            None
        } else {
            Some(RepoKind::NativeFormat)
        },
        Some(RepoKind::LogSubprocess) => if window.is_stale(log_marker_mtime) {
            None
        } else {
            Some(RepoKind::LogSubprocess)
        },
        None => None,
    }
}

} // verus!
