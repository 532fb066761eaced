use vstd::prelude::*;

use crate::dir_state::DirState;
use crate::dir_state::TreeView;
use crate::dir_state::equal_contents;
use crate::dir_state::generally_newer;

verus! {

/// The verdict of holding the app-side snapshot against its mirror.
#[derive(Debug, Clone, Copy, PartialEq, Eq, Structural)]
pub enum SyncResult {
    AlreadySynced,
    AppNewerThanDropbox,
    DropboxNewerThanApp,
    BothEmpty,
    Conflict,
}

/// The sync rules, evaluated in this fixed order: structurally equal trees
/// are already synced; an app side generally newer than the mirror wins;
/// otherwise the mirror wins when it is generally newer, and also when the
/// app side is empty and the mirror is not, since mere emptiness is no
/// ambiguity; two empty trees need nothing; everything else is a conflict
/// for the operator.
pub open spec fn spec_classify(a: TreeView, b: TreeView) -> SyncResult {
    if equal_contents(a, b) {
        SyncResult::AlreadySynced
    } else if generally_newer(a, b) {
        SyncResult::AppNewerThanDropbox
    } else if generally_newer(b, a) || (a.is_empty() && !b.is_empty()) {
        SyncResult::DropboxNewerThanApp
    } else if a.is_empty() && b.is_empty() {
        SyncResult::BothEmpty
    } else {
        SyncResult::Conflict
    }
}

/// The verdict for an app snapshot against its mirror snapshot. The caller
/// performs whatever copying, pruning or asking the verdict calls for.
pub fn classify_sync(app_state: &DirState, dropbox_state: &DirState) -> (r: SyncResult)
    requires
        app_state.wf(),
        dropbox_state.wf(),
    ensures
        r == spec_classify(app_state@, dropbox_state@),
{
    if app_state.are_contents_equal_to(dropbox_state) {
        SyncResult::AlreadySynced
    } else if app_state.are_contents_generally_newer_than(dropbox_state) {
        SyncResult::AppNewerThanDropbox
    } else if dropbox_state.are_contents_generally_newer_than(app_state) || (
    app_state.is_empty() && !dropbox_state.is_empty()) {
        SyncResult::DropboxNewerThanApp
    } else if app_state.is_empty() && dropbox_state.is_empty() {
        SyncResult::BothEmpty
    } else {
        SyncResult::Conflict
    }
}

} // verus!
