//! How an open request stands to the file that it was read from.
use crate::document_store::{DocumentStore, StoreView};
use crate::domain::{HttpRequest, RequestView};
use crate::fingerprint::FileFingerprint;
use crate::message::{concat2, concat3, concat4};
use crate::reconcile::{reason_text, ExternalChangeReason, ReasonView};
use crate::text::optional_text;
use vstd::prelude::*;

verus! {

/// A version of a request that was found on disk and not taken over yet.
#[derive(Debug, PartialEq, Eq)]
pub struct PendingExternalDocument {
    pub store: DocumentStore,
    pub request: HttpRequest,
    pub fingerprint: FileFingerprint,
    pub reason: ExternalChangeReason,
}

/// A version of a request that was found on disk, by its contents.
pub struct PendingView {
    pub store: StoreView,
    pub request: RequestView,
    pub fingerprint: u64,
    pub reason: ReasonView,
}

impl View for PendingExternalDocument {
    type V = PendingView;

    open spec fn view(&self) -> PendingView {
        PendingView {
            store: self.store@,
            request: self.request@,
            fingerprint: self.fingerprint.number(),
            reason: self.reason@,
        }
    }
}

impl PendingExternalDocument {
    /// The same version.
    pub fn copy(&self) -> (r: PendingExternalDocument)
        ensures
            r@ == self@,
    {
        PendingExternalDocument {
            store: self.store.copy(),
            request: self.request.copy(),
            fingerprint: self.fingerprint,
            reason: self.reason.copy(),
        }
    }
}

/// How an open request stands to its file.
#[derive(Debug, PartialEq, Eq)]
pub enum RequestExternalState {
    InSync,
    /// The file is being read because something happened to it.
    Checking { reason: ExternalChangeReason },
    /// The file holds another version, and nothing would be lost by taking it over.
    ReloadAvailable(PendingExternalDocument),
    /// The file holds another version, and there are unsaved changes.
    Conflict(PendingExternalDocument),
    /// The file is gone.
    Missing { message: String, conflict: bool },
    /// The file could not be read.
    Failed { message: String, conflict: bool },
}

/// How an open request stands to its file, by its contents.
pub enum ExternalView {
    InSync,
    Checking { reason: ReasonView },
    ReloadAvailable(PendingView),
    Conflict(PendingView),
    Missing { message: Seq<char>, conflict: bool },
    Failed { message: Seq<char>, conflict: bool },
}

impl View for RequestExternalState {
    type V = ExternalView;

    open spec fn view(&self) -> ExternalView {
        match self {
            RequestExternalState::InSync => ExternalView::InSync,
            RequestExternalState::Checking { reason } => ExternalView::Checking { reason: reason@ },
            RequestExternalState::ReloadAvailable(p) => ExternalView::ReloadAvailable(p@),
            RequestExternalState::Conflict(p) => ExternalView::Conflict(p@),
            RequestExternalState::Missing { message, conflict } => ExternalView::Missing {
                message: message@,
                conflict: *conflict,
            },
            RequestExternalState::Failed { message, conflict } => ExternalView::Failed {
                message: message@,
                conflict: *conflict,
            },
        }
    }
}

/// Why the request may not be saved, if it may not.
pub open spec fn save_refusal(state: ExternalView) -> Option<Seq<char>> {
    match state {
        ExternalView::InSync => None,
        ExternalView::Checking { .. } => Some(
            "the request is being checked after an external workspace change"@,
        ),
        ExternalView::ReloadAvailable(_) => Some(
            "a newer disk version is available; reload it before saving"@,
        ),
        ExternalView::Conflict(_) => Some(
            "the request changed externally while local edits were present; reload the disk version or preserve the local content elsewhere before saving"@,
        ),
        ExternalView::Missing { message, .. } => Some(message),
        ExternalView::Failed { message, .. } => Some(message),
    }
}

/// What is told of a request that does not stand well to its file.
#[derive(Clone, Debug, PartialEq, Eq)]
pub struct ExternalBanner {
    pub message: String,
    pub conflict: bool,
    pub reload_label: Option<String>,
}

/// What is told of a request that does not stand well to its file, by its contents.
pub struct BannerView {
    pub message: Seq<char>,
    pub conflict: bool,
    pub reload_label: Option<Seq<char>>,
}

impl View for ExternalBanner {
    type V = BannerView;

    open spec fn view(&self) -> BannerView {
        BannerView {
            message: self.message@,
            conflict: self.conflict,
            reload_label: optional_text(self.reload_label),
        }
    }
}

/// What is told of how a request stands to its file, if anything.
pub open spec fn banner_of(state: ExternalView) -> Option<BannerView> {
    match state {
        ExternalView::InSync => None,
        ExternalView::Checking { reason } => Some(
            BannerView {
                message: "Checking disk state because "@ + reason_text(reason) + "."@,
                conflict: false,
                reload_label: None,
            },
        ),
        ExternalView::ReloadAvailable(p) => Some(
            BannerView {
                message: reason_text(p.reason) + "; a newer version is available at "@
                    + p.store.path + "."@,
                conflict: false,
                reload_label: Some("Reload from disk"@),
            },
        ),
        ExternalView::Conflict(p) => Some(
            BannerView {
                message: reason_text(p.reason)
                    + "; local edits were preserved and the disk version at "@ + p.store.path
                    + " was not applied."@,
                conflict: true,
                reload_label: Some("Discard local edits and reload"@),
            },
        ),
        ExternalView::Missing { message, conflict } => Some(
            BannerView {
                message: if conflict {
                    message + " Resolve the conflict before saving."@
                } else {
                    message
                },
                conflict,
                reload_label: None,
            },
        ),
        ExternalView::Failed { message, conflict } => Some(
            BannerView {
                message: if conflict {
                    message + ". Local edits remain in memory."@
                } else {
                    message
                },
                conflict,
                reload_label: None,
            },
        ),
    }
}

/// How the request stands to its file once it is edited: what could have been taken over is in
/// conflict now.
pub open spec fn after_edit(state: ExternalView) -> ExternalView {
    match state {
        ExternalView::ReloadAvailable(p) => ExternalView::Conflict(p),
        other => other,
    }
}

/// How the request stands to its file when that is gone.
pub open spec fn gone(reason: ReasonView, path: Seq<char>, unsaved: bool) -> ExternalView {
    ExternalView::Missing {
        message: reason_text(reason) + ": "@ + path + "."@ + (if unsaved {
            " Local edits remain in memory and were not overwritten."@
        } else {
            seq![]
        }),
        conflict: unsaved,
    }
}

impl RequestExternalState {
    /// The same state.
    pub fn copy(&self) -> (r: RequestExternalState)
        ensures
            r@ == self@,
    {
        match self {
            RequestExternalState::InSync => RequestExternalState::InSync,
            RequestExternalState::Checking { reason } => RequestExternalState::Checking {
                reason: reason.copy(),
            },
            RequestExternalState::ReloadAvailable(p) => RequestExternalState::ReloadAvailable(
                p.copy(),
            ),
            RequestExternalState::Conflict(p) => RequestExternalState::Conflict(p.copy()),
            RequestExternalState::Missing { message, conflict } => RequestExternalState::Missing {
                message: message.clone(),
                conflict: *conflict,
            },
            RequestExternalState::Failed { message, conflict } => RequestExternalState::Failed {
                message: message.clone(),
                conflict: *conflict,
            },
        }
    }

    /// Why the request may not be saved, if it may not.
    pub fn blocks_save(&self) -> (r: Option<String>)
        ensures
            optional_text(r) == save_refusal(self@),
    {
        match self {
            RequestExternalState::InSync => None,
            RequestExternalState::Checking { .. } => Some(
                "the request is being checked after an external workspace change".to_owned(),
            ),
            RequestExternalState::ReloadAvailable(_) => Some(
                "a newer disk version is available; reload it before saving".to_owned(),
            ),
            RequestExternalState::Conflict(_) => Some(
                "the request changed externally while local edits were present; reload the disk version or preserve the local content elsewhere before saving".to_owned(),
            ),
            RequestExternalState::Missing { message, .. } => Some(message.clone()),
            RequestExternalState::Failed { message, .. } => Some(message.clone()),
        }
    }

    /// Whether the request does not stand well to its file.
    pub fn has_attention(&self) -> (r: bool)
        ensures
            r == !(self@ is InSync),
    {
        match self {
            RequestExternalState::InSync => false,
            _ => true,
        }
    }

    /// What is told of how the request stands to its file, if anything.
    pub fn banner(&self) -> (r: Option<ExternalBanner>)
        ensures
            match r {
                Some(b) => banner_of(self@) == Some(b@),
                None => banner_of(self@) is None,
            },
    {
        match self {
            RequestExternalState::InSync => None,
            RequestExternalState::Checking { reason } => Some(
                ExternalBanner {
                    message: concat3(
                        "Checking disk state because ",
                        reason.summary().as_str(),
                        ".",
                    ),
                    conflict: false,
                    reload_label: None,
                },
            ),
            RequestExternalState::ReloadAvailable(p) => Some(
                ExternalBanner {
                    message: concat4(
                        p.reason.summary().as_str(),
                        "; a newer version is available at ",
                        p.store.path().as_text(),
                        ".",
                    ),
                    conflict: false,
                    reload_label: Some("Reload from disk".to_owned()),
                },
            ),
            RequestExternalState::Conflict(p) => Some(
                ExternalBanner {
                    message: concat4(
                        p.reason.summary().as_str(),
                        "; local edits were preserved and the disk version at ",
                        p.store.path().as_text(),
                        " was not applied.",
                    ),
                    conflict: true,
                    reload_label: Some("Discard local edits and reload".to_owned()),
                },
            ),
            RequestExternalState::Missing { message, conflict } => Some(
                ExternalBanner {
                    message: if *conflict {
                        concat2(message.as_str(), " Resolve the conflict before saving.")
                    } else {
                        message.clone()
                    },
                    conflict: *conflict,
                    reload_label: None,
                },
            ),
            RequestExternalState::Failed { message, conflict } => Some(
                ExternalBanner {
                    message: if *conflict {
                        concat2(message.as_str(), ". Local edits remain in memory.")
                    } else {
                        message.clone()
                    },
                    conflict: *conflict,
                    reload_label: None,
                },
            ),
        }
    }

    /// The request is edited.
    pub fn edited(self) -> (r: RequestExternalState)
        ensures
            r@ == after_edit(self@),
    {
        match self {
            RequestExternalState::ReloadAvailable(p) => RequestExternalState::Conflict(p),
            other => other,
        }
    }

    /// The file is gone.
    pub fn lost(reason: &ExternalChangeReason, path: &str, unsaved: bool) -> (r:
        RequestExternalState)
        ensures
            r@ == gone(reason@, path@, unsaved),
    {
        let head = concat4(reason.summary().as_str(), ": ", path, ".");
        let nothing = String::new();
        assert(nothing@ =~= seq![]);
        let detail: &str = if unsaved {
            " Local edits remain in memory and were not overwritten."
        } else {
            nothing.as_str()
        };
        RequestExternalState::Missing { message: concat2(head.as_str(), detail), conflict: unsaved }
    }
}

/// A request may be saved only while it stands well to its file, and where it does not, that is
/// told.
pub proof fn law_only_requests_in_sync_are_saved(state: ExternalView)
    ensures
        save_refusal(state) is None <==> state is InSync,
        banner_of(state) is None <==> state is InSync,
{
}

/// Editing a request never makes another version on disk look as if it could be taken over
/// without loss.
pub proof fn law_edits_are_not_given_up(state: ExternalView)
    ensures
        !(after_edit(state) is ReloadAvailable),
        save_refusal(after_edit(state)) is None <==> save_refusal(state) is None,
{
}

} // verus!
