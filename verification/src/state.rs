//! What the control plane keeps.
use vstd::prelude::*;

use crate::error::ApiError;
use crate::ids::{is_id, new_id, now_unix};
use crate::model::{
    AuditDetail, AuditDetailView, AuditEntry, AuditEntryView, NetworkState, NetworkStateView,
    NodeState, NodeStateView, TokenState, TokenStateView,
};
use crate::table::{Table, TableView};

verus! {

/// What the control plane keeps: the networks, nodes and tokens by their identifiers, and a log of
/// what was done. The revision counts the writes.
pub struct State {
    pub version: u32,
    pub revision: u64,
    pub networks: Table<NetworkState>,
    pub nodes: Table<NodeState>,
    pub tokens: Table<TokenState>,
    pub audit_log: Vec<AuditEntry>,
}

/// What [`State`] holds.
#[verifier::ext_equal]
pub struct StateView {
    pub version: u32,
    pub revision: u64,
    pub networks: TableView<NetworkStateView>,
    pub nodes: TableView<NodeStateView>,
    pub tokens: TableView<TokenStateView>,
    pub audit_log: Seq<AuditEntryView>,
}

impl DeepView for State {
    type V = StateView;

    open spec fn deep_view(&self) -> StateView {
        StateView {
            version: self.version,
            revision: self.revision,
            networks: self.networks.deep_view(),
            nodes: self.nodes.deep_view(),
            tokens: self.tokens.deep_view(),
            audit_log: self.audit_log.deep_view(),
        }
    }
}

impl StateView {
    /// Nothing is kept yet.
    pub open spec fn initial() -> Self {
        StateView {
            version: 1,
            revision: 0,
            networks: TableView::empty(),
            nodes: TableView::empty(),
            tokens: TableView::empty(),
            audit_log: Seq::empty(),
        }
    }

    /// The tables are well formed.
    pub open spec fn wf(self) -> bool {
        &&& self.networks.wf()
        &&& self.nodes.wf()
        &&& self.tokens.wf()
    }

    /// The state after one more write.
    pub open spec fn bumped(self) -> Self {
        StateView {
            revision: if self.revision == u64::MAX {
                u64::MAX
            } else {
                (self.revision + 1) as u64
            },
            ..self
        }
    }

    /// The state with one more entry in its log.
    pub open spec fn logged(self, entry: AuditEntryView) -> Self {
        StateView { audit_log: self.audit_log.push(entry), ..self }
    }
}

/// What a write leaves behind: one that succeeds counts, one that fails does not.
pub open spec fn written<R>(outcome: (StateView, Result<R, ApiError>)) -> (
    StateView,
    Result<R, ApiError>,
) {
    match outcome.1 {
        Ok(_) => (outcome.0.bumped(), outcome.1),
        Err(_) => outcome,
    }
}

impl State {
    /// The tables are well formed.
    pub open spec fn wf(&self) -> bool {
        &&& self.networks.wf()
        &&& self.nodes.wf()
        &&& self.tokens.wf()
    }

    /// What a well-formed state holds is well formed.
    pub proof fn lemma_wf(&self)
        requires
            self.wf(),
        ensures
            self.deep_view().wf(),
    {
        self.networks.lemma_wf();
        self.nodes.lemma_wf();
        self.tokens.lemma_wf();
    }

    /// Counts a write.
    pub fn bump(&mut self)
        requires
            old(self).wf(),
        ensures
            final(self).wf(),
            final(self).deep_view() == old(self).deep_view().bumped(),
    {
        self.revision = self.revision.saturating_add(1);
    }

    /// Adds an entry to the log.
    pub fn log(&mut self, entry: AuditEntry)
        requires
            old(self).wf(),
        ensures
            final(self).wf(),
            final(self).deep_view() == old(self).deep_view().logged(entry.deep_view()),
    {
        self.audit_log.push(entry);
        assert(self.audit_log.deep_view() =~= old(self).audit_log.deep_view().push(
            entry.deep_view(),
        ));
    }
}

impl Default for State {
    fn default() -> (r: Self)
        ensures
            r.wf(),
            r.deep_view() == StateView::initial(),
    {
        let r = State {
            version: 1,
            revision: 0,
            networks: Table::new(),
            nodes: Table::new(),
            tokens: Table::new(),
            audit_log: Vec::new(),
        };
        assert(r.audit_log.deep_view() =~= Seq::<AuditEntryView>::empty());
        r
    }
}

/// The identifier and the time of an entry in the log.
pub struct AuditStamp {
    pub id: String,
    pub timestamp: i64,
}

/// What [`AuditStamp`] holds.
#[verifier::ext_equal]
pub struct AuditStampView {
    pub id: Seq<char>,
    pub timestamp: i64,
}

impl DeepView for AuditStamp {
    type V = AuditStampView;

    open spec fn deep_view(&self) -> AuditStampView {
        AuditStampView { id: self.id@, timestamp: self.timestamp }
    }
}

impl AuditStampView {
    /// Whether the stamp carries an identifier.
    pub open spec fn wf(self) -> bool {
        is_id(self.id)
    }
}

impl AuditStamp {
    /// Draws an identifier and takes the time.
    pub fn draw() -> (r: Self)
        ensures
            r.deep_view().wf(),
    {
        AuditStamp { id: new_id(), timestamp: now_unix() }
    }
}

impl AuditEntryView {
    /// The entry that records an action.
    pub open spec fn of(
        stamp: AuditStampView,
        action: Seq<char>,
        network_id: Option<Seq<char>>,
        node_id: Option<Seq<char>>,
        detail: Option<AuditDetailView>,
    ) -> Self {
        AuditEntryView {
            id: stamp.id,
            timestamp: stamp.timestamp,
            network_id,
            node_id,
            action,
            detail,
        }
    }
}

/// The entry that records an action.
pub fn build_audit_entry(
    stamp: AuditStamp,
    action: &str,
    network_id: Option<String>,
    node_id: Option<String>,
    detail: Option<AuditDetail>,
) -> (r: AuditEntry)
    ensures
        r.deep_view() == AuditEntryView::of(
            stamp.deep_view(),
            action@,
            network_id.deep_view(),
            node_id.deep_view(),
            detail.deep_view(),
        ),
{
    AuditEntry {
        id: stamp.id,
        timestamp: stamp.timestamp,
        network_id,
        node_id,
        action: action.to_owned(),
        detail,
    }
}

} // verus!
