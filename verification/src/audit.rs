//! The log of what was done.
use vstd::prelude::*;

use crate::auth::{admin_allowed, require_admin, Headers};
use crate::error::{outcome, ApiError};
use crate::model::{
    AuditEntry, AuditEntryView, AuditField, AuditFieldView, AuditLogResponse, AuditLogResponseView,
    AuditValue, AuditValueView,
};
use crate::state::State;
use crate::table::{lemma_filter_push, lemma_filter_subset};

verus! {

/// A named value.
pub open spec fn named(name: Seq<char>, value: AuditValueView) -> AuditFieldView {
    AuditFieldView { name, value }
}

/// A text, or nothing.
pub open spec fn text_or_null(value: Option<Seq<char>>) -> AuditValueView {
    match value {
        Some(text) => AuditValueView::Text(text),
        None => AuditValueView::Null,
    }
}

/// A number, or nothing.
pub open spec fn uint_or_null(value: Option<u64>) -> AuditValueView {
    match value {
        Some(n) => AuditValueView::UInt(n),
        None => AuditValueView::Null,
    }
}

/// A named value.
pub(crate) fn field(name: &str, value: AuditValue) -> (r: AuditField)
    ensures
        r.deep_view() == named(name@, value.deep_view()),
{
    AuditField { name: name.to_owned(), value }
}

/// A text, or nothing.
pub(crate) fn text_value(value: &Option<String>) -> (r: AuditValue)
    ensures
        r.deep_view() == text_or_null(value.deep_view()),
{
    match value {
        Some(text) => AuditValue::Text(text.clone()),
        None => AuditValue::Null,
    }
}

/// A number, or nothing.
pub(crate) fn uint_value(value: Option<u64>) -> (r: AuditValue)
    ensures
        r.deep_view() == uint_or_null(value),
{
    match value {
        Some(n) => AuditValue::UInt(n),
        None => AuditValue::Null,
    }
}

/// Which entries are asked for: those of a network, of a node, and how many at most.
pub struct AuditQuery {
    pub network_id: Option<String>,
    pub node_id: Option<String>,
    pub limit: Option<usize>,
}

/// What [`AuditQuery`] holds.
#[verifier::ext_equal]
pub struct AuditQueryView {
    pub network_id: Option<Seq<char>>,
    pub node_id: Option<Seq<char>>,
    pub limit: Option<usize>,
}

impl DeepView for AuditQuery {
    type V = AuditQueryView;

    open spec fn deep_view(&self) -> AuditQueryView {
        AuditQueryView {
            network_id: self.network_id.deep_view(),
            node_id: self.node_id.deep_view(),
            limit: self.limit,
        }
    }
}

/// Whether an entry is one of those that are asked for.
pub open spec fn asked_for(entry: AuditEntryView, query: AuditQueryView) -> bool {
    &&& query.network_id is Some ==> entry.network_id == query.network_id
    &&& query.node_id is Some ==> entry.node_id == query.node_id
}

/// The last `limit` items, or all of them.
pub open spec fn latest<A>(s: Seq<A>, limit: Option<usize>) -> Seq<A> {
    match limit {
        Some(limit) => if s.len() > limit {
            s.skip(s.len() - limit)
        } else {
            s
        },
        None => s,
    }
}

/// The entries that are asked for, the oldest first: the latest of those that match.
pub open spec fn entries_for(log: Seq<AuditEntryView>, query: AuditQueryView) -> Seq<AuditEntryView> {
    latest(log.filter(|entry: AuditEntryView| asked_for(entry, query)), query.limit)
}

/// Whether two optional texts agree where the second is given.
fn matches_text(value: &Option<String>, wanted: &Option<String>) -> (r: bool)
    ensures
        r == (wanted.deep_view() is Some ==> value.deep_view() == wanted.deep_view()),
{
    match wanted {
        Some(wanted) => match value {
            Some(value) => *value == *wanted,
            None => false,
        },
        None => true,
    }
}

/// Answers an administrator who asks for the log.
pub fn audit_log(
    state: &State,
    admin_token: &Option<String>,
    headers: &Headers,
    params: &AuditQuery,
) -> (r: Result<AuditLogResponse, ApiError>)
    requires
        state.wf(),
    ensures
        outcome(r) == (if admin_allowed(headers.deep_view(), admin_token.deep_view()) {
            Ok::<AuditLogResponseView, ApiError>(
                AuditLogResponseView {
                    entries: entries_for(state.deep_view().audit_log, params.deep_view()),
                },
            )
        } else {
            Err(ApiError::Unauthorized("admin token required"))
        }),
{
    if let Err(refusal) = require_admin(headers, admin_token) {
        return Err(refusal);
    }
    let ghost log = state.audit_log.deep_view();
    let ghost test = |entry: AuditEntryView| asked_for(entry, params.deep_view());
    let mut found: Vec<AuditEntry> = Vec::new();
    let mut i: usize = 0;
    proof {
        assert(log.take(0).filter(test) =~= Seq::<AuditEntryView>::empty()) by {
            reveal(Seq::filter);
        }
        assert(found.deep_view() =~= log.take(0).filter(test));
    }
    while i < state.audit_log.len()
        invariant
            i <= state.audit_log@.len(),
            log == state.audit_log.deep_view(),
            test == (|entry: AuditEntryView| asked_for(entry, params.deep_view())),
            found.deep_view() == log.take(i as int).filter(test),
        decreases state.audit_log.len() - i,
    {
        let entry: &AuditEntry = &state.audit_log[i];
        let ghost before = found.deep_view();
        proof {
            assert(log.take(i + 1) =~= log.take(i as int).push(log[i as int]));
            lemma_filter_push(log.take(i as int), test, log[i as int]);
        }
        if matches_text(&entry.network_id, &params.network_id) && matches_text(
            &entry.node_id,
            &params.node_id,
        ) {
            found.push(entry.clone());
            assert(found.deep_view() =~= before.push(log[i as int]));
        }
        i = i + 1;
    }
    assert(log.take(i as int) =~= log);
    let ghost all = log.filter(test);
    if let Some(limit) = params.limit {
        if found.len() > limit {
            let skip: usize = found.len() - limit;
            let mut last: Vec<AuditEntry> = Vec::new();
            let mut k: usize = skip;
            assert(last.deep_view() =~= all.subrange(skip as int, skip as int));
            while k < found.len()
                invariant
                    skip <= k <= found@.len(),
                    found.deep_view() == all,
                    last.deep_view() == all.subrange(skip as int, k as int),
                decreases found.len() - k,
            {
                let ghost before = last.deep_view();
                let entry: AuditEntry = found[k].clone();
                assert(entry.deep_view() == all[k as int]);
                last.push(entry);
                assert(last.deep_view() =~= before.push(all[k as int]));
                assert(all.subrange(skip as int, k + 1) =~= before.push(all[k as int]));
                k = k + 1;
            }
            assert(all.subrange(skip as int, k as int) =~= latest(all, params.limit));
            return Ok(AuditLogResponse { entries: last });
        }
    }
    Ok(AuditLogResponse { entries: found })
}

/// What is told of the log are the latest of the entries about the network and the node that were
/// asked for, in order: as many as the limit allows, and all of them where there is none.
pub proof fn law_entries_told(log: Seq<AuditEntryView>, query: AuditQueryView, entry: AuditEntryView)
    ensures
        ({
            let told = entries_for(log, query);
            let about = |e: AuditEntryView|
                (query.network_id is None || e.network_id == query.network_id) && (query.node_id
                    is None || e.node_id == query.node_id);
            &&& told.contains(entry) ==> log.contains(entry) && about(entry)
            &&& query.limit is None ==> told == log.filter(about)
            &&& query.limit matches Some(limit) ==> {
                &&& told.len() <= limit
                &&& told.is_suffix_of(log.filter(about))
                &&& told.len() == limit || told == log.filter(about)
            }
            &&& query.limit is None && log.contains(entry) && about(entry) ==> told.contains(entry)
        }),
{
    broadcast use vstd::seq_lib::group_filter_ensures;

    let about = |e: AuditEntryView|
        (query.network_id is None || e.network_id == query.network_id) && (query.node_id is None
            || e.node_id == query.node_id);
    let asked = |e: AuditEntryView| asked_for(e, query);
    assert(about =~= asked);
    let all = log.filter(asked);
    let told = entries_for(log, query);
    assert(told.is_suffix_of(all)) by {
        assert(told =~= all.skip(all.len() - told.len()));
    }
    if told.contains(entry) {
        let i = told.index_of(entry);
        assert(all[all.len() - told.len() + i] == entry);
        assert(all.contains(entry));
        lemma_filter_subset(log, asked, entry);
    }
    if log.contains(entry) && about(entry) {
        let i = log.index_of(entry);
        assert(all.contains(log[i]));
    }
}

} // verus!
