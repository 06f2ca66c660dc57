//! The tokens with which nodes join.
use vstd::prelude::*;

use crate::audit::{field, named, text_or_null, text_value};
use crate::auth::{admin_allowed, require_admin, Headers};
use crate::consistency::consistent;
use crate::error::{outcome, ApiError};
use crate::ids::{is_secret, now_unix, random_secret};
use crate::keys::{expires_at, expiry};
use crate::laws::{law_token_created, law_token_revoked};
use crate::model::{
    clone_list, AuditDetail, AuditDetailView, AuditEntry, AuditEntryView, AuditField,
    AuditValue, AuditValueView, CreateTokenRequest, CreateTokenRequestView, CreateTokenResponse,
    CreateTokenResponseView, EnrollmentToken, EnrollmentTokenView, ListTokensResponse, TokenState,
    TokenStateView,
};
use crate::state::{
    build_audit_entry, written, AuditStamp, AuditStampView, State, StateView,
};
use crate::table::{lemma_filter_push, Table, TableView};
use crate::text::{same_text, trim, trimmed};

verus! {

/// The part of an optional text that is not white space around it, if there is any.
pub open spec fn trimmed_or_none(value: Option<Seq<char>>) -> Option<Seq<char>> {
    match value {
        Some(text) => if trimmed(text).len() == 0 {
            None
        } else {
            Some(trimmed(text))
        },
        None => None,
    }
}

fn trim_or_none(value: &Option<String>) -> (r: Option<String>)
    ensures
        r.deep_view() == trimmed_or_none(value.deep_view()),
{
    match value {
        Some(text) => {
            let text: String = trim(text.as_str());
            if text.as_str().is_empty() {
                None
            } else {
                Some(text)
            }
        },
        None => None,
    }
}

/// A token: its secret, the network it lets nodes join, when it expires and how often it may be
/// used, and what the nodes get from it. One without time or uses is refused.
pub open spec fn token_of(
    secret: Seq<char>,
    network_id: Seq<char>,
    now: i64,
    ttl_seconds: u64,
    uses: u32,
    tags: Seq<Seq<char>>,
    owner_user_id: Option<Seq<char>>,
    owner_email: Option<Seq<char>>,
    owner_is_admin: bool,
) -> Result<TokenStateView, ApiError> {
    if ttl_seconds == 0 || uses == 0 {
        Err(ApiError::BadRequest("ttl_seconds and uses must be > 0"))
    } else {
        Ok(
            TokenStateView {
                token: secret,
                network_id,
                expires_at: expiry(now, ttl_seconds),
                uses_left: uses,
                tags,
                owner_user_id: trimmed_or_none(owner_user_id),
                owner_email: trimmed_or_none(owner_email),
                owner_is_admin,
                revoked_at: None,
            },
        )
    }
}

/// Makes a token, given its secret and the time.
pub fn build_token(
    secret: String,
    now: i64,
    network_id: &str,
    ttl_seconds: u64,
    uses: u32,
    tags: Vec<String>,
    owner_user_id: &Option<String>,
    owner_email: &Option<String>,
    owner_is_admin: bool,
) -> (r: Result<TokenState, ApiError>)
    ensures
        outcome(r) == token_of(
            secret@,
            network_id@,
            now,
            ttl_seconds,
            uses,
            tags.deep_view(),
            owner_user_id.deep_view(),
            owner_email.deep_view(),
            owner_is_admin,
        ),
{
    if ttl_seconds == 0 || uses == 0 {
        return Err(ApiError::BadRequest("ttl_seconds and uses must be > 0"));
    }
    Ok(
        TokenState {
            token: secret,
            network_id: network_id.to_owned(),
            expires_at: expires_at(now, ttl_seconds),
            uses_left: uses,
            tags,
            owner_user_id: trim_or_none(owner_user_id),
            owner_email: trim_or_none(owner_email),
            owner_is_admin,
            revoked_at: None,
        },
    )
}

/// What the log says of a token that was made.
pub open spec fn token_entry(token: TokenStateView, stamp: AuditStampView) -> AuditEntryView {
    AuditEntryView::of(
        stamp,
        "token.create"@,
        Some(token.network_id),
        None,
        Some(
            AuditDetailView::Fields(
                seq![
                    named("expires_at"@, AuditValueView::Int(token.expires_at)),
                    named("uses"@, AuditValueView::UInt(token.uses_left as u64)),
                    named("tags"@, AuditValueView::TextList(token.tags)),
                    named("owner_user_id"@, text_or_null(token.owner_user_id)),
                    named("owner_email"@, text_or_null(token.owner_email)),
                    named("owner_is_admin"@, AuditValueView::Bool(token.owner_is_admin)),
                ],
            ),
        ),
    )
}

/// What the log says of a token that was made.
fn token_record(token: &TokenState, stamp: AuditStamp) -> (r: AuditEntry)
    ensures
        r.deep_view() == token_entry(token.deep_view(), stamp.deep_view()),
{
    let fields: Vec<AuditField> = vec![
        field("expires_at", AuditValue::Int(token.expires_at)),
        field("uses", AuditValue::UInt(token.uses_left as u64)),
        field("tags", AuditValue::TextList(clone_list(&token.tags))),
        field("owner_user_id", text_value(&token.owner_user_id)),
        field("owner_email", text_value(&token.owner_email)),
        field("owner_is_admin", AuditValue::Bool(token.owner_is_admin)),
    ];
    let ghost view = token.deep_view();
    assert(fields.deep_view() =~= seq![
        named("expires_at"@, AuditValueView::Int(view.expires_at)),
        named("uses"@, AuditValueView::UInt(view.uses_left as u64)),
        named("tags"@, AuditValueView::TextList(view.tags)),
        named("owner_user_id"@, text_or_null(view.owner_user_id)),
        named("owner_email"@, text_or_null(view.owner_email)),
        named("owner_is_admin"@, AuditValueView::Bool(view.owner_is_admin)),
    ]);
    build_audit_entry(
        stamp,
        "token.create",
        Some(token.network_id.clone()),
        None,
        Some(AuditDetail::Fields(fields)),
    )
}

/// What becomes of the state when a token is to be made.
pub open spec fn token_created(
    state: StateView,
    network_id: Seq<char>,
    req: CreateTokenRequestView,
    secret: Seq<char>,
    now: i64,
    stamp: AuditStampView,
) -> (StateView, Result<CreateTokenResponseView, ApiError>) {
    match state.networks.find(network_id) {
        None => (state, Err(ApiError::NotFound("network"))),
        Some(network) => match token_of(
            secret,
            network.id,
            now,
            req.ttl_seconds,
            req.uses,
            req.tags,
            req.owner_user_id,
            req.owner_email,
            req.owner_is_admin != Some(false),
        ) {
            Err(refusal) => (state, Err(refusal)),
            Ok(token) => (
                StateView { tokens: state.tokens.insert(token.token, token), ..state }.logged(
                    token_entry(token, stamp),
                ),
                Ok(CreateTokenResponseView { token: EnrollmentTokenView::of(token) }),
            ),
        },
    }
}

/// Makes a token for a network, given what is drawn for it.
#[verifier::rlimit(30)]
pub fn create_token_at(
    state: &mut State,
    network_id: &str,
    req: &CreateTokenRequest,
    secret: String,
    now: i64,
    stamp: AuditStamp,
) -> (r: Result<CreateTokenResponse, ApiError>)
    requires
        old(state).wf(),
    ensures
        final(state).wf(),
        (final(state).deep_view(), outcome(r)) == token_created(
            old(state).deep_view(),
            network_id@,
            req.deep_view(),
            secret@,
            now,
            stamp.deep_view(),
        ),
{
    let owner_is_admin: bool = match req.owner_is_admin {
        Some(value) => value,
        None => true,
    };
    let token: TokenState = match state.networks.get(network_id) {
        None => {
            return Err(ApiError::NotFound("network"));
        },
        Some(network) => match build_token(
            secret,
            now,
            network.id.as_str(),
            req.ttl_seconds,
            req.uses,
            clone_list(&req.tags),
            &req.owner_user_id,
            &req.owner_email,
            owner_is_admin,
        ) {
            Ok(token) => token,
            Err(refusal) => {
                return Err(refusal);
            },
        },
    };
    let answer = CreateTokenResponse { token: EnrollmentToken::from_state(&token) };
    let entry: AuditEntry = token_record(&token, stamp);
    state.tokens.insert(token.token.clone(), token);
    state.log(entry);
    Ok(answer)
}

/// Answers an administrator who makes a token.
pub fn create_token(
    state: &mut State,
    admin_token: &Option<String>,
    headers: &Headers,
    network_id: &str,
    req: &CreateTokenRequest,
) -> (r: Result<CreateTokenResponse, ApiError>)
    requires
        old(state).wf(),
    ensures
        final(state).wf(),
        consistent(old(state).deep_view()) ==> consistent(final(state).deep_view()),
        !admin_allowed(headers.deep_view(), admin_token.deep_view()) ==> {
            &&& final(state).deep_view() == old(state).deep_view()
            &&& r == Err::<CreateTokenResponse, ApiError>(
                ApiError::Unauthorized("admin token required"),
            )
        },
        admin_allowed(headers.deep_view(), admin_token.deep_view()) ==> exists|
            secret: Seq<char>,
            now: i64,
            stamp: AuditStampView,
        |
            is_secret(secret) && stamp.wf() && (final(state).deep_view(), outcome(r)) == written(
                #[trigger] token_created(
                    old(state).deep_view(),
                    network_id@,
                    req.deep_view(),
                    secret,
                    now,
                    stamp,
                ),
            ),
{
    if let Err(refusal) = require_admin(headers, admin_token) {
        return Err(refusal);
    }
    let secret: String = random_secret();
    let now: i64 = now_unix();
    let stamp: AuditStamp = AuditStamp::draw();
    let ghost secret_view = secret@;
    let ghost drawn = stamp.deep_view();
    let result = create_token_at(state, network_id, req, secret, now, stamp);
    proof {
        if consistent(old(state).deep_view()) {
            law_token_created(old(state).deep_view(), network_id@, req.deep_view(), secret_view, now, drawn);
        }
    }
    match result {
        Ok(answer) => {
            state.bump();
            Ok(answer)
        },
        Err(refusal) => Err(refusal),
    }
}

/// The tokens of a network as administrators see them, in the order in which they came.
pub open spec fn tokens_of(tokens: TableView<TokenStateView>, network_id: Seq<char>) -> Seq<
    EnrollmentTokenView,
> {
    let found = tokens.values().filter(|token: TokenStateView| token.network_id == network_id);
    Seq::new(found.len(), |i: int| EnrollmentTokenView::of(found[i]))
}

/// Whether the tokens that expire last come first.
pub open spec fn latest_first(tokens: Seq<EnrollmentTokenView>) -> bool {
    forall|i: int, j: int|
        0 <= i < j < tokens.len() ==> (#[trigger] tokens[i]).expires_at >= (
        #[trigger] tokens[j]).expires_at
}

/// The tokens of a network, in the order in which they came.
fn collect_tokens(tokens: &Table<TokenState>, network_id: &str) -> (r: Vec<EnrollmentToken>)
    requires
        tokens.wf(),
    ensures
        r.deep_view() == tokens_of(tokens.deep_view(), network_id@),
{
    let ghost all = tokens.deep_view().values();
    let ghost test = |token: TokenStateView| token.network_id == network_id@;
    let ghost told = |found: Seq<TokenStateView>|
        Seq::new(found.len(), |i: int| EnrollmentTokenView::of(found[i]));
    let mut out: Vec<EnrollmentToken> = Vec::new();
    let mut i: usize = 0;
    let total: usize = tokens.len();
    proof {
        assert(all.take(0).filter(test) =~= Seq::<TokenStateView>::empty()) by {
            reveal(Seq::filter);
        }
        assert(out.deep_view() =~= told(all.take(0).filter(test)));
    }
    while i < total
        invariant
            tokens.wf(),
            i <= total,
            total == all.len(),
            total == tokens.deep_view().keys.len(),
            all == tokens.deep_view().values(),
            test == (|token: TokenStateView| token.network_id == network_id@),
            told == (|found: Seq<TokenStateView>|
                Seq::new(found.len(), |i: int| EnrollmentTokenView::of(found[i]))),
            out.deep_view() == told(all.take(i as int).filter(test)),
        decreases total - i,
    {
        let token: &TokenState = tokens.value_at(i);
        let ghost before = out.deep_view();
        let ghost chosen = all.take(i as int).filter(test);
        proof {
            assert(all.take(i + 1) =~= all.take(i as int).push(all[i as int]));
            lemma_filter_push(all.take(i as int), test, all[i as int]);
        }
        if same_text(token.network_id.as_str(), network_id) {
            let info: EnrollmentToken = EnrollmentToken::from_state(token);
            out.push(info);
            assert(out.deep_view() =~= before.push(info.deep_view()));
            assert(told(chosen.push(all[i as int])) =~= told(chosen).push(
                EnrollmentTokenView::of(all[i as int]),
            ));
        }
        i = i + 1;
    }
    assert(all.take(i as int) =~= all);
    out
}

/// Puts the tokens that expire last first.
fn sort_latest_first(tokens: &Vec<EnrollmentToken>) -> (r: Vec<EnrollmentToken>)
    ensures
        r.deep_view().to_multiset() == tokens.deep_view().to_multiset(),
        latest_first(r.deep_view()),
{
    broadcast use vstd::seq_lib::group_to_multiset_ensures;

    let ghost all = tokens.deep_view();
    let mut out: Vec<EnrollmentToken> = Vec::new();
    let mut i: usize = 0;
    assert(all.take(0) =~= Seq::<EnrollmentTokenView>::empty());
    assert(out.deep_view() =~= Seq::<EnrollmentTokenView>::empty());
    while i < tokens.len()
        invariant
            i <= tokens@.len(),
            all == tokens.deep_view(),
            latest_first(out.deep_view()),
            out.deep_view().to_multiset() == all.take(i as int).to_multiset(),
        decreases tokens.len() - i,
    {
        broadcast use vstd::seq_lib::group_to_multiset_ensures;

        let token: EnrollmentToken = tokens[i].clone();
        let ghost added = token.deep_view();
        let ghost before = out.deep_view();
        let mut place: usize = 0;
        while place < out.len() && out[place].expires_at >= token.expires_at
            invariant
                place <= out@.len(),
                out.deep_view() == before,
                added == token.deep_view(),
                forall|k: int|
                    0 <= k < place ==> (#[trigger] before[k]).expires_at >= added.expires_at,
            decreases out.len() - place,
        {
            assert(before[place as int] == out@[place as int].deep_view());
            place = place + 1;
        }
        out.insert(place, token);
        proof {
            let after = out.deep_view();
            assert(after =~= before.insert(place as int, added));
            assert(all.take(i + 1) =~= all.take(i as int).push(added));
            if place < before.len() {
                assert(before[place as int].expires_at < added.expires_at);
            }
            assert forall|a: int, b: int| 0 <= a < b < after.len() implies (
            #[trigger] after[a]).expires_at >= (#[trigger] after[b]).expires_at by {
                if a == place {
                    assert(after[b] == before[b - 1]);
                    if b - 1 > place {
                        assert(before[place as int].expires_at >= before[b - 1].expires_at);
                    }
                } else if b == place {
                    assert(after[a] == before[a]);
                } else {
                    let a0 = if a < place { a } else { a - 1 };
                    let b0 = if b < place { b } else { b - 1 };
                    assert(after[a] == before[a0] && after[b] == before[b0]);
                }
            }
        }
        i = i + 1;
    }
    assert(all.take(i as int) =~= all);
    out
}

/// Answers an administrator who asks for the tokens of a network. Which of two tokens that expire
/// at the same time comes first is open.
pub fn list_tokens(
    state: &State,
    admin_token: &Option<String>,
    headers: &Headers,
    network_id: &str,
) -> (r: Result<ListTokensResponse, ApiError>)
    requires
        state.wf(),
    ensures
        !admin_allowed(headers.deep_view(), admin_token.deep_view()) ==> r == Err::<
            ListTokensResponse,
            ApiError,
        >(ApiError::Unauthorized("admin token required")),
        admin_allowed(headers.deep_view(), admin_token.deep_view()) && !state.deep_view().networks.has(
            network_id@,
        ) ==> r == Err::<ListTokensResponse, ApiError>(ApiError::NotFound("network")),
        admin_allowed(headers.deep_view(), admin_token.deep_view()) && state.deep_view().networks.has(
            network_id@,
        ) ==> {
            &&& r is Ok
            &&& latest_first(r->Ok_0.tokens.deep_view())
            &&& r->Ok_0.tokens.deep_view().to_multiset() == tokens_of(
                state.deep_view().tokens,
                network_id@,
            ).to_multiset()
        },
{
    if let Err(refusal) = require_admin(headers, admin_token) {
        return Err(refusal);
    }
    if !state.networks.contains_key(network_id) {
        return Err(ApiError::NotFound("network"));
    }
    let found: Vec<EnrollmentToken> = collect_tokens(&state.tokens, network_id);
    Ok(ListTokensResponse { tokens: sort_latest_first(&found) })
}

/// What becomes of the state when a token is to be revoked.
pub open spec fn token_revoked(
    state: StateView,
    token_id: Seq<char>,
    now: i64,
    stamp: AuditStampView,
) -> (StateView, Result<EnrollmentTokenView, ApiError>) {
    match state.tokens.find(token_id) {
        None => (state, Err(ApiError::NotFound("token"))),
        Some(token) => {
            let after = TokenStateView { revoked_at: Some(now), ..token };
            (
                StateView { tokens: state.tokens.insert(token_id, after), ..state }.logged(
                    AuditEntryView::of(
                        stamp,
                        "token.revoke"@,
                        Some(token.network_id),
                        None,
                        Some(
                            AuditDetailView::Fields(
                                seq![named("revoked_at"@, AuditValueView::Int(now))],
                            ),
                        ),
                    ),
                ),
                Ok(EnrollmentTokenView::of(after)),
            )
        },
    }
}

/// Revokes a token, given what is drawn for the log.
pub fn revoke_token_at(state: &mut State, token_id: &str, now: i64, stamp: AuditStamp) -> (r:
    Result<EnrollmentToken, ApiError>)
    requires
        old(state).wf(),
    ensures
        final(state).wf(),
        (final(state).deep_view(), outcome(r)) == token_revoked(
            old(state).deep_view(),
            token_id@,
            now,
            stamp.deep_view(),
        ),
{
    let token: TokenState = match state.tokens.get(token_id) {
        Some(token) => TokenState { revoked_at: Some(now), ..token.clone() },
        None => {
            return Err(ApiError::NotFound("token"));
        },
    };
    let fields: Vec<AuditField> = vec![field("revoked_at", AuditValue::Int(now))];
    assert(fields.deep_view() =~= seq![named("revoked_at"@, AuditValueView::Int(now))]);
    let entry: AuditEntry = build_audit_entry(
        stamp,
        "token.revoke",
        Some(token.network_id.clone()),
        None,
        Some(AuditDetail::Fields(fields)),
    );
    let answer: EnrollmentToken = EnrollmentToken::from_state(&token);
    state.tokens.insert(token_id.to_owned(), token);
    state.log(entry);
    Ok(answer)
}

/// Answers an administrator who revokes a token.
pub fn revoke_token(
    state: &mut State,
    admin_token: &Option<String>,
    headers: &Headers,
    token_id: &str,
) -> (r: Result<EnrollmentToken, ApiError>)
    requires
        old(state).wf(),
    ensures
        final(state).wf(),
        consistent(old(state).deep_view()) ==> consistent(final(state).deep_view()),
        !admin_allowed(headers.deep_view(), admin_token.deep_view()) ==> {
            &&& final(state).deep_view() == old(state).deep_view()
            &&& r == Err::<EnrollmentToken, ApiError>(
                ApiError::Unauthorized("admin token required"),
            )
        },
        admin_allowed(headers.deep_view(), admin_token.deep_view()) ==> exists|
            now: i64,
            stamp: AuditStampView,
        |
            stamp.wf() && (final(state).deep_view(), outcome(r)) == written(
                #[trigger] token_revoked(old(state).deep_view(), token_id@, now, stamp),
            ),
{
    if let Err(refusal) = require_admin(headers, admin_token) {
        return Err(refusal);
    }
    let now: i64 = now_unix();
    let stamp: AuditStamp = AuditStamp::draw();
    let ghost drawn = stamp.deep_view();
    let result = revoke_token_at(state, token_id, now, stamp);
    proof {
        if consistent(old(state).deep_view()) {
            law_token_revoked(old(state).deep_view(), token_id@, now, drawn);
        }
    }
    match result {
        Ok(answer) => {
            state.bump();
            Ok(answer)
        },
        Err(refusal) => Err(refusal),
    }
}

} // verus!
