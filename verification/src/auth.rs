//! Who may do what: the tokens that requests carry.
use vstd::prelude::*;

use crate::error::ApiError;
use crate::model::{NodeState, NodeStateView};
use crate::text::{skip_chars, starts_with, trim, trimmed};

verus! {

/// The headers of a request that the control plane reads, each as the bytes that came.
pub struct Headers {
    pub authorization: Option<Vec<u8>>,
    pub forwarded_host: Option<Vec<u8>>,
    pub forwarded_proto: Option<Vec<u8>>,
    pub host: Option<Vec<u8>>,
}

/// What [`Headers`] holds.
#[verifier::ext_equal]
pub struct HeadersView {
    pub authorization: Option<Seq<u8>>,
    pub forwarded_host: Option<Seq<u8>>,
    pub forwarded_proto: Option<Seq<u8>>,
    pub host: Option<Seq<u8>>,
}

impl DeepView for Headers {
    type V = HeadersView;

    open spec fn deep_view(&self) -> HeadersView {
        HeadersView {
            authorization: self.authorization.deep_view(),
            forwarded_host: self.forwarded_host.deep_view(),
            forwarded_proto: self.forwarded_proto.deep_view(),
            host: self.host.deep_view(),
        }
    }
}

/// Whether a byte of a header is a visible ASCII character, a space or a tab.
pub open spec fn is_visible(b: u8) -> bool {
    32 <= b <= 126 || b == 9
}

/// The text of a header, where all of its bytes are visible.
pub open spec fn header_text(bytes: Seq<u8>) -> Option<Seq<char>> {
    if forall|i: int| 0 <= i < bytes.len() ==> is_visible(#[trigger] bytes[i]) {
        Some(Seq::new(bytes.len(), |i: int| bytes[i] as char))
    } else {
        None
    }
}

/// The text of a header, where all of its bytes are visible.
pub fn header_str(bytes: &Vec<u8>) -> (r: Option<String>)
    ensures
        r.deep_view() == header_text(bytes@),
{
    let mut out: String = String::new();
    let mut i: usize = 0;
    while i < bytes.len()
        invariant
            i <= bytes@.len(),
            forall|k: int| 0 <= k < i ==> is_visible(#[trigger] bytes@[k]),
            out@ == Seq::new(i as nat, |k: int| bytes@[k] as char),
        decreases bytes.len() - i,
    {
        let b: u8 = bytes[i];
        if !((32 <= b && b <= 126) || b == 9) {
            assert(!is_visible(bytes@[i as int]));
            return None;
        }
        out.push(b as char);
        assert(out@ =~= Seq::new((i + 1) as nat, |k: int| bytes@[k] as char));
        i = i + 1;
    }
    Some(out)
}

/// The token that the `Authorization` header carries: what follows `Bearer `, without the white
/// space around it.
pub open spec fn bearer_of(headers: HeadersView) -> Option<Seq<char>> {
    match headers.authorization {
        Some(bytes) => match header_text(bytes) {
            Some(text) => if "Bearer "@.is_prefix_of(text) {
                Some(trimmed(text.skip(7)))
            } else {
                None
            },
            None => None,
        },
        None => None,
    }
}

/// The token that the `Authorization` header carries.
pub fn bearer_token(headers: &Headers) -> (r: Option<String>)
    ensures
        r.deep_view() == bearer_of(headers.deep_view()),
{
    match &headers.authorization {
        Some(bytes) => {
            assert(bytes.deep_view() =~= bytes@);
            match header_str(bytes) {
                Some(text) => if starts_with(text.as_str(), "Bearer ") {
                    proof {
                        reveal_strlit("Bearer ");
                    }
                    Some(trim(skip_chars(text.as_str(), 7).as_str()))
                } else {
                    None
                },
                None => None,
            }
        },
        None => None,
    }
}

/// Whether a request may do what administrators may: where there is an administrator's token, the
/// request must carry it.
pub open spec fn admin_allowed(headers: HeadersView, admin_token: Option<Seq<char>>) -> bool {
    match admin_token {
        Some(expected) => bearer_of(headers) == Some(expected),
        None => true,
    }
}

/// Whether a request may speak for a node: where the node has a token, the request must carry it
/// or the administrator's.
pub open spec fn node_allowed(
    headers: HeadersView,
    admin_token: Option<Seq<char>>,
    node: NodeStateView,
) -> bool {
    match node.node_token {
        Some(expected) => match bearer_of(headers) {
            Some(token) => token == expected || admin_token == Some(token),
            None => false,
        },
        None => true,
    }
}

/// Refuses a request that may not do what administrators may.
pub fn require_admin(headers: &Headers, admin_token: &Option<String>) -> (r: Result<(), ApiError>)
    ensures
        r == (if admin_allowed(headers.deep_view(), admin_token.deep_view()) {
            Ok::<(), ApiError>(())
        } else {
            Err(ApiError::Unauthorized("admin token required"))
        }),
{
    match admin_token {
        None => Ok(()),
        Some(expected) => match bearer_token(headers) {
            Some(token) => if token == *expected {
                Ok(())
            } else {
                Err(ApiError::Unauthorized("admin token required"))
            },
            None => Err(ApiError::Unauthorized("admin token required")),
        },
    }
}

/// Refuses a request that may not speak for a node.
pub fn require_node(
    headers: &Headers,
    admin_token: &Option<String>,
    node: &NodeState,
) -> (r: Result<(), ApiError>)
    ensures
        r == (if node_allowed(
            headers.deep_view(),
            admin_token.deep_view(),
            node.deep_view(),
        ) {
            Ok::<(), ApiError>(())
        } else {
            Err(ApiError::Unauthorized("node token required"))
        }),
{
    match &node.node_token {
        None => Ok(()),
        Some(expected) => {
            if let Some(token) = bearer_token(headers) {
                if token == *expected {
                    return Ok(());
                }
                if let Some(admin) = admin_token {
                    if token == *admin {
                        return Ok(());
                    }
                }
            }
            Err(ApiError::Unauthorized("node token required"))
        },
    }
}

/// Whoever sends `Bearer`, a space and a token in visible characters sends that token, without the
/// white space around it.
pub proof fn law_bearer(headers: HeadersView, token: Seq<u8>)
    requires
        headers.authorization == Some(
            seq![66u8, 101u8, 97u8, 114u8, 101u8, 114u8, 32u8] + token,
        ),
        forall|i: int|
            0 <= i < token.len() ==> 32 <= #[trigger] token[i] <= 126 || token[i] == 9,
    ensures
        bearer_of(headers) == Some(trimmed(Seq::new(token.len(), |i: int| token[i] as char))),
{
    reveal_strlit("Bearer ");
    let bytes = headers.authorization->0;
    let text = Seq::new(bytes.len(), |i: int| bytes[i] as char);
    assert forall|i: int| 0 <= i < bytes.len() implies is_visible(#[trigger] bytes[i]) by {
        if i >= 7 {
            assert(bytes[i] == token[i - 7]);
        }
    }
    assert(text.subrange(0, 7) =~= "Bearer "@);
    assert("Bearer "@.is_prefix_of(text));
    assert(text.skip(7) =~= Seq::new(token.len(), |i: int| token[i] as char));
}

/// Whoever sends no such header sends no token.
pub proof fn law_no_bearer(headers: HeadersView)
    ensures
        headers.authorization is None ==> bearer_of(headers) is None,
        headers.authorization matches Some(bytes) ==> ((bytes.len() < 7 || bytes.take(7)
            != seq![66u8, 101u8, 97u8, 114u8, 101u8, 114u8, 32u8]) ==> bearer_of(headers) is None),
        headers.authorization matches Some(bytes) ==> ((exists|i: int|
            0 <= i < bytes.len() && !(32 <= #[trigger] bytes[i] <= 126 || bytes[i] == 9))
            ==> bearer_of(headers) is None),
{
    reveal_strlit("Bearer ");
    if let Some(bytes) = headers.authorization {
        let text = Seq::new(bytes.len(), |i: int| bytes[i] as char);
        let wanted = seq![66u8, 101u8, 97u8, 114u8, 101u8, 114u8, 32u8];
        if header_text(bytes) is Some && "Bearer "@.is_prefix_of(text) {
            assert forall|i: int| 0 <= i < 7 implies #[trigger] bytes[i] == wanted[i] by {
                assert(text[i] == "Bearer "@[i]);
            }
            assert(bytes.take(7) =~= wanted);
        }
        if exists|i: int|
            0 <= i < bytes.len() && !(32 <= #[trigger] bytes[i] <= 126 || bytes[i] == 9) {
            let i = choose|i: int|
                0 <= i < bytes.len() && !(32 <= #[trigger] bytes[i] <= 126 || bytes[i] == 9);
            assert(!is_visible(bytes[i]));
        }
    }
}

/// Whoever sends the administrators' token may act as one, and nobody else, unless there is no such
/// token.
pub proof fn law_administrators(headers: HeadersView, admin_token: Option<Seq<char>>)
    ensures
        admin_token is None ==> admin_allowed(headers, admin_token),
        admin_token is Some ==> (admin_allowed(headers, admin_token) <==> bearer_of(headers)
            == admin_token),
{
}

/// Whoever sends the token of a node or that of the administrators may speak for the node, and
/// nobody else, unless the node has no token.
pub proof fn law_speaking_for_a_node(
    headers: HeadersView,
    admin_token: Option<Seq<char>>,
    node: NodeStateView,
)
    ensures
        node.node_token is None ==> node_allowed(headers, admin_token, node),
        node.node_token is Some ==> (node_allowed(headers, admin_token, node) <==> bearer_of(headers)
            is Some && (bearer_of(headers) == node.node_token || bearer_of(headers)
            == admin_token)),
{
}

} // verus!
