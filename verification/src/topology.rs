//! The servers of the control plane, and how clients reach them.
use vstd::prelude::*;

use crate::auth::{admin_allowed, header_str, header_text, require_admin, Headers, HeadersView};
use crate::error::{outcome, ApiError};
use crate::ids::now_unix;
use crate::lifecycle::lemma_first_stays_first;
use crate::model::{
    clone_list, ControlPlaneMeshPeer, ControlPlaneMeshPeerView, ControlPlaneTopologyResponse,
    ControlPlaneTopologyResponseView,
};
use crate::text::{
    dedup_strings, eq_ignore_ascii_case, first_occurrences, law_first_occurrences, list_holds,
    same_ignoring_case, strip_trailing, trim, trim_end_matches, trimmed,
};

verus! {

/// Another server of the control plane, as it was configured.
pub struct MeshPeerMeta {
    pub id: String,
    pub addr: String,
}

/// What [`MeshPeerMeta`] holds.
#[verifier::ext_equal]
pub struct MeshPeerMetaView {
    pub id: Seq<char>,
    pub addr: Seq<char>,
}

impl DeepView for MeshPeerMeta {
    type V = MeshPeerMetaView;

    open spec fn deep_view(&self) -> MeshPeerMetaView {
        MeshPeerMetaView { id: self.id@, addr: self.addr@ }
    }
}

/// The text of a header without the white space around it, if anything is left.
pub open spec fn header_value(header: Option<Seq<u8>>) -> Option<Seq<char>> {
    match header {
        Some(bytes) => match header_text(bytes) {
            Some(text) => if trimmed(text).len() == 0 {
                None
            } else {
                Some(trimmed(text))
            },
            None => None,
        },
        None => None,
    }
}

fn read_header(header: &Option<Vec<u8>>) -> (r: Option<String>)
    ensures
        r.deep_view() == header_value(header.deep_view()),
{
    match header {
        Some(bytes) => {
            assert(bytes.deep_view() =~= bytes@);
            match header_str(bytes) {
                Some(text) => {
                    let text: String = trim(text.as_str());
                    if text.as_str().is_empty() {
                        None
                    } else {
                        Some(text)
                    }
                },
                None => None,
            }
        },
        None => None,
    }
}

/// The URL under which a request reached the server: the host that a proxy reports, or else the
/// host of the request, under `https` where a proxy reports that.
pub open spec fn inferred_url(headers: HeadersView) -> Option<Seq<char>> {
    match header_value(
        if headers.forwarded_host is Some {
            headers.forwarded_host
        } else {
            headers.host
        },
    ) {
        Some(host) => {
            let secure = match header_value(headers.forwarded_proto) {
                Some(proto) => same_ignoring_case(proto, "https"@),
                None => false,
            };
            Some((if secure {
                "https"@
            } else {
                "http"@
            }) + "://"@ + strip_trailing(host, '/'))
        },
        None => None,
    }
}

/// The URL under which a request reached the server.
pub fn infer_control_url_from_headers(headers: &Headers) -> (r: Option<String>)
    ensures
        r.deep_view() == inferred_url(headers.deep_view()),
{
    let host: Option<String> = if headers.forwarded_host.is_some() {
        read_header(&headers.forwarded_host)
    } else {
        read_header(&headers.host)
    };
    match host {
        Some(host) => {
            let secure: bool = match read_header(&headers.forwarded_proto) {
                Some(proto) => eq_ignore_ascii_case(proto.as_str(), "https"),
                None => false,
            };
            let scheme: &str = if secure {
                "https"
            } else {
                "http"
            };
            let mut url: String = scheme.to_owned();
            url.append("://");
            url.append(trim_end_matches(host.as_str(), '/').as_str());
            Some(url)
        },
        None => None,
    }
}

/// The URLs that clients are told: those configured, with the one under which the request came in
/// front where it is none of them, each once.
pub open spec fn known_urls(control_urls: Seq<Seq<char>>, headers: HeadersView) -> Seq<Seq<char>> {
    match inferred_url(headers) {
        Some(url) => if control_urls.contains(url) {
            first_occurrences(control_urls)
        } else {
            first_occurrences(control_urls.insert(0, url))
        },
        None => first_occurrences(control_urls),
    }
}

/// What is told of other servers.
pub open spec fn peers_told(peers: Seq<MeshPeerMetaView>) -> Seq<ControlPlaneMeshPeerView> {
    Seq::new(
        peers.len(),
        |i: int| ControlPlaneMeshPeerView { id: peers[i].id, addr: peers[i].addr },
    )
}

fn tell_peers(peers: &Vec<MeshPeerMeta>) -> (r: Vec<ControlPlaneMeshPeer>)
    ensures
        r.deep_view() == peers_told(peers.deep_view()),
{
    let ghost all = peers.deep_view();
    let mut out: Vec<ControlPlaneMeshPeer> = Vec::new();
    let mut i: usize = 0;
    assert(out.deep_view() =~= peers_told(all.take(0)));
    while i < peers.len()
        invariant
            i <= peers@.len(),
            all == peers.deep_view(),
            out.deep_view() == peers_told(all.take(i as int)),
        decreases peers.len() - i,
    {
        let ghost before = out.deep_view();
        let peer = ControlPlaneMeshPeer { id: peers[i].id.clone(), addr: peers[i].addr.clone() };
        out.push(peer);
        assert(out.deep_view() =~= before.push(peer.deep_view()));
        assert(peers_told(all.take(i + 1)) =~= before.push(peer.deep_view()));
        i = i + 1;
    }
    assert(all.take(i as int) =~= all);
    out
}

/// What an administrator is told of the servers at `generated_at`.
pub open spec fn topology(
    headers: HeadersView,
    control_urls: Seq<Seq<char>>,
    mesh_server_id: Option<Seq<char>>,
    mesh_peers: Seq<MeshPeerMetaView>,
    generated_at: i64,
) -> ControlPlaneTopologyResponseView {
    ControlPlaneTopologyResponseView {
        control_urls: known_urls(control_urls, headers),
        mesh_server_id,
        mesh_peers: peers_told(mesh_peers),
        generated_at,
    }
}

/// What an administrator is told of the servers at `generated_at`.
pub fn topology_at(
    headers: &Headers,
    control_urls: &Vec<String>,
    mesh_server_id: &Option<String>,
    mesh_peers: &Vec<MeshPeerMeta>,
    generated_at: i64,
) -> (r: ControlPlaneTopologyResponse)
    ensures
        r.deep_view() == topology(
            headers.deep_view(),
            control_urls.deep_view(),
            mesh_server_id.deep_view(),
            mesh_peers.deep_view(),
            generated_at,
        ),
{
    let mut urls: Vec<String> = clone_list(control_urls);
    if let Some(inferred) = infer_control_url_from_headers(headers) {
        if !list_holds(&urls, inferred.as_str()) {
            let ghost before = urls.deep_view();
            let ghost url = inferred@;
            urls.insert(0, inferred);
            assert(urls.deep_view() =~= before.insert(0, url));
        }
    }
    ControlPlaneTopologyResponse {
        control_urls: dedup_strings(&urls),
        mesh_server_id: mesh_server_id.clone(),
        mesh_peers: tell_peers(mesh_peers),
        generated_at,
    }
}

/// Answers an administrator who asks for the servers of the control plane.
pub fn admin_topology(
    admin_token: &Option<String>,
    headers: &Headers,
    control_urls: &Vec<String>,
    mesh_server_id: &Option<String>,
    mesh_peers: &Vec<MeshPeerMeta>,
) -> (r: Result<ControlPlaneTopologyResponse, ApiError>)
    ensures
        !admin_allowed(headers.deep_view(), admin_token.deep_view()) ==> r == Err::<
            ControlPlaneTopologyResponse,
            ApiError,
        >(ApiError::Unauthorized("admin token required")),
        admin_allowed(headers.deep_view(), admin_token.deep_view()) ==> exists|generated_at: i64|
            outcome(r) == Ok::<ControlPlaneTopologyResponseView, ApiError>(
                #[trigger] topology(
                    headers.deep_view(),
                    control_urls.deep_view(),
                    mesh_server_id.deep_view(),
                    mesh_peers.deep_view(),
                    generated_at,
                ),
            ),
{
    if let Err(refusal) = require_admin(headers, admin_token) {
        return Err(refusal);
    }
    let generated_at: i64 = now_unix();
    Ok(topology_at(headers, control_urls, mesh_server_id, mesh_peers, generated_at))
}

/// The address under which a client reached the server is told by the host that a proxy names, or
/// else by the host that the client named, without slashes behind it. It is a secure one exactly
/// where the proxy says so. Without a host there is none.
pub proof fn law_inferred_url(headers: HeadersView)
    ensures
        ({
            let named = if headers.forwarded_host is Some {
                headers.forwarded_host
            } else {
                headers.host
            };
            let host = trimmed(header_text(named->0)->0);
            let proto = trimmed(header_text(headers.forwarded_proto->0)->0);
            let secure = headers.forwarded_proto is Some && header_text(headers.forwarded_proto->0)
                is Some && proto.len() > 0 && same_ignoring_case(proto, "https"@);
            &&& inferred_url(headers) is Some <==> named is Some && header_text(named->0) is Some
                && host.len() > 0
            &&& inferred_url(headers) is Some && secure ==> inferred_url(headers)->0 == "https"@
                + "://"@ + strip_trailing(host, '/')
            &&& inferred_url(headers) is Some && !secure ==> inferred_url(headers)->0 == "http"@
                + "://"@ + strip_trailing(host, '/')
        }),
{
}

/// The addresses told are those that are configured and the one under which the client reached the
/// server, each once; the latter comes first where it is not configured.
pub proof fn law_known_urls(control_urls: Seq<Seq<char>>, headers: HeadersView, url: Seq<char>)
    ensures
        known_urls(control_urls, headers).no_duplicates(),
        known_urls(control_urls, headers).contains(url) <==> control_urls.contains(url)
            || inferred_url(headers) == Some(url),
        inferred_url(headers) is Some && !control_urls.contains(inferred_url(headers)->0)
            ==> known_urls(control_urls, headers).len() > 0 && known_urls(control_urls, headers)[0]
            == inferred_url(headers)->0,
{
    law_first_occurrences(control_urls);
    if let Some(own) = inferred_url(headers) {
        let all = control_urls.insert(0, own);
        law_first_occurrences(all);
        lemma_first_stays_first(all);
        assert(all[0] == own);
        if control_urls.contains(url) {
            let i = control_urls.index_of(url);
            assert(all[i + 1] == url);
        }
        if all.contains(url) && url != own {
            let i = all.index_of(url);
            assert(control_urls[i - 1] == url);
        }
    }
}

/// What is told of the control plane: the addresses known, the name of the server, each of its
/// peers with its name and address, in order, and the time.
pub proof fn law_topology(
    headers: HeadersView,
    control_urls: Seq<Seq<char>>,
    mesh_server_id: Option<Seq<char>>,
    mesh_peers: Seq<MeshPeerMetaView>,
    generated_at: i64,
    i: int,
)
    ensures
        ({
            let told = topology(headers, control_urls, mesh_server_id, mesh_peers, generated_at);
            &&& told.control_urls == known_urls(control_urls, headers)
            &&& told.mesh_server_id == mesh_server_id
            &&& told.mesh_peers.len() == mesh_peers.len()
            &&& 0 <= i < mesh_peers.len() ==> told.mesh_peers[i].id == mesh_peers[i].id
                && told.mesh_peers[i].addr == mesh_peers[i].addr
            &&& told.generated_at == generated_at
        }),
{
}

} // verus!
