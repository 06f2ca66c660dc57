//! The name server: the names of nodes in the domains of their networks.
use hickory_proto::op::{Message, OpCode, ResponseCode};
use hickory_proto::rr::rdata::{A, AAAA};
use hickory_proto::rr::{RData, Record};
use vstd::prelude::*;

use crate::model::{
    dns_name, name_in_domain, NetworkState, NetworkStateView, NodeState, NodeStateView,
};
use crate::net::{parse_ip, parsed_ip, IpAddress};
use crate::state::State;
use crate::table::{Table, TableView};
use crate::text::{
    all_ascii, ascii_lowered, ends_with, lowercase_of, same_text, strip_trailing, to_lowercase,
    trim, trim_end_matches, trimmed,
};

verus! {

/// How long an answer may be kept, in seconds.
pub const DNS_TTL_SECONDS: u32 = 30;

/// The number of a question for IPv4 addresses.
pub const RECORD_A: u16 = 1;

/// The number of a question for IPv6 addresses.
pub const RECORD_AAAA: u16 = 28;

/// The number of a question for anything.
pub const RECORD_ANY: u16 = 255;

/// The code of a reply with answers.
pub const NO_ERROR: u8 = 0;

/// The code of a reply that says that a name does not exist.
pub const NX_DOMAIN: u8 = 3;

/// The code of a reply that says that the server does not answer for a name.
pub const REFUSED: u8 = 5;

/// A question for the addresses of a name.
pub struct DnsQuestion {
    pub name: String,
    pub record_type: u16,
}

/// What [`DnsQuestion`] holds.
#[verifier::ext_equal]
pub struct DnsQuestionView {
    pub name: Seq<char>,
    pub record_type: u16,
}

impl DeepView for DnsQuestion {
    type V = DnsQuestionView;

    open spec fn deep_view(&self) -> DnsQuestionView {
        DnsQuestionView { name: self.name@, record_type: self.record_type }
    }
}

/// A query: its identifier, what it is for, whether it wants other servers to be asked, and the
/// questions in it.
pub struct DnsQuery {
    pub id: u16,
    pub op_code: u8,
    pub recursion_desired: bool,
    pub questions: Vec<DnsQuestion>,
}

/// What [`DnsQuery`] holds.
#[verifier::ext_equal]
pub struct DnsQueryView {
    pub id: u16,
    pub op_code: u8,
    pub recursion_desired: bool,
    pub questions: Seq<DnsQuestionView>,
}

impl DeepView for DnsQuery {
    type V = DnsQueryView;

    open spec fn deep_view(&self) -> DnsQueryView {
        DnsQueryView {
            id: self.id,
            op_code: self.op_code,
            recursion_desired: self.recursion_desired,
            questions: self.questions.deep_view(),
        }
    }
}

/// An answer: an address for the name in one of the questions.
#[derive(Clone, Copy, Debug, PartialEq, Eq, Structural)]
pub struct DnsAnswer {
    pub question: usize,
    pub ttl: u32,
    pub address: IpAddress,
}

impl DeepView for DnsAnswer {
    type V = DnsAnswer;

    open spec fn deep_view(&self) -> DnsAnswer {
        *self
    }
}

/// A reply to a query.
pub struct DnsReply {
    pub id: u16,
    pub op_code: u8,
    pub recursion_desired: bool,
    pub recursion_available: bool,
    pub authoritative: bool,
    pub code: u8,
    pub answers: Vec<DnsAnswer>,
}

/// What [`DnsReply`] holds.
#[verifier::ext_equal]
pub struct DnsReplyView {
    pub id: u16,
    pub op_code: u8,
    pub recursion_desired: bool,
    pub recursion_available: bool,
    pub authoritative: bool,
    pub code: u8,
    pub answers: Seq<DnsAnswer>,
}

impl DeepView for DnsReply {
    type V = DnsReplyView;

    open spec fn deep_view(&self) -> DnsReplyView {
        DnsReplyView {
            id: self.id,
            op_code: self.op_code,
            recursion_desired: self.recursion_desired,
            recursion_available: self.recursion_available,
            authoritative: self.authoritative,
            code: self.code,
            answers: self.answers.deep_view(),
        }
    }
}

/// The query that a datagram writes, if it writes one.
pub uninterp spec fn query_in(datagram: Seq<u8>) -> Option<DnsQueryView>;

/// `hickory_proto::op::Message::from_vec` reads a DNS message, of which the parts that matter are
/// handed out; each question's name is written as ASCII.
#[verifier::external_body]
pub(crate) fn read_query(datagram: &Vec<u8>) -> (r: Option<DnsQuery>)
    ensures
        r.deep_view() == query_in(datagram@),
{
    let message = Message::from_vec(datagram).ok()?;
    let questions = message.queries().iter().map(|query| DnsQuestion {
        name: query.name().to_ascii(),
        record_type: u16::from(query.query_type()),
    });
    Some(DnsQuery {
        id: message.id(),
        op_code: u8::from(message.op_code()),
        recursion_desired: message.recursion_desired(),
        questions: questions.collect(),
    })
}

/// The datagram that writes a reply to the query in `datagram`, if it can be written.
pub uninterp spec fn reply_bytes(datagram: Seq<u8>, reply: DnsReplyView) -> Option<Seq<u8>>;

/// `hickory_proto::op::Message::to_vec` writes a response with the header, the answers and the code
/// of the reply, and the questions of the query in `datagram`. It may fail.
#[verifier::external_body]
pub(crate) fn write_reply(datagram: &Vec<u8>, reply: &DnsReply) -> (r: Option<Vec<u8>>)
    requires
        query_in(datagram@) is Some,
        forall|i: int|
            0 <= i < reply.answers@.len() ==> (#[trigger] reply.answers@[i]).question < query_in(
                datagram@,
            )->0.questions.len(),
    ensures
        r.deep_view() == reply_bytes(datagram@, reply.deep_view()),
{
    let asked = Message::from_vec(datagram).ok()?;
    let code = ResponseCode::from(0, reply.code);
    let mut out = Message::error_msg(reply.id, OpCode::from_u8(reply.op_code).ok()?, code);
    out.set_recursion_desired(reply.recursion_desired)
        .set_recursion_available(reply.recursion_available)
        .set_authoritative(reply.authoritative)
        .add_queries(asked.queries().to_vec());
    for answer in &reply.answers {
        let name = asked.queries()[answer.question].name().clone();
        out.add_answer(Record::from_rdata(name, answer.ttl, match answer.address {
            IpAddress::V4(ip) => RData::A(A(ip.into())),
            IpAddress::V6(ip) => RData::AAAA(AAAA(ip.into())),
        }));
    }
    out.to_vec().ok()
}

/// A name in the form in which names are compared: without the white space around it and the dots
/// at its end, in lower case.
pub open spec fn normalized_dns_name(name: Seq<char>) -> Seq<char> {
    lowercase_of(strip_trailing(trimmed(name), '.'))
}

/// A name in the form in which names are compared.
pub fn normalize_name(name: &str) -> (r: String)
    ensures
        r@ == normalized_dns_name(name@),
        all_ascii(strip_trailing(trimmed(name@), '.')) ==> r@ == ascii_lowered(
            strip_trailing(trimmed(name@), '.'),
        ),
{
    to_lowercase(trim_end_matches(trim(name).as_str(), '.').as_str())
}

/// The domains of networks.
pub open spec fn domains_of(networks: Seq<NetworkStateView>) -> Seq<Seq<char>> {
    Seq::new(networks.len(), |i: int| normalized_dns_name(networks[i].dns_domain))
}

/// The name under which a node is found, and its two addresses: only where the node is approved
/// and not revoked, its network is known, and both addresses can be read.
pub open spec fn record_of(
    node: NodeStateView,
    networks: TableView<NetworkStateView>,
) -> Option<(Seq<char>, (IpAddress, IpAddress))> {
    if node.revoked_at is Some || !node.approved || !networks.has(node.network_id) {
        None
    } else {
        match (parsed_ip(node.ipv4), parsed_ip(node.ipv6)) {
            (Some(ipv4), Some(ipv6)) => Some(
                (
                    normalized_dns_name(
                        name_in_domain(node.name, networks.at(node.network_id).dns_domain),
                    ),
                    (ipv4, ipv6),
                ),
            ),
            _ => None,
        }
    }
}

/// The addresses of all names; of two nodes with one name the later counts.
pub open spec fn records_of(
    nodes: Seq<NodeStateView>,
    networks: TableView<NetworkStateView>,
) -> TableView<(IpAddress, IpAddress)>
    decreases nodes.len(),
{
    if nodes.len() == 0 {
        TableView::empty()
    } else {
        let rest = records_of(nodes.drop_last(), networks);
        match record_of(nodes.last(), networks) {
            Some((name, addresses)) => rest.insert(name, addresses),
            None => rest,
        }
    }
}

/// What the name server knows.
pub struct DnsSnapshot {
    pub records: Table<(IpAddress, IpAddress)>,
    pub domains: Vec<String>,
}

/// What the name server knows of a state.
pub fn snapshot(state: &State) -> (r: DnsSnapshot)
    requires
        state.wf(),
    ensures
        r.records.wf(),
        r.records.deep_view() == records_of(
            state.deep_view().nodes.values(),
            state.deep_view().networks,
        ),
        r.domains.deep_view() == domains_of(state.deep_view().networks.values()),
{
    let ghost networks = state.networks.deep_view();
    let ghost all = networks.values();
    let mut domains: Vec<String> = Vec::new();
    let mut i: usize = 0;
    let total: usize = state.networks.len();
    assert(domains.deep_view() =~= domains_of(all.take(0)));
    while i < total
        invariant
            state.wf(),
            networks == state.networks.deep_view(),
            all == networks.values(),
            total == all.len(),
            total == networks.keys.len(),
            i <= total,
            domains.deep_view() == domains_of(all.take(i as int)),
        decreases total - i,
    {
        let ghost before = domains.deep_view();
        let domain: String = normalize_name(state.networks.value_at(i).dns_domain.as_str());
        domains.push(domain);
        assert(domains.deep_view() =~= before.push(domain@));
        assert(domains_of(all.take(i + 1)) =~= before.push(domain@));
        i = i + 1;
    }
    assert(all.take(i as int) =~= all);
    let ghost nodes = state.nodes.deep_view().values();
    let mut records: Table<(IpAddress, IpAddress)> = Table::new();
    let mut k: usize = 0;
    let count: usize = state.nodes.len();
    assert(records.deep_view() == records_of(nodes.take(0), networks));
    while k < count
        invariant
            state.wf(),
            networks == state.networks.deep_view(),
            nodes == state.nodes.deep_view().values(),
            count == nodes.len(),
            count == state.nodes.deep_view().keys.len(),
            k <= count,
            records.wf(),
            records.deep_view() == records_of(nodes.take(k as int), networks),
        decreases count - k,
    {
        let node: &NodeState = state.nodes.value_at(k);
        proof {
            assert(nodes.take(k + 1).drop_last() =~= nodes.take(k as int));
            assert(nodes.take(k + 1).last() == node.deep_view());
        }
        if let Some((name, addresses)) = node_record(node, &state.networks) {
            records.insert(name, addresses);
        }
        k = k + 1;
    }
    assert(nodes.take(k as int) =~= nodes);
    DnsSnapshot { records, domains }
}

/// The name under which a node is found, and its two addresses.
fn node_record(node: &NodeState, networks: &Table<NetworkState>) -> (r: Option<
    (String, (IpAddress, IpAddress)),
>)
    requires
        networks.wf(),
    ensures
        r.deep_view() == record_of(node.deep_view(), networks.deep_view()),
{
    if node.revoked_at.is_some() || !node.approved {
        return None;
    }
    match networks.get(node.network_id.as_str()) {
        None => None,
        Some(network) => {
            let name: String = normalize_name(
                dns_name(node.name.as_str(), network.dns_domain.as_str()).as_str(),
            );
            match (parse_ip(node.ipv4.as_str()), parse_ip(node.ipv6.as_str())) {
                (Some(ipv4), Some(ipv6)) => Some((name, (ipv4, ipv6))),
                _ => None,
            }
        },
    }
}

/// Whether a name is a domain or lies in it.
pub open spec fn within(name: Seq<char>, domain: Seq<char>) -> bool {
    name == domain || (seq!['.'] + domain).is_suffix_of(name)
}

/// Whether a name is one of the domains or lies in one.
pub open spec fn within_any(name: Seq<char>, domains: Seq<Seq<char>>) -> bool {
    exists|i: int| 0 <= i < domains.len() && within(name, #[trigger] domains[i])
}

/// Whether a name is one of the domains or lies in one.
pub fn is_within_domains(name: &str, domains: &Vec<String>) -> (r: bool)
    ensures
        r == within_any(name@, domains.deep_view()),
{
    let mut i: usize = 0;
    while i < domains.len()
        invariant
            i <= domains@.len(),
            forall|k: int| 0 <= k < i ==> !within(name@, #[trigger] domains.deep_view()[k]),
        decreases domains.len() - i,
    {
        let mut suffix: String = String::new();
        suffix.push('.');
        suffix.append(domains[i].as_str());
        assert(suffix@ =~= seq!['.'] + domains.deep_view()[i as int]);
        if same_text(name, domains[i].as_str()) || ends_with(name, suffix.as_str()) {
            assert(within(name@, domains.deep_view()[i as int]));
            return true;
        }
        i = i + 1;
    }
    false
}

/// Whether an address is of the kind that is asked for.
pub open spec fn wanted(record_type: u16, address: IpAddress) -> bool {
    match address {
        IpAddress::V4(_) => record_type == RECORD_A || record_type == RECORD_ANY,
        IpAddress::V6(_) => record_type == RECORD_AAAA || record_type == RECORD_ANY,
    }
}

/// The answer with an address to a question, where it is wanted.
pub open spec fn answer_with(place: int, record_type: u16, address: IpAddress) -> Seq<DnsAnswer> {
    if wanted(record_type, address) {
        seq![DnsAnswer { question: place as usize, ttl: DNS_TTL_SECONDS, address }]
    } else {
        Seq::empty()
    }
}

/// The answers to a question.
pub open spec fn answers_to(
    place: int,
    question: DnsQuestionView,
    records: TableView<(IpAddress, IpAddress)>,
) -> Seq<DnsAnswer> {
    match records.find(normalized_dns_name(question.name)) {
        Some((first, second)) => answer_with(place, question.record_type, first) + answer_with(
            place,
            question.record_type,
            second,
        ),
        None => Seq::empty(),
    }
}

/// The answers to all questions, in their order.
pub open spec fn all_answers(
    questions: Seq<DnsQuestionView>,
    records: TableView<(IpAddress, IpAddress)>,
) -> Seq<DnsAnswer>
    decreases questions.len(),
{
    if questions.len() == 0 {
        Seq::empty()
    } else {
        all_answers(questions.drop_last(), records) + answers_to(
            questions.len() - 1,
            questions.last(),
            records,
        )
    }
}

/// Whether some question is about a domain of the server.
pub open spec fn any_within(questions: Seq<DnsQuestionView>, domains: Seq<Seq<char>>) -> bool {
    exists|i: int|
        0 <= i < questions.len() && within_any(
            normalized_dns_name((#[trigger] questions[i]).name),
            domains,
        )
}

/// The reply to a query: with answers where there are any; else that the name does not exist where
/// it is about a domain of the server; else a refusal.
pub open spec fn reply_to(
    query: DnsQueryView,
    records: TableView<(IpAddress, IpAddress)>,
    domains: Seq<Seq<char>>,
) -> DnsReplyView {
    let answers = all_answers(query.questions, records);
    DnsReplyView {
        id: query.id,
        op_code: query.op_code,
        recursion_desired: query.recursion_desired,
        recursion_available: false,
        authoritative: true,
        code: if answers.len() > 0 {
            NO_ERROR
        } else if any_within(query.questions, domains) {
            NX_DOMAIN
        } else {
            REFUSED
        },
        answers,
    }
}

/// Adds the answer with an address to a question, where it is wanted.
fn push_answer(answers: &mut Vec<DnsAnswer>, place: usize, record_type: u16, address: IpAddress)
    ensures
        final(answers)@ == old(answers)@ + answer_with(place as int, record_type, address),
{
    let ghost before = answers@;
    let is_wanted: bool = match address {
        IpAddress::V4(_) => record_type == RECORD_A || record_type == RECORD_ANY,
        IpAddress::V6(_) => record_type == RECORD_AAAA || record_type == RECORD_ANY,
    };
    if is_wanted {
        answers.push(DnsAnswer { question: place, ttl: DNS_TTL_SECONDS, address });
    }
    assert(answers@ =~= before + answer_with(place as int, record_type, address));
}

/// Answers a query from what the name server knows.
pub fn build_response(query: &DnsQuery, known: &DnsSnapshot) -> (r: DnsReply)
    requires
        known.records.wf(),
    ensures
        r.deep_view() == reply_to(
            query.deep_view(),
            known.records.deep_view(),
            known.domains.deep_view(),
        ),
        forall|i: int|
            0 <= i < r.answers@.len() ==> (#[trigger] r.answers@[i]).question
                < query.questions@.len(),
{
    let ghost questions = query.questions.deep_view();
    let ghost records = known.records.deep_view();
    let ghost domains = known.domains.deep_view();
    let mut answers: Vec<DnsAnswer> = Vec::new();
    let mut within_domain: bool = false;
    let mut i: usize = 0;
    assert(answers@ =~= all_answers(questions.take(0), records));
    while i < query.questions.len()
        invariant
            known.records.wf(),
            records == known.records.deep_view(),
            domains == known.domains.deep_view(),
            questions == query.questions.deep_view(),
            i <= query.questions@.len(),
            answers@ == all_answers(questions.take(i as int), records),
            within_domain == any_within(questions.take(i as int), domains),
            forall|k: int|
                0 <= k < answers@.len() ==> (#[trigger] answers@[k]).question
                    < query.questions@.len(),
        decreases query.questions.len() - i,
    {
        let question: &DnsQuestion = &query.questions[i];
        let name: String = normalize_name(question.name.as_str());
        proof {
            assert(questions.take(i + 1).drop_last() =~= questions.take(i as int));
            assert(questions.take(i + 1).last() == question.deep_view());
            lemma_any_within_step(questions, domains, i as int);
        }
        if is_within_domains(name.as_str(), &known.domains) {
            within_domain = true;
        }
        let ghost before = answers@;
        if let Some((first, second)) = known.records.get(name.as_str()) {
            push_answer(&mut answers, i, question.record_type, *first);
            push_answer(&mut answers, i, question.record_type, *second);
            assert(answers@ =~= before + answers_to(i as int, question.deep_view(), records));
        } else {
            assert(answers@ =~= before + answers_to(i as int, question.deep_view(), records));
        }
        i = i + 1;
    }
    assert(questions.take(i as int) =~= questions);
    assert(answers.deep_view() =~= answers@);
    let code: u8 = if answers.len() > 0 {
        NO_ERROR
    } else if within_domain {
        NX_DOMAIN
    } else {
        REFUSED
    };
    DnsReply {
        id: query.id,
        op_code: query.op_code,
        recursion_desired: query.recursion_desired,
        recursion_available: false,
        authoritative: true,
        code,
        answers,
    }
}

/// Whether one more question is about a domain of the server.
proof fn lemma_any_within_step(questions: Seq<DnsQuestionView>, domains: Seq<Seq<char>>, i: int)
    requires
        0 <= i < questions.len(),
    ensures
        any_within(questions.take(i + 1), domains) == (any_within(questions.take(i), domains)
            || within_any(normalized_dns_name(questions[i].name), domains)),
{
    let less = questions.take(i);
    let more = questions.take(i + 1);
    if any_within(more, domains) {
        let k = choose|k: int|
            0 <= k < more.len() && within_any(
                normalized_dns_name((#[trigger] more[k]).name),
                domains,
            );
        if k < i {
            assert(less[k] == more[k]);
        }
    }
    if any_within(less, domains) {
        let k = choose|k: int|
            0 <= k < less.len() && within_any(
                normalized_dns_name((#[trigger] less[k]).name),
                domains,
            );
        assert(more[k] == less[k]);
    }
    if within_any(normalized_dns_name(questions[i].name), domains) {
        assert(more[i] == questions[i]);
    }
}

/// What is done with a datagram.
pub enum DnsOutcome {
    /// It is no query, and nothing is done.
    Ignored,
    /// It is answered.
    Reply(Vec<u8>),
    /// The reply cannot be written, and the server stops.
    Failed,
}

/// Answers a datagram from a state.
pub fn respond(state: &State, datagram: &Vec<u8>) -> (r: DnsOutcome)
    requires
        state.wf(),
    ensures
        match query_in(datagram@) {
            None => r is Ignored,
            Some(query) => match reply_bytes(
                datagram@,
                reply_to(
                    query,
                    records_of(state.deep_view().nodes.values(), state.deep_view().networks),
                    domains_of(state.deep_view().networks.values()),
                ),
            ) {
                Some(bytes) => r is Reply && r->Reply_0@ == bytes,
                None => r is Failed,
            },
        },
{
    let query: DnsQuery = match read_query(datagram) {
        Some(query) => query,
        None => {
            return DnsOutcome::Ignored;
        },
    };
    let known: DnsSnapshot = snapshot(state);
    let reply: DnsReply = build_response(&query, &known);
    match write_reply(datagram, &reply) {
        Some(bytes) => {
            assert(bytes.deep_view() =~= bytes@);
            DnsOutcome::Reply(bytes)
        },
        None => DnsOutcome::Failed,
    }
}

/// Only nodes that are approved and not revoked are found, under their names, with addresses that
/// are theirs.
pub proof fn law_only_members_are_found(
    nodes: Seq<NodeStateView>,
    networks: TableView<NetworkStateView>,
    name: Seq<char>,
)
    ensures
        records_of(nodes, networks).has(name) ==> exists|i: int|
            {
                &&& 0 <= i < nodes.len()
                &&& (#[trigger] nodes[i]).approved
                &&& nodes[i].revoked_at is None
                &&& networks.has(nodes[i].network_id)
                &&& name == normalized_dns_name(
                    name_in_domain(nodes[i].name, networks.at(nodes[i].network_id).dns_domain),
                )
                &&& parsed_ip(nodes[i].ipv4) == Some(records_of(nodes, networks).at(name).0)
                &&& parsed_ip(nodes[i].ipv6) == Some(records_of(nodes, networks).at(name).1)
            },
    decreases nodes.len(),
{
    if nodes.len() > 0 {
        let rest = nodes.drop_last();
        let n = nodes.len() - 1;
        law_only_members_are_found(rest, networks, name);
        if records_of(nodes, networks).has(name) {
            match record_of(nodes.last(), networks) {
                Some((found, addresses)) if found == name => {
                    assert(nodes[n].approved);
                },
                _ => {
                    assert(records_of(rest, networks).has(name));
                    let i = choose|i: int|
                        {
                            &&& 0 <= i < rest.len()
                            &&& (#[trigger] rest[i]).approved
                            &&& rest[i].revoked_at is None
                            &&& networks.has(rest[i].network_id)
                            &&& name == normalized_dns_name(
                                name_in_domain(
                                    rest[i].name,
                                    networks.at(rest[i].network_id).dns_domain,
                                ),
                            )
                            &&& parsed_ip(rest[i].ipv4) == Some(
                                records_of(rest, networks).at(name).0,
                            )
                            &&& parsed_ip(rest[i].ipv6) == Some(
                                records_of(rest, networks).at(name).1,
                            )
                        };
                    assert(nodes[i] == rest[i]);
                },
            }
        }
    }
}

/// Every node that is approved and not revoked, and whose addresses can be read, is found under its
/// name, unless a later one has the same name.
pub proof fn law_members_are_found(
    nodes: Seq<NodeStateView>,
    networks: TableView<NetworkStateView>,
    i: int,
    name: Seq<char>,
    addresses: (IpAddress, IpAddress),
)
    requires
        0 <= i < nodes.len(),
        record_of(nodes[i], networks) == Some((name, addresses)),
        forall|k: int|
            i < k < nodes.len() ==> (record_of(#[trigger] nodes[k], networks) matches Some(other)
                ==> other.0 != name),
    ensures
        records_of(nodes, networks).find(name) == Some(addresses),
    decreases nodes.len(),
{
    let rest = nodes.drop_last();
    if i < nodes.len() - 1 {
        assert(rest[i] == nodes[i]);
        assert forall|k: int| i < k < rest.len() implies (record_of(#[trigger] rest[k], networks)
            matches Some(other) ==> other.0 != name) by {
            assert(rest[k] == nodes[k]);
        }
        law_members_are_found(rest, networks, i, name, addresses);
        assert(record_of(nodes[nodes.len() - 1], networks) matches Some(other) ==> other.0 != name);
    }
}

/// Every answer is an address of the name in its question and of the kind asked for.
pub proof fn law_answers(
    questions: Seq<DnsQuestionView>,
    records: TableView<(IpAddress, IpAddress)>,
    i: int,
)
    requires
        questions.len() <= usize::MAX,
        0 <= i < all_answers(questions, records).len(),
    ensures
        ({
            let answer = all_answers(questions, records)[i];
            let question = questions[answer.question as int];
            let name = normalized_dns_name(question.name);
            &&& answer.question < questions.len()
            &&& answer.ttl == DNS_TTL_SECONDS
            &&& wanted(question.record_type, answer.address)
            &&& records.has(name)
            &&& answer.address == records.at(name).0 || answer.address == records.at(name).1
        }),
    decreases questions.len(),
{
    let rest = questions.drop_last();
    let before = all_answers(rest, records);
    let n = questions.len() - 1;
    if i < before.len() {
        law_answers(rest, records, i);
        assert(rest[before[i].question as int] == questions[before[i].question as int]);
    } else {
        let tail = answers_to(n, questions.last(), records);
        assert(all_answers(questions, records)[i] == tail[i - before.len()]);
    }
}

/// A reply answers its query: it has the number, the operation and the wish for recursion of the
/// query, says that the server is the authority and does not recur, and has no error exactly where
/// it has answers. Without answers it says that a name does not exist where one of the names asked
/// for lies in a domain of the server, and refuses otherwise.
pub proof fn law_reply(
    query: DnsQueryView,
    records: TableView<(IpAddress, IpAddress)>,
    domains: Seq<Seq<char>>,
)
    ensures
        ({
            let reply = reply_to(query, records, domains);
            let ours = exists|i: int, j: int|
                {
                    &&& 0 <= i < query.questions.len()
                    &&& 0 <= j < domains.len()
                    &&& within(
                        normalized_dns_name((#[trigger] query.questions[i]).name),
                        #[trigger] domains[j],
                    )
                };
            &&& reply.id == query.id
            &&& reply.op_code == query.op_code
            &&& reply.recursion_desired == query.recursion_desired
            &&& !reply.recursion_available
            &&& reply.authoritative
            &&& reply.answers.len() > 0 ==> reply.code == 0
            &&& reply.answers.len() == 0 && ours ==> reply.code == 3
            &&& reply.answers.len() == 0 && !ours ==> reply.code == 5
        }),
{
    if any_within(query.questions, domains) {
        let i = choose|i: int|
            0 <= i < query.questions.len() && within_any(
                normalized_dns_name((#[trigger] query.questions[i]).name),
                domains,
            );
        let name = normalized_dns_name(query.questions[i].name);
        let j = choose|j: int| 0 <= j < domains.len() && within(name, #[trigger] domains[j]);
        assert(within(normalized_dns_name(query.questions[i].name), domains[j]));
    }
    if exists|i: int, j: int|
        {
            &&& 0 <= i < query.questions.len()
            &&& 0 <= j < domains.len()
            &&& within(
                normalized_dns_name((#[trigger] query.questions[i]).name),
                #[trigger] domains[j],
            )
        } {
        let (i, j) = choose|i: int, j: int|
            {
                &&& 0 <= i < query.questions.len()
                &&& 0 <= j < domains.len()
                &&& within(
                    normalized_dns_name((#[trigger] query.questions[i]).name),
                    #[trigger] domains[j],
                )
            };
        assert(within_any(normalized_dns_name(query.questions[i].name), domains));
    }
}

/// Each question for a name that is known is answered with the addresses of the kind asked for,
/// IPv4 for a type of 1, IPv6 for 28 and both for 255, good for thirty seconds; and there are no
/// other answers.
pub proof fn law_all_questions_are_answered(
    questions: Seq<DnsQuestionView>,
    records: TableView<(IpAddress, IpAddress)>,
    answer: DnsAnswer,
)
    requires
        questions.len() <= usize::MAX,
    ensures
        all_answers(questions, records).contains(answer) <==> {
            let question = questions[answer.question as int];
            let name = normalized_dns_name(question.name);
            &&& answer.question < questions.len()
            &&& answer.ttl == 30
            &&& records.has(name)
            &&& answer.address == records.at(name).0 || answer.address == records.at(name).1
            &&& match answer.address {
                IpAddress::V4(_) => question.record_type == 1 || question.record_type == 255,
                IpAddress::V6(_) => question.record_type == 28 || question.record_type == 255,
            }
        },
    decreases questions.len(),
{
    let all = all_answers(questions, records);
    if questions.len() > 0 {
        let n = questions.len() - 1;
        let rest = questions.drop_last();
        law_all_questions_are_answered(rest, records, answer);
        let some = all_answers(rest, records);
        let last = answers_to(n, questions.last(), records);
        assert(all == some + last);
        if all.contains(answer) {
            let i = all.index_of(answer);
            if i < some.len() {
                assert(some[i] == answer);
            } else {
                assert(last[i - some.len()] == answer);
            }
        }
        if some.contains(answer) {
            let i = some.index_of(answer);
            assert(all[i] == answer);
        }
        if answer.question == n {
            let name = normalized_dns_name(questions.last().name);
            if records.has(name) {
                let (first, second) = records.at(name);
                let a = answer_with(n, questions.last().record_type, first);
                let b = answer_with(n, questions.last().record_type, second);
                if answer.ttl == 30 && wanted(questions.last().record_type, answer.address) {
                    if answer.address == first {
                        assert(all[some.len() as int] == answer);
                    }
                    if answer.address == second {
                        assert(all[(some.len() + a.len()) as int] == answer);
                    }
                }
            }
        }
    }
}

/// A domain holds its own name and every name that ends in a dot and its name, and no other.
pub proof fn law_within(name: Seq<char>, domain: Seq<char>, host: Seq<char>)
    ensures
        within(domain, domain),
        within(host + seq!['.'] + domain, domain),
        within(name, domain) && name != domain ==> name.len() > domain.len() && name.skip(
            name.len() - domain.len(),
        ) == domain && name[name.len() - domain.len() - 1] == '.',
{
    let suffix = seq!['.'] + domain;
    let long = host + seq!['.'] + domain;
    assert(long.subrange(long.len() - suffix.len(), long.len() as int) =~= suffix);
    if suffix.is_suffix_of(name) {
        assert(name.subrange(name.len() - suffix.len(), name.len() as int) == suffix);
        assert(name[name.len() - suffix.len()] == suffix[0]);
        assert(name.skip(name.len() - domain.len()) =~= domain) by {
            assert forall|i: int| 0 <= i < domain.len() implies name.skip(
                name.len() - domain.len(),
            )[i] == domain[i] by {
                assert(suffix[i + 1] == domain[i]);
                assert(name.subrange(name.len() - suffix.len(), name.len() as int)[i + 1]
                    == suffix[i + 1]);
            }
        }
    }
}

/// The domains that the server answers for are those of the networks, each in the form in which
/// names are looked up.
pub proof fn law_domains(networks: Seq<NetworkStateView>, i: int)
    requires
        0 <= i < networks.len(),
    ensures
        domains_of(networks).len() == networks.len(),
        domains_of(networks)[i] == normalized_dns_name(networks[i].dns_domain),
{
}

/// A node that is approved and not revoked, in a network that is known, is found under its name in
/// the domain of the network, with its two addresses if both can be read. No other node is found.
pub proof fn law_record(node: NodeStateView, networks: TableView<NetworkStateView>)
    ensures
        ({
            let record = record_of(node, networks);
            &&& record is Some <==> {
                &&& node.approved
                &&& node.revoked_at is None
                &&& networks.has(node.network_id)
                &&& parsed_ip(node.ipv4) is Some
                &&& parsed_ip(node.ipv6) is Some
            }
            &&& record matches Some((name, (first, second))) ==> {
                &&& name == normalized_dns_name(
                    node.name + seq!['.'] + networks.at(node.network_id).dns_domain,
                )
                &&& parsed_ip(node.ipv4) == Some(first)
                &&& parsed_ip(node.ipv6) == Some(second)
            }
        }),
{
}

/// A name is looked up alike with and without white space around it, and with and without dots
/// behind it.
pub proof fn law_names_are_looked_up_alike(a: Seq<char>, b: Seq<char>)
    requires
        strip_trailing(trimmed(a), '.') == strip_trailing(trimmed(b), '.'),
    ensures
        normalized_dns_name(a) == normalized_dns_name(b),
        normalized_dns_name(a) == lowercase_of(strip_trailing(trimmed(b), '.')),
{
}

} // verus!
