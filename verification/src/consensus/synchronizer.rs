//! Fetches the headers and certificates that consensus builds on.
//!
//! What is stored is looked up beforehand and handed in. Time is counted in
//! milliseconds from a moment of the caller's choosing.

use crate::collections::{
    as_map, lemma_as_map, lemma_listing, lemma_listing_exists, listing, SortedMap,
};
use crate::consensus::messages::{
    certificate_bytes, certificate_digest, is_genesis_qc, is_genesis_ticket, special_bytes,
    Certificate, CertificateModel, ConsensusMessage, Header, HeaderModel, TicketModel,
};
use crate::crypto::{digest_of, Digest, Hashable, PublicKey};
use crate::primary::error::{ConsensusError, ConsensusResult};
use vstd::prelude::*;

verus! {

/// How often the synchronizer looks for requests to repeat, in milliseconds.
pub const TIMER_ACCURACY: u64 = 5_000;

/// Something that the synchronizer asks to be done.
pub enum SyncAction {
    /// Hand the header back to the synchronizer once the digest is stored.
    WaitHeader(Digest, Header),
    /// Hand the certificate back to the synchronizer once the digest is stored.
    WaitCertificate(Digest, Certificate),
    /// Ask an authority for the header with the given digest.
    Request(PublicKey, Digest),
    /// Ask an authority for the certificate with the given digest.
    RequestCertificate(PublicKey, Digest),
    /// Ask everyone else for the header with the given digest.
    Repeat(Digest),
    /// Let the core resume with a header.
    LoopbackHeader(Header),
    /// Let the core resume with a certificate.
    LoopbackCertificate(Certificate),
}

/// An action as a value.
#[verifier::ext_equal]
pub enum SyncModel {
    WaitHeader(Digest, HeaderModel),
    WaitCertificate(Digest, CertificateModel),
    Request(PublicKey, Digest),
    RequestCertificate(PublicKey, Digest),
    Repeat(Digest),
    LoopbackHeader(HeaderModel),
    LoopbackCertificate(CertificateModel),
}

impl SyncAction {
    /// The action as a value.
    pub open spec fn model(self) -> SyncModel {
        match self {
            SyncAction::WaitHeader(digest, header) => SyncModel::WaitHeader(digest, header.model()),
            SyncAction::WaitCertificate(digest, certificate) => SyncModel::WaitCertificate(
                digest,
                certificate.model(),
            ),
            SyncAction::Request(to, digest) => SyncModel::Request(to, digest),
            SyncAction::RequestCertificate(to, digest) => SyncModel::RequestCertificate(to, digest),
            SyncAction::Repeat(digest) => SyncModel::Repeat(digest),
            SyncAction::LoopbackHeader(header) => SyncModel::LoopbackHeader(header.model()),
            SyncAction::LoopbackCertificate(certificate) => SyncModel::LoopbackCertificate(
                certificate.model(),
            ),
        }
    }
}

/// The actions as values.
pub open spec fn sync_models(actions: Seq<SyncAction>) -> Seq<SyncModel> {
    Seq::new(actions.len(), |i: int| actions[i].model())
}

/// What the synchronizer remembers.
#[verifier::ext_equal]
pub struct SyncState {
    /// The headers and certificates that wait for what they build on.
    pub pending: Set<Digest>,
    /// What was asked for, and when.
    pub requests: Map<Digest, u64>,
}

/// Nothing waits.
pub open spec fn idle() -> SyncState {
    SyncState { pending: Set::empty(), requests: Map::empty() }
}

/// The id that a header should have.
pub open spec fn header_digest(header: HeaderModel) -> Digest {
    digest_of(special_bytes(header))
}

/// The digest of a certificate.
pub open spec fn cert_digest(certificate: CertificateModel) -> Digest {
    digest_of(
        certificate_bytes(
            certificate.header.id,
            certificate.header.round,
            certificate.header.author,
        ),
    )
}

/// A header waits for its parent. It is taken up once, and the parent is asked
/// for once.
pub open spec fn header_awaited(s: SyncState, header: HeaderModel, parent: Digest, now: u64) -> (
    SyncState,
    Seq<SyncModel>,
) {
    if s.pending.contains(header_digest(header)) {
        (s, Seq::empty())
    } else {
        let waits = seq![SyncModel::WaitHeader(parent, header)];
        if s.requests.contains_key(parent) {
            (SyncState { pending: s.pending.insert(header_digest(header)), ..s }, waits)
        } else {
            (
                SyncState {
                    pending: s.pending.insert(header_digest(header)),
                    requests: s.requests.insert(parent, now),
                },
                waits.push(SyncModel::Request(header.author, parent)),
            )
        }
    }
}

/// A certificate waits for the certificate that it builds on.
pub open spec fn certificate_awaited(
    s: SyncState,
    certificate: CertificateModel,
    parent: Digest,
    now: u64,
) -> (SyncState, Seq<SyncModel>) {
    if s.pending.contains(cert_digest(certificate)) {
        (s, Seq::empty())
    } else {
        let waits = seq![SyncModel::WaitCertificate(parent, certificate)];
        if s.requests.contains_key(parent) {
            (SyncState { pending: s.pending.insert(cert_digest(certificate)), ..s }, waits)
        } else {
            (
                SyncState {
                    pending: s.pending.insert(cert_digest(certificate)),
                    requests: s.requests.insert(parent, now),
                },
                waits.push(SyncModel::RequestCertificate(certificate.header.author, parent)),
            )
        }
    }
}

/// What a header waited for is stored.
pub open spec fn header_resumed(s: SyncState, header: HeaderModel, parent: Digest) -> (
    SyncState,
    Seq<SyncModel>,
) {
    (
        SyncState {
            pending: s.pending.remove(header_digest(header)),
            requests: s.requests.remove(parent),
        },
        seq![SyncModel::LoopbackHeader(header)],
    )
}

/// What a certificate waited for is stored.
pub open spec fn certificate_resumed(s: SyncState, certificate: CertificateModel, parent: Digest) -> (
    SyncState,
    Seq<SyncModel>,
) {
    (
        SyncState {
            pending: s.pending.remove(cert_digest(certificate)),
            requests: s.requests.remove(parent),
        },
        seq![SyncModel::LoopbackCertificate(certificate)],
    )
}

/// Whether a request of the given time is to be repeated.
pub open spec fn overdue(asked: u64, delay: u64, now: u64) -> bool {
    asked + delay < now
}

/// The repetitions of the listed requests that are overdue, in order.
pub open spec fn repeats(requests: Seq<(Digest, u64)>, delay: u64, now: u64) -> Seq<SyncModel>
    decreases requests.len(),
{
    if requests.len() == 0 {
        Seq::empty()
    } else {
        let earlier = repeats(requests.drop_last(), delay, now);
        if overdue(requests.last().1, delay, now) {
            earlier.push(SyncModel::Repeat(requests.last().0))
        } else {
            earlier
        }
    }
}

/// The requests that are repeated at time `now`, in the order of their digests.
pub open spec fn repeated(s: SyncState, delay: u64, now: u64) -> Seq<SyncModel> {
    repeats(listing(s.requests), delay, now)
}

/// What is answered about the header that a header builds on, given the stored
/// header with the digest in its ticket: the ticket must close the view before
/// or show a timeout; before the first view there is nothing; what is not stored
/// is to be waited for.
pub open spec fn parent_lookup(header: HeaderModel, ticket: TicketModel, stored: Option<HeaderModel>) -> (
    ConsensusResult<Option<HeaderModel>>,
    Option<Digest>,
) {
    if ticket.qc.view.wrapping_add(1) != header.view && ticket.tc is None {
        (Err(ConsensusError::InvalidTicket), None)
    } else if is_genesis_qc(ticket.qc) {
        (Ok(None), None)
    } else if stored is Some {
        (Ok(stored), None)
    } else {
        (Ok(None), Some(ticket.qc.hash))
    }
}

/// A header or the lack of one as a value.
pub open spec fn header_result(result: ConsensusResult<Option<Header>>) -> ConsensusResult<
    Option<HeaderModel>,
> {
    match result {
        Ok(Some(header)) => Ok(Some(header.model())),
        Ok(None) => Ok(None),
        Err(e) => Err(e),
    }
}

/// An optional header as a value.
pub open spec fn optional_header(header: Option<Header>) -> Option<HeaderModel> {
    match header {
        Some(header) => Some(header.model()),
        None => None,
    }
}

/// Keeps track of what is missing and of who waits for it.
pub struct Synchronizer {
    name: PublicKey,
    sync_retry_delay: u64,
    pending: SortedMap<Digest, ()>,
    requests: SortedMap<Digest, u64>,
}

fn emit(actions: &mut Vec<SyncAction>, action: SyncAction)
    ensures
        sync_models(final(actions)@) == sync_models(old(actions)@).push(action.model()),
{
    let ghost before = actions@;
    actions.push(action);
    assert(sync_models(actions@) =~= sync_models(before).push(actions@.last().model()));
}

impl Synchronizer {
    /// What the synchronizer remembers.
    pub closed spec fn model(&self) -> SyncState {
        SyncState { pending: self.pending@.dom(), requests: self.requests@ }
    }

    /// The replica that asks, and how long it waits before it asks again.
    pub closed spec fn setup(&self) -> (PublicKey, u64) {
        (self.name, self.sync_retry_delay)
    }

    /// A synchronizer with nothing to do.
    pub fn new(name: PublicKey, sync_retry_delay: u64) -> (synchronizer: Self)
        ensures
            synchronizer.model() == idle(),
            synchronizer.setup() == (name, sync_retry_delay),
    {
        let synchronizer = Synchronizer {
            name,
            sync_retry_delay,
            pending: SortedMap::new(),
            requests: SortedMap::new(),
        };
        assert(synchronizer.model() =~= idle());
        synchronizer
    }

    /// Notes that something waits; answers whether it had not been noted before.
    fn begin_wait(&mut self, digest: Digest) -> (fresh: bool)
        ensures
            fresh == !old(self).model().pending.contains(digest),
            final(self).model() == (SyncState {
                pending: old(self).model().pending.insert(digest),
                ..old(self).model()
            }),
            final(self).setup() == old(self).setup(),
    {
        let fresh = !self.pending.contains_key(&digest);
        self.pending.insert(digest, ());
        assert(self.pending@.dom() =~= old(self).pending@.dom().insert(digest));
        fresh
    }

    /// Lets a header wait until its parent is stored.
    pub fn await_header(
        &mut self,
        header: Header,
        parent: Digest,
        now: u64,
        actions: &mut Vec<SyncAction>,
    )
        ensures
            final(self).setup() == old(self).setup(),
            ({
                let (s, more) = header_awaited(old(self).model(), header.model(), parent, now);
                &&& final(self).model() == s
                &&& sync_models(final(actions)@) == sync_models(old(actions)@) + more
            }),
    {
        let ghost before = sync_models(actions@);
        let ghost model = header.model();
        let digest = header.digest();
        if !self.begin_wait(digest) {
            assert(self.model() =~= old(self).model());
            assert(sync_models(actions@) =~= before + Seq::<SyncModel>::empty());
            return;
        }
        let author = header.author;
        emit(actions, SyncAction::WaitHeader(parent, header));
        if !self.requests.contains_key(&parent) {
            self.requests.insert(parent, now);
            emit(actions, SyncAction::Request(author, parent));
        }
        assert(self.model() =~= header_awaited(old(self).model(), model, parent, now).0);
        assert(sync_models(actions@) =~= before + header_awaited(
            old(self).model(),
            model,
            parent,
            now,
        ).1);
    }

    /// Lets a certificate wait until the certificate that it builds on is stored.
    pub fn await_certificate(
        &mut self,
        certificate: Certificate,
        now: u64,
        actions: &mut Vec<SyncAction>,
    )
        requires
            certificate.header.consensus_parent is Some,
        ensures
            final(self).setup() == old(self).setup(),
            ({
                let (s, more) = certificate_awaited(
                    old(self).model(),
                    certificate.model(),
                    certificate.header.consensus_parent->Some_0,
                    now,
                );
                &&& final(self).model() == s
                &&& sync_models(final(actions)@) == sync_models(old(actions)@) + more
            }),
    {
        let ghost before = sync_models(actions@);
        let ghost model = certificate.model();
        if let Some(parent) = certificate.header.consensus_parent {
            let digest = certificate.digest();
            if !self.begin_wait(digest) {
                assert(self.model() =~= old(self).model());
                assert(sync_models(actions@) =~= before + Seq::<SyncModel>::empty());
                return;
            }
            let author = certificate.header.author;
            emit(actions, SyncAction::WaitCertificate(parent, certificate));
            if !self.requests.contains_key(&parent) {
                self.requests.insert(parent, now);
                emit(actions, SyncAction::RequestCertificate(author, parent));
            }
            assert(self.model() =~= certificate_awaited(
                old(self).model(),
                model,
                parent,
                now,
            ).0);
            assert(sync_models(actions@) =~= before + certificate_awaited(
                old(self).model(),
                model,
                parent,
                now,
            ).1);
        }
    }

    /// Lets the core resume with a header whose parent is stored.
    pub fn resume_header(&mut self, header: Header, parent: Digest, actions: &mut Vec<SyncAction>)
        ensures
            final(self).setup() == old(self).setup(),
            ({
                let (s, more) = header_resumed(old(self).model(), header.model(), parent);
                &&& final(self).model() == s
                &&& sync_models(final(actions)@) == sync_models(old(actions)@) + more
            }),
    {
        let ghost before = sync_models(actions@);
        let ghost model = header.model();
        let digest = header.digest();
        self.pending.remove(&digest);
        self.requests.remove(&parent);
        assert(self.model() =~= header_resumed(old(self).model(), model, parent).0);
        emit(actions, SyncAction::LoopbackHeader(header));
        assert(sync_models(actions@) =~= before + seq![SyncModel::LoopbackHeader(model)]);
    }

    /// Lets the core resume with a certificate whose parent is stored.
    pub fn resume_certificate(
        &mut self,
        certificate: Certificate,
        parent: Digest,
        actions: &mut Vec<SyncAction>,
    )
        ensures
            final(self).setup() == old(self).setup(),
            ({
                let (s, more) = certificate_resumed(
                    old(self).model(),
                    certificate.model(),
                    parent,
                );
                &&& final(self).model() == s
                &&& sync_models(final(actions)@) == sync_models(old(actions)@) + more
            }),
    {
        let ghost before = sync_models(actions@);
        let ghost model = certificate.model();
        let digest = certificate.digest();
        self.pending.remove(&digest);
        self.requests.remove(&parent);
        assert(self.model() =~= certificate_resumed(old(self).model(), model, parent).0);
        emit(actions, SyncAction::LoopbackCertificate(certificate));
        assert(sync_models(actions@) =~= before + seq![SyncModel::LoopbackCertificate(model)]);
    }

    /// Asks everyone again for what was asked for too long ago.
    pub fn retry(&self, now: u64, actions: &mut Vec<SyncAction>)
        ensures
            sync_models(final(actions)@) == sync_models(old(actions)@) + repeated(
                self.model(),
                self.setup().1,
                now,
            ),
    {
        let ghost before = sync_models(actions@);
        let ghost asked = self.requests.pairs();
        let delay = self.sync_retry_delay;
        let n = self.requests.len();
        let mut i: usize = 0;
        assert(sync_models(actions@) =~= before + repeats(asked.take(0), delay, now));
        while i < n
            invariant
                i <= n == asked.len(),
                asked == self.requests.pairs(),
                sync_models(actions@) == before + repeats(asked.take(i as int), delay, now),
            decreases n - i,
        {
            assert(asked.take(i + 1).drop_last() =~= asked.take(i as int));
            let digest = self.requests.key_at(i);
            let timestamp = *self.requests.value_at(i);
            if timestamp as u128 + (delay as u128) < now as u128 {
                emit(actions, SyncAction::Repeat(digest));
            }
            assert(sync_models(actions@) =~= before + repeats(asked.take(i + 1), delay, now));
            i += 1;
        }
        assert(asked.take(n as int) =~= asked);
        proof {
            lemma_listing(asked);
        }
    }

    /// The message that asks for a header.
    pub fn request(&self, digest: Digest) -> (message: ConsensusMessage)
        ensures
            message == ConsensusMessage::SyncRequest(digest, self.setup().0),
    {
        ConsensusMessage::SyncRequest(digest, self.name)
    }

    /// The message that asks for a certificate.
    pub fn request_cert(&self, digest: Digest) -> (message: ConsensusMessage)
        ensures
            message == ConsensusMessage::SyncRequestCert(digest, self.setup().0),
    {
        ConsensusMessage::SyncRequestCert(digest, self.name)
    }

    /// The header that a header builds on by its ticket, given the stored header
    /// with that digest. What is not stored is waited for.
    pub fn get_parent_header(
        &mut self,
        header: &Header,
        stored: Option<Header>,
        now: u64,
        actions: &mut Vec<SyncAction>,
    ) -> (result: ConsensusResult<Option<Header>>)
        requires
            header.ticket is Some,
        ensures
            final(self).setup() == old(self).setup(),
            ({
                let (answer, missing) = parent_lookup(
                    header.model(),
                    header.model().ticket->Some_0,
                    optional_header(stored),
                );
                let (s, more) = match missing {
                    Some(parent) => header_awaited(old(self).model(), header.model(), parent, now),
                    None => (old(self).model(), Seq::empty()),
                };
                &&& header_result(result) == answer
                &&& final(self).model() == s
                &&& sync_models(final(actions)@) == sync_models(old(actions)@) + more
            }),
    {
        assert(sync_models(actions@) =~= sync_models(old(actions)@) + Seq::<SyncModel>::empty());
        if let Some(ticket) = &header.ticket {
            // If the QC is not of the previous view then there must be a TC.
            if ticket.qc.view.wrapping_add(1) != header.view && ticket.tc.is_none() {
                return Err(ConsensusError::InvalidTicket);
            }
            if ticket.qc.is_genesis() {
                return Ok(None);
            }
            match stored {
                Some(parent) => Ok(Some(parent)),
                None => {
                    self.await_header(header.duplicate(), ticket.qc.hash, now, actions);
                    Ok(None)
                },
            }
        } else {
            Ok(None)
        }
    }

    /// The author's header before this one, if it names one, given the stored
    /// header with that digest. What is not stored is waited for.
    pub fn get_special_parent_header(
        &mut self,
        header: &Header,
        stored: Option<Header>,
        now: u64,
        actions: &mut Vec<SyncAction>,
    ) -> (parent: Option<Header>)
        ensures
            final(self).setup() == old(self).setup(),
            ({
                let known = header.special_parent is Some && stored is Some;
                let (s, more) = if header.special_parent is Some && stored is None {
                    header_awaited(
                        old(self).model(),
                        header.model(),
                        header.special_parent->Some_0,
                        now,
                    )
                } else {
                    (old(self).model(), Seq::empty())
                };
                &&& parent == (if known {
                    stored
                } else {
                    None
                })
                &&& final(self).model() == s
                &&& sync_models(final(actions)@) == sync_models(old(actions)@) + more
            }),
    {
        assert(sync_models(actions@) =~= sync_models(old(actions)@) + Seq::<SyncModel>::empty());
        match header.special_parent {
            Some(digest) => match stored {
                Some(parent) => Some(parent),
                None => {
                    self.await_header(header.duplicate(), digest, now, actions);
                    None
                },
            },
            None => None,
        }
    }

    /// Whether the certificate that a certificate builds on is there, given
    /// whether it is stored. What is not stored is waited for; where the parent
    /// is of the first round there is nothing to wait for.
    pub fn deliver_consensus_ancestor(
        &mut self,
        certificate: &Certificate,
        stored: bool,
        now: u64,
        actions: &mut Vec<SyncAction>,
    ) -> (delivered: bool)
        requires
            certificate.header.special_parent_round != 0
                ==> certificate.header.consensus_parent is Some,
        ensures
            final(self).setup() == old(self).setup(),
            delivered == (certificate.header.special_parent_round == 0 || stored),
            ({
                let (s, more) = if delivered {
                    (old(self).model(), Seq::empty())
                } else {
                    certificate_awaited(
                        old(self).model(),
                        certificate.model(),
                        certificate.header.consensus_parent->Some_0,
                        now,
                    )
                };
                &&& final(self).model() == s
                &&& sync_models(final(actions)@) == sync_models(old(actions)@) + more
            }),
    {
        assert(sync_models(actions@) =~= sync_models(old(actions)@) + Seq::<SyncModel>::empty());
        if certificate.header.special_parent_round == 0 || stored {
            return true;
        }
        let copy = certificate.duplicate();
        assert(copy.model().header.consensus_parent == certificate.header.consensus_parent);
        self.await_certificate(copy, now, actions);
        false
    }
}

impl Synchronizer {
    /// Where the certificate of a header is stored.
    pub fn get_cert(header: &Header) -> (key: Digest)
        ensures
            key == digest_of(certificate_bytes(header.id, header.round, header.author)),
    {
        certificate_digest(header)
    }

    /// Where the certificate that a certificate builds on is stored, if it builds
    /// on one.
    pub fn get_parent_cert(certificate: &Certificate) -> (key: Option<Digest>)
        ensures
            key == certificate.header.consensus_parent,
    {
        certificate.header.consensus_parent
    }

    /// Where the header of a certificate is stored.
    pub fn deliver_self(certificate: &Certificate) -> (key: Digest)
        ensures
            key == certificate.header.id,
    {
        certificate.header.id
    }

    /// The ticket that must be stored before a header is committed, if any.
    pub fn deliver_parent_ticket(header: &Header) -> (key: Option<Digest>)
        ensures
            key == awaited_ticket(header.model()),
    {
        match &header.ticket {
            Some(ticket) => if ticket.qc.is_genesis() && ticket.tc.is_none() {
                None
            } else {
                header.consensus_parent
            },
            None => header.consensus_parent,
        }
    }
}

/// The ticket that must be stored before a header is committed: the one that it
/// builds on, unless that is the ticket of the first view.
pub open spec fn awaited_ticket(header: HeaderModel) -> Option<Digest> {
    match header.ticket {
        Some(ticket) => if is_genesis_ticket(ticket) {
            None
        } else {
            header.consensus_parent
        },
        None => header.consensus_parent,
    }
}

/// A header that already waits is not taken up again, and nothing more is asked
/// for.
pub proof fn law_waits_once(s: SyncState, header: HeaderModel, parent: Digest, now: u64, later: u64)
    ensures
        ({
            let t = header_awaited(s, header, parent, now).0;
            &&& header_awaited(t, header, parent, later).0 == t
            &&& header_awaited(t, header, parent, later).1.len() == 0
        }),
{
}

/// A missing parent is asked for once, however many headers wait for it.
pub proof fn law_asked_once(s: SyncState, header: HeaderModel, parent: Digest, now: u64)
    requires
        s.requests.contains_key(parent),
    ensures
        header_awaited(s, header, parent, now).0.requests == s.requests,
        forall|to: PublicKey|
            !(#[trigger] header_awaited(s, header, parent, now).1.contains(
                SyncModel::Request(to, parent),
            )),
{
}

/// Resuming undoes waiting: a header that waited and whose parent came leaves no
/// trace.
pub proof fn law_resuming_undoes_waiting(s: SyncState, header: HeaderModel, parent: Digest, now: u64)
    requires
        !s.pending.contains(header_digest(header)),
        !s.requests.contains_key(parent),
    ensures
        header_resumed(header_awaited(s, header, parent, now).0, header, parent).0 == s,
{
    let t = header_awaited(s, header, parent, now).0;
    let u = header_resumed(t, header, parent).0;
    assert(u.pending =~= s.pending);
    assert(u.requests =~= s.requests);
}

/// Exactly the requests that are overdue are repeated.
pub proof fn law_overdue_repeated(s: SyncState, delay: u64, now: u64, digest: Digest)
    requires
        s.requests.dom().finite(),
    ensures
        repeated(s, delay, now).contains(SyncModel::Repeat(digest)) <==> s.requests.contains_key(
            digest,
        ) && overdue(s.requests[digest], delay, now),
{
    let list = listing(s.requests);
    lemma_listing_exists(s.requests);
    lemma_as_map(list);
    lemma_repeats(list, delay, now, digest);
    if repeated(s, delay, now).contains(SyncModel::Repeat(digest)) {
        let i = choose|i: int|
            0 <= i < list.len() && (#[trigger] list[i]).0 == digest && overdue(
                list[i].1,
                delay,
                now,
            );
        assert(as_map(list).contains_key(list[i].0));
    }
    if s.requests.contains_key(digest) && overdue(s.requests[digest], delay, now) {
        let i = choose|i: int|
            0 <= i < list.len() && (#[trigger] list[i]).0 == digest && as_map(list)[digest]
                == list[i].1;
        assert(overdue(list[i].1, delay, now));
    }
}

/// What a header waits for is asked for again once the request is overdue, if it
/// had not been asked for before, until it arrives.
pub proof fn law_waiting_asks_again(
    s: SyncState,
    header: HeaderModel,
    parent: Digest,
    asked: u64,
    delay: u64,
    now: u64,
)
    requires
        s.requests.dom().finite(),
        !s.pending.contains(header_digest(header)),
        !s.requests.contains_key(parent),
    ensures
        ({
            let t = header_awaited(s, header, parent, asked).0;
            &&& t.requests.dom().finite()
            &&& repeated(t, delay, now).contains(SyncModel::Repeat(parent)) <==> overdue(
                asked,
                delay,
                now,
            )
            &&& !repeated(header_resumed(t, header, parent).0, delay, now).contains(
                SyncModel::Repeat(parent),
            )
        }),
{
    let t = header_awaited(s, header, parent, asked).0;
    law_overdue_repeated(t, delay, now, parent);
    law_overdue_repeated(header_resumed(t, header, parent).0, delay, now, parent);
}

/// Of a list of requests, exactly the overdue ones are repeated.
proof fn lemma_repeats(requests: Seq<(Digest, u64)>, delay: u64, now: u64, digest: Digest)
    ensures
        repeats(requests, delay, now).contains(SyncModel::Repeat(digest)) <==> exists|i: int|
            0 <= i < requests.len() && (#[trigger] requests[i]).0 == digest && overdue(
                requests[i].1,
                delay,
                now,
            ),
    decreases requests.len(),
{
    if requests.len() > 0 {
        let front = requests.drop_last();
        lemma_repeats(front, delay, now, digest);
        let all = repeats(requests, delay, now);
        let earlier = repeats(front, delay, now);
        if all.contains(SyncModel::Repeat(digest)) {
            let k = choose|k: int| 0 <= k < all.len() && all[k] == SyncModel::Repeat(digest);
            if k < earlier.len() {
                assert(earlier[k] == all[k]);
                let i = choose|i: int|
                    0 <= i < front.len() && (#[trigger] front[i]).0 == digest && overdue(
                        front[i].1,
                        delay,
                        now,
                    );
                assert(requests[i] == front[i]);
            } else {
                assert(requests[requests.len() - 1].0 == digest);
            }
        }
        if exists|i: int|
            0 <= i < requests.len() && (#[trigger] requests[i]).0 == digest && overdue(
                requests[i].1,
                delay,
                now,
            ) {
            let i = choose|i: int|
                0 <= i < requests.len() && (#[trigger] requests[i]).0 == digest && overdue(
                    requests[i].1,
                    delay,
                    now,
                );
            if i < front.len() {
                assert(front[i] == requests[i]);
                let k = choose|k: int|
                    0 <= k < earlier.len() && earlier[k] == SyncModel::Repeat(digest);
                assert(all[k] == earlier[k]);
            } else {
                assert(all[earlier.len() as int] == SyncModel::Repeat(digest));
            }
        }
    }
}

/// A header whose parent is missing waits for it, and the author of the header is
/// asked for the parent, unless it was asked for before.
pub proof fn law_missing_parents_asked_for(
    s: SyncState,
    header: HeaderModel,
    parent: Digest,
    now: u64,
)
    requires
        !s.pending.contains(digest_of(special_bytes(header))),
    ensures
        ({
            let (t, actions) = header_awaited(s, header, parent, now);
            &&& t.pending == s.pending.insert(digest_of(special_bytes(header)))
            &&& s.requests.contains_key(parent) ==> t.requests == s.requests && actions == seq![
                SyncModel::WaitHeader(parent, header),
            ]
            &&& !s.requests.contains_key(parent) ==> t.requests == s.requests.insert(parent, now)
                && actions == seq![
                SyncModel::WaitHeader(parent, header),
                SyncModel::Request(header.author, parent),
            ]
        }),
{
}

/// The same for certificates: a certificate waits once, its missing parent is
/// asked for once, of the author of its header, and resuming undoes the waiting.
pub proof fn law_certificates_wait_alike(
    s: SyncState,
    certificate: CertificateModel,
    parent: Digest,
    now: u64,
    later: u64,
)
    requires
        !s.pending.contains(
            digest_of(
                certificate_bytes(
                    certificate.header.id,
                    certificate.header.round,
                    certificate.header.author,
                ),
            ),
        ),
        !s.requests.contains_key(parent),
    ensures
        ({
            let (t, actions) = certificate_awaited(s, certificate, parent, now);
            let (u, loops) = certificate_resumed(t, certificate, parent);
            &&& actions == seq![
                SyncModel::WaitCertificate(parent, certificate),
                SyncModel::RequestCertificate(certificate.header.author, parent),
            ]
            &&& t.requests == s.requests.insert(parent, now)
            &&& certificate_awaited(t, certificate, parent, later).0 == t
            &&& certificate_awaited(t, certificate, parent, later).1.len() == 0
            &&& u == s
            &&& loops == seq![SyncModel::LoopbackCertificate(certificate)]
        }),
{
    let t = certificate_awaited(s, certificate, parent, now).0;
    let u = certificate_resumed(t, certificate, parent).0;
    assert(u.pending =~= s.pending);
    assert(u.requests =~= s.requests);
}

/// What waited goes back to the core once what it waited for is stored.
pub proof fn law_resumed_headers_go_back(s: SyncState, header: HeaderModel, parent: Digest)
    ensures
        ({
            let (t, actions) = header_resumed(s, header, parent);
            &&& actions == seq![SyncModel::LoopbackHeader(header)]
            &&& !t.pending.contains(digest_of(special_bytes(header)))
            &&& !t.requests.contains_key(parent)
        }),
{
}

/// A request is repeated when more than the delay has passed since it was made.
pub proof fn law_repeated_after_delay(s: SyncState, delay: u64, now: u64, digest: Digest)
    requires
        s.requests.dom().finite(),
        s.requests.contains_key(digest),
    ensures
        repeated(s, delay, now).contains(SyncModel::Repeat(digest)) <==> now > s.requests[digest]
            + delay,
{
    law_overdue_repeated(s, delay, now, digest);
}

/// The parent of a header is what the quorum certificate of its ticket names. A
/// ticket without a timeout certificate must be for the view before; the header
/// of the first view has no parent; a parent that is not stored is asked for.
pub proof fn law_parent_is_what_ticket_names(
    header: HeaderModel,
    ticket: TicketModel,
    stored: Option<HeaderModel>,
)
    requires
        ticket.qc.view < u64::MAX,
    ensures
        ({
            let (answer, wanted) = parent_lookup(header, ticket, stored);
            let fits = ticket.tc is Some || ticket.qc.view + 1 == header.view;
            let first = is_genesis_qc(ticket.qc);
            &&& answer is Err <==> !fits
            &&& fits && !first && stored is Some ==> answer == Ok::<_, ConsensusError>(stored)
                && wanted is None
            &&& fits && !first && stored is None ==> wanted == Some(ticket.qc.hash)
            &&& fits && first ==> answer == Ok::<Option<HeaderModel>, ConsensusError>(None)
                && wanted is None
        }),
{
}

/// The ticket that a header builds on is waited for unless it is that of the
/// first view.
pub proof fn law_tickets_awaited(header: HeaderModel)
    ensures
        header.ticket is Some && is_genesis_qc(header.ticket->0.qc) && header.ticket->0.tc is None
            ==> awaited_ticket(header) is None,
        !(header.ticket is Some && is_genesis_qc(header.ticket->0.qc)
            && header.ticket->0.tc is None) ==> awaited_ticket(header) == header.consensus_parent,
{
}

} // verus!
