//! The messages of view-by-view consensus: special headers, the certificates
//! that close a view, and the tickets that open the next one.

use crate::bytes::{append_bytes, append_u64_le, le_bytes};
use crate::collections::SortedMap;
use crate::config::{worker_in, Committee, WorkerId};
use crate::crypto::{
    batch_result, digest_of, hash_bytes, is_degenerate, signature_with, signed_by, signer_output,
    votes_on, CryptoError, Digest, Hashable, PublicKey, SecretKey, Signature,
    Signer,
};
use crate::primary::error::{
    ConsensusError, ConsensusResult, DagError, DagResult, Height, ViewNumber,
};
use crate::primary::messages::{
    append_payload, copy_votes, make_zero_digest, make_zero_key, make_zero_signature,
    payload_bytes, qc_error, tc_error, zero_digest, zero_key, zero_signature,
};
use crate::quorum::{check_voters, quorum_fault, reaches, voters, weight, VoterFault};
use vstd::prelude::*;

verus! {

/// Round of a header in the DAG.
pub type Round = Height;

/// What a quorum accepts about a header: its digest, view and round.
pub open spec fn accept_bytes(hash: Digest, view: ViewNumber, view_round: Round) -> Seq<u8> {
    hash@ + le_bytes(view as nat, 8) + le_bytes(view_round as nat, 8)
}

fn accept_digest(hash: &Digest, view: ViewNumber, view_round: Round) -> (digest: Digest)
    ensures
        digest == digest_of(accept_bytes(*hash, view, view_round)),
{
    let mut buffer: Vec<u8> = Vec::new();
    append_bytes(&mut buffer, hash.0.as_slice());
    append_u64_le(&mut buffer, view);
    append_u64_le(&mut buffer, view_round);
    assert(buffer@ =~= accept_bytes(*hash, view, view_round));
    hash_bytes(buffer.as_slice())
}

/// A vote to commit a certified header.
#[derive(Clone, Copy, Debug)]
pub struct AcceptVote {
    pub hash: Digest,
    pub view: ViewNumber,
    pub view_round: Round,
    pub author: PublicKey,
    pub signature: Signature,
}

impl Hashable for AcceptVote {
    open spec fn preimage(&self) -> Seq<u8> {
        accept_bytes(self.hash, self.view, self.view_round)
    }

    fn digest(&self) -> (digest: Digest) {
        accept_digest(&self.hash, self.view, self.view_round)
    }
}

impl PartialEq for AcceptVote {
    fn eq(&self, other: &Self) -> (same: bool) {
        self.digest() == other.digest()
    }
}

impl vstd::std_specs::cmp::PartialEqSpecImpl for AcceptVote {
    open spec fn obeys_eq_spec() -> bool {
        true
    }

    open spec fn eq_spec(&self, other: &Self) -> bool {
        digest_of(self.preimage()) == digest_of(other.preimage())
    }
}

/// What the verification of a vote answers.
pub open spec fn accept_verdict(vote: AcceptVote, committee: &Committee) -> ConsensusResult<()> {
    if committee.stake_spec(vote.author) == 0 {
        Err(ConsensusError::UnknownAuthority(vote.author))
    } else if !signed_by(digest_of(vote.preimage()), vote.author, vote.signature) {
        Err(ConsensusError::InvalidSignature(CryptoError::InvalidSignature))
    } else {
        Ok(())
    }
}

impl AcceptVote {
    /// A signed vote for a header.
    pub fn new(header: &Header, author: PublicKey, signer: &Signer) -> (vote: Self)
        ensures
            vote.hash == header.id,
            vote.view == header.view,
            vote.view_round == header.round,
            vote.author == author,
            vote.signature == signature_with(
                signer_output(
                    signer.disabled(),
                    signer.keypair(),
                    digest_of(accept_bytes(header.id, header.view, header.round))@,
                ),
            ),
            !signer.disabled() && author@ == signer.public_view() && !is_degenerate(
                vote.signature,
            ) ==> signed_by(digest_of(vote.preimage()), author, vote.signature),
    {
        let digest = accept_digest(&header.id, header.view, header.round);
        AcceptVote {
            hash: header.id,
            view: header.view,
            view_round: header.round,
            author,
            signature: signer.sign(&digest),
        }
    }

    /// A vote signed with a bare key.
    pub fn new_from_key(
        id: Digest,
        view: ViewNumber,
        round: Round,
        author: PublicKey,
        secret: &SecretKey,
    ) -> (vote: Self)
        ensures
            vote.hash == id,
            vote.view == view,
            vote.view_round == round,
            vote.author == author,
            vote.signature@ == crate::crypto::ed25519_signature(
                secret.keypair(),
                digest_of(vote.preimage())@,
            ),
            author@ == secret.public_view() && !is_degenerate(vote.signature) ==> signed_by(
                digest_of(vote.preimage()),
                author,
                vote.signature,
            ),
    {
        let digest = accept_digest(&id, view, round);
        let signature = Signature::new(&digest, secret);
        AcceptVote { hash: id, view, view_round: round, author, signature }
    }

    /// Checks that the vote is its author's.
    pub fn verify(&self, committee: &Committee) -> (result: ConsensusResult<()>)
        ensures
            result == accept_verdict(*self, committee),
    {
        // Ensure the authority has voting rights.
        if committee.stake(&self.author) == 0 {
            return Err(ConsensusError::UnknownAuthority(self.author));
        }
        // Check the signature.
        match self.signature.verify(&self.digest(), &self.author) {
            Ok(()) => Ok(()),
            Err(e) => Err(ConsensusError::InvalidSignature(e)),
        }
    }
}

/// The accept votes of a quorum.
pub struct QC {
    pub hash: Digest,
    pub view: ViewNumber,
    pub view_round: Round,
    pub votes: Vec<(PublicKey, Signature)>,
}

/// A quorum certificate as a value.
#[verifier::ext_equal]
pub struct QcModel {
    pub hash: Digest,
    pub view: ViewNumber,
    pub view_round: Round,
    pub votes: Seq<(PublicKey, Signature)>,
}

/// The certificate that stands before the first view.
pub open spec fn genesis_qc() -> QcModel {
    QcModel { hash: zero_digest(), view: 0, view_round: 0, votes: Seq::empty() }
}

/// Whether a certificate is taken for the genesis certificate: its votes do not
/// matter.
pub open spec fn is_genesis_qc(qc: QcModel) -> bool {
    qc.hash == zero_digest() && qc.view == 0 && qc.view_round == 0
}

impl Hashable for QC {
    open spec fn preimage(&self) -> Seq<u8> {
        accept_bytes(self.hash, self.view, self.view_round)
    }

    fn digest(&self) -> (digest: Digest) {
        accept_digest(&self.hash, self.view, self.view_round)
    }
}

/// A vote and the certificate for the same header, view and round are over the
/// same digest, so the signatures of votes are the signatures of the
/// certificate.
pub proof fn lemma_accept_vote_signs_qc(vote: AcceptVote, qc: QC)
    requires
        vote.hash == qc.hash,
        vote.view == qc.view,
        vote.view_round == qc.view_round,
    ensures
        vote.preimage() == qc.preimage(),
{
}

/// The signatures that a quorum certificate shows: its votes, over what a vote
/// for its header signs.
pub open spec fn qc_items(qc: QcModel) -> Seq<(PublicKey, Digest, Signature)> {
    votes_on(digest_of(accept_bytes(qc.hash, qc.view, qc.view_round)), qc.votes)
}

/// Whether a verdict on a quorum certificate is one that its verification may
/// give: the genesis certificate passes, voters that are no quorum are named, and
/// else the check of exactly its signatures together decides.
pub open spec fn qc_verdict(qc: QcModel, committee: &Committee, result: ConsensusResult<()>) -> bool {
    if is_genesis_qc(qc) {
        result is Ok
    } else {
        match quorum_fault(committee, voters(qc.votes)) {
            Some(fault) => result == Err::<(), ConsensusError>(qc_error(fault)),
            None => match result {
                Ok(()) => batch_result(qc_items(qc), Ok(())),
                Err(ConsensusError::InvalidSignature(e)) => batch_result(qc_items(qc), Err(e)),
                Err(_) => false,
            },
        }
    }
}

impl QC {
    /// The certificate as a value.
    pub open spec fn model(self) -> QcModel {
        QcModel {
            hash: self.hash,
            view: self.view,
            view_round: self.view_round,
            votes: self.votes@,
        }
    }

    /// Another certificate with the same content.
    pub fn duplicate(&self) -> (qc: Self)
        ensures
            qc.model() == self.model(),
    {
        QC {
            hash: self.hash,
            view: self.view,
            view_round: self.view_round,
            votes: copy_votes(&self.votes),
        }
    }

    /// The certificate that stands before the first view.
    pub fn genesis() -> (qc: Self)
        ensures
            qc.model() == genesis_qc(),
    {
        QC { hash: make_zero_digest(), view: 0, view_round: 0, votes: Vec::new() }
    }

    /// Whether the certificate is taken for the genesis certificate.
    pub fn is_genesis(&self) -> (genesis: bool)
        ensures
            genesis == is_genesis_qc(self.model()),
    {
        self.hash == make_zero_digest() && self.view == 0 && self.view_round == 0
    }

    /// Checks that the certificate is the genesis certificate or shows the
    /// votes of a quorum of different authorities.
    ///
    /// The signatures are checked as one batch.
    pub fn verify(&self, committee: &Committee) -> (result: ConsensusResult<()>)
        ensures
            qc_verdict(self.model(), committee, result),
    {
        // The genesis certificate is always valid.
        if self.is_genesis() {
            return Ok(());
        }
        // Ensure the QC has a quorum.
        match check_voters(committee, &self.votes) {
            Some(VoterFault::Reused(name)) => return Err(ConsensusError::AuthorityReuse(name)),
            Some(VoterFault::Unknown(name)) => return Err(ConsensusError::UnknownAuthority(name)),
            Some(VoterFault::TooWeak) => return Err(ConsensusError::QCRequiresQuorum),
            None => {},
        }
        // Check the signatures.
        match Signature::verify_batch(&self.digest(), self.votes.as_slice()) {
            Ok(()) => Ok(()),
            Err(e) => Err(ConsensusError::InvalidSignature(e)),
        }
    }
}

/// What a replica signs when it gives up on a view: the view and the view of the
/// highest certificate that it has.
pub open spec fn timeout_bytes(view: ViewNumber, high_view: ViewNumber) -> Seq<u8> {
    le_bytes(view as nat, 8) + le_bytes(high_view as nat, 8)
}

fn timeout_digest(view: ViewNumber, high_view: ViewNumber) -> (digest: Digest)
    ensures
        digest == digest_of(timeout_bytes(view, high_view)),
{
    let mut buffer: Vec<u8> = Vec::new();
    append_u64_le(&mut buffer, view);
    append_u64_le(&mut buffer, high_view);
    assert(buffer@ =~= timeout_bytes(view, high_view));
    hash_bytes(buffer.as_slice())
}

/// A replica gives up on a view.
pub struct Timeout {
    /// The highest certificate that the replica has.
    pub high_qc: QC,
    pub view: ViewNumber,
    pub author: PublicKey,
    pub signature: Signature,
}

/// A timeout as a value.
#[verifier::ext_equal]
pub struct TimeoutModel {
    pub high_qc: QcModel,
    pub view: ViewNumber,
    pub author: PublicKey,
    pub signature: Signature,
}

impl Hashable for Timeout {
    open spec fn preimage(&self) -> Seq<u8> {
        timeout_bytes(self.view, self.high_qc.view)
    }

    fn digest(&self) -> (digest: Digest) {
        timeout_digest(self.view, self.high_qc.view)
    }
}

/// What is answered about a timeout, given the verdict on its certificate.
pub open spec fn timeout_verdict(
    timeout: TimeoutModel,
    committee: &Committee,
    qc_result: ConsensusResult<()>,
) -> ConsensusResult<()> {
    if committee.stake_spec(timeout.author) == 0 {
        Err(ConsensusError::UnknownAuthority(timeout.author))
    } else if !signed_by(
        digest_of(timeout_bytes(timeout.view, timeout.high_qc.view)),
        timeout.author,
        timeout.signature,
    ) {
        Err(ConsensusError::InvalidSignature(CryptoError::InvalidSignature))
    } else {
        qc_result
    }
}

impl Timeout {
    /// The timeout as a value.
    pub open spec fn model(self) -> TimeoutModel {
        TimeoutModel {
            high_qc: self.high_qc.model(),
            view: self.view,
            author: self.author,
            signature: self.signature,
        }
    }

    /// Another timeout with the same content.
    pub fn duplicate(&self) -> (timeout: Self)
        ensures
            timeout.model() == self.model(),
    {
        Timeout {
            high_qc: self.high_qc.duplicate(),
            view: self.view,
            author: self.author,
            signature: self.signature,
        }
    }

    /// A signed timeout.
    pub fn new(high_qc: QC, view: ViewNumber, author: PublicKey, signer: &Signer) -> (timeout: Self)
        ensures
            timeout.model() == (TimeoutModel {
                high_qc: high_qc.model(),
                view,
                author,
                signature: signature_with(
                    signer_output(
                        signer.disabled(),
                        signer.keypair(),
                        digest_of(timeout_bytes(view, high_qc.view))@,
                    ),
                ),
            }),
            !signer.disabled() && author@ == signer.public_view() && !is_degenerate(
                timeout.signature,
            ) ==> signed_by(digest_of(timeout.preimage()), author, timeout.signature),
    {
        let digest = timeout_digest(view, high_qc.view);
        Timeout { high_qc, view, author, signature: signer.sign(&digest) }
    }

    /// A timeout signed with a bare key.
    pub fn new_from_key(high_qc: QC, view: ViewNumber, author: PublicKey, secret: &SecretKey) -> (
        timeout: Self)
        ensures
            timeout.high_qc == high_qc,
            timeout.view == view,
            timeout.author == author,
            timeout.signature@ == crate::crypto::ed25519_signature(
                secret.keypair(),
                digest_of(timeout_bytes(view, high_qc.view))@,
            ),
            author@ == secret.public_view() && !is_degenerate(timeout.signature) ==> signed_by(
                digest_of(timeout.preimage()),
                author,
                timeout.signature,
            ),
    {
        let digest = timeout_digest(view, high_qc.view);
        let signature = Signature::new(&digest, secret);
        Timeout { high_qc, view, author, signature }
    }

    /// Checks that the timeout is its author's and carries a valid certificate.
    pub fn verify(&self, committee: &Committee) -> (result: ConsensusResult<()>)
        ensures
            exists|qc_result: ConsensusResult<()>| #[trigger]
                qc_verdict(self.high_qc.model(), committee, qc_result) && result == timeout_verdict(
                    self.model(),
                    committee,
                    qc_result,
                ),
    {
        let qc_result = self.high_qc.verify(committee);
        self.judge(committee, qc_result)
    }

    /// Checks that the timeout is its author's, given the verdict on its
    /// certificate.
    pub fn judge(&self, committee: &Committee, qc_result: ConsensusResult<()>) -> (result:
        ConsensusResult<()>)
        ensures
            result == timeout_verdict(self.model(), committee, qc_result),
    {
        // Ensure the authority has voting rights.
        if committee.stake(&self.author) == 0 {
            return Err(ConsensusError::UnknownAuthority(self.author));
        }
        // Check the signature.
        if let Err(e) = self.signature.verify(&self.digest(), &self.author) {
            return Err(ConsensusError::InvalidSignature(e));
        }
        // Check the embedded QC.
        qc_result
    }
}

/// The timeouts of a quorum: each author's signature with the view of the
/// highest certificate that it had.
pub struct TC {
    /// The header of the highest certificate among the timeouts.
    pub hash: Digest,
    pub view: ViewNumber,
    /// The round of that header.
    pub view_round: Round,
    pub votes: Vec<(PublicKey, Signature, ViewNumber)>,
}

/// A timeout certificate as a value.
#[verifier::ext_equal]
pub struct TcModel {
    pub hash: Digest,
    pub view: ViewNumber,
    pub view_round: Round,
    pub votes: Seq<(PublicKey, Signature, ViewNumber)>,
}

/// The timeout certificate that stands before the first view.
pub open spec fn genesis_tc() -> TcModel {
    TcModel { hash: zero_digest(), view: 0, view_round: 0, votes: Seq::empty() }
}

/// Whether a certificate is taken for the genesis certificate.
pub open spec fn is_genesis_tc(tc: TcModel) -> bool {
    tc.hash == zero_digest() && tc.view == 0 && tc.view_round == 0
}

/// The authors of timeouts, in order.
pub open spec fn timeout_voters(votes: Seq<(PublicKey, Signature, ViewNumber)>) -> Seq<PublicKey> {
    Seq::new(votes.len(), |i: int| votes[i].0)
}

/// Whether every timeout of `view` is signed by its author.
pub open spec fn timeouts_signed(
    votes: Seq<(PublicKey, Signature, ViewNumber)>,
    view: ViewNumber,
) -> bool {
    forall|i: int|
        0 <= i < votes.len() ==> signed_by(
            digest_of(timeout_bytes(view, (#[trigger] votes[i]).2)),
            votes[i].0,
            votes[i].1,
        )
}

/// What the verification of a timeout certificate answers.
pub open spec fn tc_verdict(tc: TcModel, committee: &Committee) -> ConsensusResult<()> {
    if is_genesis_tc(tc) {
        Ok(())
    } else {
        match quorum_fault(committee, timeout_voters(tc.votes)) {
            Some(fault) => Err(tc_error(fault)),
            None => if timeouts_signed(tc.votes, tc.view) {
                Ok(())
            } else {
                Err(ConsensusError::InvalidSignature(CryptoError::InvalidSignature))
            },
        }
    }
}

/// A fresh copy of a list of timeouts.
pub fn copy_timeout_votes(votes: &Vec<(PublicKey, Signature, ViewNumber)>) -> (copy: Vec<
    (PublicKey, Signature, ViewNumber),
>)
    ensures
        copy@ == votes@,
{
    let mut copy: Vec<(PublicKey, Signature, ViewNumber)> = Vec::new();
    let mut i: usize = 0;
    while i < votes.len()
        invariant
            i <= votes@.len(),
            copy@ == votes@.take(i as int),
        decreases votes@.len() - i,
    {
        copy.push((votes[i].0, votes[i].1, votes[i].2));
        assert(copy@ =~= votes@.take(i + 1));
        i += 1;
    }
    assert(copy@ =~= votes@);
    copy
}

impl TC {
    /// The certificate as a value.
    pub open spec fn model(self) -> TcModel {
        TcModel {
            hash: self.hash,
            view: self.view,
            view_round: self.view_round,
            votes: self.votes@,
        }
    }

    /// Another certificate with the same content.
    pub fn duplicate(&self) -> (tc: Self)
        ensures
            tc.model() == self.model(),
    {
        TC {
            hash: self.hash,
            view: self.view,
            view_round: self.view_round,
            votes: copy_timeout_votes(&self.votes),
        }
    }

    /// The certificate that stands before the first view.
    pub fn genesis() -> (tc: Self)
        ensures
            tc.model() == genesis_tc(),
    {
        TC { hash: make_zero_digest(), view: 0, view_round: 0, votes: Vec::new() }
    }

    /// Checks that the certificate is the genesis certificate or shows the
    /// timeouts of a quorum of different authorities, each signed by its author.
    pub fn verify(&self, committee: &Committee) -> (result: ConsensusResult<()>)
        ensures
            result == tc_verdict(self.model(), committee),
    {
        if self.hash == make_zero_digest() && self.view == 0 && self.view_round == 0 {
            return Ok(());
        }
        let mut signatures: Vec<(PublicKey, Signature)> = Vec::new();
        let mut i: usize = 0;
        while i < self.votes.len()
            invariant
                i <= self.votes@.len(),
                signatures@.len() == i,
                forall|j: int| 0 <= j < i ==> (#[trigger] signatures@[j]).0 == self.votes@[j].0,
            decreases self.votes@.len() - i,
        {
            signatures.push((self.votes[i].0, self.votes[i].1));
            i += 1;
        }
        assert(voters(signatures@) =~= timeout_voters(self.votes@));
        // Ensure the TC has a quorum.
        match check_voters(committee, &signatures) {
            Some(VoterFault::Reused(name)) => return Err(ConsensusError::AuthorityReuse(name)),
            Some(VoterFault::Unknown(name)) => return Err(ConsensusError::UnknownAuthority(name)),
            Some(VoterFault::TooWeak) => return Err(ConsensusError::TCRequiresQuorum),
            None => {},
        }
        // Check the signatures.
        let mut i: usize = 0;
        while i < self.votes.len()
            invariant
                i <= self.votes@.len(),
                !is_genesis_tc(self.model()),
                quorum_fault(committee, timeout_voters(self.votes@)) is None,
                forall|j: int|
                    0 <= j < i ==> signed_by(
                        digest_of(timeout_bytes(self.view, (#[trigger] self.votes@[j]).2)),
                        self.votes@[j].0,
                        self.votes@[j].1,
                    ),
            decreases self.votes@.len() - i,
        {
            let digest = timeout_digest(self.view, self.votes[i].2);
            if let Err(e) = self.votes[i].1.verify(&digest, &self.votes[i].0) {
                assert(!signed_by(
                    digest_of(timeout_bytes(self.view, self.votes@[i as int].2)),
                    self.votes@[i as int].0,
                    self.votes@[i as int].1,
                ));
                return Err(ConsensusError::InvalidSignature(e));
            }
            i += 1;
        }
        Ok(())
    }
}

/// What entitles the next leader to propose: the certificate that closed a view.
pub struct Ticket {
    /// The header that the certificate is about.
    pub hash: Digest,
    pub qc: QC,
    pub tc: Option<TC>,
    /// The view that was closed.
    pub view: ViewNumber,
    /// The round of the header.
    pub round: Round,
}

/// A ticket as a value.
#[verifier::ext_equal]
pub struct TicketModel {
    pub hash: Digest,
    pub qc: QcModel,
    pub tc: Option<TcModel>,
    pub view: ViewNumber,
    pub round: Round,
}

/// The ticket for the first view.
pub open spec fn genesis_ticket() -> TicketModel {
    TicketModel { hash: zero_digest(), qc: genesis_qc(), tc: None, view: 0, round: 0 }
}

/// Whether a ticket is taken for the ticket of the first view.
pub open spec fn is_genesis_ticket(ticket: TicketModel) -> bool {
    is_genesis_qc(ticket.qc) && ticket.tc is None
}

impl Hashable for Ticket {
    open spec fn preimage(&self) -> Seq<u8> {
        accept_bytes(self.hash, self.view, self.round)
    }

    fn digest(&self) -> (digest: Digest) {
        accept_digest(&self.hash, self.view, self.round)
    }
}

impl Ticket {
    /// The ticket as a value.
    pub open spec fn model(self) -> TicketModel {
        TicketModel {
            hash: self.hash,
            qc: self.qc.model(),
            tc: match self.tc {
                Some(tc) => Some(tc.model()),
                None => None,
            },
            view: self.view,
            round: self.round,
        }
    }

    /// A ticket.
    pub fn new(hash: Digest, view: ViewNumber, round: Round, qc: QC, tc: Option<TC>) -> (ticket:
        Self)
        ensures
            ticket == (Ticket { hash, qc, tc, view, round }),
    {
        Ticket { hash, qc, tc, view, round }
    }

    /// Another ticket with the same content.
    pub fn duplicate(&self) -> (ticket: Self)
        ensures
            ticket.model() == self.model(),
    {
        let tc = match &self.tc {
            Some(tc) => Some(tc.duplicate()),
            None => None,
        };
        Ticket { hash: self.hash, qc: self.qc.duplicate(), tc, view: self.view, round: self.round }
    }

    /// The ticket for the first view.
    pub fn genesis() -> (ticket: Self)
        ensures
            ticket.model() == genesis_ticket(),
    {
        Ticket { hash: make_zero_digest(), qc: QC::genesis(), tc: None, view: 0, round: 0 }
    }
}

/// A header of the DAG. A special header is also a proposal of a view.
pub struct Header {
    pub author: PublicKey,
    pub round: Round,
    pub payload: SortedMap<Digest, WorkerId>,
    pub parents: SortedMap<Digest, ()>,
    pub id: Digest,
    pub signature: Signature,
    pub is_special: bool,
    pub view: ViewNumber,
    /// The round of the header proposed in the view before.
    pub prev_view_round: Round,
    /// The author's header before this one, where there was no time for its
    /// certificate.
    pub special_parent: Option<Digest>,
    pub special_parent_round: Round,
    pub ticket: Option<Ticket>,
    /// The digest of the ticket.
    pub consensus_parent: Option<Digest>,
}

/// A header as a value.
#[verifier::ext_equal]
pub struct HeaderModel {
    pub author: PublicKey,
    pub round: Round,
    pub payload: Seq<(Digest, WorkerId)>,
    pub parents: Seq<(Digest, ())>,
    pub id: Digest,
    pub signature: Signature,
    pub is_special: bool,
    pub view: ViewNumber,
    pub prev_view_round: Round,
    pub special_parent: Option<Digest>,
    pub special_parent_round: Round,
    pub ticket: Option<TicketModel>,
    pub consensus_parent: Option<Digest>,
}

/// The digests of the parents.
pub open spec fn parent_bytes(parents: Seq<(Digest, ())>) -> Seq<u8>
    decreases parents.len(),
{
    if parents.len() == 0 {
        Seq::empty()
    } else {
        parent_bytes(parents.drop_last()) + parents.last().0@
    }
}

/// The bytes of an optional digest.
pub open spec fn optional_bytes(digest: Option<Digest>) -> Seq<u8> {
    match digest {
        Some(digest) => digest@,
        None => Seq::empty(),
    }
}

/// The bytes that the id of a header covers.
pub open spec fn special_bytes(header: HeaderModel) -> Seq<u8> {
    header.author@ + le_bytes(header.round as nat, 8) + payload_bytes(header.payload)
        + parent_bytes(header.parents) + le_bytes(header.view as nat, 8) + le_bytes(
        header.prev_view_round as nat,
        8,
    ) + optional_bytes(header.special_parent) + le_bytes(header.special_parent_round as nat, 8)
        + optional_bytes(header.consensus_parent)
}

/// Whether the author of a header has all the workers that it names.
pub open spec fn workers_listed(header: HeaderModel, committee: &Committee) -> bool {
    forall|i: int|
        0 <= i < header.payload.len() ==> worker_in(
            committee@,
            header.author,
            (#[trigger] header.payload[i]).1,
        ) is Some
}

/// What the verification of a header answers.
pub open spec fn special_verdict(header: HeaderModel, committee: &Committee) -> DagResult<()> {
    if digest_of(special_bytes(header)) != header.id {
        Err(DagError::InvalidHeaderId)
    } else if committee.stake_spec(header.author) == 0 {
        Err(DagError::UnknownAuthority(header.author))
    } else if !workers_listed(header, committee) {
        Err(DagError::MalformedHeader(header.id))
    } else if !signed_by(header.id, header.author, header.signature) {
        Err(DagError::InvalidSignature(CryptoError::InvalidSignature))
    } else {
        Ok(())
    }
}

/// The header that stands before the first view.
pub open spec fn genesis_header() -> HeaderModel {
    HeaderModel {
        author: zero_key(),
        round: 0,
        payload: Seq::empty(),
        parents: Seq::empty(),
        id: zero_digest(),
        signature: zero_signature(),
        is_special: false,
        view: 0,
        prev_view_round: 0,
        special_parent: None,
        special_parent_round: 0,
        ticket: None,
        consensus_parent: None,
    }
}

impl Hashable for Header {
    open spec fn preimage(&self) -> Seq<u8> {
        special_bytes(self.model())
    }

    fn digest(&self) -> (digest: Digest) {
        let mut buffer: Vec<u8> = Vec::new();
        append_bytes(&mut buffer, self.author.0.as_slice());
        append_u64_le(&mut buffer, self.round);
        append_payload(&mut buffer, &self.payload);
        append_parents(&mut buffer, &self.parents);
        append_u64_le(&mut buffer, self.view);
        append_u64_le(&mut buffer, self.prev_view_round);
        append_optional(&mut buffer, &self.special_parent);
        append_u64_le(&mut buffer, self.special_parent_round);
        append_optional(&mut buffer, &self.consensus_parent);
        assert(buffer@ =~= special_bytes(self.model()));
        hash_bytes(buffer.as_slice())
    }
}

fn append_optional(buffer: &mut Vec<u8>, digest: &Option<Digest>)
    ensures
        final(buffer)@ == old(buffer)@ + optional_bytes(*digest),
{
    match digest {
        Some(digest) => append_bytes(buffer, digest.0.as_slice()),
        None => {
            assert(buffer@ =~= old(buffer)@ + optional_bytes(None));
        },
    }
}

fn append_parents(buffer: &mut Vec<u8>, parents: &SortedMap<Digest, ()>)
    ensures
        final(buffer)@ == old(buffer)@ + parent_bytes(parents.pairs()),
{
    let ghost head = buffer@;
    let ghost pairs = parents.pairs();
    let n = parents.len();
    let mut i: usize = 0;
    assert(buffer@ =~= head + parent_bytes(pairs.take(0)));
    while i < n
        invariant
            i <= n == pairs.len(),
            pairs == parents.pairs(),
            buffer@ == head + parent_bytes(pairs.take(i as int)),
        decreases n - i,
    {
        assert(pairs.take(i + 1).drop_last() =~= pairs.take(i as int));
        let digest = parents.key_at(i);
        append_bytes(buffer, digest.0.as_slice());
        assert(buffer@ =~= head + parent_bytes(pairs.take(i + 1)));
        i += 1;
    }
    assert(pairs.take(n as int) =~= pairs);
}

impl Header {
    /// The header as a value.
    pub open spec fn model(self) -> HeaderModel {
        HeaderModel {
            author: self.author,
            round: self.round,
            payload: self.payload.pairs(),
            parents: self.parents.pairs(),
            id: self.id,
            signature: self.signature,
            is_special: self.is_special,
            view: self.view,
            prev_view_round: self.prev_view_round,
            special_parent: self.special_parent,
            special_parent_round: self.special_parent_round,
            ticket: match self.ticket {
                Some(ticket) => Some(ticket.model()),
                None => None,
            },
            consensus_parent: self.consensus_parent,
        }
    }

    /// Another header with the same content.
    pub fn duplicate(&self) -> (header: Self)
        ensures
            header.model() == self.model(),
    {
        let ticket = match &self.ticket {
            Some(ticket) => Some(ticket.duplicate()),
            None => None,
        };
        Header {
            author: self.author,
            round: self.round,
            payload: self.payload.duplicate(),
            parents: self.parents.duplicate(),
            id: self.id,
            signature: self.signature,
            is_special: self.is_special,
            view: self.view,
            prev_view_round: self.prev_view_round,
            special_parent: self.special_parent,
            special_parent_round: self.special_parent_round,
            ticket,
            consensus_parent: self.consensus_parent,
        }
    }

    /// The header that stands before the first view.
    pub fn genesis() -> (header: Self)
        ensures
            header.model() == genesis_header(),
    {
        let header = Header {
            author: make_zero_key(),
            round: 0,
            payload: SortedMap::new(),
            parents: SortedMap::new(),
            id: make_zero_digest(),
            signature: make_zero_signature(),
            is_special: false,
            view: 0,
            prev_view_round: 0,
            special_parent: None,
            special_parent_round: 0,
            ticket: None,
            consensus_parent: None,
        };
        assert(header.model() =~= genesis_header());
        header
    }

    /// The header with its id filled in and signed.
    pub fn signed(self, signer: &Signer) -> (header: Self)
        ensures
            header.model() == (HeaderModel {
                id: digest_of(special_bytes(self.model())),
                signature: header.signature,
                ..self.model()
            }),
            header.signature@ == signer_output(signer.disabled(), signer.keypair(), header.id@),
            !signer.disabled() && self.author@ == signer.public_view() && !is_degenerate(
                header.signature,
            ) ==> signed_by(header.id, self.author, header.signature),
    {
        let mut header = self;
        let id = header.digest();
        header.signature = signer.sign(&id);
        header.id = id;
        header
    }

    /// The round of the header.
    pub fn round(&self) -> (round: Round)
        ensures
            round == self.round,
    {
        self.round
    }

    /// The author of the header.
    pub fn origin(&self) -> (origin: PublicKey)
        ensures
            origin == self.author,
    {
        self.author
    }

    /// Checks that the header is what its author signed.
    pub fn verify(&self, committee: &Committee) -> (result: DagResult<()>)
        ensures
            result == special_verdict(self.model(), committee),
    {
        // Ensure the header id is well formed.
        if self.digest() != self.id {
            return Err(DagError::InvalidHeaderId);
        }
        // Ensure the authority has voting rights.
        if committee.stake(&self.author) == 0 {
            return Err(DagError::UnknownAuthority(self.author));
        }
        // Ensure all worker ids are correct.
        let n = self.payload.len();
        let mut i: usize = 0;
        while i < n
            invariant
                i <= n == self.payload.pairs().len(),
                forall|j: int|
                    0 <= j < i ==> worker_in(
                        committee@,
                        self.author,
                        (#[trigger] self.payload.pairs()[j]).1,
                    ) is Some,
                digest_of(special_bytes(self.model())) == self.id,
                committee.stake_spec(self.author) > 0,
            decreases n - i,
        {
            let worker_id = *self.payload.value_at(i);
            if committee.worker(&self.author, &worker_id).is_none() {
                assert(worker_in(committee@, self.model().author, self.model().payload[i as int].1)
                    is None);
                return Err(DagError::MalformedHeader(self.id));
            }
            i += 1;
        }
        // Check the signature.
        match self.signature.verify(&self.id, &self.author) {
            Ok(()) => Ok(()),
            Err(e) => Err(DagError::InvalidSignature(e)),
        }
    }
}

/// The votes of the DAG for a header.
pub struct Certificate {
    pub header: Header,
    /// For each vote, 1 if the voter takes the special header for valid.
    pub special_valids: Vec<u8>,
    pub votes: Vec<(PublicKey, Signature)>,
}

/// A certificate as a value.
#[verifier::ext_equal]
pub struct CertificateModel {
    pub header: HeaderModel,
    pub special_valids: Seq<u8>,
    pub votes: Seq<(PublicKey, Signature)>,
}

/// The certificate that stands before the first view.
pub open spec fn genesis_certificate() -> CertificateModel {
    CertificateModel {
        header: genesis_header(),
        special_valids: Seq::empty(),
        votes: Seq::empty(),
    }
}

/// The bytes that identify the certificate of a header.
pub open spec fn certificate_bytes(id: Digest, round: Round, origin: PublicKey) -> Seq<u8> {
    id@ + le_bytes(round as nat, 8) + origin@
}

impl Hashable for Certificate {
    open spec fn preimage(&self) -> Seq<u8> {
        certificate_bytes(self.header.id, self.header.round, self.header.author)
    }

    fn digest(&self) -> (digest: Digest) {
        certificate_digest(&self.header)
    }
}

/// The digest of the certificate of a header.
pub fn certificate_digest(header: &Header) -> (digest: Digest)
    ensures
        digest == digest_of(certificate_bytes(header.id, header.round, header.author)),
{
    let mut buffer: Vec<u8> = Vec::new();
    append_bytes(&mut buffer, header.id.0.as_slice());
    append_u64_le(&mut buffer, header.round);
    append_bytes(&mut buffer, header.author.0.as_slice());
    assert(buffer@ =~= certificate_bytes(header.id, header.round, header.author));
    hash_bytes(buffer.as_slice())
}

impl Certificate {
    /// The certificate as a value.
    pub open spec fn model(self) -> CertificateModel {
        CertificateModel {
            header: self.header.model(),
            special_valids: self.special_valids@,
            votes: self.votes@,
        }
    }

    /// Another certificate with the same content.
    pub fn duplicate(&self) -> (certificate: Self)
        ensures
            certificate.model() == self.model(),
    {
        Certificate {
            header: self.header.duplicate(),
            special_valids: crate::bytes::copy_bytes(self.special_valids.as_slice()),
            votes: copy_votes(&self.votes),
        }
    }

    /// The certificate that stands before the first view.
    pub fn genesis_cert() -> (certificate: Self)
        ensures
            certificate.model() == genesis_certificate(),
    {
        Certificate { header: Header::genesis(), special_valids: Vec::new(), votes: Vec::new() }
    }

    /// Whether everyone voted.
    pub fn is_special_fast(&self, committee: &Committee) -> (fast: bool)
        ensures
            fast == (weight(committee, voters(self.votes@)) >= committee.total()),
    {
        reaches(committee, &self.votes, committee.fast_threshold())
    }
}

/// A message of the consensus protocol.
pub enum ConsensusMessage {
    /// A vote for the next leader.
    AcceptVote(AcceptVote),
    /// A view was decided.
    QC(QC),
    /// A replica gave up on a view.
    Timeout(Timeout),
    /// A quorum gave up on a view.
    TC(TC),
    /// An answer to a sync request.
    Header(Header),
    /// An answer to a sync request.
    Certificate(Certificate),
    /// Asks for a header.
    SyncRequest(Digest, PublicKey),
    /// Asks for a certificate.
    SyncRequestCert(Digest, PublicKey),
}

} // verus!
