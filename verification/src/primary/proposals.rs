//! What the headers of the proposer hold, and when they are made.

use crate::bytes::le_bytes;
use crate::collections::{
    as_map, has_key, lemma_as_map, lemma_listing_exists, listing, sorted,
};
use crate::config::WorkerId;
use crate::consensus::messages::TicketModel;
use crate::crypto::{digest_of, signature_with, signer_output, Digest, PublicKey};
use crate::primary::messages::{payload_bytes, CertificateModel};
use crate::primary::proposer::{
    certificate_taken, digest_taken, growth, lemma_payload_listed, parent_taken, payload_map,
    ticked, ticket_taken, ProposerEnv, ProposerModel,
};
use vstd::prelude::*;

verus! {

/// The authors whose certificate is higher than the one that they were last
/// proposed with, or who were not proposed.
pub open spec fn advanced_authors(
    current: Map<PublicKey, CertificateModel>,
    last: Map<PublicKey, CertificateModel>,
) -> Set<PublicKey> {
    Set::new(
        |author: PublicKey|
            current.contains_key(author) && (!last.contains_key(author)
                || current[author].height > last[author].height),
    )
}

proof fn lemma_growth(
    current: Seq<(PublicKey, CertificateModel)>,
    last: Map<PublicKey, CertificateModel>,
)
    requires
        sorted(current),
    ensures
        advanced_authors(as_map(current), last).finite(),
        advanced_authors(as_map(current), last).len() == growth(current, last),
    decreases current.len(),
{
    lemma_as_map(current);
    let all = advanced_authors(as_map(current), last);
    if current.len() == 0 {
        assert(all =~= Set::empty());
    } else {
        let front = current.drop_last();
        let n = current.len() - 1;
        let author = current[n].0;
        assert(sorted(front)) by {
            assert forall|i: int, j: int| 0 <= i < j < front.len() implies crate::collections::Key::rank(
                (#[trigger] front[i]).0,
            ) < crate::collections::Key::rank((#[trigger] front[j]).0) by {
                assert(crate::collections::Key::rank(current[i].0)
                    < crate::collections::Key::rank(current[j].0));
            }
        }
        lemma_growth(front, last);
        lemma_as_map(front);
        assert(!as_map(front).contains_key(author)) by {
            if as_map(front).contains_key(author) {
                let i = choose|i: int|
                    0 <= i < front.len() && (#[trigger] front[i]).0 == author && as_map(
                        front,
                    )[author] == front[i].1;
                assert(crate::collections::Key::rank(current[i].0)
                    < crate::collections::Key::rank(current[n].0));
            }
        }
        assert forall|other: PublicKey| other != author implies (#[trigger] as_map(
            current,
        ).contains_key(other) <==> as_map(front).contains_key(other)) && (as_map(
            front,
        ).contains_key(other) ==> as_map(current)[other] == as_map(front)[other]) by {
            if as_map(current).contains_key(other) {
                let i = choose|i: int|
                    0 <= i < current.len() && (#[trigger] current[i]).0 == other && as_map(
                        current,
                    )[other] == current[i].1;
                assert(front[i] == current[i]);
            }
            if as_map(front).contains_key(other) {
                let i = choose|i: int|
                    0 <= i < front.len() && (#[trigger] front[i]).0 == other && as_map(
                        front,
                    )[other] == front[i].1;
                assert(current[i] == front[i]);
            }
        }
        assert(as_map(current).contains_key(current[n].0));
        let earlier = advanced_authors(as_map(front), last);
        if !last.contains_key(author) || current[n].1.height > last[author].height {
            assert(all =~= earlier.insert(author));
        } else {
            assert(all =~= earlier);
        }
    }
}

/// A header is made exactly when there is a parent certificate for it and either
/// the payload is large enough or the timer expired. Otherwise nothing changes.
pub proof fn law_header_made_when_due(env: ProposerEnv, s: ProposerModel, timer_expired: bool)
    ensures
        ({
            let (t, made) = ticked(env, s, timer_expired);
            &&& made is Some <==> s.last_parent is Some && (timer_expired || s.payload_size
                >= env.header_size)
            &&& made is None ==> t == s
        }),
{
}

/// A header is ours, one above the last, and holds exactly the batches that are
/// waiting, each with the worker that it was last heard of from. It is signed,
/// and it is what the next one refers back to.
pub proof fn law_header_holds_batches(
    env: ProposerEnv,
    s: ProposerModel,
    timer_expired: bool,
    digest: Digest,
    worker_id: WorkerId,
)
    requires
        s.last_parent is Some,
        timer_expired || s.payload_size >= env.header_size,
        s.height < u64::MAX,
    ensures
        ({
            let (t, made) = ticked(env, s, timer_expired);
            made matches Some(header) && {
                &&& header.author == env.name
                &&& header.height == s.height + 1
                &&& header.parent_cert == s.last_parent->Some_0.0
                &&& has_key(header.payload, digest) <==> exists|i: int|
                    0 <= i < s.digests.len() && (#[trigger] s.digests[i]).0 == digest
                &&& s.digests.len() > 0 && s.digests.last() == (digest, worker_id) ==> as_map(
                    header.payload,
                )[digest] == worker_id
                &&& header.view == s.view
                &&& header.prev_view_round == s.prev_view_round
                &&& header.special_parent_round == s.last_header_round
                &&& header.id == digest_of(
                    env.name@ + le_bytes(header.height as nat, 8) + payload_bytes(header.payload),
                )
                &&& header.signature == signature_with(
                    signer_output(env.disabled, env.keypair, header.id@),
                )
                &&& t.height == header.height
                &&& t.last_header_id == header.id
                &&& t.last_header_round == header.height
                &&& t.last_parent is None
                &&& t.digests.len() == 0
                &&& t.payload_size == 0
                &&& t.current_certs == s.current_certs
                &&& t.view == s.view
                &&& t.prev_view_round == s.prev_view_round
            }
        }),
{
    lemma_payload_listed(s.digests);
    lemma_payload_keys(s.digests, digest);
    let payload = listing(payload_map(s.digests));
    assert(as_map(payload).contains_key(digest) == has_key(payload, digest));
}

proof fn lemma_payload_keys(digests: Seq<(Digest, WorkerId)>, digest: Digest)
    ensures
        payload_map(digests).contains_key(digest) <==> exists|i: int|
            0 <= i < digests.len() && (#[trigger] digests[i]).0 == digest,
    decreases digests.len(),
{
    if digests.len() > 0 {
        let front = digests.drop_last();
        lemma_payload_keys(front, digest);
        if digests.last().0 == digest {
            assert(digests[digests.len() - 1].0 == digest);
        }
        if exists|i: int| 0 <= i < digests.len() && (#[trigger] digests[i]).0 == digest {
            let i = choose|i: int| 0 <= i < digests.len() && (#[trigger] digests[i]).0 == digest;
            if i < front.len() {
                assert(front[i].0 == digest);
            }
        }
        if exists|i: int| 0 <= i < front.len() && (#[trigger] front[i]).0 == digest {
            let i = choose|i: int| 0 <= i < front.len() && (#[trigger] front[i]).0 == digest;
            assert(digests[i].0 == digest);
        }
    }
}

/// A header is special exactly when there is a ticket and a quorum of the authors
/// advanced since the last proposal. A special header proposes all the
/// certificates that we hold, for the next slot unless everyone who voted for its
/// parent found the last proposal valid, and it refers to its ticket by digest.
/// What it proposed is what the next one is measured by.
pub proof fn law_special_headers_propose(env: ProposerEnv, s: ProposerModel, timer_expired: bool)
    requires
        s.last_parent is Some,
        timer_expired || s.payload_size >= env.header_size,
        s.last_consensus_info.slot < u64::MAX,
        s.current_certs.dom().finite(),
    ensures
        ({
            let (t, made) = ticked(env, s, timer_expired);
            let enough = advanced_authors(s.current_certs, s.last_proposals).len() >= env.quorum;
            let approved = forall|i: int|
                0 <= i < s.last_parent->Some_0.1.len() ==> #[trigger] s.last_parent->Some_0.1[i];
            made matches Some(header) && {
                &&& header.is_special <==> s.ticket is Some && enough
                &&& approved ==> header.consensus_info == Some(s.last_consensus_info)
                &&& !approved && !header.is_special ==> header.consensus_info is None
                &&& !approved && header.is_special ==> {
                    &&& header.consensus_info is Some
                    &&& header.consensus_info->0.slot == s.last_consensus_info.slot + 1
                    &&& header.consensus_info->0.view == 1
                }
                &&& header.is_special ==> {
                    let digest = digest_of(
                        s.ticket->0.hash@ + le_bytes(s.ticket->0.view as nat, 8) + le_bytes(
                            s.ticket->0.round as nat,
                            8,
                        ),
                    );
                    &&& header.ticket == s.ticket
                    &&& t.ticket is None
                    &&& header.consensus_parent == Some(digest)
                    &&& header.consensus_proposal == Some((digest, s.current_certs))
                    &&& t.last_proposals == s.current_certs
                    &&& header.consensus_info == Some(t.last_consensus_info)
                }
                &&& !header.is_special ==> {
                    &&& header.ticket is None
                    &&& t.ticket == s.ticket
                    &&& header.consensus_parent is None
                    &&& header.consensus_proposal is None
                    &&& t.last_proposals == s.last_proposals
                    &&& t.last_consensus_info == s.last_consensus_info
                }
            }
        }),
{
    lemma_listing_exists(s.current_certs);
    lemma_growth(listing(s.current_certs), s.last_proposals);
}

/// A ticket for a view that is not behind us takes us to the view after its own,
/// and waits there to be proposed with.
pub proof fn law_tickets_open_views(s: ProposerModel, ticket: TicketModel)
    requires
        s.view <= ticket.view < u64::MAX,
    ensures
        ({
            let t = ticket_taken(s, ticket);
            &&& t.view == ticket.view + 1
            &&& t.prev_view_round == ticket.round
            &&& t.ticket == Some(ticket)
            &&& t.height == s.height
            &&& t.digests == s.digests
            &&& t.last_parent == s.last_parent
            &&& t.current_certs == s.current_certs
        }),
{
}

/// The certificate of our last header or a later one becomes the parent of the
/// next header, and our certificate to propose; an earlier one changes nothing.
pub proof fn law_parents_taken(s: ProposerModel, certificate: CertificateModel, valids: Seq<bool>)
    ensures
        ({
            let t = parent_taken(s, certificate, valids);
            &&& certificate.height < s.height ==> t == s
            &&& certificate.height >= s.height ==> {
                &&& t.last_parent == Some((certificate, valids))
                &&& t.current_certs == s.current_certs.insert(certificate.author, certificate)
                &&& t.height == s.height
                &&& t.digests == s.digests
                &&& t.ticket == s.ticket
            }
        }),
{
}

/// Of each author the highest certificate is kept: a higher one takes the place
/// of the one before, and no other author's changes.
pub proof fn law_highest_certificates_kept(
    s: ProposerModel,
    certificate: CertificateModel,
    author: PublicKey,
)
    ensures
        ({
            let t = certificate_taken(s, certificate);
            let newer = !s.current_certs.contains_key(certificate.author) || certificate.height
                > s.current_certs[certificate.author].height;
            &&& newer ==> t.current_certs.contains_key(certificate.author)
                && t.current_certs[certificate.author] == certificate
            &&& !newer ==> t == s
            &&& author != certificate.author ==> {
                &&& t.current_certs.contains_key(author) <==> s.current_certs.contains_key(author)
                &&& s.current_certs.contains_key(author) ==> t.current_certs[author]
                    == s.current_certs[author]
            }
            &&& t.last_parent == s.last_parent
            &&& t.height == s.height
        }),
{
}

/// A batch waits for the next header, and counts with the size of its digest:
/// once there are enough of them the header is due without the timer.
pub proof fn law_batches_fill_header(
    env: ProposerEnv,
    s: ProposerModel,
    digest: Digest,
    worker_id: WorkerId,
)
    requires
        s.payload_size + 32 <= usize::MAX,
    ensures
        ({
            let t = digest_taken(s, digest, worker_id);
            &&& t.digests == s.digests.push((digest, worker_id))
            &&& t.payload_size == s.payload_size + 32
            &&& t.last_parent == s.last_parent
            &&& t.current_certs == s.current_certs
            &&& t.ticket == s.ticket
            &&& t.height == s.height
            &&& s.last_parent is Some && s.payload_size + 32 >= env.header_size ==> ticked(
                env,
                t,
                false,
            ).1 is Some
        }),
{
}

} // verus!
