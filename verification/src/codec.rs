//! Canonical byte encoding: proposal identity and the bundled action.
//!
//! A proposal's identity is the canonical encoding of its whole content.
//! The encoding is deterministic and injective by construction, so identity
//! doubles as the deduplication key: byte-identical content maps to the
//! same id, and distinct content to distinct ids.
//!
//! The bundled action is a closed set of commands known to the embedding
//! application, carried as tagged bytes and decoded only when a proposal
//! passes.

use vstd::prelude::*;
use crate::{AccountId, Balance};
use crate::organization::{Proposal, VoteRecord};
use crate::rules::OrgRuleParam;

verus! {

/// Little-endian bytes of a 64-bit value.
pub open spec fn enc_u64(x: u64) -> Seq<u8> {
    let x0 = x as int;
    let x1 = x0 / 256;
    let x2 = x1 / 256;
    let x3 = x2 / 256;
    let x4 = x3 / 256;
    let x5 = x4 / 256;
    let x6 = x5 / 256;
    let x7 = x6 / 256;
    seq![
        (x0 % 256) as u8,
        (x1 % 256) as u8,
        (x2 % 256) as u8,
        (x3 % 256) as u8,
        (x4 % 256) as u8,
        (x5 % 256) as u8,
        (x6 % 256) as u8,
        (x7 % 256) as u8,
    ]
}

/// Little-endian bytes of a 32-bit value.
pub open spec fn enc_u32(x: u32) -> Seq<u8> {
    let x0 = x as int;
    let x1 = x0 / 256;
    let x2 = x1 / 256;
    let x3 = x2 / 256;
    seq![(x0 % 256) as u8, (x1 % 256) as u8, (x2 % 256) as u8, (x3 % 256) as u8]
}

pub open spec fn enc_bool(b: bool) -> Seq<u8> {
    seq![if b { 1u8 } else { 0u8 }]
}

/// Value of eight little-endian bytes.
pub open spec fn dec_u64(s: Seq<u8>) -> int {
    s[0] + s[1] * 0x100 + s[2] * 0x10000 + s[3] * 0x1000000 + s[4] * 0x100000000 + s[5]
        * 0x10000000000 + s[6] * 0x1000000000000 + s[7] * 0x100000000000000
}

/// Reading back the encoding of a 64-bit value yields the value.
pub proof fn lemma_enc_dec_u64(x: u64)
    ensures
        dec_u64(enc_u64(x)) == x,
{
    let x0 = x as int;
    let x1 = x0 / 256;
    let x2 = x1 / 256;
    let x3 = x2 / 256;
    let x4 = x3 / 256;
    let x5 = x4 / 256;
    let x6 = x5 / 256;
    let x7 = x6 / 256;
    assert(x0 == x0 % 256 + 256 * x1);
    assert(x1 == x1 % 256 + 256 * x2);
    assert(x2 == x2 % 256 + 256 * x3);
    assert(x3 == x3 % 256 + 256 * x4);
    assert(x4 == x4 % 256 + 256 * x5);
    assert(x5 == x5 % 256 + 256 * x6);
    assert(x6 == x6 % 256 + 256 * x7);
    assert(x7 < 256);
    assert(x7 % 256 == x7);
}

/// Append the little-endian bytes of `x`.
pub fn push_u64(out: &mut Vec<u8>, x: u64)
    ensures
        final(out)@ == old(out)@ + enc_u64(x),
{
    out.push((x % 256) as u8);
    let x1 = x / 256;
    out.push((x1 % 256) as u8);
    let x2 = x1 / 256;
    out.push((x2 % 256) as u8);
    let x3 = x2 / 256;
    out.push((x3 % 256) as u8);
    let x4 = x3 / 256;
    out.push((x4 % 256) as u8);
    let x5 = x4 / 256;
    out.push((x5 % 256) as u8);
    let x6 = x5 / 256;
    out.push((x6 % 256) as u8);
    let x7 = x6 / 256;
    out.push((x7 % 256) as u8);
    proof {
        assert(out@ =~= old(out)@ + enc_u64(x));
    }
}

/// Append the little-endian bytes of `x`.
pub fn push_u32(out: &mut Vec<u8>, x: u32)
    ensures
        final(out)@ == old(out)@ + enc_u32(x),
{
    out.push((x % 256) as u8);
    let x1 = x / 256;
    out.push((x1 % 256) as u8);
    let x2 = x1 / 256;
    out.push((x2 % 256) as u8);
    let x3 = x2 / 256;
    out.push((x3 % 256) as u8);
    proof {
        assert(out@ =~= old(out)@ + enc_u32(x));
    }
}

pub fn push_bool(out: &mut Vec<u8>, b: bool)
    ensures
        final(out)@ == old(out)@ + enc_bool(b),
{
    out.push(if b { 1u8 } else { 0u8 });
    proof {
        assert(out@ =~= old(out)@ + enc_bool(b));
    }
}

/// Read the 64-bit value at `off`.
pub fn read_u64(v: &Vec<u8>, off: usize) -> (r: u64)
    requires
        off + 8 <= v@.len(),
    ensures
        r as int == dec_u64(v@.subrange(off as int, off as int + 8)),
{
    let n = v.len();
    assert(off + 8 <= n);
    let b0 = v[off] as u64;
    let b1 = v[off + 1] as u64;
    let b2 = v[off + 2] as u64;
    let b3 = v[off + 3] as u64;
    let b4 = v[off + 4] as u64;
    let b5 = v[off + 5] as u64;
    let b6 = v[off + 6] as u64;
    let b7 = v[off + 7] as u64;
    b0 + b1 * 0x100 + b2 * 0x10000 + b3 * 0x1000000 + b4 * 0x100000000 + b5 * 0x10000000000 + b6
        * 0x1000000000000 + b7 * 0x100000000000000
}

/// Value of four little-endian bytes.
pub open spec fn dec_u32(s: Seq<u8>) -> int {
    s[0] + s[1] * 0x100 + s[2] * 0x10000 + s[3] * 0x1000000
}

/// Reading back the encoding of a 32-bit value yields the value.
pub proof fn lemma_enc_dec_u32(x: u32)
    ensures
        dec_u32(enc_u32(x)) == x,
{
    let x0 = x as int;
    let x1 = x0 / 256;
    let x2 = x1 / 256;
    let x3 = x2 / 256;
    assert(x0 == x0 % 256 + 256 * x1);
    assert(x1 == x1 % 256 + 256 * x2);
    assert(x2 == x2 % 256 + 256 * x3);
    assert(x3 < 256);
    assert(x3 % 256 == x3);
}

/// Bytes of a rule: its three thresholds.
pub open spec fn enc_rule(p: OrgRuleParam) -> Seq<u8> {
    enc_u32(p.min_affirmative) + enc_u32(p.max_dissenting) + enc_u32(p.abstention)
}

/// Bytes of one vote record.
pub open spec fn enc_vote(r: VoteRecord) -> Seq<u8> {
    enc_u64(r.voter) + enc_u64(r.amount) + enc_bool(r.approve)
}

/// Bytes of a vote list, in stored order.
pub open spec fn enc_votes(s: Seq<VoteRecord>) -> Seq<u8>
    decreases s.len(),
{
    if s.len() == 0 {
        Seq::empty()
    } else {
        enc_votes(s.drop_last()) + enc_vote(s.last())
    }
}

/// A vote list encodes to exactly 17 bytes per record.
pub proof fn lemma_enc_votes_len(v: Seq<VoteRecord>)
    ensures
        enc_votes(v).len() == 17 * v.len(),
    decreases v.len(),
{
    if v.len() > 0 {
        lemma_enc_votes_len(v.drop_last());
    }
}

/// Two vote records with the same bytes are the same record.
pub proof fn lemma_enc_vote_injective(r1: VoteRecord, r2: VoteRecord)
    requires
        enc_vote(r1) == enc_vote(r2),
    ensures
        r1 == r2,
{
    assert(enc_vote(r1).subrange(0, 8) =~= enc_u64(r1.voter));
    assert(enc_vote(r2).subrange(0, 8) =~= enc_u64(r2.voter));
    lemma_enc_dec_u64(r1.voter);
    lemma_enc_dec_u64(r2.voter);
    assert(enc_vote(r1).subrange(8, 16) =~= enc_u64(r1.amount));
    assert(enc_vote(r2).subrange(8, 16) =~= enc_u64(r2.amount));
    lemma_enc_dec_u64(r1.amount);
    lemma_enc_dec_u64(r2.amount);
    assert(enc_vote(r1)[16] == if r1.approve {
        1u8
    } else {
        0u8
    });
    assert(enc_vote(r2)[16] == if r2.approve {
        1u8
    } else {
        0u8
    });
}

/// Two vote lists of the same length with the same bytes are the same list.
pub proof fn lemma_enc_votes_injective(v1: Seq<VoteRecord>, v2: Seq<VoteRecord>)
    requires
        v1.len() == v2.len(),
        enc_votes(v1) == enc_votes(v2),
    ensures
        v1 == v2,
    decreases v1.len(),
{
    if v1.len() > 0 {
        let e = enc_votes(v1);
        lemma_enc_votes_len(v1.drop_last());
        lemma_enc_votes_len(v2.drop_last());
        assert(e.subrange(e.len() - 17, e.len() as int) =~= enc_vote(v1.last()));
        assert(enc_votes(v2).subrange(e.len() - 17, e.len() as int) =~= enc_vote(v2.last()));
        lemma_enc_vote_injective(v1.last(), v2.last());
        assert(e.subrange(0, e.len() - 17) =~= enc_votes(v1.drop_last()));
        assert(enc_votes(v2).subrange(0, e.len() - 17) =~= enc_votes(v2.drop_last()));
        lemma_enc_votes_injective(v1.drop_last(), v2.drop_last());
        assert(v1 =~= v1.drop_last().push(v1.last()));
        assert(v2 =~= v2.drop_last().push(v2.last()));
    } else {
        assert(v1 =~= v2);
    }
}

/// The canonical bytes of a proposal's parts: its organization, its
/// length-prefixed action bytes, its creator, expiry, rule, and
/// length-prefixed vote list.
pub open spec fn proposal_id_parts(
    org: u64,
    call: Seq<u8>,
    creator: u64,
    end_dt: u64,
    rule: OrgRuleParam,
    votes: Seq<VoteRecord>,
) -> Seq<u8> {
    enc_u64(org) + enc_u64(call.len() as u64) + call + enc_u64(creator) + enc_u64(end_dt)
        + enc_rule(rule) + enc_u64(votes.len() as u64) + enc_votes(votes)
}

/// The canonical bytes of a whole proposal. This sequence is the proposal's
/// identity.
pub open spec fn proposal_id_spec(p: Proposal) -> Seq<u8> {
    proposal_id_parts(
        p.org,
        p.call@,
        p.detail.creator,
        p.detail.end_dt,
        p.detail.sub_param,
        p.detail.votes@,
    )
}

/// Identity law: two proposals with the same identity bytes have the same
/// content — the canonical encoding is injective, so the identity is
/// collision-free and deduplication by id rejects byte-identical content
/// and nothing else. (The length bounds hold of any content that exists in
/// memory.)
/// Each part of a proposal's content stands at a fixed place in its
/// identity bytes, recoverable once the action length (read at bytes 8..16)
/// is known.
#[verifier::rlimit(100)]
#[verifier::spinoff_prover]
pub proof fn lemma_id_layout(p: Proposal)
    requires
        p.call@.len() <= u64::MAX,
        p.detail.votes@.len() <= u64::MAX,
    ensures
        ({
            let s = proposal_id_spec(p);
            let l = p.call@.len() as int;
            &&& s.len() == 52 + l + 17 * p.detail.votes@.len()
            &&& dec_u64(s.subrange(0, 8)) == p.org
            &&& dec_u64(s.subrange(8, 16)) == p.call@.len()
            &&& s.subrange(16, 16 + l) == p.call@
            &&& dec_u64(s.subrange(16 + l, 24 + l)) == p.detail.creator
            &&& dec_u64(s.subrange(24 + l, 32 + l)) == p.detail.end_dt
            &&& dec_u32(s.subrange(32 + l, 36 + l)) == p.detail.sub_param.min_affirmative
            &&& dec_u32(s.subrange(36 + l, 40 + l)) == p.detail.sub_param.max_dissenting
            &&& dec_u32(s.subrange(40 + l, 44 + l)) == p.detail.sub_param.abstention
            &&& dec_u64(s.subrange(44 + l, 52 + l)) == p.detail.votes@.len()
            &&& s.subrange(52 + l, s.len() as int) == enc_votes(p.detail.votes@)
        }),
{
    let s = proposal_id_spec(p);
    let l = p.call@.len() as int;
    lemma_enc_votes_len(p.detail.votes@);
    assert(dec_u64(s.subrange(0, 8)) == p.org) by {
        assert(s.subrange(0, 8) =~= enc_u64(p.org));
        lemma_enc_dec_u64(p.org);
    }
    assert(dec_u64(s.subrange(8, 16)) == p.call@.len()) by {
        assert(s.subrange(8, 16) =~= enc_u64(p.call@.len() as u64));
        lemma_enc_dec_u64(p.call@.len() as u64);
    }
    assert(s.subrange(16, 16 + l) =~= p.call@);
    assert(dec_u64(s.subrange(16 + l, 24 + l)) == p.detail.creator) by {
        assert(s.subrange(16 + l, 24 + l) =~= enc_u64(p.detail.creator));
        lemma_enc_dec_u64(p.detail.creator);
    }
    assert(dec_u64(s.subrange(24 + l, 32 + l)) == p.detail.end_dt) by {
        assert(s.subrange(24 + l, 32 + l) =~= enc_u64(p.detail.end_dt));
        lemma_enc_dec_u64(p.detail.end_dt);
    }
    assert(dec_u32(s.subrange(32 + l, 36 + l)) == p.detail.sub_param.min_affirmative) by {
        assert(s.subrange(32 + l, 36 + l) =~= enc_u32(p.detail.sub_param.min_affirmative));
        lemma_enc_dec_u32(p.detail.sub_param.min_affirmative);
    }
    assert(dec_u32(s.subrange(36 + l, 40 + l)) == p.detail.sub_param.max_dissenting) by {
        assert(s.subrange(36 + l, 40 + l) =~= enc_u32(p.detail.sub_param.max_dissenting));
        lemma_enc_dec_u32(p.detail.sub_param.max_dissenting);
    }
    assert(dec_u32(s.subrange(40 + l, 44 + l)) == p.detail.sub_param.abstention) by {
        assert(s.subrange(40 + l, 44 + l) =~= enc_u32(p.detail.sub_param.abstention));
        lemma_enc_dec_u32(p.detail.sub_param.abstention);
    }
    assert(dec_u64(s.subrange(44 + l, 52 + l)) == p.detail.votes@.len()) by {
        assert(s.subrange(44 + l, 52 + l) =~= enc_u64(p.detail.votes@.len() as u64));
        lemma_enc_dec_u64(p.detail.votes@.len() as u64);
    }
    assert(s.subrange(52 + l, s.len() as int) =~= enc_votes(p.detail.votes@));
}

#[verifier::rlimit(30)]
pub proof fn lemma_proposal_id_injective(p1: Proposal, p2: Proposal)
    requires
        p1.call@.len() <= u64::MAX,
        p2.call@.len() <= u64::MAX,
        p1.detail.votes@.len() <= u64::MAX,
        p2.detail.votes@.len() <= u64::MAX,
        proposal_id_spec(p1) == proposal_id_spec(p2),
    ensures
        p1.org == p2.org,
        p1.call@ == p2.call@,
        p1.detail.creator == p2.detail.creator,
        p1.detail.end_dt == p2.detail.end_dt,
        p1.detail.sub_param == p2.detail.sub_param,
        p1.detail.votes@ == p2.detail.votes@,
{
    lemma_id_layout(p1);
    lemma_id_layout(p2);
    lemma_enc_votes_injective(p1.detail.votes@, p2.detail.votes@);
}

/// Compute a proposal's identity: the canonical encoding of its content.
/// Deterministic, and distinct for distinct content, it serves everywhere a
/// collision-resistant content hash would.
pub fn proposal_id_bytes(p: &Proposal) -> (r: Vec<u8>)
    ensures
        r@ == proposal_id_spec(*p),
{
    let mut out: Vec<u8> = Vec::new();
    push_u64(&mut out, p.org);
    push_u64(&mut out, p.call.len() as u64);
    let n = p.call.len();
    let ghost head = out@;
    let mut i: usize = 0;
    while i < n
        invariant
            n == p.call@.len(),
            i <= n,
            out@ == head + p.call@.subrange(0, i as int),
        decreases n - i,
    {
        out.push(p.call[i]);
        proof {
            assert(out@ =~= head + p.call@.subrange(0, i + 1));
        }
        i = i + 1;
    }
    proof {
        assert(p.call@.subrange(0, n as int) =~= p.call@);
    }
    push_u64(&mut out, p.detail.creator);
    push_u64(&mut out, p.detail.end_dt);
    push_u32(&mut out, p.detail.sub_param.min_affirmative);
    push_u32(&mut out, p.detail.sub_param.max_dissenting);
    push_u32(&mut out, p.detail.sub_param.abstention);
    push_u64(&mut out, p.detail.votes.len() as u64);
    let m = p.detail.votes.len();
    let ghost head2 = out@;
    let mut j: usize = 0;
    while j < m
        invariant
            m == p.detail.votes@.len(),
            j <= m,
            out@ == head2 + enc_votes(p.detail.votes@.subrange(0, j as int)),
        decreases m - j,
    {
        let rec = p.detail.votes[j];
        push_u64(&mut out, rec.voter);
        push_u64(&mut out, rec.amount);
        push_bool(&mut out, rec.approve);
        proof {
            let pre = p.detail.votes@.subrange(0, j as int);
            assert(p.detail.votes@.subrange(0, j + 1).drop_last() =~= pre);
            assert(p.detail.votes@.subrange(0, j + 1).last() == rec);
            assert(out@ =~= head2 + enc_votes(p.detail.votes@.subrange(0, j + 1)));
        }
        j = j + 1;
    }
    proof {
        assert(p.detail.votes@.subrange(0, m as int) =~= p.detail.votes@);
        assert(out@ =~= proposal_id_spec(*p));
    }
    out
}

/// Whether two byte strings hold the same bytes.
pub fn bytes_eq(a: &Vec<u8>, b: &Vec<u8>) -> (r: bool)
    ensures
        r == (a@ == b@),
{
    let n = a.len();
    if n != b.len() {
        return false;
    }
    let mut i: usize = 0;
    while i < n
        invariant
            n == a@.len(),
            n == b@.len(),
            i <= n,
            forall|j: int| 0 <= j < i ==> a@[j] == b@[j],
        decreases n - i,
    {
        if a[i] != b[i] {
            return false;
        }
        i = i + 1;
    }
    proof {
        assert(a@ =~= b@);
    }
    true
}

/// The closed set of commands a proposal may bundle. The embedding
/// application registers what each variant means; the core executes the
/// vault transfer itself.
#[derive(Clone, Copy, PartialEq, Eq, Structural, Debug)]
pub enum Action {
    /// Transfer `value` from the organization's vault to `dest`.
    VaultTransfer { dest: AccountId, value: Balance },
}

/// Tag byte of the vault-transfer command.
pub const ACTION_VAULT_TRANSFER_TAG: u8 = 1;

/// Bytes of an action: one tag byte, then its fields.
pub open spec fn enc_action(a: Action) -> Seq<u8> {
    match a {
        Action::VaultTransfer { dest, value } => seq![ACTION_VAULT_TRANSFER_TAG] + enc_u64(dest)
            + enc_u64(value),
    }
}

/// The action a byte string decodes to, if any.
pub open spec fn action_decoded(s: Seq<u8>) -> Option<Action> {
    if s.len() == 17 && s[0] == ACTION_VAULT_TRANSFER_TAG {
        Some(
            Action::VaultTransfer {
                dest: dec_u64(s.subrange(1, 9)) as u64,
                value: dec_u64(s.subrange(9, 17)) as u64,
            },
        )
    } else {
        None
    }
}

/// Encoding an action yields bytes that decode back to it.
pub proof fn lemma_action_roundtrip(a: Action)
    ensures
        action_decoded(enc_action(a)) == Some(a),
{
    match a {
        Action::VaultTransfer { dest, value } => {
            let s = enc_action(a);
            assert(s.subrange(1, 9) =~= enc_u64(dest));
            assert(s.subrange(9, 17) =~= enc_u64(value));
            lemma_enc_dec_u64(dest);
            lemma_enc_dec_u64(value);
        },
    }
}

/// Encode an action into its canonical bytes.
pub fn encode_action(a: &Action) -> (r: Vec<u8>)
    ensures
        r@ == enc_action(*a),
        action_decoded(r@) == Some(*a),
{
    let mut out: Vec<u8> = Vec::new();
    match a {
        Action::VaultTransfer { dest, value } => {
            out.push(ACTION_VAULT_TRANSFER_TAG);
            proof {
                assert(out@ =~= seq![ACTION_VAULT_TRANSFER_TAG]);
            }
            push_u64(&mut out, *dest);
            push_u64(&mut out, *value);
            proof {
                assert(out@ =~= enc_action(*a));
                lemma_action_roundtrip(*a);
            }
        },
    }
    out
}

/// Decode action bytes into the command they stand for, or nothing when
/// they match no known command.
pub fn decode_action(bytes: &Vec<u8>) -> (r: Option<Action>)
    ensures
        r == action_decoded(bytes@),
{
    if bytes.len() != 17 {
        return None;
    }
    if bytes[0] != ACTION_VAULT_TRANSFER_TAG {
        return None;
    }
    let dest = read_u64(bytes, 1);
    let value = read_u64(bytes, 9);
    Some(Action::VaultTransfer { dest, value })
}

} // verus!
