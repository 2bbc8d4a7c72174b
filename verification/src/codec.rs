//! The record wire format: a proposal serializes deterministically to a
//! length-prefixed byte record capped at `MAX_RECORD_BYTES`. The persistent
//! store only ever holds byte strings produced by this codec, so decoding is
//! total on everything the store can return.

use vstd::prelude::*;

use crate::model::Principal;
use crate::model::Proposal;
use crate::model::ProposalModel;
use crate::model::principal_wf;
use crate::model::seq_views;
use crate::model::voted_record;
use crate::model::Choice;

verus! {

/// A serialized record never exceeds this many bytes.
pub const MAX_RECORD_BYTES: usize = 5000;

/// The four little-endian bytes of a 32-bit integer.
pub open spec fn le32(x: u32) -> Seq<u8> {
    seq![
        (x & 0xff) as u8,
        ((x >> 8) & 0xff) as u8,
        ((x >> 16) & 0xff) as u8,
        ((x >> 24) & 0xff) as u8,
    ]
}

/// One encoded identity: a one-byte length, then the token bytes.
pub open spec fn enc_principal(p: Seq<u8>) -> Seq<u8> {
    seq![p.len() as u8] + p
}

/// The encoded voter list, one identity after the other.
pub open spec fn enc_voters(vs: Seq<Seq<u8>>) -> Seq<u8>
    decreases vs.len(),
{
    if vs.len() == 0 {
        Seq::empty()
    } else {
        enc_principal(vs[0]) + enc_voters(vs.drop_first())
    }
}

pub open spec fn bool_byte(b: bool) -> u8 {
    if b {
        1u8
    } else {
        0u8
    }
}

/// The full encoded record: the description behind a four-byte length, the
/// three tallies, the activity flag, the owner, then the voters behind a
/// four-byte count. Grouped to the right so the record peels off the front.
pub open spec fn enc_suffix(m: ProposalModel) -> Seq<u8> {
    seq![bool_byte(m.is_active)] + (enc_principal(m.owner) + (le32(m.voted.len() as u32)
        + enc_voters(m.voted)))
}

pub open spec fn enc_record(m: ProposalModel) -> Seq<u8> {
    le32(m.description.len() as u32) + (m.description + (le32(m.approve) + (le32(m.reject) + (le32(
        m.pass,
    ) + enc_suffix(m)))))
}

/// A record the store can hold: short identity tokens and an encoding within
/// the size ceiling.
pub open spec fn record_wf(m: ProposalModel) -> bool {
    &&& principal_wf(m.owner)
    &&& (forall|i: int| 0 <= i < m.voted.len() ==> principal_wf(#[trigger] m.voted[i]))
    &&& enc_record(m).len() <= MAX_RECORD_BYTES
}

/// Every voter costs at least one encoded byte.
pub proof fn lemma_enc_voters_len(vs: Seq<Seq<u8>>)
    ensures
        enc_voters(vs).len() >= vs.len(),
    decreases vs.len(),
{
    if vs.len() > 0 {
        lemma_enc_voters_len(vs.drop_first());
    }
}

/// Appending one voter appends exactly that voter's encoding.
pub proof fn lemma_enc_voters_push(vs: Seq<Seq<u8>>, p: Seq<u8>)
    ensures
        enc_voters(vs.push(p)) == enc_voters(vs) + enc_principal(p),
    decreases vs.len(),
{
    if vs.len() == 0 {
        assert(vs.push(p).drop_first() =~= Seq::<Seq<u8>>::empty());
        assert(vs.push(p)[0] == p);
        assert(enc_voters(vs.push(p)) == enc_principal(p) + enc_voters(
            Seq::<Seq<u8>>::empty(),
        ));
        assert(enc_voters(vs.push(p)) =~= enc_voters(vs) + enc_principal(p));
    } else {
        lemma_enc_voters_push(vs.drop_first(), p);
        assert(vs.push(p).drop_first() =~= vs.drop_first().push(p));
        assert(vs.push(p)[0] == vs[0]);
        assert(enc_voters(vs.push(p)) == enc_principal(vs[0]) + enc_voters(
            vs.drop_first().push(p),
        ));
        assert(enc_principal(vs[0]) + (enc_voters(vs.drop_first()) + enc_principal(p)) =~= (
        enc_principal(vs[0]) + enc_voters(vs.drop_first())) + enc_principal(p));
        assert(enc_voters(vs.push(p)) =~= enc_voters(vs) + enc_principal(p));
    }
}

/// Casting a record's ballot changes its encoded size by one encoded identity.
pub proof fn lemma_voted_record_len(m: ProposalModel, voter: Seq<u8>, choice: Choice)
    ensures
        enc_record(voted_record(m, voter, choice)).len() == enc_record(m).len() + 1 + voter.len(),
{
    lemma_enc_voters_push(m.voted, voter);
}

/// Closing a record does not change its encoded size.
pub proof fn lemma_ended_record_len(m: ProposalModel)
    ensures
        enc_record(crate::model::ended_record(m)).len() == enc_record(m).len(),
{
}

/// Replacing the description changes the encoded size by the difference of
/// the description lengths.
pub proof fn lemma_edited_record_len(m: ProposalModel, description: Seq<u8>, is_active: bool)
    ensures
        enc_record(crate::model::edited_record(m, description, is_active)).len() + m.description.len()
            == enc_record(m).len() + description.len(),
{
}

fn push_u32_le(out: &mut Vec<u8>, x: u32)
    ensures
        final(out)@ == old(out)@ + le32(x),
{
    proof {
        assert((x & 0xff) < 256 && ((x >> 8) & 0xff) < 256 && ((x >> 16) & 0xff) < 256 && ((x
            >> 24) & 0xff) < 256) by (bit_vector);
    }
    out.push((x & 0xff) as u8);
    out.push(((x >> 8) & 0xff) as u8);
    out.push(((x >> 16) & 0xff) as u8);
    out.push(((x >> 24) & 0xff) as u8);
    proof {
        assert(out@ =~= old(out)@ + le32(x));
    }
}

fn read_u32_le(b: &Vec<u8>, pos: usize) -> (x: u32)
    requires
        pos + 4 <= b@.len(),
    ensures
        le32(x) == b@.subrange(pos as int, pos as int + 4),
{
    let n = b.len();
    proof {
        assert(pos + 4 <= n);
    }
    let b0 = b[pos];
    let b1 = b[pos + 1];
    let b2 = b[pos + 2];
    let b3 = b[pos + 3];
    let x: u32 = (b0 as u32) | ((b1 as u32) << 8) | ((b2 as u32) << 16) | ((b3 as u32) << 24);
    proof {
        assert((x & 0xff) as u8 == b0 && ((x >> 8) & 0xff) as u8 == b1 && ((x >> 16) & 0xff) as u8
            == b2 && ((x >> 24) & 0xff) as u8 == b3) by (bit_vector)
            requires
                x == (b0 as u32) | ((b1 as u32) << 8) | ((b2 as u32) << 16) | ((b3 as u32) << 24),
        ;
        assert(le32(x) =~= b@.subrange(pos as int, pos as int + 4));
    }
    x
}

/// Two integers with the same four little-endian bytes are the same integer.
proof fn lemma_le32_injective(x: u32, y: u32)
    requires
        le32(x) == le32(y),
    ensures
        x == y,
{
    assert(le32(x)[0] == le32(y)[0] && le32(x)[1] == le32(y)[1] && le32(x)[2] == le32(y)[2] && le32(
        x,
    )[3] == le32(y)[3]);
    assert(x == y) by (bit_vector)
        requires
            (x & 0xff) as u8 == (y & 0xff) as u8,
            ((x >> 8) & 0xff) as u8 == ((y >> 8) & 0xff) as u8,
            ((x >> 16) & 0xff) as u8 == ((y >> 16) & 0xff) as u8,
            ((x >> 24) & 0xff) as u8 == ((y >> 24) & 0xff) as u8,
    ;
}

fn push_bytes(out: &mut Vec<u8>, b: &Vec<u8>)
    ensures
        final(out)@ == old(out)@ + b@,
{
    let n = b.len();
    proof {
        assert(out@ =~= old(out)@ + b@.subrange(0, 0));
    }
    let mut i: usize = 0;
    while i < n
        invariant
            n == b@.len(),
            i <= n,
            out@ == old(out)@ + b@.subrange(0, i as int),
        decreases n - i,
    {
        out.push(b[i]);
        proof {
            assert(out@ =~= old(out)@ + b@.subrange(0, i as int + 1));
        }
        i = i + 1;
    }
    proof {
        assert(b@.subrange(0, n as int) =~= b@);
    }
}

fn push_principal(out: &mut Vec<u8>, p: &Principal)
    requires
        principal_wf(p@),
    ensures
        final(out)@ == old(out)@ + enc_principal(p@),
{
    let pb = p.as_bytes();
    out.push(pb.len() as u8);
    push_bytes(out, pb);
    proof {
        assert(out@ =~= old(out)@ + enc_principal(p@));
    }
}

fn copy_range(b: &Vec<u8>, start: usize, end: usize) -> (r: Vec<u8>)
    requires
        start <= end,
        end <= b@.len(),
    ensures
        r@ == b@.subrange(start as int, end as int),
{
    let mut r: Vec<u8> = Vec::new();
    proof {
        assert(r@ =~= b@.subrange(start as int, start as int));
    }
    let mut i: usize = start;
    while i < end
        invariant
            start <= i <= end,
            end <= b@.len(),
            r@ == b@.subrange(start as int, i as int),
        decreases end - i,
    {
        r.push(b[i]);
        proof {
            assert(r@ =~= b@.subrange(start as int, i as int + 1));
        }
        i = i + 1;
    }
    r
}

/// Serializes a record. The result is exactly the record's spec-level encoding.
pub(crate) fn encode_record(p: &Proposal) -> (out: Vec<u8>)
    requires
        record_wf(p@),
    ensures
        out@ == enc_record(p@),
        out@.len() <= MAX_RECORD_BYTES,
{
    proof {
        lemma_enc_voters_len(seq_views(p.voted@));
    }
    let mut out: Vec<u8> = Vec::new();
    push_u32_le(&mut out, p.description.len() as u32);
    push_bytes(&mut out, &p.description);
    push_u32_le(&mut out, p.approve);
    push_u32_le(&mut out, p.reject);
    push_u32_le(&mut out, p.pass);
    out.push(if p.is_active { 1u8 } else { 0u8 });
    push_principal(&mut out, &p.owner);
    push_u32_le(&mut out, p.voted.len() as u32);
    let ghost header = out@;
    let n = p.voted.len();
    proof {
        assert(out@ =~= header + enc_voters(seq_views(p.voted@).subrange(0, 0)));
    }
    let mut i: usize = 0;
    while i < n
        invariant
            n == p.voted@.len(),
            i <= n,
            record_wf(p@),
            out@ == header + enc_voters(seq_views(p.voted@).subrange(0, i as int)),
        decreases n - i,
    {
        proof {
            assert(seq_views(p.voted@)[i as int] == p.voted@[i as int]@);
            assert(principal_wf(p@.voted[i as int]));
        }
        push_principal(&mut out, &p.voted[i]);
        proof {
            lemma_enc_voters_push(
                seq_views(p.voted@).subrange(0, i as int),
                seq_views(p.voted@)[i as int],
            );
            assert(seq_views(p.voted@).subrange(0, i as int).push(seq_views(p.voted@)[i as int])
                =~= seq_views(p.voted@).subrange(0, i as int + 1));
            assert(out@ =~= header + enc_voters(seq_views(p.voted@).subrange(0, i as int + 1)));
        }
        i = i + 1;
    }
    proof {
        assert(seq_views(p.voted@).subrange(0, n as int) =~= seq_views(p.voted@));
        assert(out@ =~= enc_record(p@));
    }
    out
}

/// From a remainder of the input that starts with a known chunk, cuts that
/// chunk off the front.
proof fn lemma_chunk(b: Seq<u8>, off: int, x: Seq<u8>, rest: Seq<u8>)
    requires
        0 <= off <= b.len(),
        b.subrange(off, b.len() as int) == x + rest,
    ensures
        off + x.len() + rest.len() == b.len(),
        b.subrange(off, off + x.len() as int) == x,
        b.subrange(off + x.len() as int, b.len() as int) == rest,
{
    assert(b.subrange(off, b.len() as int).len() == x.len() + rest.len());
    assert forall|k: int| 0 <= k < x.len() implies b.subrange(off, off + x.len() as int)[k]
        == x[k] by {
        let t = b.subrange(off, b.len() as int);
        assert(t[k] == (x + rest)[k]);
        assert(t[k] == b[k + off]);
        assert((x + rest)[k] == x[k]);
        assert(b[off + k] == x[k]);
    }
    assert(b.subrange(off, off + x.len() as int) =~= x);
    assert forall|k: int|
        0 <= k < rest.len() implies b.subrange(off + x.len() as int, b.len() as int)[k]
        == rest[k] by {
        let t = b.subrange(off, b.len() as int);
        assert(t[x.len() + k] == (x + rest)[x.len() + k]);
        assert(t[x.len() + k] == b[(x.len() + k) + off]);
        assert((x + rest)[x.len() + k] == rest[k]);
    }
    assert(b.subrange(off + x.len() as int, b.len() as int) =~= rest);
}

/// Where the description and the tallies sit inside a record's encoding.
#[verifier::spinoff_prover]
#[verifier::rlimit(100)]
proof fn lemma_record_prefix(m: ProposalModel)
    ensures
        enc_record(m).len() == 16 + m.description.len() + enc_suffix(m).len(),
        enc_record(m).subrange(0, 4) == le32(m.description.len() as u32),
        enc_record(m).subrange(4, 4 + m.description.len() as int) == m.description,
        enc_record(m).subrange(
            4 + m.description.len() as int,
            8 + m.description.len() as int,
        ) == le32(m.approve),
        enc_record(m).subrange(
            8 + m.description.len() as int,
            12 + m.description.len() as int,
        ) == le32(m.reject),
        enc_record(m).subrange(
            12 + m.description.len() as int,
            16 + m.description.len() as int,
        ) == le32(m.pass),
        enc_record(m).subrange(
            16 + m.description.len() as int,
            enc_record(m).len() as int,
        ) == enc_suffix(m),
{
    let b = enc_record(m);
    let dl = m.description.len() as int;
    let r1 = m.description + (le32(m.approve) + (le32(m.reject) + (le32(m.pass) + enc_suffix(m))));
    let r2 = le32(m.approve) + (le32(m.reject) + (le32(m.pass) + enc_suffix(m)));
    let r3 = le32(m.reject) + (le32(m.pass) + enc_suffix(m));
    let r4 = le32(m.pass) + enc_suffix(m);
    assert(b.subrange(0, b.len() as int) =~= b);
    lemma_chunk(b, 0, le32(m.description.len() as u32), r1);
    lemma_chunk(b, 4, m.description, r2);
    lemma_chunk(b, 4 + dl, le32(m.approve), r3);
    lemma_chunk(b, 8 + dl, le32(m.reject), r4);
    lemma_chunk(b, 12 + dl, le32(m.pass), enc_suffix(m));
}

/// Where the activity flag, the owner and the voter list sit inside an
/// encoded record suffix that fills the tail of `b`.
#[verifier::spinoff_prover]
#[verifier::rlimit(100)]
proof fn lemma_suffix_layout(b: Seq<u8>, off: int, m: ProposalModel)
    requires
        0 <= off <= b.len(),
        b.subrange(off, b.len() as int) == enc_suffix(m),
    ensures
        b.len() - off == 6 + m.owner.len() + enc_voters(m.voted).len(),
        b[off] == bool_byte(m.is_active),
        b[off + 1] == m.owner.len() as u8,
        b.subrange(off + 2, off + 2 + m.owner.len() as int) == m.owner,
        b.subrange(
            off + 2 + m.owner.len() as int,
            off + 6 + m.owner.len() as int,
        ) == le32(m.voted.len() as u32),
        b.subrange(off + 6 + m.owner.len() as int, b.len() as int) == enc_voters(m.voted),
{
    let ol = m.owner.len() as int;
    let r5 = enc_principal(m.owner) + (le32(m.voted.len() as u32) + enc_voters(m.voted));
    let r6 = m.owner + (le32(m.voted.len() as u32) + enc_voters(m.voted));
    let r7 = le32(m.voted.len() as u32) + enc_voters(m.voted);
    lemma_chunk(b, off, seq![bool_byte(m.is_active)], r5);
    assert(b[off] == b.subrange(off, off + 1)[0]);
    assert(r5 =~= seq![m.owner.len() as u8] + r6);
    lemma_chunk(b, off + 1, seq![m.owner.len() as u8], r6);
    assert(b[off + 1] == b.subrange(off + 1, off + 2)[0]);
    lemma_chunk(b, off + 2, m.owner, r7);
    lemma_chunk(b, off + 2 + ol, le32(m.voted.len() as u32), enc_voters(m.voted));
}

/// Where the first voter sits inside an encoded voter list that fills a
/// suffix of `b`.
proof fn lemma_voters_layout(b: Seq<u8>, off: int, vs: Seq<Seq<u8>>)
    requires
        0 <= off <= b.len(),
        b.subrange(off, b.len() as int) == enc_voters(vs),
        vs.len() > 0,
    ensures
        off + 1 + vs[0].len() <= b.len(),
        b[off] == vs[0].len() as u8,
        b.subrange(off + 1, off + 1 + vs[0].len() as int) == vs[0],
        b.subrange(off + 1 + vs[0].len() as int, b.len() as int) == enc_voters(vs.drop_first()),
{
    assert(enc_voters(vs) == enc_principal(vs[0]) + enc_voters(vs.drop_first()));
    assert(enc_principal(vs[0]) + enc_voters(vs.drop_first()) =~= seq![vs[0].len() as u8] + (vs[0]
        + enc_voters(vs.drop_first())));
    lemma_chunk(b, off, seq![vs[0].len() as u8], vs[0] + enc_voters(vs.drop_first()));
    assert(b[off] == b.subrange(off, off + 1)[0]);
    lemma_chunk(b, off + 1, vs[0], enc_voters(vs.drop_first()));
}

/// Deserializes a record known to be the encoding of the well-formed model
/// `m`, and recovers exactly `m`. The store's invariant guarantees that every
/// byte string it returns is such an encoding, so decoding cannot fail there.
#[verifier::rlimit(50)]
pub(crate) fn decode_record(b: &Vec<u8>, Ghost(m): Ghost<ProposalModel>) -> (p: Proposal)
    requires
        record_wf(m),
        b@ == enc_record(m),
    ensures
        p@ == m,
{
    let ghost dl = m.description.len() as int;
    let ghost ol = m.owner.len() as int;
    let ghost blen = b@.len() as int;
    proof {
        lemma_record_prefix(m);
        assert(enc_suffix(m).len() >= 6);
        lemma_suffix_layout(b@, 16 + dl, m);
        lemma_enc_voters_len(m.voted);
        assert(blen <= MAX_RECORD_BYTES);
        assert(blen == 22 + dl + ol + enc_voters(m.voted).len());
    }
    let dlen32 = read_u32_le(b, 0);
    proof {
        lemma_le32_injective(dlen32, m.description.len() as u32);
        assert(dl + 22 <= blen);
    }
    let dlen = dlen32 as usize;
    proof {
        assert(dlen == dl);
    }
    let description = copy_range(b, 4, 4 + dlen);
    let approve = read_u32_le(b, 4 + dlen);
    let reject = read_u32_le(b, 8 + dlen);
    let pass = read_u32_le(b, 12 + dlen);
    proof {
        lemma_le32_injective(approve, m.approve);
        lemma_le32_injective(reject, m.reject);
        lemma_le32_injective(pass, m.pass);
    }
    let is_active = b[16 + dlen] == 1;
    proof {
        assert(b@[16 + dl] == bool_byte(m.is_active));
        assert(b@[17 + dl] == m.owner.len() as u8);
        assert(principal_wf(m.owner));
    }
    let olen = b[17 + dlen] as usize;
    proof {
        assert(olen == ol);
    }
    let owner_bytes = copy_range(b, 18 + dlen, 18 + dlen + olen);
    let owner = Principal::from_bytes_exact(owner_bytes);
    let vn32 = read_u32_le(b, 18 + dlen + olen);
    proof {
        lemma_le32_injective(vn32, m.voted.len() as u32);
        assert(m.voted.len() <= enc_voters(m.voted).len());
    }
    let vn = vn32 as usize;
    proof {
        assert(vn == m.voted.len());
    }
    let mut voted: Vec<Principal> = Vec::new();
    let mut off: usize = 22 + dlen + olen;
    proof {
        assert(m.voted.skip(0) =~= m.voted);
        assert(seq_views(voted@) =~= m.voted.subrange(0, 0));
    }
    let mut i: usize = 0;
    while i < vn
        invariant
            record_wf(m),
            b@ == enc_record(m),
            blen == b@.len() as int,
            blen <= MAX_RECORD_BYTES,
            vn == m.voted.len(),
            i <= vn,
            off as int <= blen,
            seq_views(voted@) == m.voted.subrange(0, i as int),
            b@.subrange(off as int, blen) == enc_voters(m.voted.skip(i as int)),
        decreases vn - i,
    {
        let ghost s = m.voted.skip(i as int);
        proof {
            assert(s.len() > 0);
            assert(s[0] == m.voted[i as int]);
            assert(principal_wf(m.voted[i as int]));
            lemma_voters_layout(b@, off as int, s);
            assert(s.drop_first() =~= m.voted.skip(i as int + 1));
        }
        let pl = b[off] as usize;
        proof {
            assert(pl == s[0].len());
        }
        let pbytes = copy_range(b, off + 1, off + 1 + pl);
        let q = Principal::from_bytes_exact(pbytes);
        let ghost voted0 = voted@;
        voted.push(q);
        proof {
            assert(q@ == m.voted[i as int]);
            assert(seq_views(voted@) =~= seq_views(voted0).push(q@));
            assert(m.voted.subrange(0, i as int).push(m.voted[i as int]) =~= m.voted.subrange(
                0,
                i as int + 1,
            ));
            assert(seq_views(voted@) == m.voted.subrange(0, i as int + 1));
        }
        off = off + 1 + pl;
        i = i + 1;
    }
    proof {
        assert(m.voted.subrange(0, vn as int) =~= m.voted);
    }
    let p = Proposal { description, approve, reject, pass, is_active, voted, owner };
    proof {
        assert(p@ =~= m);
    }
    p
}

} // verus!
