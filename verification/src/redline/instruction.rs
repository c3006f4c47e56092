//! The instructions of the load program and their wire format: a four-byte
//! tag followed by the fields, every integer little-endian.
use crate::bytes::{
    append_bytes, array_32, from_le32, from_le64, le32, le64, lemma_le32, lemma_le64, read_u32,
    read_u64, u32_bytes, u64_bytes,
};
use crate::chain::Pubkey;
use vstd::prelude::*;
use vstd::slice::slice_subrange;

verus! {

/// What the load program can be asked to do.
#[derive(Clone, Copy, Debug)]
pub enum Instruction {
    CommitAccounts { id: u64 },
    CommitAndUndelegateAccounts { id: u64 },
    InitAccount { space: u32, seed: u8, bump: u8, authority: Pubkey },
    Delegate { seed: u8, authority: Pubkey },
    SimpleByteSet { id: u64 },
    ExpensiveHashCompute { id: u64, init: Pubkey, iters: u32 },
    MultiAccountRead { id: u64 },
    AccountDataCopy { id: u64 },
    ReadAccountsData { id: u64 },
    CloseAccount,
    HashFold { id: u64, iters: u32 },
}

impl Instruction {
    /// The tag of the instruction.
    pub open spec fn tag(self) -> u32 {
        match self {
            Instruction::CommitAccounts { .. } => 0,
            Instruction::CommitAndUndelegateAccounts { .. } => 1,
            Instruction::InitAccount { .. } => 2,
            Instruction::Delegate { .. } => 3,
            Instruction::SimpleByteSet { .. } => 4,
            Instruction::ExpensiveHashCompute { .. } => 5,
            Instruction::MultiAccountRead { .. } => 6,
            Instruction::AccountDataCopy { .. } => 7,
            Instruction::ReadAccountsData { .. } => 8,
            Instruction::CloseAccount => 9,
            Instruction::HashFold { .. } => 10,
        }
    }

    /// The fields of the instruction on the wire.
    pub open spec fn fields(self) -> Seq<u8> {
        match self {
            Instruction::CommitAccounts { id } => le64(id),
            Instruction::CommitAndUndelegateAccounts { id } => le64(id),
            Instruction::InitAccount { space, seed, bump, authority } => le32(space) + seq![
                seed,
                bump,
            ] + authority@,
            Instruction::Delegate { seed, authority } => seq![seed] + authority@,
            Instruction::SimpleByteSet { id } => le64(id),
            Instruction::ExpensiveHashCompute { id, init, iters } => le64(id) + init@ + le32(iters),
            Instruction::MultiAccountRead { id } => le64(id),
            Instruction::AccountDataCopy { id } => le64(id),
            Instruction::ReadAccountsData { id } => le64(id),
            Instruction::CloseAccount => Seq::empty(),
            Instruction::HashFold { id, iters } => le64(id) + le32(iters),
        }
    }

    /// The instruction on the wire.
    pub open spec fn encoding(self) -> Seq<u8> {
        le32(self.tag()) + self.fields()
    }

    /// The number of bytes that the fields of an instruction with this tag
    /// take.
    pub open spec fn fields_len(tag: u32) -> int {
        if tag == 2 {
            38
        } else if tag == 3 {
            33
        } else if tag == 5 {
            44
        } else if tag == 9 {
            0
        } else if tag == 10 {
            12
        } else {
            8
        }
    }

    /// Writes the instruction in its wire format.
    pub fn encode(&self) -> (r: Vec<u8>)
        ensures
            r@ == self.encoding(),
    {
        match self {
            Instruction::CommitAccounts { id } => tagged_id(0, *id),
            Instruction::CommitAndUndelegateAccounts { id } => tagged_id(1, *id),
            Instruction::InitAccount { space, seed, bump, authority } => {
                let mut out: Vec<u8> = u32_bytes(2);
                append_bytes(&mut out, u32_bytes(*space).as_slice());
                out.push(*seed);
                out.push(*bump);
                append_bytes(&mut out, authority.as_bytes());
                assert(out@ =~= self.encoding());
                out
            },
            Instruction::Delegate { seed, authority } => {
                let mut out: Vec<u8> = u32_bytes(3);
                out.push(*seed);
                append_bytes(&mut out, authority.as_bytes());
                assert(out@ =~= self.encoding());
                out
            },
            Instruction::SimpleByteSet { id } => tagged_id(4, *id),
            Instruction::ExpensiveHashCompute { id, init, iters } => {
                let mut out: Vec<u8> = tagged_id(5, *id);
                append_bytes(&mut out, init.as_bytes());
                append_bytes(&mut out, u32_bytes(*iters).as_slice());
                assert(out@ =~= self.encoding());
                out
            },
            Instruction::MultiAccountRead { id } => tagged_id(6, *id),
            Instruction::AccountDataCopy { id } => tagged_id(7, *id),
            Instruction::ReadAccountsData { id } => tagged_id(8, *id),
            Instruction::CloseAccount => {
                let out: Vec<u8> = u32_bytes(9);
                assert(out@ =~= self.encoding());
                out
            },
            Instruction::HashFold { id, iters } => {
                let mut out: Vec<u8> = tagged_id(10, *id);
                append_bytes(&mut out, u32_bytes(*iters).as_slice());
                assert(out@ =~= self.encoding());
                out
            },
        }
    }

    /// Reads an instruction from the front of `data`; bytes behind it are
    /// ignored.
    pub fn decode(data: &[u8]) -> (r: Option<Instruction>)
        ensures
            match r {
                Some(ix) => ix.encoding().is_prefix_of(data@),
                None => forall|ix: Instruction| !(#[trigger] ix.encoding()).is_prefix_of(data@),
            },
    {
        proof {
            lemma_le32();
            lemma_le64();
            assert forall|ix: Instruction| (#[trigger] ix.encoding()).is_prefix_of(
                data@,
            ) implies data@.len() >= 4 && from_le32(data@.subrange(0, 4)) == ix.tag() && data@.len()
                >= 4 + Instruction::fields_len(ix.tag()) && ix.tag() <= 10 by {
                lemma_encoding_shape(ix);
                assert(ix.encoding() =~= data@.take(ix.encoding().len() as int));
                assert(data@.subrange(0, 4) =~= ix.encoding().take(4));
            }
        }
        if data.len() < 4 {
            return None;
        }
        let tag: u32 = read_u32(data, 0);
        assert(data@.subrange(0, 4) == le32(tag));
        let rest: usize = data.len() - 4;
        if tag > 10 {
            return None;
        }
        if tag == 9 {
            let ix = Instruction::CloseAccount;
            assert(ix.encoding() =~= data@.take(4));
            return Some(ix);
        }
        if tag == 2 {
            if rest < 38 {
                return None;
            }
            let space: u32 = read_u32(data, 4);
            let authority = Pubkey::new(array_32(slice_subrange(data, 10, 42)));
            let ix = Instruction::InitAccount { space, seed: data[8], bump: data[9], authority };
            assert(le32(space) == data@.subrange(4, 8));
            assert(ix.encoding() =~= data@.take(42));
            return Some(ix);
        }
        if tag == 3 {
            if rest < 33 {
                return None;
            }
            let authority = Pubkey::new(array_32(slice_subrange(data, 5, 37)));
            let ix = Instruction::Delegate { seed: data[4], authority };
            assert(ix.encoding() =~= data@.take(37));
            return Some(ix);
        }
        if rest < 8 {
            return None;
        }
        let id: u64 = read_u64(data, 4);
        assert(le64(id) == data@.subrange(4, 12));
        if tag == 5 {
            if rest < 44 {
                return None;
            }
            let init = Pubkey::new(array_32(slice_subrange(data, 12, 44)));
            let iters: u32 = read_u32(data, 44);
            let ix = Instruction::ExpensiveHashCompute { id, init, iters };
            assert(le32(iters) == data@.subrange(44, 48));
            assert(ix.encoding() =~= data@.take(48));
            return Some(ix);
        }
        if tag == 10 {
            if rest < 12 {
                return None;
            }
            let iters: u32 = read_u32(data, 12);
            let ix = Instruction::HashFold { id, iters };
            assert(le32(iters) == data@.subrange(12, 16));
            assert(ix.encoding() =~= data@.take(16));
            return Some(ix);
        }
        let ix = if tag == 0 {
            Instruction::CommitAccounts { id }
        } else if tag == 1 {
            Instruction::CommitAndUndelegateAccounts { id }
        } else if tag == 4 {
            Instruction::SimpleByteSet { id }
        } else if tag == 6 {
            Instruction::MultiAccountRead { id }
        } else if tag == 7 {
            Instruction::AccountDataCopy { id }
        } else {
            Instruction::ReadAccountsData { id }
        };
        assert(ix.encoding() =~= data@.take(12));
        Some(ix)
    }
}

/// A tag and an id on the wire.
fn tagged_id(tag: u32, id: u64) -> (r: Vec<u8>)
    ensures
        r@ == le32(tag) + le64(id),
{
    let mut out: Vec<u8> = u32_bytes(tag);
    append_bytes(&mut out, u64_bytes(id).as_slice());
    out
}

/// The tag stands in front, and the length follows from the tag.
proof fn lemma_encoding_shape(ix: Instruction)
    ensures
        ix.tag() <= 10,
        ix.encoding().len() == 4 + Instruction::fields_len(ix.tag()),
        ix.encoding().take(4) == le32(ix.tag()),
{
    lemma_le32();
    lemma_le64();
    assert(ix.encoding().take(4) =~= le32(ix.tag()));
}

/// Every instruction is told from every other by its bytes, whatever follows
/// them: what decodes is exactly what was encoded.
pub proof fn encoding_is_read_back(ix: Instruction, other: Instruction, data: Seq<u8>)
    requires
        ix.encoding().is_prefix_of(data),
        other.encoding().is_prefix_of(data),
    ensures
        ix == other,
{
    lemma_le32();
    lemma_le64();
    lemma_encoding_shape(ix);
    lemma_encoding_shape(other);
    let a = ix.encoding();
    let b = other.encoding();
    assert(a =~= data.take(a.len() as int));
    assert(b =~= data.take(b.len() as int));
    assert(a.take(4) =~= b.take(4));
    assert(from_le32(le32(ix.tag())) == from_le32(le32(other.tag())));
    assert(a =~= b);
    assert(a.skip(4) =~= ix.fields());
    assert(b.skip(4) =~= other.fields());
    let f = ix.fields();
    let g = other.fields();
    assert(f == g);
    match (ix, other) {
        (
            Instruction::InitAccount { space, seed, bump, authority },
            Instruction::InitAccount { space: s2, seed: d2, bump: b2, authority: a2 },
        ) => {
            assert(f.take(4) =~= le32(space));
            assert(g.take(4) =~= le32(s2));
            assert(from_le32(f.take(4)) == space && from_le32(g.take(4)) == s2);
            assert(f[4] == seed && g[4] == d2 && f[5] == bump && g[5] == b2);
            assert(f.skip(6) =~= authority@);
            assert(g.skip(6) =~= a2@);
            crate::chain::lemma_pubkey_ext(authority, a2);
        },
        (
            Instruction::Delegate { seed, authority },
            Instruction::Delegate { seed: d2, authority: a2 },
        ) => {
            assert(f[0] == seed && g[0] == d2);
            assert(f.skip(1) =~= authority@);
            assert(g.skip(1) =~= a2@);
            crate::chain::lemma_pubkey_ext(authority, a2);
        },
        (
            Instruction::ExpensiveHashCompute { id, init, iters },
            Instruction::ExpensiveHashCompute { id: i2, init: n2, iters: t2 },
        ) => {
            assert(f.take(8) =~= le64(id));
            assert(g.take(8) =~= le64(i2));
            assert(from_le64(f.take(8)) == id && from_le64(g.take(8)) == i2);
            assert(f.subrange(8, 40) =~= init@);
            assert(g.subrange(8, 40) =~= n2@);
            crate::chain::lemma_pubkey_ext(init, n2);
            assert(f.skip(40) =~= le32(iters));
            assert(g.skip(40) =~= le32(t2));
            assert(from_le32(f.skip(40)) == iters && from_le32(g.skip(40)) == t2);
        },
        (Instruction::HashFold { id, iters }, Instruction::HashFold { id: i2, iters: t2 }) => {
            assert(f.take(8) =~= le64(id));
            assert(g.take(8) =~= le64(i2));
            assert(from_le64(f.take(8)) == id && from_le64(g.take(8)) == i2);
            assert(f.skip(8) =~= le32(iters));
            assert(g.skip(8) =~= le32(t2));
            assert(from_le32(f.skip(8)) == iters && from_le32(g.skip(8)) == t2);
        },
        _ => {
            if ix.tag() != 9 {
                assert(from_le64(f) == from_le64(g));
            }
        },
    }
}

} // verus!
