//! The swap instructions a quote service returns, kept as plain data: which
//! instructions run in which order, and the compute unit limit they ask for.
use vstd::prelude::*;
use vstd::string::*;
use crate::keys::{parse_pubkey, pubkey_from_text};
use crate::text::string_views;

verus! {

/// An account an instruction reads or writes.
pub struct AccountMetaData {
    pub pubkey: Vec<u8>,
    pub is_signer: bool,
    pub is_writable: bool,
}

/// An instruction: the program, its accounts and its data.
pub struct InstructionData {
    pub program_id: Vec<u8>,
    pub accounts: Vec<AccountMetaData>,
    pub data: Vec<u8>,
}

/// An account as plain values.
pub type AccountView = (Seq<u8>, bool, bool);

/// An instruction as plain values.
pub type InstructionView = (Seq<u8>, Seq<AccountView>, Seq<u8>);

/// The plain values of an instruction.
pub open spec fn ix_view(ix: InstructionData) -> InstructionView {
    (ix.program_id@, ix.accounts@.map_values(|a: AccountMetaData| (a.pubkey@, a.is_signer, a.is_writable)), ix.data@)
}

/// The plain values of instructions.
pub open spec fn ixs_view(v: Seq<InstructionData>) -> Seq<InstructionView> {
    v.map_values(|ix: InstructionData| ix_view(ix))
}

/// A copy of an account.
pub fn clone_account(a: &AccountMetaData) -> (r: AccountMetaData)
    ensures
        r.pubkey@ == a.pubkey@,
        r.is_signer == a.is_signer,
        r.is_writable == a.is_writable,
{
    AccountMetaData { pubkey: a.pubkey.clone(), is_signer: a.is_signer, is_writable: a.is_writable }
}

/// A copy of an instruction.
pub fn clone_instruction(ix: &InstructionData) -> (r: InstructionData)
    ensures
        ix_view(r) == ix_view(*ix),
{
    let mut accounts: Vec<AccountMetaData> = Vec::new();
    for i in 0..ix.accounts.len()
        invariant
            accounts@.map_values(|a: AccountMetaData| (a.pubkey@, a.is_signer, a.is_writable))
                == ix.accounts@.subrange(0, i as int).map_values(|a: AccountMetaData| (a.pubkey@, a.is_signer, a.is_writable)),
    {
        let ghost before = accounts@;
        let c = clone_account(&ix.accounts[i]);
        accounts.push(c);
        assert(accounts@ == before.push(c));
        assert(accounts@.map_values(|a: AccountMetaData| (a.pubkey@, a.is_signer, a.is_writable))
            =~= before.map_values(|a: AccountMetaData| (a.pubkey@, a.is_signer, a.is_writable)).push((c.pubkey@, c.is_signer, c.is_writable)));
        assert(accounts@.map_values(|a: AccountMetaData| (a.pubkey@, a.is_signer, a.is_writable))
            =~= ix.accounts@.subrange(0, i + 1).map_values(|a: AccountMetaData| (a.pubkey@, a.is_signer, a.is_writable)));
    }
    assert(ix.accounts@.subrange(0, ix.accounts@.len() as int) =~= ix.accounts@);
    InstructionData { program_id: ix.program_id.clone(), accounts, data: ix.data.clone() }
}

/// Appends copies of instructions.
pub fn extend_instructions(out: &mut Vec<InstructionData>, src: &Vec<InstructionData>)
    ensures
        ixs_view(final(out)@) == ixs_view(old(out)@) + ixs_view(src@),
{
    for i in 0..src.len()
        invariant
            ixs_view(out@) == ixs_view(old(out)@) + ixs_view(src@.subrange(0, i as int)),
    {
        let c = clone_instruction(&src[i]);
        let ghost before = out@;
        out.push(c);
        assert(out@ == before.push(c));
        assert(ixs_view(out@) =~= ixs_view(before).push(ix_view(c)));
        assert(ixs_view(src@.subrange(0, i + 1)) =~= ixs_view(src@.subrange(0, i as int)).push(ix_view(src@[i as int])));
        assert(ixs_view(out@) =~= ixs_view(old(out)@) + ixs_view(src@.subrange(0, i + 1)));
    }
    assert(src@.subrange(0, src@.len() as int) =~= src@);
}

/// The program id of the compute budget program, `ComputeBudget111111111111111111111111111111`.
#[verifier::external_body]
fn compute_budget_program_id() -> (id: Vec<u8>)
    ensures
        pubkey_from_text("ComputeBudget111111111111111111111111111111"@) == Some(id@),
        id@.len() == 32,
{
    solana_compute_budget_interface::id().to_bytes().to_vec()
}

/// The little-endian bytes of a 32-bit number.
pub open spec fn le32(n: u32) -> Seq<u8> {
    seq![(n % 256) as u8, ((n / 256) % 256) as u8, ((n / 65536) % 256) as u8, ((n / 16777216) % 256) as u8]
}

/// The number that four little-endian bytes spell.
pub open spec fn from_le32(b: Seq<u8>) -> u32 {
    (b[0] as int + b[1] as int * 256 + b[2] as int * 65536 + b[3] as int * 16777216) as u32
}

/// Builds the instruction that sets the compute unit limit with
/// `ComputeBudgetInstruction::set_compute_unit_limit`. Trusted: as the crate's
/// source shows, it addresses the compute budget program with no accounts and
/// data `2` followed by the limit in little-endian order.
#[verifier::external_body]
fn set_compute_unit_limit_instruction(units: u32) -> (ix: InstructionData)
    ensures
        pubkey_from_text("ComputeBudget111111111111111111111111111111"@) == Some(ix.program_id@),
        ix.accounts@.len() == 0,
        ix.data@ == seq![2u8] + le32(units),
{
    let raw = solana_compute_budget_interface::ComputeBudgetInstruction::set_compute_unit_limit(units);
    InstructionData { program_id: raw.program_id.to_bytes().to_vec(), accounts: Vec::new(), data: raw.data }
}

/// The limit a compute budget instruction sets, if it is the compute budget
/// program's `SetComputeUnitLimit` with at least five bytes of data.
pub open spec fn compute_budget_limit_spec(ix: InstructionView) -> Option<u32> {
    if pubkey_from_text("ComputeBudget111111111111111111111111111111"@) == Some(ix.0) && ix.2.len() >= 5 && ix.2[0] == 2 {
        Some(from_le32(ix.2.subrange(1, 5)))
    } else {
        None
    }
}

/// `ix` is the instruction that sets the compute unit limit to `units`: the
/// compute budget program, no accounts, data `2` then the limit.
pub open spec fn set_limit_view(ix: InstructionView, units: u32) -> bool {
    &&& pubkey_from_text("ComputeBudget111111111111111111111111111111"@) == Some(ix.0)
    &&& ix.1.len() == 0
    &&& ix.2 == seq![2u8] + le32(units)
}

/// The compute budget instructions after a new limit: with a limit
/// instruction among them, each one is replaced in place and the others stay;
/// without one, a limit instruction comes first, then the old list.
pub open spec fn limit_applied(new: Seq<InstructionView>, old: Seq<InstructionView>, units: u32) -> bool {
    if exists|k: int| 0 <= k < old.len() && (#[trigger] compute_budget_limit_spec(old[k])) is Some {
        &&& new.len() == old.len()
        &&& forall|i: int| 0 <= i < old.len() ==> if (#[trigger] compute_budget_limit_spec(old[i])) is Some {
                set_limit_view(new[i], units)
            } else {
                new[i] == old[i]
            }
    } else {
        &&& new.len() == old.len() + 1
        &&& set_limit_view(new[0], units)
        &&& new.subrange(1, new.len() as int) == old
    }
}

/// Reads the compute unit limit an instruction sets.
pub fn parse_compute_budget_limit(instruction: &InstructionData) -> (r: Option<u32>)
    ensures
        r == compute_budget_limit_spec(ix_view(*instruction)),
{
    let id = compute_budget_program_id();
    if !crate::order::bytes_equal(&instruction.program_id, &id) {
        return None;
    }
    let data = &instruction.data;
    if data.len() < 5 || data[0] != 2 {
        return None;
    }
    let v: u64 = data[1] as u64 + data[2] as u64 * 256 + data[3] as u64 * 65536 + data[4] as u64 * 16777216;
    assert(v < 0x1_0000_0000);
    Some(v as u32)
}

proof fn lemma_le32_roundtrip(n: u32)
    ensures
        from_le32(le32(n)) == n,
{
    let b = le32(n);
    assert(b[0] as int + b[1] as int * 256 + b[2] as int * 65536 + b[3] as int * 16777216 == n) by (nonlinear_arith)
        requires
            b[0] == (n % 256) as u8,
            b[1] == ((n / 256) % 256) as u8,
            b[2] == ((n / 65536) % 256) as u8,
            b[3] == ((n / 16777216) % 256) as u8,
    ;
}

/// The instruction that sets a limit reads back as that limit.
pub proof fn lemma_set_limit_roundtrip(program_id: Seq<u8>, units: u32)
    requires
        pubkey_from_text("ComputeBudget111111111111111111111111111111"@) == Some(program_id),
    ensures
        compute_budget_limit_spec((program_id, Seq::<AccountView>::empty(), seq![2u8] + le32(units))) == Some(units),
{
    lemma_le32_roundtrip(units);
    assert((seq![2u8] + le32(units)).subrange(1, 5) =~= le32(units));
}

/// Why decoded swap instructions could not be installed.
#[derive(PartialEq, Eq, Structural, Clone, Copy, Debug)]
pub enum SwapDecodeError {
    /// The transaction's instructions could not be read.
    Instruction,
    /// The transaction holds no instruction besides compute budget ones.
    MissingMainInstruction,
}

/// A blockhash and the last block height at which it is valid.
pub struct BlockhashMetadata {
    pub blockhash: Vec<u8>,
    pub last_valid_block_height: u64,
}

/// Instructions decoded from a transaction: the compute budget ones and the rest, in order.
pub struct InstructionBundle {
    pub compute_budget_instructions: Vec<InstructionData>,
    pub other_instructions: Vec<InstructionData>,
}

/// The compute unit limit assumed when the service names none.
pub const DEFAULT_COMPUTE_UNIT_LIMIT: u32 = 200_000;

/// Swap instructions from Jupiter.
pub struct SwapInstructionsResponse {
    pub compute_budget_instructions: Vec<InstructionData>,
    pub setup_instructions: Vec<InstructionData>,
    pub swap_instruction: InstructionData,
    pub cleanup_instructions: Vec<InstructionData>,
    pub other_instructions: Vec<InstructionData>,
    pub address_lookup_table_addresses: Vec<Vec<u8>>,
    pub prioritization_fee_lamports: Option<u64>,
    pub compute_unit_limit: u32,
    pub blockhash: Option<BlockhashMetadata>,
    pub ordered_instructions: Option<Vec<InstructionData>>,
    /// The whole transaction was returned and decoded (the caller keeps it).
    pub has_decoded_transaction: bool,
}

/// The view of optional instructions.
pub open spec fn opt_ixs_view(v: Option<Vec<InstructionData>>) -> Option<Seq<InstructionView>> {
    match v {
        Some(x) => Some(ixs_view(x@)),
        None => None,
    }
}

impl SwapInstructionsResponse {
    /// All instructions in order: compute budget first, then the decoded order
    /// when there is one, otherwise setup, swap, other and cleanup.
    pub open spec fn flatten_spec(&self) -> Seq<InstructionView> {
        ixs_view(self.compute_budget_instructions@) + match self.ordered_instructions {
            Some(o) => ixs_view(o@),
            None => ixs_view(self.setup_instructions@) + seq![ix_view(self.swap_instruction)]
                + ixs_view(self.other_instructions@) + ixs_view(self.cleanup_instructions@),
        }
    }

    /// The instructions besides compute budget: the decoded order when there is
    /// one, otherwise setup, swap, cleanup and other.
    pub open spec fn main_spec(&self) -> Seq<InstructionView> {
        match self.ordered_instructions {
            Some(o) => ixs_view(o@),
            None => ixs_view(self.setup_instructions@) + seq![ix_view(self.swap_instruction)]
                + ixs_view(self.cleanup_instructions@) + ixs_view(self.other_instructions@),
        }
    }

    /// Without a decoded order, the flattened instructions are the compute budget
    /// instructions, then the setup instructions, the swap instruction, the other
    /// instructions and the cleanup instructions, each group in its own order:
    /// the swap comes after every setup instruction and before every cleanup
    /// instruction. With a decoded order, that order follows the compute budget.
    pub proof fn lemma_flatten_order(&self)
        ensures
            ({
                let f = self.flatten_spec();
                let c = self.compute_budget_instructions@.len() as int;
                let s = self.setup_instructions@.len() as int;
                let o = self.other_instructions@.len() as int;
                let k = self.cleanup_instructions@.len() as int;
                &&& forall|i: int| 0 <= i < c ==> f[i] == ix_view(#[trigger] self.compute_budget_instructions@[i])
                &&& self.ordered_instructions is None ==> {
                    &&& f.len() == c + s + 1 + o + k
                    &&& forall|i: int| 0 <= i < s ==> f[c + i] == ix_view(#[trigger] self.setup_instructions@[i])
                    &&& f[c + s] == ix_view(self.swap_instruction)
                    &&& forall|i: int| 0 <= i < o ==> f[c + s + 1 + i] == ix_view(#[trigger] self.other_instructions@[i])
                    &&& forall|i: int| 0 <= i < k ==> f[c + s + 1 + o + i] == ix_view(#[trigger] self.cleanup_instructions@[i])
                }
                &&& self.ordered_instructions matches Some(d) ==> {
                    &&& f.len() == c + d@.len()
                    &&& forall|i: int| 0 <= i < d@.len() ==> f[c + i] == ix_view(#[trigger] d@[i])
                }
            }),
    {
    }

    /// Without a decoded order, the main instructions are the setup
    /// instructions, the swap instruction, the cleanup instructions and the
    /// other instructions, each group in its own order.
    pub proof fn lemma_main_order(&self)
        requires
            self.ordered_instructions is None,
        ensures
            ({
                let m = self.main_spec();
                let s = self.setup_instructions@.len() as int;
                let k = self.cleanup_instructions@.len() as int;
                let o = self.other_instructions@.len() as int;
                &&& m.len() == s + 1 + k + o
                &&& forall|i: int| 0 <= i < s ==> m[i] == ix_view(#[trigger] self.setup_instructions@[i])
                &&& m[s] == ix_view(self.swap_instruction)
                &&& forall|i: int| 0 <= i < k ==> m[s + 1 + i] == ix_view(#[trigger] self.cleanup_instructions@[i])
                &&& forall|i: int| 0 <= i < o ==> m[s + 1 + k + i] == ix_view(#[trigger] self.other_instructions@[i])
            }),
    {
    }

    pub fn flatten_instructions(&self) -> (r: Vec<InstructionData>)
        ensures
            ixs_view(r@) == self.flatten_spec(),
    {
        let mut out: Vec<InstructionData> = Vec::new();
        extend_instructions(&mut out, &self.compute_budget_instructions);
        match &self.ordered_instructions {
            Some(ordered) => {
                extend_instructions(&mut out, ordered);
            },
            None => {
                extend_instructions(&mut out, &self.setup_instructions);
                let ghost before = out@;
                out.push(clone_instruction(&self.swap_instruction));
                assert(ixs_view(out@) =~= ixs_view(before).push(ix_view(self.swap_instruction)));
                extend_instructions(&mut out, &self.other_instructions);
                extend_instructions(&mut out, &self.cleanup_instructions);
            },
        }
        assert(ixs_view(out@) =~= self.flatten_spec());
        out
    }

    pub fn main_instructions(&self) -> (r: Vec<InstructionData>)
        ensures
            ixs_view(r@) == self.main_spec(),
    {
        let mut out: Vec<InstructionData> = Vec::new();
        match &self.ordered_instructions {
            Some(ordered) => {
                extend_instructions(&mut out, ordered);
            },
            None => {
                extend_instructions(&mut out, &self.setup_instructions);
                let ghost before = out@;
                out.push(clone_instruction(&self.swap_instruction));
                assert(ixs_view(out@) =~= ixs_view(before).push(ix_view(self.swap_instruction)));
                extend_instructions(&mut out, &self.cleanup_instructions);
                extend_instructions(&mut out, &self.other_instructions);
            },
        }
        assert(ixs_view(out@) =~= self.main_spec());
        out
    }

    /// Copies of the compute budget instructions.
    pub fn compute_budget_overrides(&self) -> (r: Vec<InstructionData>)
        ensures
            ixs_view(r@) == ixs_view(self.compute_budget_instructions@),
    {
        let mut out: Vec<InstructionData> = Vec::new();
        extend_instructions(&mut out, &self.compute_budget_instructions);
        assert(ixs_view(out@) =~= ixs_view(self.compute_budget_instructions@));
        out
    }

    /// Lookup tables must be fetched before the instructions are known.
    pub fn needs_lookup_resolution(&self) -> (r: bool)
        ensures
            r == (self.ordered_instructions is None && self.has_decoded_transaction),
    {
        self.ordered_instructions.is_none() && self.has_decoded_transaction
    }

    /// Installs instructions decoded from the transaction: the compute budget
    /// ones, and the rest as the decoded order, the last of them being the swap
    /// and the others its setup. There must be at least one.
    pub fn install_bundle(&mut self, bundle: InstructionBundle) -> (r: Result<(), SwapDecodeError>)
        ensures
            bundle.other_instructions@.len() == 0 ==> r == Err::<(), SwapDecodeError>(SwapDecodeError::MissingMainInstruction)
                && ixs_view(final(self).compute_budget_instructions@) == ixs_view(old(self).compute_budget_instructions@)
                && opt_ixs_view(final(self).ordered_instructions) == opt_ixs_view(old(self).ordered_instructions),
            bundle.other_instructions@.len() > 0 ==> r is Ok
                && ixs_view(final(self).compute_budget_instructions@) == ixs_view(bundle.compute_budget_instructions@)
                && opt_ixs_view(final(self).ordered_instructions) == Some(ixs_view(bundle.other_instructions@))
                && ixs_view(final(self).setup_instructions@) == ixs_view(bundle.other_instructions@.drop_last())
                && ix_view(final(self).swap_instruction) == ix_view(bundle.other_instructions@.last())
                && final(self).cleanup_instructions@.len() == 0
                && final(self).other_instructions@.len() == 0,
            final(self).compute_unit_limit == old(self).compute_unit_limit,
            final(self).has_decoded_transaction == old(self).has_decoded_transaction,
            final(self).prioritization_fee_lamports == old(self).prioritization_fee_lamports,
            final(self).address_lookup_table_addresses == old(self).address_lookup_table_addresses,
            final(self).blockhash == old(self).blockhash,
    {
        let InstructionBundle { compute_budget_instructions, other_instructions } = bundle;
        if other_instructions.len() == 0 {
            return Err(SwapDecodeError::MissingMainInstruction);
        }
        self.compute_budget_instructions = compute_budget_instructions;
        let mut staged: Vec<InstructionData> = Vec::new();
        extend_instructions(&mut staged, &other_instructions);
        let ghost full = staged@;
        assert(ixs_view(full) =~= ixs_view(other_instructions@));
        let swap = staged.pop().unwrap();
        assert(staged@ == full.drop_last());
        assert(ixs_view(staged@) =~= ixs_view(full).drop_last());
        assert(ixs_view(staged@) =~= ixs_view(other_instructions@.drop_last()));
        assert(ix_view(swap) == ixs_view(full)[full.len() - 1]);
        assert(ix_view(swap) == ix_view(other_instructions@.last()));
        self.setup_instructions = staged;
        self.swap_instruction = swap;
        self.cleanup_instructions = Vec::new();
        self.other_instructions = Vec::new();
        self.ordered_instructions = Some(other_instructions);
        Ok(())
    }

    /// Sets a new compute unit limit (at least one): every compute budget
    /// instruction that sets a limit is replaced, in place, by one that sets
    /// the new limit and the others stay as they are; when there is none, such
    /// an instruction is put first. A limit equal to the current one changes nothing.
    pub fn apply_compute_unit_limit(&mut self, scaled_limit: u32) -> (r: u32)
        ensures
            scaled_limit != old(self).compute_unit_limit ==> limit_applied(
                ixs_view(final(self).compute_budget_instructions@), ixs_view(old(self).compute_budget_instructions@), r),
            scaled_limit == old(self).compute_unit_limit ==> r == old(self).compute_unit_limit
                && ixs_view(final(self).compute_budget_instructions@) == ixs_view(old(self).compute_budget_instructions@),
            scaled_limit != old(self).compute_unit_limit ==> {
                &&& r == if scaled_limit < 1 { 1 } else { scaled_limit }
                &&& final(self).compute_unit_limit == r
                &&& forall|i: int| 0 <= i < final(self).compute_budget_instructions@.len()
                        ==> compute_budget_limit_spec(#[trigger] ixs_view(final(self).compute_budget_instructions@)[i]) is None
                        || compute_budget_limit_spec(ixs_view(final(self).compute_budget_instructions@)[i]) == Some(r)
                &&& exists|i: int| 0 <= i < final(self).compute_budget_instructions@.len()
                        && compute_budget_limit_spec(#[trigger] ixs_view(final(self).compute_budget_instructions@)[i]) == Some(r)
            },
    {
        if scaled_limit == self.compute_unit_limit {
            return self.compute_unit_limit;
        }
        let limit = if scaled_limit < 1 { 1 } else { scaled_limit };
        self.compute_unit_limit = limit;
        let mut replaced = false;
        let n = self.compute_budget_instructions.len();
        let ghost ov = ixs_view(self.compute_budget_instructions@);
        let mut updated: Vec<InstructionData> = Vec::new();
        for i in 0..n
            invariant
                n == self.compute_budget_instructions@.len(),
                updated@.len() == i,
                forall|k: int| 0 <= k < i ==> compute_budget_limit_spec(#[trigger] ixs_view(updated@)[k]) is None
                    || compute_budget_limit_spec(ixs_view(updated@)[k]) == Some(limit),
                replaced ==> exists|k: int| 0 <= k < i && compute_budget_limit_spec(#[trigger] ixs_view(updated@)[k]) == Some(limit),
                ov == ixs_view(self.compute_budget_instructions@),
                replaced == exists|k: int| 0 <= k < i && (#[trigger] compute_budget_limit_spec(ov[k])) is Some,
                forall|k: int| 0 <= k < i ==> if (#[trigger] compute_budget_limit_spec(ov[k])) is Some {
                    set_limit_view(ixs_view(updated@)[k], limit)
                } else {
                    ixs_view(updated@)[k] == ov[k]
                },
        {
            let ix = &self.compute_budget_instructions[i];
            let ghost before = updated@;
            assert(ov[i as int] == ix_view(*ix));
            if parse_compute_budget_limit(ix).is_some() {
                let new_ix = set_compute_unit_limit_instruction(limit);
                proof {
                    lemma_set_limit_roundtrip(new_ix.program_id@, limit);
                    assert(ix_view(new_ix) =~= (new_ix.program_id@, Seq::<AccountView>::empty(), seq![2u8] + le32(limit)));
                }
                updated.push(new_ix);
                assert(ixs_view(updated@) =~= ixs_view(before).push(ix_view(new_ix)));
                assert(compute_budget_limit_spec(ixs_view(updated@)[i as int]) == Some(limit));
                replaced = true;
            } else {
                let c = clone_instruction(ix);
                updated.push(c);
                assert(ixs_view(updated@) =~= ixs_view(before).push(ix_view(c)));
                assert(compute_budget_limit_spec(ix_view(c)) is None);
                proof {
                    if replaced {
                        let k = choose|k: int| 0 <= k < i && compute_budget_limit_spec(#[trigger] ixs_view(before)[k]) == Some(limit);
                        assert(ixs_view(updated@)[k] == ixs_view(before)[k]);
                    }
                }
            }
            assert(forall|k: int| 0 <= k < i ==> ixs_view(updated@)[k] == ixs_view(before)[k]);
            proof {
                assert(set_limit_view(ixs_view(updated@)[i as int], limit) || ixs_view(updated@)[i as int] == ov[i as int]);
                if replaced && !(exists|k: int| 0 <= k < i && (#[trigger] compute_budget_limit_spec(ov[k])) is Some) {
                    assert(compute_budget_limit_spec(ov[i as int]) is Some);
                }
            }
        }
        if !replaced {
            let new_ix = set_compute_unit_limit_instruction(limit);
            proof {
                lemma_set_limit_roundtrip(new_ix.program_id@, limit);
                assert(ix_view(new_ix) =~= (new_ix.program_id@, Seq::<AccountView>::empty(), seq![2u8] + le32(limit)));
            }
            let ghost before = updated@;
            assert forall|k: int| 0 <= k < n implies ixs_view(before)[k] == ov[k] by {
                if compute_budget_limit_spec(ov[k]) is Some {
                    assert(exists|k2: int| 0 <= k2 < n && (#[trigger] compute_budget_limit_spec(ov[k2])) is Some);
                }
            }
            updated.insert(0, new_ix);
            assert(forall|k: int| 1 <= k < updated@.len() ==> ixs_view(updated@)[k] == ixs_view(before)[k - 1]);
            assert(compute_budget_limit_spec(ixs_view(updated@)[0]) == Some(limit));
            assert(ixs_view(updated@).subrange(1, ixs_view(updated@).len() as int) =~= ov);
        }
        self.compute_budget_instructions = updated;
        limit
    }

    /// The response for instructions returned one by one: the blockhash comes
    /// from its metadata, or from a bare blockhash with its last valid height
    /// (zero when missing); the limit defaults to 200 000.
    pub fn from_parts(
        compute_budget_instructions: Vec<InstructionData>,
        setup_instructions: Vec<InstructionData>,
        swap_instruction: InstructionData,
        cleanup_instructions: Vec<InstructionData>,
        other_instructions: Vec<InstructionData>,
        address_lookup_table_addresses: Vec<Vec<u8>>,
        prioritization_fee_lamports: Option<u64>,
        compute_unit_limit: Option<u32>,
        blockhash_with_expiry_block_height: Option<BlockhashMetadata>,
        blockhash_with_metadata: Option<BlockhashMetadata>,
        recent_blockhash: Option<Vec<u8>>,
        last_valid_block_height: Option<u64>,
    ) -> (r: Self)
        ensures
            r.compute_unit_limit == match compute_unit_limit { Some(l) => l, None => DEFAULT_COMPUTE_UNIT_LIMIT },
            r.prioritization_fee_lamports == prioritization_fee_lamports,
            r.ordered_instructions is None,
            !r.has_decoded_transaction,
            match blockhash_with_expiry_block_height {
                Some(b) => r.blockhash == Some(b),
                None => match blockhash_with_metadata {
                    Some(b) => r.blockhash == Some(b),
                    None => match recent_blockhash {
                        Some(h) => r.blockhash matches Some(b) && b.blockhash@ == h@
                            && b.last_valid_block_height == match last_valid_block_height { Some(v) => v, None => 0 },
                        None => r.blockhash is None,
                    },
                },
            },
            r.compute_budget_instructions == compute_budget_instructions,
            r.setup_instructions == setup_instructions,
            r.swap_instruction == swap_instruction,
            r.cleanup_instructions == cleanup_instructions,
            r.other_instructions == other_instructions,
            r.address_lookup_table_addresses == address_lookup_table_addresses,
    {
        let blockhash = match blockhash_with_expiry_block_height {
            Some(b) => Some(b),
            None => match blockhash_with_metadata {
                Some(b) => Some(b),
                None => match recent_blockhash {
                    Some(h) => Some(BlockhashMetadata {
                        blockhash: h,
                        last_valid_block_height: match last_valid_block_height {
                            Some(v) => v,
                            None => 0,
                        },
                    }),
                    None => None,
                },
            },
        };
        SwapInstructionsResponse {
            compute_budget_instructions,
            setup_instructions,
            swap_instruction,
            cleanup_instructions,
            other_instructions,
            address_lookup_table_addresses,
            prioritization_fee_lamports,
            compute_unit_limit: match compute_unit_limit {
                Some(l) => l,
                None => DEFAULT_COMPUTE_UNIT_LIMIT,
            },
            blockhash,
            ordered_instructions: None,
            has_decoded_transaction: false,
        }
    }
}

/// The first compute unit limit that compute budget instructions set.
pub open spec fn first_limit(ixs: Seq<InstructionView>) -> Option<u32>
    decreases ixs.len(),
{
    if ixs.len() == 0 {
        None
    } else {
        match compute_budget_limit_spec(ixs[0]) {
            Some(l) => Some(l),
            None => first_limit(ixs.drop_first()),
        }
    }
}

/// Finds the first compute unit limit that the instructions set.
pub fn find_compute_unit_limit(ixs: &Vec<InstructionData>) -> (r: Option<u32>)
    ensures
        r == first_limit(ixs_view(ixs@)),
{
    let n = ixs.len();
    let mut i: usize = 0;
    assert(ixs_view(ixs@).subrange(0, n as int) =~= ixs_view(ixs@));
    while i < n
        invariant
            n == ixs@.len(),
            i <= n,
            first_limit(ixs_view(ixs@)) == first_limit(ixs_view(ixs@).subrange(i as int, n as int)),
        decreases n - i,
    {
        let ghost rest = ixs_view(ixs@).subrange(i as int, n as int);
        assert(rest[0] == ix_view(ixs@[i as int]));
        assert(rest.drop_first() =~= ixs_view(ixs@).subrange(i + 1, n as int));
        let l = parse_compute_budget_limit(&ixs[i]);
        if l.is_some() {
            return l;
        }
        i = i + 1;
    }
    assert(ixs_view(ixs@).subrange(n as int, n as int).len() == 0);
    None
}

impl SwapInstructionsResponse {
    /// The response for a whole transaction that was decoded: its lookup
    /// tables, fee, limit and blockhash; when its instructions could be read
    /// they are installed, and a compute unit limit they set replaces the one
    /// the service named.
    pub fn from_transaction_parts(
        address_lookup_table_addresses: Vec<Vec<u8>>,
        prioritization_fee_lamports: Option<u64>,
        compute_unit_limit: Option<u32>,
        blockhash: Vec<u8>,
        last_valid_block_height: Option<u64>,
        bundle: Option<InstructionBundle>,
    ) -> (r: Result<Self, SwapDecodeError>)
        ensures
            match bundle {
                None => r matches Ok(x) && x.has_decoded_transaction && x.ordered_instructions is None
                    && x.compute_unit_limit == match compute_unit_limit { Some(l) => l, None => DEFAULT_COMPUTE_UNIT_LIMIT },
                Some(b) => if b.other_instructions@.len() == 0 {
                    r == Err::<Self, SwapDecodeError>(SwapDecodeError::MissingMainInstruction)
                } else {
                    r matches Ok(x) && x.has_decoded_transaction
                        && opt_ixs_view(x.ordered_instructions) == Some(ixs_view(b.other_instructions@))
                        && ixs_view(x.compute_budget_instructions@) == ixs_view(b.compute_budget_instructions@)
                        && x.compute_unit_limit == match first_limit(ixs_view(b.compute_budget_instructions@)) {
                            Some(l) => l,
                            None => match compute_unit_limit { Some(l) => l, None => DEFAULT_COMPUTE_UNIT_LIMIT },
                        }
                },
            },
            r matches Ok(x) ==> x.prioritization_fee_lamports == prioritization_fee_lamports
                && x.address_lookup_table_addresses == address_lookup_table_addresses
                && (x.blockhash matches Some(bh) ==> (bh.blockhash@ == blockhash@ && last_valid_block_height == Some(bh.last_valid_block_height)))
                && (x.blockhash is None ==> last_valid_block_height is None),
    {
        let blockhash_meta = match last_valid_block_height {
            Some(height) => Some(BlockhashMetadata { blockhash, last_valid_block_height: height }),
            None => None,
        };
        let mut instance = SwapInstructionsResponse {
            compute_budget_instructions: Vec::new(),
            setup_instructions: Vec::new(),
            swap_instruction: InstructionData { program_id: vec![0u8; 32], accounts: Vec::new(), data: Vec::new() },
            cleanup_instructions: Vec::new(),
            other_instructions: Vec::new(),
            address_lookup_table_addresses,
            prioritization_fee_lamports,
            compute_unit_limit: match compute_unit_limit {
                Some(l) => l,
                None => DEFAULT_COMPUTE_UNIT_LIMIT,
            },
            blockhash: blockhash_meta,
            ordered_instructions: None,
            has_decoded_transaction: true,
        };
        if let Some(b) = bundle {
            instance.install_bundle(b)?;
            if let Some(limit) = find_compute_unit_limit(&instance.compute_budget_instructions) {
                instance.compute_unit_limit = limit;
            }
        }
        Ok(instance)
    }
}

/// A lookup table and the addresses it holds, as public keys.
pub struct LookupTableAccount {
    pub key: Vec<u8>,
    pub addresses: Vec<Vec<u8>>,
}

/// The keys of every table and its addresses, if all of them are public keys.
pub open spec fn lookup_accounts_parse(entries: Seq<(Seq<char>, Seq<Seq<char>>)>) -> bool {
    forall|i: int| 0 <= i < entries.len() ==> pubkey_from_text((#[trigger] entries[i]).0).is_some()
        && forall|j: int| 0 <= j < entries[i].1.len() ==> pubkey_from_text(#[trigger] entries[i].1[j]).is_some()
}

/// The views of lookup table entries.
pub open spec fn lookup_entry_views(v: Seq<(String, Vec<String>)>) -> Seq<(Seq<char>, Seq<Seq<char>>)> {
    v.map_values(|e: (String, Vec<String>)| (e.0@, string_views(e.1@)))
}

fn parse_addresses(addresses: &Vec<String>) -> (r: Option<Vec<Vec<u8>>>)
    ensures
        r.is_some() == forall|j: int| 0 <= j < addresses@.len() ==> pubkey_from_text(#[trigger] string_views(addresses@)[j]).is_some(),
        r matches Some(v) ==> v@.len() == addresses@.len()
            && forall|j: int| 0 <= j < v@.len() ==> pubkey_from_text(string_views(addresses@)[j]) == Some(#[trigger] v@[j]@),
{
    let mut out: Vec<Vec<u8>> = Vec::new();
    for j in 0..addresses.len()
        invariant
            out@.len() == j,
            forall|k: int| 0 <= k < j ==> pubkey_from_text(string_views(addresses@)[k]) == Some(#[trigger] out@[k]@),
    {
        match parse_pubkey(addresses[j].as_str()) {
            Some(k) => {
                out.push(k);
            },
            None => {
                assert(pubkey_from_text(string_views(addresses@)[j as int]).is_none());
                return None;
            },
        }
    }
    assert forall|j: int| 0 <= j < addresses@.len() implies pubkey_from_text(#[trigger] string_views(addresses@)[j]).is_some() by {
        assert(pubkey_from_text(string_views(addresses@)[j]) == Some(out@[j]@));
    }
    Some(out)
}

/// Reads the lookup tables that came with a transaction: every table key and
/// address must be a public key.
pub fn build_lookup_accounts(entries: &Vec<(String, Vec<String>)>) -> (r: Option<Vec<LookupTableAccount>>)
    ensures
        r.is_some() == lookup_accounts_parse(lookup_entry_views(entries@)),
        r matches Some(v) ==> v@.len() == entries@.len()
            && forall|i: int| 0 <= i < v@.len() ==> pubkey_from_text(entries@[i].0@) == Some((#[trigger] v@[i]).key@)
                && v@[i].addresses@.len() == entries@[i].1@.len()
                && forall|j: int| 0 <= j < v@[i].addresses@.len()
                    ==> pubkey_from_text(entries@[i].1@[j]@) == Some(#[trigger] v@[i].addresses@[j]@),
{
    let ghost ev = lookup_entry_views(entries@);
    let mut out: Vec<LookupTableAccount> = Vec::new();
    for i in 0..entries.len()
        invariant
            ev == lookup_entry_views(entries@),
            out@.len() == i,
            forall|k: int| 0 <= k < i ==> pubkey_from_text((#[trigger] ev[k]).0).is_some()
                && forall|j: int| 0 <= j < ev[k].1.len() ==> pubkey_from_text(#[trigger] ev[k].1[j]).is_some(),
            forall|k: int| 0 <= k < i ==> pubkey_from_text(entries@[k].0@) == Some((#[trigger] out@[k]).key@)
                && out@[k].addresses@.len() == entries@[k].1@.len()
                && forall|j: int| 0 <= j < out@[k].addresses@.len()
                    ==> pubkey_from_text(entries@[k].1@[j]@) == Some(#[trigger] out@[k].addresses@[j]@),
    {
        let (table_key, addresses) = (&entries[i].0, &entries[i].1);
        assert(ev[i as int] == (table_key@, string_views(addresses@)));
        let key = match parse_pubkey(table_key.as_str()) {
            Some(k) => k,
            None => {
                assert(!pubkey_from_text(ev[i as int].0).is_some());
                return None;
            },
        };
        let resolved = match parse_addresses(addresses) {
            Some(v) => v,
            None => {
                proof {
                    let j = choose|j: int| 0 <= j < addresses@.len() && !pubkey_from_text(#[trigger] string_views(addresses@)[j]).is_some();
                    assert(ev[i as int].1[j] == string_views(addresses@)[j]);
                }
                return None;
            },
        };
        proof {
            assert forall|j: int| 0 <= j < resolved@.len()
                implies pubkey_from_text(entries@[i as int].1@[j]@) == Some(#[trigger] resolved@[j]@) by {
                assert(string_views(addresses@)[j] == addresses@[j]@);
            }
        }
        out.push(LookupTableAccount { key, addresses: resolved });
    }
    Some(out)
}

/// How a swap pays for its priority.
#[derive(PartialEq, Eq, Structural, Clone, Copy, Debug)]
pub enum PrioritizationType {
    /// A tip to Jito.
    Jito { lamports: u64 },
    /// A compute unit price, with the service's estimate if it gave one.
    ComputeBudget { micro_lamports: u64, estimated_micro_lamports: Option<u64> },
}

/// A simulation failure the service reports.
#[derive(Clone, Debug)]
pub struct UiSimulationError {
    pub error_code: String,
    pub error: String,
}

} // verus!
