//! Registers: named, owner-signed CRDTs holding a mutable, append-only
//! operation log. Each entry supersedes the entries it names as children;
//! the current values are the unsuperseded heads, of which there may
//! legitimately be several after concurrent writes — merging preserves all
//! heads rather than picking a winner. Entry hashes and signatures are
//! produced by the crypto collaborator; this engine checks and merges the
//! log structurally.

use vstd::prelude::*;
use crate::address::{copy_vec, PeerId};
use crate::transport::{NetworkError, PutRecordCfg, GetRecordCfg, Quorum};

verus! {

/// Address of a register in the metric space.
#[derive(Clone, Copy, PartialEq, Eq, Structural, Debug)]
pub struct RegisterAddress(pub u64);

/// One entry of a register's operation log: an owner-signed write. Its
/// hash is the collaborator-computed content hash identifying the entry;
/// its children are the hashes of the entries this write supersedes.
#[derive(Clone, PartialEq, Eq, Debug)]
pub struct Entry {
    pub hash: u64,
    pub value: Vec<u8>,
    pub children: Vec<u64>,
}

/// Why an operation cannot be applied to a register's log.
#[derive(Clone, Copy, PartialEq, Eq, Structural, Debug)]
pub enum EntryError {
    /// An entry with this hash is already in the log.
    DuplicateEntry,
    /// The operation supersedes an entry the log does not hold.
    UnknownChild,
}

/// Errors of register operations.
#[derive(Clone, Copy, PartialEq, Eq, Structural, Debug)]
pub enum RegisterError {
    Network(NetworkError),
    Serialization,
    /// The register decodes but its operation log fails structural
    /// verification; distinct from transport and deserialization failure.
    FailedVerification,
    Pay,
    Wallet,
    Write(EntryError),
    CouldNotSign,
}

/// Among the first `n` entries, one has hash `h`.
pub open spec fn contains_hash_upto(ops: Seq<Entry>, n: int, h: u64) -> bool {
    exists|j: int| 0 <= j < n && (#[trigger] ops[j]).hash == h
}

/// Some entry of the log has hash `h`.
pub open spec fn contains_hash(ops: Seq<Entry>, h: u64) -> bool {
    contains_hash_upto(ops, ops.len() as int, h)
}

/// Entry `h` is superseded: some entry names it as a child.
pub open spec fn superseded(ops: Seq<Entry>, h: u64) -> bool {
    exists|i: int| 0 <= i < ops.len() && (#[trigger] ops[i]).children@.contains(h)
}

/// No two entries share a hash.
pub open spec fn unique_hashes(ops: Seq<Entry>) -> bool {
    forall|i: int, j: int|
        0 <= i < j < ops.len() ==> (#[trigger] ops[i]).hash != (#[trigger] ops[j]).hash
}

/// Every child reference names an earlier entry of the log.
pub open spec fn children_resolve(ops: Seq<Entry>) -> bool {
    forall|i: int, c: int|
        0 <= i < ops.len() && 0 <= c < ops[i].children@.len() ==> contains_hash_upto(
            ops,
            i,
            #[trigger] ops[i].children@[c],
        )
}

/// Structural validity of an operation log.
pub open spec fn ops_well_formed(ops: Seq<Entry>) -> bool {
    unique_hashes(ops) && children_resolve(ops)
}

/// The operation `op` can be applied to the log: its hash is new and it
/// supersedes only entries the log holds.
pub open spec fn op_applies(ops: Seq<Entry>, op: Entry) -> bool {
    !contains_hash(ops, op.hash) && (forall|c: int|
        0 <= c < op.children@.len() ==> contains_hash(ops, #[trigger] op.children@[c]))
}

/// The values of the unsuperseded entries among `ops`, judged against the
/// full log `full`, in log order.
pub open spec fn head_values_of(ops: Seq<Entry>, full: Seq<Entry>) -> Seq<Seq<u8>>
    decreases ops.len(),
{
    if ops.len() == 0 {
        Seq::empty()
    } else {
        let prefix = head_values_of(ops.drop_last(), full);
        if superseded(full, ops.last().hash) {
            prefix
        } else {
            prefix.push(ops.last().value@)
        }
    }
}

/// The hashes of the unsuperseded entries among `ops`, judged against the
/// full log `full`, in log order.
pub open spec fn head_hashes_of(ops: Seq<Entry>, full: Seq<Entry>) -> Seq<u64>
    decreases ops.len(),
{
    if ops.len() == 0 {
        Seq::empty()
    } else {
        let prefix = head_hashes_of(ops.drop_last(), full);
        if superseded(full, ops.last().hash) {
            prefix
        } else {
            prefix.push(ops.last().hash)
        }
    }
}

/// An owner-signed register: its address, the public key allowed to write
/// to it, and its append-only operation log.
#[derive(Clone, PartialEq, Eq, Debug)]
pub struct SignedRegister {
    pub address: RegisterAddress,
    pub owner: u64,
    pub ops: Vec<Entry>,
}

/// Whether an entry of the log names `h` as a child.
fn scan_superseded(ops: &Vec<Entry>, h: u64) -> (r: bool)
    ensures
        r == superseded(ops@, h),
{
    let mut i: usize = 0;
    while i < ops.len()
        invariant
            i <= ops@.len(),
            forall|k: int| 0 <= k < i ==> !(#[trigger] ops@[k]).children@.contains(h),
        decreases ops.len() - i,
    {
        let mut c: usize = 0;
        while c < ops[i].children.len()
            invariant
                i < ops@.len(),
                c <= ops@[i as int].children@.len(),
                forall|d: int| 0 <= d < c ==> ops@[i as int].children@[d] != h,
            decreases ops@[i as int].children@.len() - c,
        {
            if ops[i].children[c] == h {
                proof {
                    assert(ops@[i as int].children@.contains(h));
                }
                return true;
            }
            c += 1;
        }
        proof {
            assert(!ops@[i as int].children@.contains(h));
        }
        i += 1;
    }
    false
}

/// Whether one of the first `n` entries has hash `h`.
fn scan_hash_upto(ops: &Vec<Entry>, n: usize, h: u64) -> (r: bool)
    requires
        n <= ops@.len(),
    ensures
        r == contains_hash_upto(ops@, n as int, h),
{
    let mut j: usize = 0;
    while j < n
        invariant
            j <= n <= ops@.len(),
            forall|k: int| 0 <= k < j ==> (#[trigger] ops@[k]).hash != h,
        decreases n - j,
    {
        if ops[j].hash == h {
            proof {
                assert(contains_hash_upto(ops@, n as int, h));
            }
            return true;
        }
        j += 1;
    }
    false
}

impl SignedRegister {
    /// Structural validity of the register's log.
    pub open spec fn well_formed(self) -> bool {
        ops_well_formed(self.ops@)
    }

    /// The current values: one per unsuperseded head.
    pub open spec fn spec_values(self) -> Seq<Seq<u8>> {
        head_values_of(self.ops@, self.ops@)
    }

    /// The hashes of the current heads.
    pub open spec fn spec_heads(self) -> Seq<u64> {
        head_hashes_of(self.ops@, self.ops@)
    }

    /// A fresh register with an empty log.
    pub fn new(address: RegisterAddress, owner: u64) -> (r: SignedRegister)
        ensures
            r.address == address,
            r.owner == owner,
            r.ops@.len() == 0,
            r.well_formed(),
    {
        SignedRegister { address, owner, ops: Vec::new() }
    }

    /// Checks the operation log structurally: unique entry hashes, and
    /// every child reference resolving to an earlier entry.
    pub fn verify(&self) -> (r: bool)
        ensures
            r == self.well_formed(),
    {
        let ops = &self.ops;
        let mut i: usize = 0;
        while i < ops.len()
            invariant
                i <= ops@.len(),
                ops@ == self.ops@,
                forall|a: int, b: int|
                    0 <= a < b < i ==> (#[trigger] ops@[a]).hash != (#[trigger] ops@[b]).hash,
                forall|a: int, c: int|
                    0 <= a < i && 0 <= c < ops@[a].children@.len() ==> contains_hash_upto(
                        ops@,
                        a,
                        #[trigger] ops@[a].children@[c],
                    ),
            decreases ops.len() - i,
        {
            if scan_hash_upto(ops, i, ops[i].hash) {
                proof {
                    let j = choose|j: int| 0 <= j < i && (#[trigger] ops@[j]).hash == ops@[
                        i as int].hash;
                    assert(!unique_hashes(ops@));
                }
                return false;
            }
            let mut c: usize = 0;
            while c < ops[i].children.len()
                invariant
                    i < ops@.len(),
                    ops@ == self.ops@,
                    c <= ops@[i as int].children@.len(),
                    forall|d: int|
                        0 <= d < c ==> contains_hash_upto(
                            ops@,
                            i as int,
                            #[trigger] ops@[i as int].children@[d],
                        ),
                decreases ops@[i as int].children@.len() - c,
            {
                let child = ops[i].children[c];
                if !scan_hash_upto(ops, i, child) {
                    proof {
                        assert(!children_resolve(ops@));
                    }
                    return false;
                }
                c += 1;
            }
            proof {
                assert forall|a: int, b: int| 0 <= a < b < i + 1 implies (#[trigger] ops@[a]).hash
                    != (#[trigger] ops@[b]).hash by {
                    if b == i {
                        assert(!contains_hash_upto(ops@, i as int, ops@[i as int].hash));
                    }
                }
            }
            i += 1;
        }
        true
    }

    /// The current heads of the log, in log order.
    pub fn current_heads(&self) -> (hs: Vec<u64>)
        ensures
            hs@ == self.spec_heads(),
    {
        let ops = &self.ops;
        let mut hs: Vec<u64> = Vec::new();
        let mut i: usize = 0;
        while i < ops.len()
            invariant
                i <= ops@.len(),
                hs@ == head_hashes_of(ops@.take(i as int), ops@),
            decreases ops.len() - i,
        {
            proof {
                assert(ops@.take(i + 1).drop_last() =~= ops@.take(i as int));
                assert(ops@.take(i + 1).last() == ops@[i as int]);
            }
            let h = ops[i].hash;
            if !scan_superseded(ops, h) {
                hs.push(h);
            }
            i += 1;
        }
        proof {
            assert(ops@.take(ops@.len() as int) =~= ops@);
        }
        hs
    }

    /// The current values of the log, one per unsuperseded head, in log
    /// order: more than one after unmerged concurrent writes.
    pub fn read(&self) -> (vs: Vec<Vec<u8>>)
        ensures
            vs@.len() == self.spec_values().len(),
            forall|j: int| 0 <= j < vs@.len() ==> (#[trigger] vs@[j])@ == self.spec_values()[j],
    {
        let ops = &self.ops;
        let mut vs: Vec<Vec<u8>> = Vec::new();
        let mut i: usize = 0;
        while i < ops.len()
            invariant
                i <= ops@.len(),
                vs@.len() == head_values_of(ops@.take(i as int), ops@).len(),
                forall|j: int|
                    0 <= j < vs@.len() ==> (#[trigger] vs@[j])@ == head_values_of(
                        ops@.take(i as int),
                        ops@,
                    )[j],
            decreases ops.len() - i,
        {
            proof {
                assert(ops@.take(i + 1).drop_last() =~= ops@.take(i as int));
                assert(ops@.take(i + 1).last() == ops@[i as int]);
            }
            let h = ops[i].hash;
            if !scan_superseded(ops, h) {
                let v = copy_vec(&ops[i].value);
                vs.push(v);
            }
            i += 1;
        }
        proof {
            assert(ops@.take(ops@.len() as int) =~= ops@);
        }
        vs
    }

    /// Merges one operation into the log, append-only: it is added exactly
    /// when its hash is new and every entry it supersedes is present;
    /// otherwise the log is left unchanged and the reason reported.
    pub fn add_op(&mut self, op: Entry) -> (r: Result<(), EntryError>)
        ensures
            final(self).address == old(self).address,
            final(self).owner == old(self).owner,
            contains_hash(old(self).ops@, op.hash) ==> r == Err::<(), EntryError>(
                EntryError::DuplicateEntry,
            ) && final(self).ops@ == old(self).ops@,
            !contains_hash(old(self).ops@, op.hash) && !op_applies(old(self).ops@, op) ==> r
                == Err::<(), EntryError>(EntryError::UnknownChild) && final(self).ops@ == old(self).ops@,
            op_applies(old(self).ops@, op) ==> r == Ok::<(), EntryError>(()) && final(self).ops@
                == old(self).ops@.push(op),
            old(self).well_formed() && op_applies(old(self).ops@, op) ==> final(self).well_formed(),
    {
        let n = self.ops.len();
        if scan_hash_upto(&self.ops, n, op.hash) {
            return Err(EntryError::DuplicateEntry);
        }
        let mut c: usize = 0;
        while c < op.children.len()
            invariant
                c <= op.children@.len(),
                forall|d: int|
                    0 <= d < c ==> contains_hash(self.ops@, #[trigger] op.children@[d]),
                self == old(self),
                !contains_hash(self.ops@, op.hash),
            decreases op.children.len() - c,
        {
            let child = op.children[c];
            let n2 = self.ops.len();
            if !scan_hash_upto(&self.ops, n2, child) {
                return Err(EntryError::UnknownChild);
            }
            c += 1;
        }
        let ghost pre = self.ops@;
        self.ops.push(op);
        proof {
            if ops_well_formed(pre) {
                let post = self.ops@;
                assert forall|i: int, j: int| 0 <= i < j < post.len() implies (
                #[trigger] post[i]).hash != (#[trigger] post[j]).hash by {
                    if j == post.len() - 1 {
                        assert(!contains_hash_upto(pre, pre.len() as int, post[j].hash));
                        assert(pre[i] == post[i]);
                    }
                }
                assert forall|i: int, cc: int|
                    0 <= i < post.len() && 0 <= cc < post[i].children@.len() implies
                    contains_hash_upto(post, i, #[trigger] post[i].children@[cc]) by {
                    if i < post.len() - 1 {
                        assert(pre[i] == post[i]);
                        assert(contains_hash_upto(pre, i, pre[i].children@[cc]));
                        let j = choose|j: int|
                            0 <= j < i && (#[trigger] pre[j]).hash == pre[i].children@[cc];
                        assert((#[trigger] post[j]).hash == post[i].children@[cc]);
                    } else {
                        assert(contains_hash(pre, op.children@[cc]));
                        let j = choose|j: int|
                            0 <= j < pre.len() && (#[trigger] pre[j]).hash == op.children@[cc];
                        assert((#[trigger] post[j]).hash == post[i].children@[cc]);
                    }
                }
            }
        }
        Ok(())
    }
}

/// The client-facing register handle.
#[derive(Clone, PartialEq, Eq, Debug)]
pub struct Register {
    pub inner: SignedRegister,
}

impl Register {
    /// The register's address.
    pub fn address(&self) -> (a: RegisterAddress)
        ensures
            a == self.inner.address,
    {
        self.inner.address
    }

    /// The current values of the register. There can be multiple values
    /// when the register was updated concurrently: registers allow for
    /// network concurrency and never silently pick a winner.
    pub fn values(&self) -> (vs: Vec<Vec<u8>>)
        ensures
            vs@.len() == self.inner.spec_values().len(),
            forall|j: int|
                0 <= j < vs@.len() ==> (#[trigger] vs@[j])@ == self.inner.spec_values()[j],
    {
        self.inner.read()
    }
}

/// Creates a new register owned by `owner` with one initial entry holding
/// `value` under the collaborator-computed entry hash `op_hash`.
pub fn create_register(name: u64, owner: u64, value: Vec<u8>, op_hash: u64) -> (r: Register)
    ensures
        r.inner.address == RegisterAddress(name),
        r.inner.owner == owner,
        r.inner.ops@.len() == 1,
        r.inner.ops@[0].hash == op_hash,
        r.inner.ops@[0].value@ == value@,
        r.inner.ops@[0].children@.len() == 0,
        r.inner.well_formed(),
{
    let mut inner = SignedRegister::new(RegisterAddress(name), owner);
    let op = Entry { hash: op_hash, value, children: Vec::new() };
    let res = inner.add_op(op);
    proof {
        assert(res is Ok);
    }
    Register { inner }
}

/// Updates a register with a new value: the write supersedes every current
/// head, so no concurrent branch is silently orphaned, and is applied to
/// the signed register's log. The entry hash `op_hash` comes from the
/// crypto collaborator; a hash already present in the log is rejected.
pub fn update_register(register: &mut Register, new_value: Vec<u8>, op_hash: u64) -> (r: Result<
    (),
    RegisterError,
>)
    requires
        old(register).inner.well_formed(),
    ensures
        final(register).inner.well_formed(),
        final(register).inner.address == old(register).inner.address,
        final(register).inner.owner == old(register).inner.owner,
        contains_hash(old(register).inner.ops@, op_hash) ==> r == Err::<(), RegisterError>(
            RegisterError::Write(EntryError::DuplicateEntry),
        ) && final(register).inner.ops@ == old(register).inner.ops@,
        !contains_hash(old(register).inner.ops@, op_hash) ==> r == Ok::<(), RegisterError>(())
            && final(register).inner.ops@.len() == old(register).inner.ops@.len() + 1 && final(register).inner.ops@.drop_last() == old(register).inner.ops@ && final(register).inner.ops@.last().hash == op_hash && final(register).inner.ops@.last().value@
            == new_value@ && final(register).inner.ops@.last().children@ == old(register).inner.spec_heads(),
{
    let children = register.inner.current_heads();
    proof {
        assert forall|d: int| 0 <= d < children@.len() implies contains_hash(
            register.inner.ops@,
            #[trigger] children@[d],
        ) by {
            lemma_head_hashes_are_hashes(register.inner.ops@, register.inner.ops@);
        }
    }
    let op = Entry { hash: op_hash, value: new_value, children };
    match register.inner.add_op(op) {
        Ok(_) => Ok(()),
        Err(e) => {
            proof {
                assert(contains_hash(old(register).inner.ops@, op_hash));
            }
            Err(RegisterError::Write(e))
        },
    }
}

/// Every head hash of a prefix is the hash of some entry of the log.
proof fn lemma_head_hashes_are_hashes(ops: Seq<Entry>, full: Seq<Entry>)
    requires
        ops.len() <= full.len(),
        forall|i: int| 0 <= i < ops.len() ==> #[trigger] ops[i] == full[i],
    ensures
        forall|d: int|
            0 <= d < head_hashes_of(ops, full).len() ==> contains_hash(
                full,
                #[trigger] head_hashes_of(ops, full)[d],
            ),
    decreases ops.len(),
{
    if ops.len() == 0 {
    } else {
        lemma_head_hashes_are_hashes(ops.drop_last(), full);
        let hs = head_hashes_of(ops, full);
        let prefix = head_hashes_of(ops.drop_last(), full);
        assert forall|d: int| 0 <= d < hs.len() implies contains_hash(
            full,
            #[trigger] hs[d],
        ) by {
            if !superseded(full, ops.last().hash) && d == hs.len() - 1 {
                assert(ops[ops.len() - 1] == full[ops.len() - 1]);
                assert((#[trigger] full[ops.len() - 1]).hash == ops.last().hash);
            } else {
                assert(hs[d] == prefix[d]);
            }
        }
    }
}

/// Rebuilds a register from decoded parts, accepting it only when the
/// operation log passes structural verification: a register that decodes
/// but fails this check is rejected as `FailedVerification`.
pub fn register_from_ops(address: RegisterAddress, owner: u64, ops: Vec<Entry>) -> (r: Result<
    Register,
    RegisterError,
>)
    ensures
        ops_well_formed(ops@) ==> (r matches Ok(reg) && reg.inner.address == address
            && reg.inner.owner == owner && reg.inner.ops@ == ops@),
        !ops_well_formed(ops@) ==> r == Err::<Register, RegisterError>(
            RegisterError::FailedVerification,
        ),
{
    let inner = SignedRegister { address, owner, ops };
    if inner.verify() {
        Ok(Register { inner })
    } else {
        Err(RegisterError::FailedVerification)
    }
}

/// Get configuration for fetching a register: any single self-consistent
/// responder suffices, with no retry; the mandatory structural check
/// happens after decoding, in `register_from_ops`.
pub fn register_get_cfg() -> (cfg: GetRecordCfg)
    ensures
        cfg.get_quorum == Quorum::One,
        cfg.retry_strategy is None,
        cfg.target_record is None,
        cfg.expected_holders@.len() == 0,
        cfg.is_register == true,
{
    GetRecordCfg {
        get_quorum: Quorum::One,
        retry_strategy: None,
        target_record: None,
        expected_holders: Vec::new(),
        is_register: true,
    }
}

/// Put configuration for creating a register: every close-group member
/// must accept, no retry, and the write goes directly to the payee peer
/// that recorded the storage payment rather than a close-group sample.
pub fn register_create_put_cfg(payee: PeerId) -> (cfg: PutRecordCfg)
    ensures
        cfg.put_quorum == Quorum::All,
        cfg.retry_strategy is None,
        cfg.use_put_record_to matches Some(ps) && ps@.len() == 1 && ps@[0] == payee,
        cfg.verification is None,
{
    let mut payees: Vec<PeerId> = Vec::new();
    payees.push(payee);
    PutRecordCfg {
        put_quorum: Quorum::All,
        retry_strategy: None,
        use_put_record_to: Some(payees),
        verification: None,
    }
}

/// Put configuration for updating a register: every close-group member
/// must accept the new operation before the update counts as durable,
/// since register puts have no separate verification read.
pub fn register_update_put_cfg() -> (cfg: PutRecordCfg)
    ensures
        cfg.put_quorum == Quorum::All,
        cfg.retry_strategy is None,
        cfg.use_put_record_to is None,
        cfg.verification is None,
{
    PutRecordCfg {
        put_quorum: Quorum::All,
        retry_strategy: None,
        use_put_record_to: None,
        verification: None,
    }
}

/// Law: concurrent updates are both preserved. Two operations written from
/// the same register state with distinct fresh hashes can be merged in
/// sequence, and after the merge the values of both are among the
/// register's current values: no last-writer-wins.
pub proof fn lemma_concurrent_updates_preserved(reg: SignedRegister, op1: Entry, op2: Entry)
    requires
        reg.well_formed(),
        op_applies(reg.ops@, op1),
        op_applies(reg.ops@, op2),
        op1.hash != op2.hash,
    ensures
        op_applies(reg.ops@.push(op1), op2),
        ({
            let merged = reg.ops@.push(op1).push(op2);
            &&& !superseded(merged, op1.hash)
            &&& !superseded(merged, op2.hash)
            &&& head_values_of(merged, merged).contains(op1.value@)
            &&& head_values_of(merged, merged).contains(op2.value@)
        }),
{
    let once = reg.ops@.push(op1);
    let merged = once.push(op2);
    assert(op_applies(once, op2)) by {
        assert(!contains_hash(once, op2.hash)) by {
            if contains_hash(once, op2.hash) {
                let j = choose|j: int| 0 <= j < once.len() && (#[trigger] once[j]).hash
                    == op2.hash;
                assert(j < reg.ops@.len() ==> contains_hash(reg.ops@, op2.hash));
            }
        }
        assert forall|c: int| 0 <= c < op2.children@.len() implies contains_hash(
            once,
            #[trigger] op2.children@[c],
        ) by {
            let j = choose|j: int|
                0 <= j < reg.ops@.len() && (#[trigger] reg.ops@[j]).hash == op2.children@[c];
            assert((#[trigger] once[j]).hash == op2.children@[c]);
        }
    }
    assert(!superseded(merged, op1.hash)) by {
        if superseded(merged, op1.hash) {
            let i = choose|i: int|
                0 <= i < merged.len() && (#[trigger] merged[i]).children@.contains(op1.hash);
            if i < reg.ops@.len() {
                let c = choose|c: int|
                    0 <= c < merged[i].children@.len() && merged[i].children@[c] == op1.hash;
                assert(contains_hash_upto(reg.ops@, i, reg.ops@[i].children@[c]));
                let j = choose|j: int|
                    0 <= j < i && (#[trigger] reg.ops@[j]).hash == op1.hash;
                assert(contains_hash(reg.ops@, op1.hash));
            } else {
                let op = if i == reg.ops@.len() { op1 } else { op2 };
                assert(merged[i] == op);
                let c = choose|c: int|
                    0 <= c < op.children@.len() && op.children@[c] == op1.hash;
                assert(contains_hash(reg.ops@, op.children@[c]));
                assert(contains_hash(reg.ops@, op1.hash));
            }
        }
    }
    assert(!superseded(merged, op2.hash)) by {
        if superseded(merged, op2.hash) {
            let i = choose|i: int|
                0 <= i < merged.len() && (#[trigger] merged[i]).children@.contains(op2.hash);
            if i < reg.ops@.len() {
                let c = choose|c: int|
                    0 <= c < merged[i].children@.len() && merged[i].children@[c] == op2.hash;
                assert(contains_hash_upto(reg.ops@, i, reg.ops@[i].children@[c]));
                let j = choose|j: int|
                    0 <= j < i && (#[trigger] reg.ops@[j]).hash == op2.hash;
                assert(contains_hash(reg.ops@, op2.hash));
            } else {
                let op = if i == reg.ops@.len() { op1 } else { op2 };
                assert(merged[i] == op);
                let c = choose|c: int|
                    0 <= c < op.children@.len() && op.children@[c] == op2.hash;
                assert(contains_hash(reg.ops@, op.children@[c]));
                assert(contains_hash(reg.ops@, op2.hash));
            }
        }
    }
    assert(merged.last() == op2);
    assert(merged.drop_last() =~= once);
    assert(once.last() == op1);
    let hv = head_values_of(merged, merged);
    let hv1 = head_values_of(once, merged);
    assert(hv == hv1.push(op2.value@));
    assert(hv1 == head_values_of(once.drop_last(), merged).push(op1.value@));
    assert(hv[hv.len() - 1] == op2.value@);
    assert(hv[hv.len() - 2] == op1.value@);
}

} // verus!
