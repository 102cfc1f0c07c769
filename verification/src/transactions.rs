//! Inputs, outputs, transactions and blocks, and their content hashes.
//!
//! Every item has a digest: SHA-256, applied twice, over a text made of its fields.
//! An item remembers its digest once `hash` was called on it, and from then on
//! gives back the remembered one, whatever happens to its fields.

use vstd::prelude::*;
use crate::clock::{now, Timestamp};
use crate::encoding::{
    byte_list, copy_bytes, decimal, hex_text, push_byte_list, push_decimal, push_hex, push_text,
    utf8,
};
use crate::hashing::{double_sha256, double_sha256_of, sha256, sha256_of};
use crate::signature::{signature_of, signature_valid};
use crate::wallet::Wallet;

verus! {

/// A remembered digest, as the contracts see it.
pub open spec fn memo_view(memo: Option<Vec<u8>>) -> Option<Seq<u8>> {
    match memo {
        Some(digest) => Some(digest@),
        None => None,
    }
}

/// A copy of a remembered digest.
pub fn copy_memo(memo: &Option<Vec<u8>>) -> (copy: Option<Vec<u8>>)
    ensures
        memo_view(copy) == memo_view(*memo),
{
    match memo {
        Some(digest) => Some(copy_bytes(digest.as_slice())),
        None => None,
    }
}

/// The text that the spender of an output signs: the hash of the transaction
/// that holds the output, the place of the output in it, the spender's
/// address and the place of the input in its own transaction.
pub open spec fn signing_text(
    previous_tx_hash: Seq<u8>,
    output_idx: usize,
    address: Seq<char>,
    idx: u32,
) -> Seq<u8> {
    byte_list(previous_tx_hash) + decimal(output_idx as nat) + utf8(address) + decimal(idx as nat)
}

/// The SHA-256 digest of the signing text, the message that is signed.
pub open spec fn signing_digest(
    previous_tx_hash: Seq<u8>,
    output_idx: usize,
    address: Seq<char>,
    idx: u32,
) -> Seq<u8> {
    sha256_of(signing_text(previous_tx_hash, output_idx, address, idx))
}

/// Computes the message that is signed for an input.
pub fn compute_signing_digest(
    previous_tx_hash: &[u8],
    output_idx: usize,
    address: &str,
    idx: u32,
) -> (digest: Vec<u8>)
    ensures
        digest@ == signing_digest(previous_tx_hash@, output_idx, address@, idx),
        digest@.len() == 32,
{
    let mut text: Vec<u8> = Vec::new();
    push_byte_list(&mut text, previous_tx_hash);
    push_decimal(&mut text, output_idx as u64);
    push_text(&mut text, address);
    push_decimal(&mut text, idx as u64);
    sha256(text.as_slice())
}

/// A claim on an earlier output.
#[derive(Debug)]
pub struct Input {
    /// Hash of the transaction that holds the output.
    pub previous_tx_hash: Vec<u8>,
    /// Place of the output in that transaction.
    pub output_idx: usize,
    /// Address of the spender.
    pub address: String,
    /// Place of this input in its own transaction.
    pub idx: u32,
    /// The digest, once it was asked for.
    pub hash: Option<Vec<u8>>,
    /// The spender's signature over the signing digest, in DER form.
    pub signature: Vec<u8>,
    /// Value assigned to the input. Nothing in this crate sets or reads it.
    pub amount: u64,
}

/// An [`Input`] as the contracts see it.
pub struct InputView {
    pub previous_tx_hash: Seq<u8>,
    pub output_idx: usize,
    pub address: Seq<char>,
    pub idx: u32,
    pub hash: Option<Seq<u8>>,
    pub signature: Seq<u8>,
    pub amount: u64,
}

impl View for Input {
    type V = InputView;

    open spec fn view(&self) -> InputView {
        InputView {
            previous_tx_hash: self.previous_tx_hash@,
            output_idx: self.output_idx,
            address: self.address@,
            idx: self.idx,
            hash: memo_view(self.hash),
            signature: self.signature@,
            amount: self.amount,
        }
    }
}

impl InputView {
    /// The text that is hashed: the reference to the output, the address, the
    /// signature in hexadecimal and the place of the input.
    pub open spec fn text(self) -> Seq<u8> {
        byte_list(self.previous_tx_hash) + decimal(self.output_idx as nat) + utf8(self.address)
            + hex_text(self.signature) + decimal(self.idx as nat)
    }

    /// The digest of the fields as they are now.
    pub open spec fn fresh_digest(self) -> Seq<u8> {
        double_sha256_of(self.text())
    }

    /// The digest of the input: the remembered one if there is one.
    pub open spec fn digest(self) -> Seq<u8> {
        match self.hash {
            Some(digest) => digest,
            None => self.fresh_digest(),
        }
    }

    /// The input once its digest is remembered.
    pub open spec fn hashed(self) -> InputView {
        InputView { hash: Some(self.digest()), ..self }
    }
}

impl Clone for Input {
    fn clone(&self) -> (copy: Self)
        ensures
            copy@ == self@,
    {
        Input {
            previous_tx_hash: copy_bytes(self.previous_tx_hash.as_slice()),
            output_idx: self.output_idx,
            address: self.address.clone(),
            idx: self.idx,
            hash: copy_memo(&self.hash),
            signature: copy_bytes(self.signature.as_slice()),
            amount: self.amount,
        }
    }
}

impl Input {
    /// An input that claims output `output_idx` of the transaction with hash
    /// `previous_tx_hash` for `wallet`, signed by it. The input stands at
    /// place `index` of its transaction, or at the first place if none is
    /// given.
    pub fn new(previous_tx_hash: &[u8], output_idx: usize, index: Option<u32>, wallet: &Wallet) -> (input: Input)
        ensures
            input@ == (InputView {
                previous_tx_hash: previous_tx_hash@,
                output_idx,
                address: wallet.address_text(),
                idx: index.unwrap_or(0),
                hash: None,
                signature: signature_of(
                    wallet.secret_bytes(),
                    signing_digest(
                        previous_tx_hash@,
                        output_idx,
                        wallet.address_text(),
                        index.unwrap_or(0),
                    ),
                ),
                amount: 0,
            }),
            signature_valid(
                wallet.public_bytes(),
                signing_digest(previous_tx_hash@, output_idx, wallet.address_text(), index.unwrap_or(0)),
                input@.signature,
            ),
    {
        let idx: u32 = match index {
            Some(idx) => idx,
            None => 0,
        };
        let address = wallet.address().clone();
        let message = compute_signing_digest(previous_tx_hash, output_idx, address.as_str(), idx);
        let signature = wallet.sign(message.as_slice());
        Input {
            previous_tx_hash: copy_bytes(previous_tx_hash),
            output_idx,
            address,
            idx,
            hash: None,
            signature,
            amount: 0,
        }
    }

    /// The digest of the input, without remembering it.
    pub fn digest(&self) -> (digest: Vec<u8>)
        ensures
            digest@ == self@.digest(),
            self@.hash is None ==> digest@.len() == 32,
    {
        match &self.hash {
            Some(digest) => copy_bytes(digest.as_slice()),
            None => {
                let mut text: Vec<u8> = Vec::new();
                self.write_text(&mut text);
                double_sha256(text.as_slice())
            },
        }
    }

    /// Appends the text that is hashed for the input to `out`.
    pub fn write_text(&self, out: &mut Vec<u8>)
        ensures
            final(out)@ == old(out)@ + self@.text(),
    {
        push_byte_list(out, self.previous_tx_hash.as_slice());
        push_decimal(out, self.output_idx as u64);
        push_text(out, self.address.as_str());
        push_hex(out, self.signature.as_slice());
        push_decimal(out, self.idx as u64);
    }

    /// The digest of the input, which is remembered from now on.
    pub fn hash(&mut self) -> (digest: Option<Vec<u8>>)
        ensures
            memo_view(digest) == Some(old(self)@.digest()),
            final(self)@ == old(self)@.hashed(),
            old(self)@.hash is None ==> digest.unwrap()@.len() == 32,
    {
        let digest = self.digest();
        self.hash = Some(copy_bytes(digest.as_slice()));
        Some(digest)
    }
}

/// The bracketed lists of the byte strings of `hashes`, one after another.
pub open spec fn byte_lists(hashes: Seq<Seq<u8>>) -> Seq<u8>
    decreases hashes.len(),
{
    if hashes.len() == 0 {
        seq![]
    } else {
        byte_lists(hashes.drop_last()) + byte_list(hashes.last())
    }
}

/// The digest that binds an output to the inputs with the digests `hashes`.
pub open spec fn input_binding(hashes: Seq<Seq<u8>>) -> Seq<u8> {
    sha256_of(byte_lists(hashes))
}

/// A value made over to a public key.
#[derive(Debug)]
pub struct Output {
    /// Compressed form of the public key of the beneficiary.
    pub address: Vec<u8>,
    /// Place of the output in its transaction.
    pub idx: usize,
    /// The value.
    pub amount: u64,
    /// Digest over the digests of the inputs of the transaction.
    pub input_hash: Vec<u8>,
    /// The digest, once it was asked for.
    pub hash: Option<Vec<u8>>,
}

/// An [`Output`] as the contracts see it.
pub struct OutputView {
    pub address: Seq<u8>,
    pub idx: usize,
    pub amount: u64,
    pub input_hash: Seq<u8>,
    pub hash: Option<Seq<u8>>,
}

impl View for Output {
    type V = OutputView;

    open spec fn view(&self) -> OutputView {
        OutputView {
            address: self.address@,
            idx: self.idx,
            amount: self.amount,
            input_hash: self.input_hash@,
            hash: memo_view(self.hash),
        }
    }
}

impl OutputView {
    /// The text that is hashed: the value, the place, the public key in
    /// hexadecimal and the binding to the inputs.
    pub open spec fn text(self) -> Seq<u8> {
        decimal(self.amount as nat) + decimal(self.idx as nat) + hex_text(self.address) + byte_list(
            self.input_hash,
        )
    }

    /// The digest of the fields as they are now.
    pub open spec fn fresh_digest(self) -> Seq<u8> {
        double_sha256_of(self.text())
    }

    /// The digest of the output: the remembered one if there is one.
    pub open spec fn digest(self) -> Seq<u8> {
        match self.hash {
            Some(digest) => digest,
            None => self.fresh_digest(),
        }
    }

    /// The output once its digest is remembered.
    pub open spec fn hashed(self) -> OutputView {
        OutputView { hash: Some(self.digest()), ..self }
    }
}

impl Clone for Output {
    fn clone(&self) -> (copy: Self)
        ensures
            copy@ == self@,
    {
        Output {
            address: copy_bytes(self.address.as_slice()),
            idx: self.idx,
            amount: self.amount,
            input_hash: copy_bytes(self.input_hash.as_slice()),
            hash: copy_memo(&self.hash),
        }
    }
}

impl Output {
    /// An output of `amount` to the public key `address`, at the first place
    /// of a transaction whose inputs have the digests `input_hashes`.
    pub fn new(address: &[u8], amount: u64, input_hashes: &[&[u8]]) -> (output: Output)
        ensures
            output@ == (OutputView {
                address: address@,
                idx: 0,
                amount,
                input_hash: input_binding(input_hashes@.map_values(|hash: &[u8]| hash@)),
                hash: None,
            }),
    {
        let ghost hashes = input_hashes@.map_values(|hash: &[u8]| hash@);
        let mut text: Vec<u8> = Vec::new();
        let mut i: usize = 0;
        while i < input_hashes.len()
            invariant
                i <= input_hashes@.len(),
                hashes == input_hashes@.map_values(|hash: &[u8]| hash@),
                text@ == byte_lists(hashes.take(i as int)),
            decreases input_hashes@.len() - i,
        {
            push_byte_list(&mut text, input_hashes[i]);
            proof {
                let next = hashes.take(i + 1);
                assert(next.drop_last() == hashes.take(i as int));
                assert(next.last() == input_hashes@[i as int]@);
            }
            i += 1;
        }
        proof {
            assert(hashes.take(i as int) == hashes);
        }
        Output {
            address: copy_bytes(address),
            idx: 0,
            amount,
            input_hash: sha256(text.as_slice()),
            hash: None,
        }
    }

    /// The digest of the output, without remembering it.
    pub fn digest(&self) -> (digest: Vec<u8>)
        ensures
            digest@ == self@.digest(),
            self@.hash is None ==> digest@.len() == 32,
    {
        match &self.hash {
            Some(digest) => copy_bytes(digest.as_slice()),
            None => {
                let mut text: Vec<u8> = Vec::new();
                self.write_text(&mut text);
                double_sha256(text.as_slice())
            },
        }
    }

    /// Appends the text that is hashed for the output to `out`.
    pub fn write_text(&self, out: &mut Vec<u8>)
        ensures
            final(out)@ == old(out)@ + self@.text(),
    {
        push_decimal(out, self.amount);
        push_decimal(out, self.idx as u64);
        push_hex(out, self.address.as_slice());
        push_byte_list(out, self.input_hash.as_slice());
    }

    /// The digest of the output, which is remembered from now on.
    pub fn hash(&mut self) -> (digest: Option<Vec<u8>>)
        ensures
            memo_view(digest) == Some(old(self)@.digest()),
            final(self)@ == old(self)@.hashed(),
            old(self)@.hash is None ==> digest.unwrap()@.len() == 32,
    {
        let digest = self.digest();
        self.hash = Some(copy_bytes(digest.as_slice()));
        Some(digest)
    }
}

/// The inputs of a transaction as the contracts see them.
pub open spec fn input_views(inputs: Seq<Input>) -> Seq<InputView> {
    inputs.map_values(|input: Input| input@)
}

/// The outputs of a transaction as the contracts see them.
pub open spec fn output_views(outputs: Seq<Output>) -> Seq<OutputView> {
    outputs.map_values(|output: Output| output@)
}

/// The hashed texts of `inputs`, one after another.
pub open spec fn inputs_text(inputs: Seq<InputView>) -> Seq<u8>
    decreases inputs.len(),
{
    if inputs.len() == 0 {
        seq![]
    } else {
        inputs_text(inputs.drop_last()) + inputs.last().text()
    }
}

/// The hashed texts of `outputs`, one after another.
pub open spec fn outputs_text(outputs: Seq<OutputView>) -> Seq<u8>
    decreases outputs.len(),
{
    if outputs.len() == 0 {
        seq![]
    } else {
        outputs_text(outputs.drop_last()) + outputs.last().text()
    }
}

/// Copies of `inputs`.
pub fn clone_inputs(inputs: &[Input]) -> (copy: Vec<Input>)
    ensures
        input_views(copy@) == input_views(inputs@),
{
    let mut copy: Vec<Input> = Vec::new();
    let mut i: usize = 0;
    while i < inputs.len()
        invariant
            i <= inputs@.len(),
            copy@.len() == i,
            forall|j: int| 0 <= j < i ==> copy@[j]@ == inputs@[j]@,
        decreases inputs@.len() - i,
    {
        copy.push(inputs[i].clone());
        i += 1;
    }
    proof {
        assert(input_views(copy@) =~= input_views(inputs@));
    }
    copy
}

/// Copies of `outputs`.
pub fn clone_outputs(outputs: &[Output]) -> (copy: Vec<Output>)
    ensures
        output_views(copy@) == output_views(outputs@),
{
    let mut copy: Vec<Output> = Vec::new();
    let mut i: usize = 0;
    while i < outputs.len()
        invariant
            i <= outputs@.len(),
            copy@.len() == i,
            forall|j: int| 0 <= j < i ==> copy@[j]@ == outputs@[j]@,
        decreases outputs@.len() - i,
    {
        copy.push(outputs[i].clone());
        i += 1;
    }
    proof {
        assert(output_views(copy@) =~= output_views(outputs@));
    }
    copy
}

/// A transaction: inputs that are spent and outputs that are made.
#[derive(Debug)]
pub struct Tx {
    pub inputs: Vec<Input>,
    pub outputs: Vec<Output>,
    /// When the transaction was made.
    pub time: Timestamp,
    /// The digest, once it was asked for.
    pub hash: Option<Vec<u8>>,
}

/// A [`Tx`] as the contracts see it.
pub struct TxView {
    pub inputs: Seq<InputView>,
    pub outputs: Seq<OutputView>,
    pub time: Timestamp,
    pub hash: Option<Seq<u8>>,
}

impl View for Tx {
    type V = TxView;

    open spec fn view(&self) -> TxView {
        TxView {
            inputs: input_views(self.inputs@),
            outputs: output_views(self.outputs@),
            time: self.time,
            hash: memo_view(self.hash),
        }
    }
}

impl TxView {
    /// The text that is hashed: the texts of the inputs, those of the
    /// outputs, and the seconds of the time.
    pub open spec fn text(self) -> Seq<u8> {
        inputs_text(self.inputs) + outputs_text(self.outputs) + decimal(self.time.secs as nat)
    }

    /// The digest of the fields as they are now.
    pub open spec fn fresh_digest(self) -> Seq<u8> {
        double_sha256_of(self.text())
    }

    /// The digest of the transaction: the remembered one if there is one.
    /// Without one, a transaction has a digest only if it has as many
    /// outputs as inputs.
    pub open spec fn digest(self) -> Option<Seq<u8>> {
        match self.hash {
            Some(digest) => Some(digest),
            None => if self.inputs.len() == self.outputs.len() {
                Some(self.fresh_digest())
            } else {
                None
            },
        }
    }

    /// The transaction once its digest, if it has one, is remembered.
    pub open spec fn hashed(self) -> TxView {
        TxView { hash: self.digest(), ..self }
    }
}

impl Clone for Tx {
    fn clone(&self) -> (copy: Self)
        ensures
            copy@ == self@,
    {
        Tx {
            inputs: clone_inputs(self.inputs.as_slice()),
            outputs: clone_outputs(self.outputs.as_slice()),
            time: self.time,
            hash: copy_memo(&self.hash),
        }
    }
}

impl Tx {
    /// A transaction of copies of `inputs` and `outputs`, made now.
    pub fn new(inputs: &[Input], outputs: &[Output]) -> (tx: Tx)
        ensures
            tx@ == (TxView {
                inputs: input_views(inputs@),
                outputs: output_views(outputs@),
                time: tx.time,
                hash: None,
            }),
    {
        Tx::new_at(inputs, outputs, now())
    }

    /// A transaction of copies of `inputs` and `outputs`, made at `time`.
    pub fn new_at(inputs: &[Input], outputs: &[Output], time: Timestamp) -> (tx: Tx)
        ensures
            tx@ == (TxView {
                inputs: input_views(inputs@),
                outputs: output_views(outputs@),
                time,
                hash: None,
            }),
    {
        Tx { inputs: clone_inputs(inputs), outputs: clone_outputs(outputs), time, hash: None }
    }

    /// The digest of the transaction, without remembering it.
    pub fn digest(&self) -> (digest: Option<Vec<u8>>)
        ensures
            memo_view(digest) == self@.digest(),
            self@.hash is None && digest is Some ==> digest.unwrap()@.len() == 32,
    {
        match &self.hash {
            Some(digest) => Some(copy_bytes(digest.as_slice())),
            None => {
                if self.inputs.len() != self.outputs.len() {
                    return None;
                }
                let mut text: Vec<u8> = Vec::new();
                let mut i: usize = 0;
                while i < self.inputs.len()
                    invariant
                        i <= self.inputs@.len(),
                        text@ == inputs_text(self@.inputs.take(i as int)),
                    decreases self.inputs@.len() - i,
                {
                    self.inputs[i].write_text(&mut text);
                    proof {
                        let next = self@.inputs.take(i + 1);
                        assert(next.drop_last() == self@.inputs.take(i as int));
                        assert(next.last() == self.inputs@[i as int]@);
                    }
                    i += 1;
                }
                proof {
                    assert(self@.inputs.take(i as int) == self@.inputs);
                }
                let mut j: usize = 0;
                while j < self.outputs.len()
                    invariant
                        j <= self.outputs@.len(),
                        text@ == inputs_text(self@.inputs) + outputs_text(
                            self@.outputs.take(j as int),
                        ),
                    decreases self.outputs@.len() - j,
                {
                    self.outputs[j].write_text(&mut text);
                    proof {
                        let next = self@.outputs.take(j + 1);
                        assert(next.drop_last() == self@.outputs.take(j as int));
                        assert(next.last() == self.outputs@[j as int]@);
                    }
                    j += 1;
                }
                proof {
                    assert(self@.outputs.take(j as int) == self@.outputs);
                }
                push_decimal(&mut text, self.time.secs);
                Some(double_sha256(text.as_slice()))
            },
        }
    }

    /// Whether the transaction can be hashed: it remembers a digest, or it
    /// has as many outputs as inputs.
    pub fn is_hashable(&self) -> (hashable: bool)
        ensures
            hashable == (self@.hash is Some || self@.inputs.len() == self@.outputs.len()),
    {
        self.hash.is_some() || self.inputs.len() == self.outputs.len()
    }

    /// The digest of the transaction, which is remembered from now on. A
    /// transaction that remembers no digest must have as many outputs as
    /// inputs.
    pub fn hash(&mut self) -> (digest: Option<Vec<u8>>)
        requires
            old(self)@.hash is Some || old(self)@.inputs.len() == old(self)@.outputs.len(),
        ensures
            digest is Some,
            memo_view(digest) == old(self)@.digest(),
            final(self)@ == old(self)@.hashed(),
            old(self)@.hash is None ==> digest.unwrap()@.len() == 32,
    {
        let digest = self.digest();
        self.hash = copy_memo(&digest);
        digest
    }
}

/// The transactions of a block as the contracts see them.
pub open spec fn tx_views(txs: Seq<Tx>) -> Seq<TxView> {
    txs.map_values(|tx: Tx| tx@)
}

/// Copies of `txs`.
pub fn clone_txs(txs: &[Tx]) -> (copy: Vec<Tx>)
    ensures
        tx_views(copy@) == tx_views(txs@),
{
    let mut copy: Vec<Tx> = Vec::new();
    let mut i: usize = 0;
    while i < txs.len()
        invariant
            i <= txs@.len(),
            copy@.len() == i,
            forall|j: int| 0 <= j < i ==> copy@[j]@ == txs@[j]@,
        decreases txs@.len() - i,
    {
        copy.push(txs[i].clone());
        i += 1;
    }
    proof {
        assert(tx_views(copy@) =~= tx_views(txs@));
    }
    copy
}

/// The root of the binary Merkle tree that `rs_merkle` builds with SHA-256
/// over `leaves`, if it gives one.
pub uninterp spec fn merkle_root_of(leaves: Seq<Seq<u8>>) -> Option<Seq<u8>>;

/// A remembered root, as the contracts see it.
pub open spec fn root_view(root: Option<[u8; 32]>) -> Option<Seq<u8>> {
    match root {
        Some(root) => Some(root@),
        None => None,
    }
}

/// Builds a tree with `rs_merkle::MerkleTree::from_leaves`, with the
/// algorithm `rs_merkle::algorithms::Sha256`, and asks it for its root with
/// `MerkleTree::root`. Trusted: what comes back depends on the leaves alone,
/// and there is a root exactly when there is a leaf: without leaves nothing
/// is committed and the tree has no layer, with leaves every layer that is
/// built holds a node.
#[verifier::external_body]
fn merkle_root(leaves: &Vec<[u8; 32]>) -> (root: Option<[u8; 32]>)
    ensures
        root_view(root) == merkle_root_of(leaves@.map_values(|leaf: [u8; 32]| leaf@)),
        root is Some == (leaves@.len() > 0),
{
    rs_merkle::MerkleTree::<rs_merkle::algorithms::Sha256>::from_leaves(leaves).root()
}

/// Whether the transaction can be a leaf: it has a digest of at least 32
/// bytes.
pub open spec fn has_leaf(tx: TxView) -> bool {
    tx.digest() is Some && tx.digest().unwrap().len() >= 32
}

/// The leaf of a transaction: the first 32 bytes of its digest.
pub open spec fn leaf_of(tx: TxView) -> Seq<u8> {
    tx.digest().unwrap().take(32)
}

/// Whether the fields of the transaction make it a leaf: the digest it
/// remembers has at least 32 bytes, or it remembers none and has as many
/// outputs as inputs.
pub open spec fn can_be_leaf(tx: TxView) -> bool {
    match tx.hash {
        Some(digest) => digest.len() >= 32,
        None => tx.inputs.len() == tx.outputs.len(),
    }
}

/// The leaves of `txs`, if every one of them can be a leaf.
pub open spec fn leaves_of(txs: Seq<TxView>) -> Option<Seq<Seq<u8>>> {
    if forall|i: int| 0 <= i < txs.len() ==> has_leaf(#[trigger] txs[i]) {
        Some(Seq::new(txs.len(), |i: int| leaf_of(txs[i])))
    } else {
        None
    }
}

/// A block: transactions, a link to the block before it, and a nonce.
#[derive(Debug)]
pub struct Block {
    pub txs: Vec<Tx>,
    /// Hash of the block before this one, or one zero byte for the first.
    pub previous_hash: Vec<u8>,
    /// Height of the block; the first block has height 0.
    pub index: u32,
    pub nonce: u32,
    /// When the block was made.
    pub time: Timestamp,
    /// The Merkle root over the transactions, once it was asked for.
    pub merkel_root: Option<[u8; 32]>,
}

/// A [`Block`] as the contracts see it.
pub struct BlockView {
    pub txs: Seq<TxView>,
    pub previous_hash: Seq<u8>,
    pub index: u32,
    pub nonce: u32,
    pub time: Timestamp,
    pub merkel_root: Option<Seq<u8>>,
}

impl View for Block {
    type V = BlockView;

    open spec fn view(&self) -> BlockView {
        BlockView {
            txs: tx_views(self.txs@),
            previous_hash: self.previous_hash@,
            index: self.index,
            nonce: self.nonce,
            time: self.time,
            merkel_root: root_view(self.merkel_root),
        }
    }
}

impl BlockView {
    /// The Merkle root over the transactions as they are now.
    pub open spec fn fresh_root(self) -> Option<Seq<u8>> {
        match leaves_of(self.txs) {
            Some(leaves) => merkle_root_of(leaves),
            None => None,
        }
    }

    /// The Merkle root of the block: the remembered one if there is one.
    pub open spec fn root(self) -> Option<Seq<u8>> {
        match self.merkel_root {
            Some(root) => Some(root),
            None => self.fresh_root(),
        }
    }

    /// Whether the fields of the block give it a Merkle root, and so a
    /// hash: it remembers a root, or it has a transaction and each of its
    /// transactions can be a leaf.
    pub open spec fn has_root(self) -> bool {
        self.merkel_root is Some || (self.txs.len() > 0 && forall|i: int|
            0 <= i < self.txs.len() ==> can_be_leaf(#[trigger] self.txs[i]))
    }

    /// The block once its Merkle root, if it has one, is remembered.
    pub open spec fn built(self) -> BlockView {
        BlockView { merkel_root: self.root(), ..self }
    }

    /// The block with its nonce replaced by `nonce`, if one is given.
    pub open spec fn with_nonce(self, nonce: Option<u32>) -> BlockView {
        match nonce {
            Some(nonce) => BlockView { nonce, ..self },
            None => self,
        }
    }

    /// The text that is hashed for a block with Merkle root `root`: the
    /// nonce, the root, the hash of the block before, the height, and the
    /// time as seconds, a dot and nanoseconds.
    pub open spec fn text(self, root: Seq<u8>) -> Seq<u8> {
        decimal(self.nonce as nat) + byte_list(root) + byte_list(self.previous_hash) + decimal(
            self.index as nat,
        ) + decimal(self.time.secs as nat) + seq![46u8] + decimal(self.time.nanos as nat)
    }

    /// The hash of the block. A block without a Merkle root has none.
    pub open spec fn digest(self) -> Option<Seq<u8>> {
        match self.root() {
            Some(root) => Some(double_sha256_of(self.text(root))),
            None => None,
        }
    }
}

impl Clone for Block {
    fn clone(&self) -> (copy: Self)
        ensures
            copy@ == self@,
    {
        Block {
            txs: clone_txs(self.txs.as_slice()),
            previous_hash: copy_bytes(self.previous_hash.as_slice()),
            index: self.index,
            nonce: self.nonce,
            time: self.time,
            merkel_root: self.merkel_root,
        }
    }
}

impl Block {
    /// A block of copies of `txs` at height `index`, after the block with
    /// hash `previous_hash`, made now. Without a nonce it starts at nonce 0.
    pub fn new(txs: &[Tx], index: u32, previous_hash: &[u8], nonce: Option<u32>) -> (block: Block)
        ensures
            block@ == (BlockView {
                txs: tx_views(txs@),
                previous_hash: previous_hash@,
                index,
                nonce: nonce.unwrap_or(0),
                time: block.time,
                merkel_root: None,
            }),
    {
        Block::new_at(txs, index, previous_hash, nonce, now())
    }

    /// A block of copies of `txs` at height `index`, after the block with
    /// hash `previous_hash`, made at `time`. Without a nonce it starts at
    /// nonce 0.
    pub fn new_at(
        txs: &[Tx],
        index: u32,
        previous_hash: &[u8],
        nonce: Option<u32>,
        time: Timestamp,
    ) -> (block: Block)
        ensures
            block@ == (BlockView {
                txs: tx_views(txs@),
                previous_hash: previous_hash@,
                index,
                nonce: nonce.unwrap_or(0),
                time,
                merkel_root: None,
            }),
    {
        Block {
            txs: clone_txs(txs),
            previous_hash: copy_bytes(previous_hash),
            index,
            nonce: match nonce {
                Some(nonce) => nonce,
                None => 0,
            },
            time,
            merkel_root: None,
        }
    }

    /// The Merkle root of the block, without remembering it.
    pub fn root(&self) -> (root: Option<[u8; 32]>)
        ensures
            root_view(root) == self@.root(),
            root is Some == self@.has_root(),
    {
        if self.merkel_root.is_some() {
            return self.merkel_root;
        }
        let mut leaves: Vec<[u8; 32]> = Vec::new();
        let mut i: usize = 0;
        while i < self.txs.len()
            invariant
                i <= self.txs@.len(),
                leaves@.len() == i,
                self@.merkel_root is None,
                self@.txs.len() == self.txs@.len(),
                forall|j: int| 0 <= j < i ==> has_leaf(#[trigger] self@.txs[j]),
                forall|j: int| 0 <= j < i ==> can_be_leaf(#[trigger] self@.txs[j]),
                forall|j: int| 0 <= j < i ==> (#[trigger] leaves@[j])@ == leaf_of(self@.txs[j]),
            decreases self.txs@.len() - i,
        {
            proof {
                assert(self@.txs[i as int] == self.txs@[i as int]@);
            }
            let leaf = match self.txs[i].digest() {
                Some(digest) => first_32(&digest),
                None => None,
            };
            match leaf {
                Some(leaf) => {
                    leaves.push(leaf);
                },
                None => {
                    proof {
                        assert(!has_leaf(self@.txs[i as int]));
                        assert(!can_be_leaf(self@.txs[i as int]));
                    }
                    return None;
                },
            }
            i += 1;
        }
        proof {
            assert(leaves@.map_values(|leaf: [u8; 32]| leaf@) =~= leaves_of(self@.txs).unwrap());
        }
        merkle_root(&leaves)
    }

    /// The Merkle root of the block, which is remembered from now on if
    /// there is one.
    pub fn build_merkel_tree(&mut self) -> (root: Option<[u8; 32]>)
        ensures
            root_view(root) == old(self)@.root(),
            root is Some == old(self)@.has_root(),
            final(self)@ == old(self)@.built(),
    {
        let root = self.root();
        self.merkel_root = root;
        root
    }

    /// The hash of the block, without changing the block.
    pub fn digest(&self) -> (digest: Option<Vec<u8>>)
        ensures
            memo_view(digest) == self@.digest(),
            digest is Some == self@.has_root(),
            digest is Some ==> digest.unwrap()@.len() == 32,
    {
        match self.root() {
            Some(root) => {
                let mut text: Vec<u8> = Vec::new();
                push_decimal(&mut text, self.nonce as u64);
                push_byte_list(&mut text, root.as_slice());
                push_byte_list(&mut text, self.previous_hash.as_slice());
                push_decimal(&mut text, self.index as u64);
                push_decimal(&mut text, self.time.secs);
                let ghost before_dot = text@;
                text.push(46);
                proof {
                    assert(text@ == before_dot + seq![46u8]);
                }
                push_decimal(&mut text, self.time.nanos as u64);
                proof {
                    assert(text@ == self@.text(root@));
                }
                Some(double_sha256(text.as_slice()))
            },
            None => None,
        }
    }

    /// Sets the nonce, if one is given, and returns the hash of the block.
    /// The Merkle root is remembered from now on if there is one.
    pub fn hash(&mut self, nonce: Option<u32>) -> (digest: Option<Vec<u8>>)
        ensures
            final(self)@ == old(self)@.with_nonce(nonce).built(),
            memo_view(digest) == old(self)@.with_nonce(nonce).digest(),
            digest is Some == old(self)@.has_root(),
            digest is Some ==> digest.unwrap()@.len() == 32,
    {
        match nonce {
            Some(nonce) => {
                self.nonce = nonce;
            },
            None => {},
        }
        let _ = self.build_merkel_tree();
        self.digest()
    }
}

/// The first 32 bytes of `digest`, if it has that many.
fn first_32(digest: &Vec<u8>) -> (leaf: Option<[u8; 32]>)
    ensures
        leaf is Some == (digest@.len() >= 32),
        leaf is Some ==> leaf.unwrap()@ == digest@.take(32),
{
    if digest.len() < 32 {
        return None;
    }
    let mut leaf: [u8; 32] = [0u8; 32];
    let mut i: usize = 0;
    while i < 32
        invariant
            i <= 32,
            digest@.len() >= 32,
            forall|j: int| 0 <= j < i ==> leaf@[j] == digest@[j],
        decreases 32 - i,
    {
        leaf[i] = digest[i];
        i += 1;
    }
    proof {
        assert(leaf@ =~= digest@.take(32));
    }
    Some(leaf)
}

} // verus!
