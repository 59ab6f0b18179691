//! Transactions and their payloads, with the compact binary form in which
//! they travel.

use crate::crypto::{CompressedCommitment, CompressedHandle, CompressedPublicKey, Signature};
use crate::serializer::{
    be_bytes, bool_byte, lemma_pow256_values, lemma_take_bool_front, lemma_take_front,
    lemma_take_number_front, reads, take, take_bool, take_number, Reader, ReaderError, Writer,
};
use vstd::prelude::*;

verus! {

// Maximum size of payload per transfer
pub const EXTRA_DATA_LIMIT_SIZE: usize = 1024;

pub const MAX_TRANSFER_COUNT: usize = 255;

#[derive(Clone, Debug)]
pub struct TransferPayload {
    asset: crate::crypto::Hash,
    destination: CompressedPublicKey,
    // we can put whatever we want up to EXTRA_DATA_LIMIT_SIZE bytes
    extra_data: Option<Vec<u8>>,
    /// Represents the ciphertext along with `sender_handle` and `receiver_handle`.
    /// The opening is reused for both of the sender and receiver commitments.
    commitment: CompressedCommitment,
    sender_handle: CompressedHandle,
    receiver_handle: CompressedHandle,
}

/// Mathematical model of a [`TransferPayload`].
pub ghost struct TransferPayloadView {
    pub asset: Seq<u8>,
    pub destination: Seq<u8>,
    pub extra_data: Option<Seq<u8>>,
    pub commitment: Seq<u8>,
    pub sender_handle: Seq<u8>,
    pub receiver_handle: Seq<u8>,
}

impl View for TransferPayload {
    type V = TransferPayloadView;

    closed spec fn view(&self) -> TransferPayloadView {
        TransferPayloadView {
            asset: self.asset@,
            destination: self.destination@,
            extra_data: match self.extra_data {
                Some(data) => Some(data@),
                None => None,
            },
            commitment: self.commitment@,
            sender_handle: self.sender_handle@,
            receiver_handle: self.receiver_handle@,
        }
    }
}

impl TransferPayloadView {
    /// The bytes of the extra data: nothing where there is none, else its
    /// length in two bytes and the data.
    pub open spec fn extra_serialized(self) -> Seq<u8> {
        match self.extra_data {
            Some(data) => be_bytes(data.len(), 2) + data,
            None => Seq::empty(),
        }
    }

    /// The binary form of the payload.
    pub open spec fn serialized(self) -> Seq<u8> {
        self.asset + self.destination + seq![bool_byte(self.extra_data is Some)]
            + self.extra_serialized() + self.commitment + self.sender_handle + self.receiver_handle
    }
}

/// Parses the extra data of a transfer, which is there where `present`
/// says so: a length of two bytes, at most `EXTRA_DATA_LIMIT_SIZE`, and as
/// many bytes.
pub open spec fn parse_extra_data(present: bool, input: Seq<u8>) -> Result<
    (Option<Seq<u8>>, Seq<u8>),
    ReaderError,
> {
    if !present {
        Ok((None, input))
    } else {
        match take_number(input, 2) {
            Err(e) => Err(e),
            Ok((size, rest)) => if size > EXTRA_DATA_LIMIT_SIZE {
                Err(ReaderError::InvalidSize)
            } else {
                match take(rest, size) {
                    Err(e) => Err(e),
                    Ok((data, rest)) => Ok((Some(data), rest)),
                }
            },
        }
    }
}

/// Parses a transfer from the start of the input.
pub open spec fn parse_transfer(input: Seq<u8>) -> Result<
    (TransferPayloadView, Seq<u8>),
    ReaderError,
> {
    match take(input, 32) {
        Err(e) => Err(e),
        Ok((asset, rest)) => match take(rest, 32) {
            Err(e) => Err(e),
            Ok((destination, rest)) => match take_bool(rest) {
                Err(e) => Err(e),
                Ok((present, rest)) => match parse_extra_data(present, rest) {
                    Err(e) => Err(e),
                    Ok((extra_data, rest)) => match take(rest, 32) {
                        Err(e) => Err(e),
                        Ok((commitment, rest)) => match take(rest, 32) {
                            Err(e) => Err(e),
                            Ok((sender_handle, rest)) => match take(rest, 32) {
                                Err(e) => Err(e),
                                Ok((receiver_handle, rest)) => Ok(
                                    (
                                        TransferPayloadView {
                                            asset,
                                            destination,
                                            extra_data,
                                            commitment,
                                            sender_handle,
                                            receiver_handle,
                                        },
                                        rest,
                                    ),
                                ),
                            },
                        },
                    },
                },
            },
        },
    }
}

/// Reads the extra data of a transfer.
fn read_extra_data(reader: &mut Reader, present: bool) -> (r: Result<
    Option<Vec<u8>>,
    ReaderError,
>)
    ensures
        match parse_extra_data(present, old(reader).remaining()) {
            Ok((model, rest)) => old(reader).advanced(final(reader), rest) && match model {
                Some(data) => r matches Ok(Some(found)) && found@ == data,
                None => r matches Ok(None),
            },
            Err(e) => r matches Err(found) && found == e && old(reader).failed(final(reader)),
        },
{
    if present {
        let extra_data_size = match reader.read_u16() {
            Ok(size) => size as usize,
            Err(e) => {
                return Err(e);
            },
        };
        if extra_data_size > EXTRA_DATA_LIMIT_SIZE {
            return Err(ReaderError::InvalidSize);
        }
        match reader.read_bytes(extra_data_size) {
            Ok(data) => Ok(Some(data)),
            Err(e) => Err(e),
        }
    } else {
        Ok(None)
    }
}

impl TransferPayload {
    /// Appends the binary form of the payload. The length of the extra data
    /// is written in two bytes, its lowest sixteen bits.
    pub fn write(&self, writer: &mut Writer)
        ensures
            final(writer)@ == old(writer)@ + self@.serialized(),
    {
        self.asset.write(writer);
        self.destination.write(writer);
        writer.write_bool(self.extra_data.is_some());
        if let Some(extra_data) = &self.extra_data {
            let len: u16 = (extra_data.len() % 65536) as u16;
            proof {
                lemma_be_bytes_two(extra_data@.len());
            }
            writer.write_u16(len);
            writer.write_bytes(extra_data.as_slice());
        }
        self.commitment.write(writer);
        self.sender_handle.write(writer);
        self.receiver_handle.write(writer);
        assert(writer@ =~= old(writer)@ + self@.serialized());
    }

    /// Reads a payload.
    ///
    /// Fails with `InvalidSize` where the bytes end early or the extra data
    /// is announced longer than `EXTRA_DATA_LIMIT_SIZE`, and with
    /// `InvalidValue` where the byte that announces it is neither 0 nor 1.
    pub fn read(reader: &mut Reader) -> (r: Result<TransferPayload, ReaderError>)
        ensures
            reads(r, parse_transfer(old(reader).remaining()), *old(reader), *final(reader)),
    {
        let asset = match crate::crypto::Hash::read(reader) {
            Ok(v) => v,
            Err(e) => {
                return Err(e);
            },
        };
        let destination = match CompressedPublicKey::read(reader) {
            Ok(v) => v,
            Err(e) => {
                return Err(e);
            },
        };
        let has_extra_data = match reader.read_bool() {
            Ok(v) => v,
            Err(e) => {
                return Err(e);
            },
        };
        let extra_data = match read_extra_data(reader, has_extra_data) {
            Ok(v) => v,
            Err(e) => {
                return Err(e);
            },
        };
        let commitment = match CompressedCommitment::read(reader) {
            Ok(v) => v,
            Err(e) => {
                return Err(e);
            },
        };
        let sender_handle = match CompressedHandle::read(reader) {
            Ok(v) => v,
            Err(e) => {
                return Err(e);
            },
        };
        let receiver_handle = match CompressedHandle::read(reader) {
            Ok(v) => v,
            Err(e) => {
                return Err(e);
            },
        };
        Ok(
            TransferPayload {
                asset,
                destination,
                extra_data,
                commitment,
                sender_handle,
                receiver_handle,
            },
        )
    }

    /// The number of bytes of the binary form.
    pub fn size(&self) -> (r: usize)
        requires
            self@.serialized().len() <= usize::MAX,
        ensures
            r == self@.serialized().len(),
    {
        proof {
            self.asset.lemma_len();
            self.destination.lemma_len();
            self.commitment.lemma_len();
            self.sender_handle.lemma_len();
            self.receiver_handle.lemma_len();
            lemma_be_bytes_two(0);
        }
        // + 1 for the bool
        let mut size = self.asset.size() + self.destination.size() + 1 + self.commitment.size()
            + self.sender_handle.size() + self.receiver_handle.size();
        if let Some(extra_data) = &self.extra_data {
            proof {
                lemma_be_bytes_two(extra_data@.len());
            }
            // + 2 for the size of the extra data
            size += 2 + extra_data.len();
        }
        size
    }
}

/// The two lowest bytes of a number are those of its lowest sixteen bits.
pub proof fn lemma_be_bytes_two(v: nat)
    ensures
        be_bytes(v, 2).len() == 2,
        be_bytes(v % 65536, 2) == be_bytes(v, 2),
{
    reveal_with_fuel(be_bytes, 3);
    assert((v % 65536) % 256 == v % 256);
    assert(((v % 65536) / 256) % 256 == (v / 256) % 256);
}

// Burn is a public payload allowing to use it as a proof of burn
#[derive(Clone, Debug)]
pub struct BurnPayload {
    asset: crate::crypto::Hash,
    amount: u64,
}

/// Mathematical model of a [`BurnPayload`].
pub ghost struct BurnPayloadView {
    pub asset: Seq<u8>,
    pub amount: u64,
}

impl View for BurnPayload {
    type V = BurnPayloadView;

    closed spec fn view(&self) -> BurnPayloadView {
        BurnPayloadView { asset: self.asset@, amount: self.amount }
    }
}

impl BurnPayloadView {
    /// The binary form of the payload.
    pub open spec fn serialized(self) -> Seq<u8> {
        self.asset + be_bytes(self.amount as nat, 8)
    }
}

/// Parses a burn from the start of the input.
pub open spec fn parse_burn(input: Seq<u8>) -> Result<(BurnPayloadView, Seq<u8>), ReaderError> {
    match take(input, 32) {
        Err(e) => Err(e),
        Ok((asset, rest)) => match take_number(rest, 8) {
            Err(e) => Err(e),
            Ok((amount, rest)) => Ok((BurnPayloadView { asset, amount: amount as u64 }, rest)),
        },
    }
}

impl BurnPayload {
    /// Appends the binary form of the payload.
    pub fn write(&self, writer: &mut Writer)
        ensures
            final(writer)@ == old(writer)@ + self@.serialized(),
    {
        self.asset.write(writer);
        writer.write_u64(&self.amount);
        assert(writer@ =~= old(writer)@ + self@.serialized());
    }

    /// Reads a payload. Fails with `InvalidSize` where the bytes end early.
    pub fn read(reader: &mut Reader) -> (r: Result<BurnPayload, ReaderError>)
        ensures
            reads(r, parse_burn(old(reader).remaining()), *old(reader), *final(reader)),
    {
        let asset = match crate::crypto::Hash::read(reader) {
            Ok(v) => v,
            Err(e) => {
                return Err(e);
            },
        };
        let amount = match reader.read_u64() {
            Ok(v) => v,
            Err(e) => {
                return Err(e);
            },
        };
        Ok(BurnPayload { asset, amount })
    }

    /// The number of bytes of the binary form.
    pub fn size(&self) -> (r: usize)
        ensures
            r == self@.serialized().len(),
    {
        proof {
            self.asset.lemma_len();
            lemma_be_bytes_len(self.amount as nat, 8);
        }
        self.asset.size() + 8
    }
}

/// A number written in `n` bytes takes `n` bytes.
pub proof fn lemma_be_bytes_len(v: nat, n: nat)
    ensures
        be_bytes(v, n).len() == n,
    decreases n,
{
    if n > 0 {
        lemma_be_bytes_len(v / 256, (n - 1) as nat);
    }
}

// this enum represent all types of transaction available on XELIS Network
#[derive(Clone, Debug)]
pub enum TransactionType {
    Transfers(Vec<TransferPayload>),
    Burn(BurnPayload),
}

/// Mathematical model of a [`TransactionType`].
pub ghost enum TransactionTypeView {
    Transfers(Seq<TransferPayloadView>),
    Burn(BurnPayloadView),
}

/// The models of a list of transfers, in the same order.
pub open spec fn transfers_view(transfers: Seq<TransferPayload>) -> Seq<TransferPayloadView> {
    Seq::new(transfers.len(), |i: int| transfers[i]@)
}

impl View for TransactionType {
    type V = TransactionTypeView;

    open spec fn view(&self) -> TransactionTypeView {
        match self {
            TransactionType::Transfers(txs) => TransactionTypeView::Transfers(
                transfers_view(txs@),
            ),
            TransactionType::Burn(payload) => TransactionTypeView::Burn(payload@),
        }
    }
}

/// The binary forms of a list of transfers, one after the other.
pub open spec fn transfers_serialized(transfers: Seq<TransferPayloadView>) -> Seq<u8>
    decreases transfers.len(),
{
    if transfers.len() == 0 {
        Seq::empty()
    } else {
        transfers_serialized(transfers.drop_last()) + transfers.last().serialized()
    }
}

impl TransactionTypeView {
    /// The binary form: the byte 0 and the burn, or the byte 1, the number
    /// of transfers in one byte, its lowest eight bits, and the transfers.
    pub open spec fn serialized(self) -> Seq<u8> {
        match self {
            TransactionTypeView::Burn(payload) => seq![0u8] + payload.serialized(),
            TransactionTypeView::Transfers(txs) => seq![1u8, (txs.len() % 256) as u8]
                + transfers_serialized(txs),
        }
    }

    /// The size that is reported for the binary form: one byte and the
    /// payload. The byte that counts the transfers is not counted.
    pub open spec fn size(self) -> nat {
        match self {
            TransactionTypeView::Burn(payload) => 1 + payload.serialized().len(),
            TransactionTypeView::Transfers(txs) => 1 + transfers_serialized(txs).len(),
        }
    }
}

/// Parses `count` transfers from the start of the input. The first
/// transfer that cannot be read decides the error.
pub open spec fn parse_transfers(input: Seq<u8>, count: nat) -> Result<
    (Seq<TransferPayloadView>, Seq<u8>),
    ReaderError,
>
    decreases count,
{
    if count == 0 {
        Ok((Seq::empty(), input))
    } else {
        match parse_transfers(input, (count - 1) as nat) {
            Err(e) => Err(e),
            Ok((transfers, rest)) => match parse_transfer(rest) {
                Err(e) => Err(e),
                Ok((transfer, rest)) => Ok((transfers.push(transfer), rest)),
            },
        }
    }
}

/// Parses the type of a transaction and its payload from the start of the
/// input: after the byte 0 a burn, after the byte 1 the number of
/// transfers in one byte, which is not 0, and the transfers.
pub open spec fn parse_transaction_type(input: Seq<u8>) -> Result<
    (TransactionTypeView, Seq<u8>),
    ReaderError,
> {
    match take(input, 1) {
        Err(e) => Err(e),
        Ok((tag, rest)) => if tag[0] == 0 {
            match parse_burn(rest) {
                Err(e) => Err(e),
                Ok((payload, rest)) => Ok((TransactionTypeView::Burn(payload), rest)),
            }
        } else if tag[0] == 1 {
            match take(rest, 1) {
                Err(e) => Err(e),
                Ok((count, rest)) => if count[0] == 0 {
                    Err(ReaderError::InvalidSize)
                } else {
                    match parse_transfers(rest, count[0] as nat) {
                        Err(e) => Err(e),
                        Ok((transfers, rest)) => Ok(
                            (TransactionTypeView::Transfers(transfers), rest),
                        ),
                    }
                },
            }
        } else {
            Err(ReaderError::InvalidValue)
        },
    }
}

/// Once a transfer of a run cannot be read, no longer run can, with the
/// same error.
pub proof fn lemma_parse_transfers_prefix(input: Seq<u8>, k: nat, count: nat)
    requires
        k <= count,
        parse_transfers(input, k) is Err,
    ensures
        parse_transfers(input, count) == parse_transfers(input, k),
    decreases count,
{
    if k < count {
        lemma_parse_transfers_prefix(input, k, (count - 1) as nat);
    }
}

/// The binary forms of the first transfers of a list are no longer than
/// those of the whole list.
pub proof fn lemma_transfers_serialized_prefix(transfers: Seq<TransferPayloadView>, k: int)
    requires
        0 <= k <= transfers.len(),
    ensures
        transfers_serialized(transfers.subrange(0, k)).len() <= transfers_serialized(
            transfers,
        ).len(),
    decreases transfers.len() - k,
{
    if k == transfers.len() {
        assert(transfers.subrange(0, k) =~= transfers);
    } else {
        assert(transfers.subrange(0, k + 1).drop_last() =~= transfers.subrange(0, k));
        lemma_transfers_serialized_prefix(transfers, k + 1);
    }
}

impl TransactionType {
    /// Appends the binary form.
    #[verifier::loop_isolation(false)]
    pub fn write(&self, writer: &mut Writer)
        ensures
            final(writer)@ == old(writer)@ + self@.serialized(),
    {
        match self {
            TransactionType::Burn(payload) => {
                writer.write_u8(0);
                payload.write(writer);
                assert(writer@ =~= old(writer)@ + self@.serialized());
            },
            TransactionType::Transfers(txs) => {
                writer.write_u8(1);
                // max 255 txs per transaction
                let len: u8 = (txs.len() % 256) as u8;
                writer.write_u8(len);
                let ghost models = transfers_view(txs@);
                let ghost head = old(writer)@ + seq![1u8, len];
                assert(writer@ =~= head);
                assert(models.subrange(0, 0) =~= Seq::<TransferPayloadView>::empty());
                let mut i: usize = 0;
                while i < txs.len()
                    invariant
                        i <= txs.len(),
                        writer@ == head + transfers_serialized(models.subrange(0, i as int)),
                    decreases txs.len() - i,
                {
                    txs[i].write(writer);
                    proof {
                        assert(models.subrange(0, i + 1).drop_last() =~= models.subrange(
                            0,
                            i as int,
                        ));
                        assert(models.subrange(0, i + 1).last() == txs[i as int]@);
                        assert(writer@ =~= head + transfers_serialized(
                            models.subrange(0, i + 1),
                        ));
                    }
                    i += 1;
                }
                assert(models.subrange(0, i as int) =~= models);
                assert(writer@ =~= old(writer)@ + self@.serialized());
            },
        };
    }

    /// Reads the type of a transaction and its payload.
    ///
    /// Fails with `InvalidValue` where the first byte is neither 0 nor 1,
    /// with `InvalidSize` where no transfer is announced, and as the payload
    /// that is read does.
    #[verifier::loop_isolation(false)]
    pub fn read(reader: &mut Reader) -> (r: Result<TransactionType, ReaderError>)
        ensures
            reads(r, parse_transaction_type(old(reader).remaining()), *old(reader), *final(reader)),
    {
        let tag = match reader.read_u8() {
            Ok(v) => v,
            Err(e) => {
                return Err(e);
            },
        };
        if tag == 0 {
            match BurnPayload::read(reader) {
                Ok(payload) => Ok(TransactionType::Burn(payload)),
                Err(e) => Err(e),
            }
        } else if tag == 1 {
            let txs_count = match reader.read_u8() {
                Ok(v) => v,
                Err(e) => {
                    return Err(e);
                },
            };
            if txs_count == 0 || txs_count as usize > MAX_TRANSFER_COUNT {
                return Err(ReaderError::InvalidSize);
            }
            let ghost input = reader.remaining();
            let mut txs: Vec<TransferPayload> = Vec::new();
            let mut i: u8 = 0;
            assert(transfers_view(txs@) =~= Seq::<TransferPayloadView>::empty());
            while i < txs_count
                invariant
                    i <= txs_count,
                    old(reader).failed(reader),
                    parse_transfers(input, i as nat) == Ok::<
                        (Seq<TransferPayloadView>, Seq<u8>),
                        ReaderError,
                    >((transfers_view(txs@), reader.remaining())),
                decreases txs_count - i,
            {
                let ghost before = txs@;
                match TransferPayload::read(reader) {
                    Ok(tx) => {
                        txs.push(tx);
                        assert(transfers_view(txs@) =~= transfers_view(before).push(tx@));
                    },
                    Err(e) => {
                        proof {
                            assert(parse_transfers(input, (i + 1) as nat) is Err);
                            lemma_parse_transfers_prefix(input, (i + 1) as nat, txs_count as nat);
                        }
                        return Err(e);
                    },
                }
                i += 1;
            }
            Ok(TransactionType::Transfers(txs))
        } else {
            Err(ReaderError::InvalidValue)
        }
    }

    /// The size that is reported for the binary form: that of the payload
    /// and one byte more. The byte that counts the transfers is left out.
    #[verifier::loop_isolation(false)]
    pub fn size(&self) -> (r: usize)
        requires
            self@.size() <= usize::MAX,
        ensures
            r == self@.size(),
    {
        match self {
            TransactionType::Burn(payload) => 1 + payload.size(),
            TransactionType::Transfers(txs) => {
                let ghost models = transfers_view(txs@);
                let mut size: usize = 1;
                let mut i: usize = 0;
                assert(models.subrange(0, 0) =~= Seq::<TransferPayloadView>::empty());
                while i < txs.len()
                    invariant
                        i <= txs.len(),
                        size == 1 + transfers_serialized(models.subrange(0, i as int)).len(),
                    decreases txs.len() - i,
                {
                    proof {
                        assert(models.subrange(0, i + 1).drop_last() =~= models.subrange(
                            0,
                            i as int,
                        ));
                        assert(models.subrange(0, i + 1).last() == txs[i as int]@);
                        lemma_transfers_serialized_prefix(models, i + 1);
                    }
                    size += txs[i].size();
                    i += 1;
                }
                assert(models.subrange(0, i as int) =~= models);
                size
            },
        }
    }
}

// Compressed transaction to be sent over the network
#[derive(Clone, Debug)]
pub struct Transaction {
    // Version of the transaction
    // This is for future use
    version: u8,
    // source of the assets being sent
    source: CompressedPublicKey,
    // type of the transaction
    data: TransactionType,
    // fees in XELIS
    fee: u64,
    // nonce must be equal to the one on chain account
    // used to prevent replay attacks and have ordered transactions
    nonce: u64,
}

/// Mathematical model of a [`Transaction`].
pub ghost struct TransactionView {
    pub version: u8,
    pub source: Seq<u8>,
    pub data: TransactionTypeView,
    pub fee: u64,
    pub nonce: u64,
}

impl View for Transaction {
    type V = TransactionView;

    closed spec fn view(&self) -> TransactionView {
        TransactionView {
            version: self.version,
            source: self.source@,
            data: self.data@,
            fee: self.fee,
            nonce: self.nonce,
        }
    }
}

impl TransactionView {
    /// The binary form of the transaction.
    pub open spec fn serialized(self) -> Seq<u8> {
        seq![self.version] + self.source + self.data.serialized() + be_bytes(self.fee as nat, 8)
            + be_bytes(self.nonce as nat, 8)
    }

    /// The size that is reported for the binary form: that of its parts,
    /// the data by its own reported size.
    pub open spec fn size(self) -> nat {
        1 + self.source.len() + self.data.size() + 8 + 8
    }
}

/// Parses a transaction from the start of the input. Only version 0 is
/// known.
pub open spec fn parse_transaction(input: Seq<u8>) -> Result<
    (TransactionView, Seq<u8>),
    ReaderError,
> {
    match take(input, 1) {
        Err(e) => Err(e),
        Ok((version, rest)) => if version[0] != 0 {
            Err(ReaderError::InvalidValue)
        } else {
            match take(rest, 32) {
                Err(e) => Err(e),
                Ok((source, rest)) => match parse_transaction_type(rest) {
                    Err(e) => Err(e),
                    Ok((data, rest)) => match take_number(rest, 8) {
                        Err(e) => Err(e),
                        Ok((fee, rest)) => match take_number(rest, 8) {
                            Err(e) => Err(e),
                            Ok((nonce, rest)) => Ok(
                                (
                                    TransactionView {
                                        version: version[0],
                                        source,
                                        data,
                                        fee: fee as u64,
                                        nonce: nonce as u64,
                                    },
                                    rest,
                                ),
                            ),
                        },
                    },
                },
            }
        },
    }
}

impl Transaction {
    /// A transaction of version 0. The signature is not kept.
    pub fn new(
        source: CompressedPublicKey,
        data: TransactionType,
        fee: u64,
        nonce: u64,
        _signature: Signature,
    ) -> (r: Transaction)
        ensures
            r@ == (TransactionView { version: 0, source: source@, data: data@, fee, nonce }),
    {
        Transaction { version: 0, source, data, fee, nonce }
    }

    pub fn get_version(&self) -> (r: u8)
        ensures
            r == self@.version,
    {
        self.version
    }

    pub fn get_source(&self) -> (r: &CompressedPublicKey)
        ensures
            r@ == self@.source,
    {
        &self.source
    }

    pub fn get_data(&self) -> (r: &TransactionType)
        ensures
            r@ == self@.data,
    {
        &self.data
    }

    pub fn get_fee(&self) -> (r: u64)
        ensures
            r == self@.fee,
    {
        self.fee
    }

    pub fn get_nonce(&self) -> (r: u64)
        ensures
            r == self@.nonce,
    {
        self.nonce
    }

    pub fn consume(self) -> (r: (CompressedPublicKey, TransactionType))
        ensures
            r.0@ == self@.source,
            r.1@ == self@.data,
    {
        (self.source, self.data)
    }

    /// Appends the binary form of the transaction.
    pub fn write(&self, writer: &mut Writer)
        ensures
            final(writer)@ == old(writer)@ + self@.serialized(),
    {
        writer.write_u8(self.version);
        self.source.write(writer);
        self.data.write(writer);
        writer.write_u64(&self.fee);
        writer.write_u64(&self.nonce);
        assert(writer@ =~= old(writer)@ + self@.serialized());
    }

    /// Reads a transaction.
    ///
    /// Fails with `InvalidValue` where the version is not 0, with
    /// `InvalidSize` where the bytes end early, and as the data that is read
    /// does.
    pub fn read(reader: &mut Reader) -> (r: Result<Transaction, ReaderError>)
        ensures
            reads(r, parse_transaction(old(reader).remaining()), *old(reader), *final(reader)),
    {
        let version = match reader.read_u8() {
            Ok(v) => v,
            Err(e) => {
                return Err(e);
            },
        };
        // At this moment we only support version 0, so we check it here directly
        if version != 0 {
            return Err(ReaderError::InvalidValue);
        }
        let source = match CompressedPublicKey::read(reader) {
            Ok(v) => v,
            Err(e) => {
                return Err(e);
            },
        };
        let data = match TransactionType::read(reader) {
            Ok(v) => v,
            Err(e) => {
                return Err(e);
            },
        };
        let fee = match reader.read_u64() {
            Ok(v) => v,
            Err(e) => {
                return Err(e);
            },
        };
        let nonce = match reader.read_u64() {
            Ok(v) => v,
            Err(e) => {
                return Err(e);
            },
        };
        Ok(Transaction { version, source, data, fee, nonce })
    }

    /// The size that is reported for the binary form.
    pub fn size(&self) -> (r: usize)
        requires
            self@.size() <= usize::MAX,
        ensures
            r == self@.size(),
    {
        1 + self.source.size() + self.data.size() + 8 + 8
    }

    pub fn as_ref(&self) -> (r: &Transaction)
        ensures
            r == self,
    {
        self
    }
}

impl TransferPayloadView {
    /// Whether the payload is one that can be read: each fixed part takes
    /// 32 bytes and the extra data is within its limit.
    pub open spec fn well_formed(self) -> bool {
        &&& self.asset.len() == 32
        &&& self.destination.len() == 32
        &&& self.commitment.len() == 32
        &&& self.sender_handle.len() == 32
        &&& self.receiver_handle.len() == 32
        &&& self.extra_data matches Some(data) ==> data.len() <= EXTRA_DATA_LIMIT_SIZE
    }
}

impl TransactionTypeView {
    /// Whether the payload is one that can be read: a burn of an asset of
    /// 32 bytes, or between 1 and `MAX_TRANSFER_COUNT` transfers that can
    /// be read.
    pub open spec fn well_formed(self) -> bool {
        match self {
            TransactionTypeView::Burn(payload) => payload.asset.len() == 32,
            TransactionTypeView::Transfers(txs) => {
                &&& 1 <= txs.len() <= MAX_TRANSFER_COUNT
                &&& forall|i: int| 0 <= i < txs.len() ==> (#[trigger] txs[i]).well_formed()
            },
        }
    }
}

impl TransactionView {
    /// Whether the transaction is one that can be read: of version 0, from
    /// a source of 32 bytes, with data that can be read.
    pub open spec fn well_formed(self) -> bool {
        self.version == 0 && self.source.len() == 32 && self.data.well_formed()
    }
}

/// A transfer that can be read is read back from its binary form, and
/// what stands behind it is left.
pub proof fn lemma_parse_serialized_transfer(transfer: TransferPayloadView, rest: Seq<u8>)
    requires
        transfer.well_formed(),
    ensures
        parse_transfer(transfer.serialized() + rest) == Ok::<
            (TransferPayloadView, Seq<u8>),
            ReaderError,
        >((transfer, rest)),
{
    let present = transfer.extra_data is Some;
    let r6 = transfer.receiver_handle + rest;
    let r5 = transfer.sender_handle + r6;
    let r4 = transfer.commitment + r5;
    let r3 = transfer.extra_serialized() + r4;
    let r2 = seq![bool_byte(present)] + r3;
    let r1 = transfer.destination + r2;
    assert(transfer.serialized() + rest =~= transfer.asset + r1);
    lemma_take_front(transfer.asset, r1);
    lemma_take_front(transfer.destination, r2);
    lemma_take_bool_front(present, r3);
    match transfer.extra_data {
        Some(data) => {
            lemma_pow256_values();
            assert(r3 =~= be_bytes(data.len(), 2) + (data + r4));
            lemma_take_number_front(data.len(), 2, data + r4);
            lemma_take_front(data, r4);
        },
        None => {
            assert(r3 =~= r4);
        },
    }
    lemma_take_front(transfer.commitment, r5);
    lemma_take_front(transfer.sender_handle, r6);
    lemma_take_front(transfer.receiver_handle, rest);
}

/// Transfers that can be read are read back from their binary forms.
pub proof fn lemma_parse_serialized_transfers(transfers: Seq<TransferPayloadView>, rest: Seq<u8>)
    requires
        forall|i: int| 0 <= i < transfers.len() ==> (#[trigger] transfers[i]).well_formed(),
    ensures
        parse_transfers(transfers_serialized(transfers) + rest, transfers.len()) == Ok::<
            (Seq<TransferPayloadView>, Seq<u8>),
            ReaderError,
        >((transfers, rest)),
    decreases transfers.len(),
{
    if transfers.len() > 0 {
        let front = transfers.drop_last();
        let last = transfers.last();
        let behind = last.serialized() + rest;
        assert(transfers_serialized(transfers) + rest =~= transfers_serialized(front) + behind);
        lemma_parse_serialized_transfers(front, behind);
        lemma_parse_serialized_transfer(last, rest);
        assert(front.push(last) =~= transfers);
    } else {
        assert(transfers_serialized(transfers) + rest =~= rest);
        assert(transfers =~= Seq::<TransferPayloadView>::empty());
    }
}

/// A burn of an asset of 32 bytes is read back from its binary form, and
/// what stands behind it is left.
pub proof fn lemma_parse_serialized_burn(payload: BurnPayloadView, rest: Seq<u8>)
    requires
        payload.asset.len() == 32,
    ensures
        parse_burn(payload.serialized() + rest) == Ok::<(BurnPayloadView, Seq<u8>), ReaderError>(
            (payload, rest),
        ),
{
    lemma_pow256_values();
    let behind = be_bytes(payload.amount as nat, 8) + rest;
    assert(payload.serialized() + rest =~= payload.asset + behind);
    lemma_take_front(payload.asset, behind);
    lemma_take_number_front(payload.amount as nat, 8, rest);
}

/// The data of a transaction that can be read is read back from its
/// binary form, and what stands behind it is left.
pub proof fn lemma_parse_serialized_transaction_type(data: TransactionTypeView, rest: Seq<u8>)
    requires
        data.well_formed(),
    ensures
        parse_transaction_type(data.serialized() + rest) == Ok::<
            (TransactionTypeView, Seq<u8>),
            ReaderError,
        >((data, rest)),
{
    match data {
        TransactionTypeView::Burn(payload) => {
            let behind = payload.serialized() + rest;
            assert(data.serialized() + rest =~= seq![0u8] + behind);
            lemma_take_front(seq![0u8], behind);
            lemma_parse_serialized_burn(payload, rest);
        },
        TransactionTypeView::Transfers(txs) => {
            let count = (txs.len() % 256) as u8;
            let transfers = transfers_serialized(txs) + rest;
            let counted = seq![count] + transfers;
            assert(data.serialized() + rest =~= seq![1u8] + counted);
            lemma_take_front(seq![1u8], counted);
            lemma_take_front(seq![count], transfers);
            lemma_parse_serialized_transfers(txs, rest);
        },
    }
}

/// A transaction that can be read is read back from its binary form, and
/// what stands behind it is left.
#[verifier::rlimit(40)]
pub proof fn lemma_parse_serialized_transaction(transaction: TransactionView, rest: Seq<u8>)
    requires
        transaction.well_formed(),
    ensures
        parse_transaction(transaction.serialized() + rest) == Ok::<
            (TransactionView, Seq<u8>),
            ReaderError,
        >((transaction, rest)),
{
    lemma_pow256_values();
    let r4 = be_bytes(transaction.nonce as nat, 8) + rest;
    let r3 = be_bytes(transaction.fee as nat, 8) + r4;
    let r2 = transaction.data.serialized() + r3;
    let r1 = transaction.source + r2;
    let input = transaction.serialized() + rest;
    assert(input =~= seq![transaction.version] + r1);
    lemma_take_front(seq![transaction.version], r1);
    assert(take(input, 1) == Ok::<(Seq<u8>, Seq<u8>), ReaderError>(
        (seq![transaction.version], r1),
    ));
    lemma_take_front(transaction.source, r2);
    assert(take(r1, 32) == Ok::<(Seq<u8>, Seq<u8>), ReaderError>((transaction.source, r2)));
    lemma_parse_serialized_transaction_type(transaction.data, r3);
    lemma_take_number_front(transaction.fee as nat, 8, r4);
    assert(take_number(r3, 8) == Ok::<(nat, Seq<u8>), ReaderError>(
        (transaction.fee as nat, r4),
    ));
    lemma_take_number_front(transaction.nonce as nat, 8, rest);
    assert(take_number(r4, 8) == Ok::<(nat, Seq<u8>), ReaderError>(
        (transaction.nonce as nat, rest),
    ));
}

} // verus!
