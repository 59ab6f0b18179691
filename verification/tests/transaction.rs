use xelis_common::crypto::{
    CompressedCommitment, CompressedHandle, CompressedPublicKey, Signature, HASH_SIZE,
    RISTRETTO_COMPRESSED_SIZE, SIGNATURE_SIZE,
};
use xelis_common::serializer::{Reader, ReaderError, Writer};
use xelis_common::transaction::{
    BurnPayload, Transaction, TransactionType, TransferPayload, EXTRA_DATA_LIMIT_SIZE,
    MAX_TRANSFER_COUNT,
};

fn transfer_bytes(seed: u8, extra: Option<&[u8]>) -> Vec<u8> {
    let mut bytes = Vec::new();
    bytes.extend_from_slice(&[seed; 32]);
    bytes.extend_from_slice(&[seed.wrapping_add(1); 32]);
    match extra {
        Some(data) => {
            bytes.push(1);
            bytes.extend_from_slice(&(data.len() as u16).to_be_bytes());
            bytes.extend_from_slice(data);
        }
        None => bytes.push(0),
    }
    bytes.extend_from_slice(&[seed.wrapping_add(2); 32]);
    bytes.extend_from_slice(&[seed.wrapping_add(3); 32]);
    bytes.extend_from_slice(&[seed.wrapping_add(4); 32]);
    bytes
}

fn burn_bytes(seed: u8, amount: u64) -> Vec<u8> {
    let mut bytes = vec![seed; 32];
    bytes.extend_from_slice(&amount.to_be_bytes());
    bytes
}

fn write_of_transfer(t: &TransferPayload) -> Vec<u8> {
    let mut writer = Writer::new();
    t.write(&mut writer);
    writer.bytes()
}

#[test]
fn sizes_of_the_fixed_parts() {
    assert_eq!(HASH_SIZE, 32);
    assert_eq!(RISTRETTO_COMPRESSED_SIZE, 32);
    assert_eq!(SIGNATURE_SIZE, 64);
    assert_eq!(EXTRA_DATA_LIMIT_SIZE, 1024);
    assert_eq!(MAX_TRANSFER_COUNT, 255);
    assert_eq!(xelis_common::crypto::Hash::new([1; 32]).size(), 32);
    assert_eq!(CompressedPublicKey::new([1; 32]).size(), 32);
    assert_eq!(CompressedCommitment::new([1; 32]).size(), 32);
    assert_eq!(CompressedHandle::new([1; 32]).size(), 32);
    assert_eq!(Signature::new([9; 64]).as_bytes(), &[9u8; 64]);
}

#[test]
fn writer_is_big_endian() {
    let mut writer = Writer::new();
    writer.write_u8(0xab);
    writer.write_bool(true);
    writer.write_bool(false);
    writer.write_u16(0x0102);
    writer.write_u64(&0x0102030405060708);
    writer.write_bytes(&[9, 9]);
    assert_eq!(writer.total_write(), 15);
    assert_eq!(
        writer.bytes(),
        vec![0xab, 1, 0, 1, 2, 1, 2, 3, 4, 5, 6, 7, 8, 9, 9]
    );
}

#[test]
fn writer_extremes() {
    let mut writer = Writer::new();
    writer.write_u16(u16::MAX);
    writer.write_u64(&u64::MAX);
    writer.write_u64(&0);
    writer.write_u16(256);
    let mut expected = vec![0xff; 10];
    expected.extend_from_slice(&[0; 8]);
    expected.extend_from_slice(&[1, 0]);
    assert_eq!(writer.bytes(), expected);
}

#[test]
fn reader_is_big_endian() {
    let bytes = [0xab, 1, 0, 1, 2, 1, 2, 3, 4, 5, 6, 7, 8, 9, 9];
    let mut reader = Reader::new(&bytes);
    assert_eq!(reader.size(), 15);
    assert_eq!(reader.read_u8(), Ok(0xab));
    assert_eq!(reader.read_bool(), Ok(true));
    assert_eq!(reader.read_bool(), Ok(false));
    assert_eq!(reader.read_u16(), Ok(0x0102));
    assert_eq!(reader.read_u64(), Ok(0x0102030405060708));
    assert_eq!(reader.total_read(), 13);
    assert_eq!(reader.read_bytes(2), Ok(vec![9, 9]));
    assert_eq!(reader.size(), 0);
    assert_eq!(reader.read_bytes(0), Ok(vec![]));
}

#[test]
fn reader_fails_where_bytes_end() {
    let bytes = [1, 2, 3];
    let mut reader = Reader::new(&bytes);
    assert_eq!(reader.read_u64(), Err(ReaderError::InvalidSize));
    assert_eq!(reader.read_bytes(4), Err(ReaderError::InvalidSize));
    assert_eq!(reader.total_read(), 0);
    assert_eq!(reader.read_u16(), Ok(0x0102));
    assert_eq!(reader.read_u16(), Err(ReaderError::InvalidSize));
    assert_eq!(reader.read_u8(), Ok(3));
    assert_eq!(reader.read_u8(), Err(ReaderError::InvalidSize));
    assert_eq!(reader.read_bool(), Err(ReaderError::InvalidSize));
}

#[test]
fn reader_refuses_a_byte_that_is_no_truth_value() {
    let bytes = [2, 1];
    let mut reader = Reader::new(&bytes);
    assert_eq!(reader.read_bool(), Err(ReaderError::InvalidValue));
    assert_eq!(reader.read_bool(), Ok(true));
}

#[test]
fn fixed_parts_are_written_and_read_as_they_are() {
    let mut bytes = [0u8; 32];
    for (i, b) in bytes.iter_mut().enumerate() {
        *b = i as u8;
    }
    let key = CompressedPublicKey::new(bytes);
    assert_eq!(key.as_bytes(), &bytes);
    let mut writer = Writer::new();
    key.write(&mut writer);
    xelis_common::crypto::Hash::new(bytes).write(&mut writer);
    CompressedCommitment::new(bytes).write(&mut writer);
    CompressedHandle::new(bytes).write(&mut writer);
    let written = writer.bytes();
    assert_eq!(written.len(), 128);
    assert_eq!(&written[0..32], &bytes);
    assert_eq!(&written[96..128], &bytes);
    let mut reader = Reader::new(&written);
    assert_eq!(CompressedPublicKey::read(&mut reader).unwrap().as_bytes(), &bytes);
    assert_eq!(xelis_common::crypto::Hash::read(&mut reader).unwrap().as_bytes(), &bytes);
    assert_eq!(CompressedCommitment::read(&mut reader).unwrap().as_bytes(), &bytes);
    assert_eq!(CompressedHandle::read(&mut reader).unwrap().as_bytes(), &bytes);
    assert_eq!(CompressedHandle::read(&mut reader).err(), Some(ReaderError::InvalidSize));
}

#[test]
fn transfer_without_extra_data_round_trips() {
    let bytes = transfer_bytes(10, None);
    assert_eq!(bytes.len(), 161);
    let mut reader = Reader::new(&bytes);
    let transfer = TransferPayload::read(&mut reader).unwrap();
    assert_eq!(reader.size(), 0);
    assert_eq!(transfer.size(), 161);
    assert_eq!(write_of_transfer(&transfer), bytes);
}

#[test]
fn transfer_with_extra_data_round_trips() {
    let bytes = transfer_bytes(20, Some(&[1, 2, 3, 4, 5]));
    assert_eq!(bytes.len(), 161 + 2 + 5);
    let mut reader = Reader::new(&bytes);
    let transfer = TransferPayload::read(&mut reader).unwrap();
    assert_eq!(transfer.size(), 168);
    assert_eq!(write_of_transfer(&transfer), bytes);
    let empty = transfer_bytes(20, Some(&[]));
    let mut reader = Reader::new(&empty);
    let transfer = TransferPayload::read(&mut reader).unwrap();
    assert_eq!(transfer.size(), 163);
    assert_eq!(write_of_transfer(&transfer), empty);
}

#[test]
fn transfer_leaves_what_stands_behind_it() {
    let mut bytes = transfer_bytes(1, Some(&[7; 3]));
    bytes.extend_from_slice(&[0xee, 0xff]);
    let mut reader = Reader::new(&bytes);
    assert!(TransferPayload::read(&mut reader).is_ok());
    assert_eq!(reader.size(), 2);
    assert_eq!(reader.read_u16(), Ok(0xeeff));
}

#[test]
fn transfer_extra_data_is_limited() {
    let at_limit = transfer_bytes(3, Some(&[5; 1024]));
    let mut reader = Reader::new(&at_limit);
    let transfer = TransferPayload::read(&mut reader).unwrap();
    assert_eq!(transfer.size(), 161 + 2 + 1024);
    let over = transfer_bytes(3, Some(&[5; 1025]));
    let mut reader = Reader::new(&over);
    assert_eq!(TransferPayload::read(&mut reader).err(), Some(ReaderError::InvalidSize));
}

#[test]
fn transfer_read_fails_on_bad_bytes() {
    let good = transfer_bytes(4, Some(&[1, 2, 3]));
    for cut in [0, 10, 32, 64, 65, 66, 68, 100, good.len() - 1] {
        let mut reader = Reader::new(&good[..cut]);
        assert_eq!(
            TransferPayload::read(&mut reader).err(),
            Some(ReaderError::InvalidSize),
            "cut at {}",
            cut
        );
    }
    let mut bad_flag = good.clone();
    bad_flag[64] = 2;
    let mut reader = Reader::new(&bad_flag);
    assert_eq!(TransferPayload::read(&mut reader).err(), Some(ReaderError::InvalidValue));
}

#[test]
fn burn_round_trips() {
    let bytes = burn_bytes(7, 0x0102030405060708);
    assert_eq!(bytes.len(), 40);
    assert_eq!(&bytes[32..], &[1, 2, 3, 4, 5, 6, 7, 8]);
    let mut reader = Reader::new(&bytes);
    let burn = BurnPayload::read(&mut reader).unwrap();
    assert_eq!(burn.size(), 40);
    let mut writer = Writer::new();
    burn.write(&mut writer);
    assert_eq!(writer.bytes(), bytes);
    let mut reader = Reader::new(&bytes[..39]);
    assert_eq!(BurnPayload::read(&mut reader).err(), Some(ReaderError::InvalidSize));
}

fn type_bytes_of_transfers(count: u8) -> Vec<u8> {
    let mut bytes = vec![1, count];
    for i in 0..count {
        let extra = [i; 4];
        if i % 2 == 0 {
            bytes.extend_from_slice(&transfer_bytes(i, None));
        } else {
            bytes.extend_from_slice(&transfer_bytes(i, Some(&extra)));
        }
    }
    bytes
}

#[test]
fn transaction_type_burn_round_trips() {
    let mut bytes = vec![0];
    bytes.extend_from_slice(&burn_bytes(9, 1000));
    let mut reader = Reader::new(&bytes);
    let data = TransactionType::read(&mut reader).unwrap();
    assert!(matches!(data, TransactionType::Burn(_)));
    assert_eq!(data.size(), 41);
    let mut writer = Writer::new();
    data.write(&mut writer);
    assert_eq!(writer.bytes(), bytes);
}

#[test]
fn transaction_type_transfers_round_trip() {
    for count in [1u8, 2, 3, 255] {
        let bytes = type_bytes_of_transfers(count);
        let mut reader = Reader::new(&bytes);
        let data = TransactionType::read(&mut reader).unwrap();
        assert_eq!(reader.size(), 0);
        match &data {
            TransactionType::Transfers(txs) => assert_eq!(txs.len(), count as usize),
            _ => panic!("no transfers"),
        }
        let mut writer = Writer::new();
        data.write(&mut writer);
        assert_eq!(writer.bytes(), bytes);
    }
}

#[test]
fn transaction_type_size_leaves_the_count_byte_out() {
    let bytes = type_bytes_of_transfers(3);
    let mut reader = Reader::new(&bytes);
    let data = TransactionType::read(&mut reader).unwrap();
    // three transfers of 161, 167 and 161 bytes, and one byte
    assert_eq!(data.size(), 1 + 161 + 167 + 161);
    assert_eq!(data.size(), bytes.len() - 1);
}

#[test]
fn transaction_type_read_fails_on_bad_bytes() {
    let mut reader = Reader::new(&[]);
    assert_eq!(TransactionType::read(&mut reader).err(), Some(ReaderError::InvalidSize));
    let mut reader = Reader::new(&[2]);
    assert_eq!(TransactionType::read(&mut reader).err(), Some(ReaderError::InvalidValue));
    let mut reader = Reader::new(&[255, 0, 0]);
    assert_eq!(TransactionType::read(&mut reader).err(), Some(ReaderError::InvalidValue));
    let mut reader = Reader::new(&[1]);
    assert_eq!(TransactionType::read(&mut reader).err(), Some(ReaderError::InvalidSize));
    let mut reader = Reader::new(&[1, 0]);
    assert_eq!(TransactionType::read(&mut reader).err(), Some(ReaderError::InvalidSize));
    let mut too_few = type_bytes_of_transfers(2);
    too_few[1] = 3;
    let mut reader = Reader::new(&too_few);
    assert_eq!(TransactionType::read(&mut reader).err(), Some(ReaderError::InvalidSize));
    let mut bad_second = type_bytes_of_transfers(2);
    bad_second[2 + 161 + 64] = 7;
    let mut reader = Reader::new(&bad_second);
    assert_eq!(TransactionType::read(&mut reader).err(), Some(ReaderError::InvalidValue));
    let mut reader = Reader::new(&[0, 1, 2, 3]);
    assert_eq!(TransactionType::read(&mut reader).err(), Some(ReaderError::InvalidSize));
}

#[test]
fn transaction_type_writes_the_low_byte_of_a_long_count() {
    let bytes = transfer_bytes(1, None);
    let mut txs = Vec::new();
    for _ in 0..257 {
        let mut reader = Reader::new(&bytes);
        txs.push(TransferPayload::read(&mut reader).unwrap());
    }
    let data = TransactionType::Transfers(txs);
    let mut writer = Writer::new();
    data.write(&mut writer);
    let written = writer.bytes();
    assert_eq!(written.len(), 2 + 257 * 161);
    assert_eq!(&written[..2], &[1, 1]);
    assert_eq!(data.size(), 1 + 257 * 161);
}

fn transaction_bytes(version: u8, data: &[u8], fee: u64, nonce: u64) -> Vec<u8> {
    let mut bytes = vec![version];
    bytes.extend_from_slice(&[0x55; 32]);
    bytes.extend_from_slice(data);
    bytes.extend_from_slice(&fee.to_be_bytes());
    bytes.extend_from_slice(&nonce.to_be_bytes());
    bytes
}

#[test]
fn transaction_round_trips() {
    let bytes = transaction_bytes(0, &type_bytes_of_transfers(2), 5000, 42);
    let mut reader = Reader::new(&bytes);
    let tx = Transaction::read(&mut reader).unwrap();
    assert_eq!(reader.size(), 0);
    assert_eq!(tx.get_version(), 0);
    assert_eq!(tx.get_source().as_bytes(), &[0x55; 32]);
    assert_eq!(tx.get_fee(), 5000);
    assert_eq!(tx.get_nonce(), 42);
    assert!(matches!(tx.get_data(), TransactionType::Transfers(txs) if txs.len() == 2));
    assert_eq!(tx.size(), 1 + 32 + (1 + 161 + 167) + 8 + 8);
    let mut writer = Writer::new();
    tx.write(&mut writer);
    assert_eq!(writer.bytes(), bytes);
    assert_eq!(tx.as_ref().get_nonce(), 42);
    let (source, data) = tx.consume();
    assert_eq!(source.as_bytes(), &[0x55; 32]);
    assert!(matches!(data, TransactionType::Transfers(_)));
}

#[test]
fn transaction_with_burn_round_trips() {
    let mut data = vec![0];
    data.extend_from_slice(&burn_bytes(3, u64::MAX));
    let bytes = transaction_bytes(0, &data, u64::MAX, 0);
    let mut reader = Reader::new(&bytes);
    let tx = Transaction::read(&mut reader).unwrap();
    assert_eq!(tx.get_fee(), u64::MAX);
    assert_eq!(tx.get_nonce(), 0);
    assert_eq!(tx.size(), bytes.len());
    let mut writer = Writer::new();
    tx.write(&mut writer);
    assert_eq!(writer.bytes(), bytes);
}

#[test]
fn transaction_read_fails_on_bad_bytes() {
    let mut data = vec![0];
    data.extend_from_slice(&burn_bytes(3, 1));
    let good = transaction_bytes(0, &data, 1, 2);
    let other_version = transaction_bytes(1, &data, 1, 2);
    let mut reader = Reader::new(&other_version);
    assert_eq!(Transaction::read(&mut reader).err(), Some(ReaderError::InvalidValue));
    for cut in [0, 1, 20, 33, 34, 74, 80, good.len() - 1] {
        let mut reader = Reader::new(&good[..cut]);
        assert_eq!(
            Transaction::read(&mut reader).err(),
            Some(ReaderError::InvalidSize),
            "cut at {}",
            cut
        );
    }
    let bad_type = transaction_bytes(0, &[9], 1, 2);
    let mut reader = Reader::new(&bad_type);
    assert_eq!(Transaction::read(&mut reader).err(), Some(ReaderError::InvalidValue));
}

#[test]
fn new_transaction_has_version_zero() {
    let mut reader_bytes = vec![0];
    reader_bytes.extend_from_slice(&burn_bytes(8, 77));
    let mut reader = Reader::new(&reader_bytes);
    let data = TransactionType::read(&mut reader).unwrap();
    let tx = Transaction::new(
        CompressedPublicKey::new([4; 32]),
        data,
        10,
        11,
        Signature::new([0; 64]),
    );
    assert_eq!(tx.get_version(), 0);
    assert_eq!(tx.get_source().as_bytes(), &[4; 32]);
    assert_eq!(tx.get_fee(), 10);
    assert_eq!(tx.get_nonce(), 11);
    assert!(matches!(tx.get_data(), TransactionType::Burn(_)));
    let mut writer = Writer::new();
    tx.write(&mut writer);
    let written = writer.bytes();
    assert_eq!(written, transaction_bytes_with_source(&[4; 32], &reader_bytes, 10, 11));
}

fn transaction_bytes_with_source(source: &[u8; 32], data: &[u8], fee: u64, nonce: u64) -> Vec<u8> {
    let mut bytes = vec![0];
    bytes.extend_from_slice(source);
    bytes.extend_from_slice(data);
    bytes.extend_from_slice(&fee.to_be_bytes());
    bytes.extend_from_slice(&nonce.to_be_bytes());
    bytes
}
