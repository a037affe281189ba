//! Common encoding for write-ahead-log records stored in a key-value
//! backend: log keys, log values, and the per-region maximum-sequence
//! meta records.

use vstd::prelude::*;
use crate::codec::{put_u8, put_u64_be, read_u64_be, spec_u64_be};

verus! {

pub const LOG_KEY_ENCODING_V0: u8 = 0;
pub const NEWEST_LOG_KEY_ENCODING_VERSION: u8 = 0;

pub const LOG_VALUE_ENCODING_V0: u8 = 0;
pub const NEWEST_LOG_VALUE_ENCODING_VERSION: u8 = 0;

pub const META_KEY_ENCODING_V0: u8 = 0;
pub const NEWEST_META_KEY_ENCODING_VERSION: u8 = 0;

pub const META_VALUE_ENCODING_V0: u8 = 0;
pub const NEWEST_META_VALUE_ENCODING_VERSION: u8 = 0;

/// A region of the write-ahead log, one per shard of tables.
pub type RegionId = u64;

/// A monotonically increasing per-region write sequence.
pub type SequenceNumber = u64;

/// What went wrong while encoding or decoding a record.
#[derive(Debug, Clone, PartialEq, Eq, Structural)]
pub enum Error {
    /// The buffer ended before the field being read.
    UnexpectedEnd,
    /// The record's namespace byte is not the expected one.
    InvalidNamespace { expect: u8, given: u8 },
    /// The record's version byte is not the expected one.
    InvalidVersion { expect: u8, given: u8 },
    /// The meta record's key type byte is not the expected one.
    InvalidMetaKeyType { expect: u8, given: u8 },
}

/// The key space a record belongs to.
#[derive(Debug, Copy, Clone, PartialEq, Eq, Structural)]
pub enum Namespace {
    Meta,
    Log,
}

impl Namespace {
    /// The wire byte of this namespace.
    pub open spec fn spec_as_u8(self) -> u8 {
        match self {
            Namespace::Meta => 0,
            Namespace::Log => 1,
        }
    }

    /// The wire byte of this namespace.
    pub fn as_u8(self) -> (r: u8)
        ensures
            r == self.spec_as_u8(),
    {
        match self {
            Namespace::Meta => 0,
            Namespace::Log => 1,
        }
    }
}

/// A log key: region and sequence number.
pub type LogKey = (RegionId, SequenceNumber);

/// Key format:
///
/// ```text
/// +---------------+----------------+-------------------+--------------------+
/// | namespace(u8) | region_id(u64) | sequence_num(u64) | version header(u8) |
/// +---------------+----------------+-------------------+--------------------+
/// ```
pub open spec fn spec_log_key_bytes(namespace: u8, version: u8, key: LogKey) -> Seq<u8> {
    seq![namespace] + spec_u64_be(key.0) + spec_u64_be(key.1) + seq![version]
}

#[derive(Debug, Clone)]
pub struct LogKeyEncoder {
    pub version: u8,
    pub namespace: Namespace,
}

impl LogKeyEncoder {
    /// Create newest version encoder.
    pub fn newest() -> (r: Self)
        ensures
            r.version == NEWEST_LOG_KEY_ENCODING_VERSION,
            r.namespace == Namespace::Log,
    {
        Self { version: NEWEST_LOG_KEY_ENCODING_VERSION, namespace: Namespace::Log }
    }

    /// Determine whether the raw bytes is a log key.
    pub fn is_valid(&self, buf: &Vec<u8>) -> (r: Result<bool, Error>)
        ensures
            buf@.len() == 0 ==> r == Result::<bool, Error>::Err(Error::UnexpectedEnd),
            buf@.len() > 0 ==> r == Result::<bool, Error>::Ok(buf@[0]
                == self.namespace.spec_as_u8()),
    {
        if buf.len() == 0 {
            return Err(Error::UnexpectedEnd);
        }
        Ok(buf[0] == self.namespace.as_u8())
    }

    /// Append the encoded key to `buf`.
    pub fn encode(&self, buf: &mut Vec<u8>, log_key: &LogKey) -> (r: Result<(), Error>)
        ensures
            r is Ok,
            final(buf)@ == old(buf)@ + spec_log_key_bytes(
                self.namespace.spec_as_u8(),
                self.version,
                *log_key,
            ),
    {
        put_u8(buf, self.namespace.as_u8());
        put_u64_be(buf, log_key.0);
        put_u64_be(buf, log_key.1);
        put_u8(buf, self.version);
        proof {
            assert(buf@ =~= old(buf)@ + spec_log_key_bytes(
                self.namespace.spec_as_u8(),
                self.version,
                *log_key,
            ));
        }
        Ok(())
    }

    pub fn estimate_encoded_size(&self, log_key: &LogKey) -> (r: usize)
        ensures
            r == spec_log_key_bytes(self.namespace.spec_as_u8(), self.version, *log_key).len(),
    {
        // Refer to key format.
        1 + 8 + 8 + 1
    }

    /// Decode a log key from the start of `buf`.
    ///
    /// Fails on a short buffer, a foreign namespace, or a foreign version;
    /// otherwise the first eighteen bytes are exactly the encoding of the
    /// returned key.
    pub fn decode(&self, buf: &Vec<u8>) -> (r: Result<LogKey, Error>)
        ensures
            buf@.len() < 18 && (buf@.len() == 0 || buf@[0] == self.namespace.spec_as_u8()) ==> r
                == Result::<LogKey, Error>::Err(Error::UnexpectedEnd),
            buf@.len() > 0 && buf@[0] != self.namespace.spec_as_u8() ==> r == Result::<
                LogKey,
                Error,
            >::Err(
                Error::InvalidNamespace { expect: self.namespace.spec_as_u8(), given: buf@[0] },
            ),
            buf@.len() >= 18 && buf@[0] == self.namespace.spec_as_u8() && buf@[17] != self.version
                ==> r == Result::<LogKey, Error>::Err(
                Error::InvalidVersion { expect: self.version, given: buf@[17] },
            ),
            buf@.len() >= 18 && buf@[0] == self.namespace.spec_as_u8() && buf@[17] == self.version
                ==> r is Ok && buf@.take(18) == spec_log_key_bytes(
                self.namespace.spec_as_u8(),
                self.version,
                r->Ok_0,
            ),
    {
        if buf.len() == 0 {
            return Err(Error::UnexpectedEnd);
        }
        let namespace = buf[0];
        if namespace != self.namespace.as_u8() {
            return Err(Error::InvalidNamespace {
                expect: self.namespace.as_u8(),
                given: namespace,
            });
        }
        if buf.len() < 18 {
            return Err(Error::UnexpectedEnd);
        }
        let region_id = read_u64_be(buf, 1);
        let sequence = read_u64_be(buf, 9);
        let version = buf[17];
        if version != self.version {
            return Err(Error::InvalidVersion { expect: self.version, given: version });
        }
        proof {
            assert(buf@.take(18) =~= spec_log_key_bytes(
                self.namespace.spec_as_u8(),
                self.version,
                (region_id, sequence),
            ));
        }
        Ok((region_id, sequence))
    }
}

/// Value format:
///
/// ```text
/// +--------------------+---------+
/// | version_header(u8) | payload |
/// +--------------------+---------+
/// ```
pub open spec fn spec_log_value_bytes(version: u8, payload: Seq<u8>) -> Seq<u8> {
    seq![version] + payload
}

#[derive(Debug, Clone)]
pub struct LogValueEncoder {
    pub version: u8,
}

impl LogValueEncoder {
    /// Create newest version encoder.
    pub fn newest() -> (r: Self)
        ensures
            r.version == NEWEST_LOG_VALUE_ENCODING_VERSION,
    {
        Self { version: NEWEST_LOG_VALUE_ENCODING_VERSION }
    }

    /// Append the version header and the payload bytes to `buf`.
    pub fn encode(&self, buf: &mut Vec<u8>, payload: &Vec<u8>) -> (r: Result<(), Error>)
        ensures
            r is Ok,
            final(buf)@ == old(buf)@ + spec_log_value_bytes(self.version, payload@),
    {
        put_u8(buf, self.version);
        let mut k: usize = 0;
        let n = payload.len();
        while k < n
            invariant
                k <= n,
                n == payload@.len(),
                buf@ == old(buf)@ + seq![self.version] + payload@.take(k as int),
            decreases n - k,
        {
            put_u8(buf, payload[k]);
            k += 1;
            proof {
                assert(buf@ =~= old(buf)@ + seq![self.version] + payload@.take(k as int));
            }
        }
        proof {
            assert(buf@ =~= old(buf)@ + spec_log_value_bytes(self.version, payload@));
        }
        Ok(())
    }

    pub fn estimate_encoded_size(&self, payload: &Vec<u8>) -> (r: usize)
        requires
            payload@.len() < usize::MAX,
        ensures
            r == spec_log_value_bytes(self.version, payload@).len(),
    {
        // Refer to value format.
        1 + payload.len()
    }
}

pub struct LogValueDecoder {
    pub version: u8,
}

impl LogValueDecoder {
    /// Strip and check the version header, returning the payload bytes.
    pub fn decode(&self, buf: &Vec<u8>) -> (r: Result<Vec<u8>, Error>)
        ensures
            buf@.len() == 0 ==> r == Result::<Vec<u8>, Error>::Err(Error::UnexpectedEnd),
            buf@.len() > 0 && buf@[0] != self.version ==> r == Result::<Vec<u8>, Error>::Err(
                Error::InvalidVersion { expect: self.version, given: buf@[0] },
            ),
            buf@.len() > 0 && buf@[0] == self.version ==> r is Ok && r->Ok_0@ == buf@.skip(1),
    {
        if buf.len() == 0 {
            return Err(Error::UnexpectedEnd);
        }
        let version = buf[0];
        if version != self.version {
            return Err(Error::InvalidVersion { expect: self.version, given: version });
        }
        let mut payload: Vec<u8> = Vec::new();
        let mut k: usize = 1;
        let n = buf.len();
        while k < n
            invariant
                1 <= k <= n,
                n == buf@.len(),
                payload@ == buf@.subrange(1, k as int),
            decreases n - k,
        {
            payload.push(buf[k]);
            k += 1;
            proof {
                assert(payload@ =~= buf@.subrange(1, k as int));
            }
        }
        proof {
            assert(payload@ =~= buf@.skip(1));
        }
        Ok(payload)
    }
}

/// The kinds of meta records.
#[derive(Clone, Copy, Debug, PartialEq, Eq, Structural)]
pub enum MetaKeyType {
    MaxSeq,
}

impl MetaKeyType {
    /// The wire byte of this key type.
    pub open spec fn spec_as_u8(self) -> u8 {
        match self {
            MetaKeyType::MaxSeq => 0,
        }
    }

    /// The wire byte of this key type.
    pub fn as_u8(self) -> (r: u8)
        ensures
            r == self.spec_as_u8(),
    {
        match self {
            MetaKeyType::MaxSeq => 0,
        }
    }
}

/// Key format:
///
/// ```text
/// +---------------+--------------+----------------+--------------------+
/// | namespace(u8) | key_type(u8) | region_id(u64) | version header(u8) |
/// +---------------+--------------+----------------+--------------------+
/// ```
pub open spec fn spec_meta_key_bytes(
    namespace: u8,
    key_type: u8,
    version: u8,
    key: MetaKey,
) -> Seq<u8> {
    seq![namespace, key_type] + spec_u64_be(key.region_id) + seq![version]
}

#[derive(Clone, Debug)]
pub struct MetaKeyEncoder {
    pub version: u8,
    pub key_type: MetaKeyType,
    pub namespace: Namespace,
}

#[derive(Clone, Copy, Debug, PartialEq, Eq, Structural)]
pub struct MetaKey {
    pub region_id: RegionId,
}

impl MetaKeyEncoder {
    /// Determine whether the raw bytes is a valid meta key.
    pub fn is_valid(&self, buf: &Vec<u8>) -> (r: Result<bool, Error>)
        ensures
            buf@.len() < 2 ==> r == Result::<bool, Error>::Err(Error::UnexpectedEnd),
            buf@.len() >= 2 ==> r == Result::<bool, Error>::Ok(buf@[0]
                == self.namespace.spec_as_u8() && buf@[1] == self.key_type.spec_as_u8()),
    {
        if buf.len() < 2 {
            return Err(Error::UnexpectedEnd);
        }
        Ok(buf[0] == self.namespace.as_u8() && buf[1] == self.key_type.as_u8())
    }

    /// Append the encoded meta key to `buf`.
    pub fn encode(&self, buf: &mut Vec<u8>, meta_key: &MetaKey) -> (r: Result<(), Error>)
        ensures
            r is Ok,
            final(buf)@ == old(buf)@ + spec_meta_key_bytes(
                self.namespace.spec_as_u8(),
                self.key_type.spec_as_u8(),
                self.version,
                *meta_key,
            ),
    {
        put_u8(buf, self.namespace.as_u8());
        put_u8(buf, self.key_type.as_u8());
        put_u64_be(buf, meta_key.region_id);
        put_u8(buf, self.version);
        proof {
            assert(buf@ =~= old(buf)@ + spec_meta_key_bytes(
                self.namespace.spec_as_u8(),
                self.key_type.spec_as_u8(),
                self.version,
                *meta_key,
            ));
        }
        Ok(())
    }

    pub fn estimate_encoded_size(&self, meta_key: &MetaKey) -> (r: usize)
        ensures
            r == spec_meta_key_bytes(
                self.namespace.spec_as_u8(),
                self.key_type.spec_as_u8(),
                self.version,
                *meta_key,
            ).len(),
    {
        // Refer to key format.
        1 + 1 + 8 + 1
    }

    /// Decode a meta key from the start of `buf`.
    pub fn decode(&self, buf: &Vec<u8>) -> (r: Result<MetaKey, Error>)
        ensures
            r is Ok <==> buf@.len() >= 11 && buf@[0] == self.namespace.spec_as_u8() && buf@[1]
                == self.key_type.spec_as_u8() && buf@[10] == self.version,
            r is Ok ==> buf@.take(11) == spec_meta_key_bytes(
                self.namespace.spec_as_u8(),
                self.key_type.spec_as_u8(),
                self.version,
                r->Ok_0,
            ),
    {
        if buf.len() < 2 {
            return Err(Error::UnexpectedEnd);
        }
        let namespace = buf[0];
        if namespace != self.namespace.as_u8() {
            return Err(Error::InvalidNamespace {
                expect: self.namespace.as_u8(),
                given: namespace,
            });
        }
        let key_type = buf[1];
        if key_type != self.key_type.as_u8() {
            return Err(Error::InvalidMetaKeyType {
                expect: self.key_type.as_u8(),
                given: key_type,
            });
        }
        if buf.len() < 11 {
            return Err(Error::UnexpectedEnd);
        }
        let region_id = read_u64_be(buf, 2);
        let version = buf[10];
        if version != self.version {
            return Err(Error::InvalidVersion { expect: self.version, given: version });
        }
        proof {
            assert(buf@.take(11) =~= spec_meta_key_bytes(
                self.namespace.spec_as_u8(),
                self.key_type.spec_as_u8(),
                self.version,
                MetaKey { region_id },
            ));
        }
        Ok(MetaKey { region_id })
    }
}

/// Value format:
///
/// ```text
/// +--------------------+--------------+
/// | version header(u8) | max_seq(u64) |
/// +--------------------+--------------+
/// ```
pub open spec fn spec_max_seq_value_bytes(version: u8, value: MaxSeqMetaValue) -> Seq<u8> {
    seq![version] + spec_u64_be(value.max_seq)
}

#[derive(Clone, Copy, Debug, PartialEq, Eq, Structural)]
pub struct MaxSeqMetaValue {
    pub max_seq: SequenceNumber,
}

#[derive(Clone, Debug)]
pub struct MaxSeqMetaValueEncoder {
    pub version: u8,
}

impl MaxSeqMetaValueEncoder {
    /// Append the encoded meta value to `buf`.
    pub fn encode(&self, buf: &mut Vec<u8>, meta_value: &MaxSeqMetaValue) -> (r: Result<(), Error>)
        ensures
            r is Ok,
            final(buf)@ == old(buf)@ + spec_max_seq_value_bytes(self.version, *meta_value),
    {
        put_u8(buf, self.version);
        put_u64_be(buf, meta_value.max_seq);
        proof {
            assert(buf@ =~= old(buf)@ + spec_max_seq_value_bytes(self.version, *meta_value));
        }
        Ok(())
    }

    pub fn estimate_encoded_size(&self, meta_value: &MaxSeqMetaValue) -> (r: usize)
        ensures
            r == spec_max_seq_value_bytes(self.version, *meta_value).len(),
    {
        // Refer to value format.
        1 + 8
    }

    /// Decode a meta value from the start of `buf`.
    pub fn decode(&self, buf: &Vec<u8>) -> (r: Result<MaxSeqMetaValue, Error>)
        ensures
            r is Ok <==> buf@.len() >= 9 && buf@[0] == self.version,
            r is Ok ==> buf@.take(9) == spec_max_seq_value_bytes(self.version, r->Ok_0),
    {
        if buf.len() == 0 {
            return Err(Error::UnexpectedEnd);
        }
        let version = buf[0];
        if version != self.version {
            return Err(Error::InvalidVersion { expect: self.version, given: version });
        }
        if buf.len() < 9 {
            return Err(Error::UnexpectedEnd);
        }
        let max_seq = read_u64_be(buf, 1);
        proof {
            assert(buf@.take(9) =~= spec_max_seq_value_bytes(
                self.version,
                MaxSeqMetaValue { max_seq },
            ));
        }
        Ok(MaxSeqMetaValue { max_seq })
    }
}

/// The paired key and value encoders for per-region maximum-sequence meta
/// records.
#[derive(Clone, Debug)]
pub struct MaxSeqMetaEncoding {
    pub key_enc: MetaKeyEncoder,
    pub value_enc: MaxSeqMetaValueEncoder,
}

impl MaxSeqMetaEncoding {
    pub fn newest() -> (r: Self)
        ensures
            r.key_enc.version == NEWEST_META_KEY_ENCODING_VERSION,
            r.key_enc.key_type == MetaKeyType::MaxSeq,
            r.key_enc.namespace == Namespace::Meta,
            r.value_enc.version == NEWEST_META_VALUE_ENCODING_VERSION,
    {
        Self {
            key_enc: MetaKeyEncoder {
                version: NEWEST_META_KEY_ENCODING_VERSION,
                key_type: MetaKeyType::MaxSeq,
                namespace: Namespace::Meta,
            },
            value_enc: MaxSeqMetaValueEncoder { version: NEWEST_META_VALUE_ENCODING_VERSION },
        }
    }

    pub fn is_max_seq_meta_key(&self, buf: &Vec<u8>) -> (r: Result<bool, Error>)
        ensures
            buf@.len() < 2 ==> r == Result::<bool, Error>::Err(Error::UnexpectedEnd),
            buf@.len() >= 2 ==> r == Result::<bool, Error>::Ok(buf@[0]
                == self.key_enc.namespace.spec_as_u8() && buf@[1]
                == self.key_enc.key_type.spec_as_u8()),
    {
        self.key_enc.is_valid(buf)
    }

    /// Clear `buf` and fill it with the encoded meta key.
    pub fn encode_key(&self, buf: &mut Vec<u8>, meta_key: &MetaKey) -> (r: Result<(), Error>)
        ensures
            r is Ok,
            final(buf)@ == spec_meta_key_bytes(
                self.key_enc.namespace.spec_as_u8(),
                self.key_enc.key_type.spec_as_u8(),
                self.key_enc.version,
                *meta_key,
            ),
    {
        buf.clear();
        self.key_enc.encode(buf, meta_key)
    }

    /// Clear `buf` and fill it with the encoded meta value.
    pub fn encode_value(&self, buf: &mut Vec<u8>, meta_value: &MaxSeqMetaValue) -> (r: Result<
        (),
        Error,
    >)
        ensures
            r is Ok,
            final(buf)@ == spec_max_seq_value_bytes(self.value_enc.version, *meta_value),
    {
        buf.clear();
        self.value_enc.encode(buf, meta_value)
    }

    pub fn decode_key(&self, buf: &Vec<u8>) -> (r: Result<MetaKey, Error>)
        ensures
            r is Ok <==> buf@.len() >= 11 && buf@[0] == self.key_enc.namespace.spec_as_u8()
                && buf@[1] == self.key_enc.key_type.spec_as_u8() && buf@[10]
                == self.key_enc.version,
            r is Ok ==> buf@.take(11) == spec_meta_key_bytes(
                self.key_enc.namespace.spec_as_u8(),
                self.key_enc.key_type.spec_as_u8(),
                self.key_enc.version,
                r->Ok_0,
            ),
    {
        self.key_enc.decode(buf)
    }

    pub fn decode_value(&self, buf: &Vec<u8>) -> (r: Result<MaxSeqMetaValue, Error>)
        ensures
            r is Ok <==> buf@.len() >= 9 && buf@[0] == self.value_enc.version,
            r is Ok ==> buf@.take(9) == spec_max_seq_value_bytes(self.value_enc.version, r->Ok_0),
    {
        self.value_enc.decode(buf)
    }
}

/// Round trip: decoding an encoded log key yields the key back.
///
/// Stated over the byte images: an encoded key is always accepted by
/// `decode`, and encoding is injective, so the decoded key is the encoded
/// one.
pub proof fn lemma_log_key_round_trip(namespace: u8, version: u8, k1: LogKey, k2: LogKey)
    requires
        spec_log_key_bytes(namespace, version, k1) == spec_log_key_bytes(namespace, version, k2),
    ensures
        k1 == k2,
{
    let b1 = spec_log_key_bytes(namespace, version, k1);
    let b2 = spec_log_key_bytes(namespace, version, k2);
    assert(spec_u64_be(k1.0) =~= b1.subrange(1, 9));
    assert(spec_u64_be(k2.0) =~= b2.subrange(1, 9));
    assert(spec_u64_be(k1.1) =~= b1.subrange(9, 17));
    assert(spec_u64_be(k2.1) =~= b2.subrange(9, 17));
    crate::codec::lemma_u64_be_injective(k1.0, k2.0);
    crate::codec::lemma_u64_be_injective(k1.1, k2.1);
}

} // verus!
