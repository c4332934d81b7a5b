//! AES-256 in counter mode, addressed by the position of a byte in its file.

use aes::cipher::KeyIvInit;
use aes::cipher::StreamCipher;
use aes::Aes256;
use base64::engine::general_purpose::STANDARD;
use base64::Engine;
use crate::api::models::EncryptMetadata;
use crate::text::decimal;
use crate::text::decimal_text;
use crate::uploader::error::UploadError;
use crate::uploader::error::UploadResult;
use ctr::Ctr128BE;
use vstd::prelude::*;
use vstd::string::*;

verus! {

/// The number that `bytes` write, the most significant byte first.
pub open spec fn be_value(bytes: Seq<u8>) -> nat
    decreases bytes.len(),
{
    if bytes.len() == 0 {
        0
    } else {
        be_value(bytes.drop_last()) * 256 + bytes.last() as nat
    }
}

/// The last `len` bytes of `n` written with the most significant byte first.
pub open spec fn be_bytes(n: nat, len: nat) -> Seq<u8>
    decreases len,
{
    if len == 0 {
        seq![]
    } else {
        be_bytes(n / 256, (len - 1) as nat).push((n % 256) as u8)
    }
}

/// The counter block `blocks` steps after `counter`, modulo 2^128.
pub open spec fn counter_block(counter: Seq<u8>, blocks: nat) -> Seq<u8> {
    be_bytes(be_value(counter) + blocks, 16)
}

/// What AES-256 makes of one block of 16 bytes under a key of 32.
pub uninterp spec fn aes256_block(key: Seq<u8>, block: Seq<u8>) -> Seq<u8>;

/// The byte of the key stream that meets the byte at `position` of the file.
pub open spec fn keystream_byte(key: Seq<u8>, iv: Seq<u8>, position: nat) -> u8 {
    aes256_block(key, counter_block(iv, position / 16))[(position % 16) as int]
}

/// `data`, which stands at `offset` in its file, with the key stream over it.
pub open spec fn xor_keystream(key: Seq<u8>, iv: Seq<u8>, data: Seq<u8>, offset: nat) -> Seq<u8> {
    Seq::new(data.len(), |j: int| data[j] ^ keystream_byte(key, iv, (offset + j) as nat))
}

/// Runs `ctr::Ctr128BE<aes::Aes256>`, made anew from `key` and `counter`, over `data`.
///
/// Claimed of `apply_keystream`: the byte at `i` is combined by exclusive or with
/// the byte at `i % 16` of the AES-256 block of the counter `i / 16` steps after
/// `counter`, where the counter is a 128-bit big-endian number that wraps.
#[verifier::external_body]
fn apply_aes256_ctr(key: &[u8; 32], counter: &[u8; 16], data: &mut [u8])
    ensures
        final(data)@.len() == old(data)@.len(),
        forall|i: int|
            0 <= i < old(data)@.len() ==> #[trigger] final(data)@[i] == old(data)@[i]
                ^ aes256_block(key@, counter_block(counter@, (i / 16) as nat))[i % 16],
{
    let mut cipher = Ctr128BE::<Aes256>::new(key.into(), counter.into());
    cipher.apply_keystream(data);
}

proof fn lemma_be_bytes_len(n: nat, len: nat)
    ensures
        be_bytes(n, len).len() == len,
    decreases len,
{
    if len > 0 {
        lemma_be_bytes_len(n / 256, (len - 1) as nat);
    }
}

/// Writing out the number that some bytes write gives the bytes back.
proof fn lemma_be_bytes_of_value(bytes: Seq<u8>)
    ensures
        be_bytes(be_value(bytes), bytes.len()) == bytes,
    decreases bytes.len(),
{
    if bytes.len() > 0 {
        lemma_be_bytes_of_value(bytes.drop_last());
        let high = be_value(bytes.drop_last());
        let last = bytes.last() as nat;
        assert((high * 256 + last) / 256 == high);
        assert((high * 256 + last) % 256 == last);
        assert(bytes.drop_last().push(bytes.last()) =~= bytes);
    } else {
        assert(be_bytes(0, 0) =~= bytes);
    }
}

/// Bytes that overflow away before an addition may as well overflow after it.
proof fn lemma_be_bytes_add(n: nat, b: nat, len: nat)
    ensures
        be_bytes(be_value(be_bytes(n, len)) + b, len) == be_bytes(n + b, len),
    decreases len,
{
    if len > 0 {
        let shorter = (len - 1) as nat;
        let low = n % 256;
        let carry = (low + b) / 256;
        lemma_be_bytes_add(n / 256, carry, shorter);
        let high = be_value(be_bytes(n / 256, shorter));
        assert(be_bytes(n, len).drop_last() =~= be_bytes(n / 256, shorter));
        assert(be_value(be_bytes(n, len)) == high * 256 + low);
        assert((high * 256 + low + b) / 256 == high + carry);
        assert((high * 256 + low + b) % 256 == (low + b) % 256);
        assert((n + b) / 256 == n / 256 + carry);
        assert((n + b) % 256 == (low + b) % 256);
    }
}

/// Stepping a counter by `a` and then by `b` is stepping it by `a + b`.
pub proof fn counter_steps_add(counter: Seq<u8>, a: nat, b: nat)
    ensures
        counter_block(counter_block(counter, a), b) == counter_block(counter, a + b),
{
    lemma_be_bytes_add(be_value(counter) + a, b, 16);
}

/// Stepping a counter by nothing leaves it as it is.
pub proof fn counter_step_zero(counter: Seq<u8>)
    requires
        counter.len() == 16,
    ensures
        counter_block(counter, 0) == counter,
{
    lemma_be_bytes_of_value(counter);
}

/// What a text in standard base64 holds, or the text of the error that reading it gives.
pub uninterp spec fn base64_decoding(text: Seq<char>) -> Result<Seq<u8>, Seq<char>>;

/// Calls `base64::engine::Engine::decode` of the engine `STANDARD`.
///
/// Claimed of it: what it returns, the bytes or the text of the error, is a
/// function of the input alone.
#[verifier::external_body]
fn decode_base64(text: &str) -> (r: Result<Vec<u8>, String>)
    ensures
        decoded(r) == base64_decoding(text@),
{
    match STANDARD.decode(text) {
        Ok(bytes) => Ok(bytes),
        Err(e) => Err(e.to_string()),
    }
}

/// The bytes or the error text of a decoding.
pub open spec fn decoded(r: Result<Vec<u8>, String>) -> Result<Seq<u8>, Seq<char>> {
    match r {
        Ok(bytes) => Ok(bytes@),
        Err(e) => Err(e@),
    }
}

/// The key and the counter that two decodings give, or what is wrong with them.
/// Undecodable text comes before a wrong length, the key before the counter.
pub open spec fn config_parts(
    key: Result<Seq<u8>, Seq<char>>,
    iv: Result<Seq<u8>, Seq<char>>,
) -> Result<(Seq<u8>, Seq<u8>), Seq<char>> {
    match (key, iv) {
        (Err(e), _) => Err("Invalid key: "@ + e),
        (Ok(_), Err(e)) => Err("Invalid IV: "@ + e),
        (Ok(k), Ok(v)) => if k.len() != 32 {
            Err("Invalid key length: expected 32, got "@ + decimal(k.len()))
        } else if v.len() != 16 {
            Err("Invalid IV length: expected 16, got "@ + decimal(v.len()))
        } else {
            Ok((k, v))
        },
    }
}

/// The key and the initial counter that a file is encrypted with.
pub struct EncryptionConfig {
    key: [u8; 32],
    iv: [u8; 16],
}

impl Clone for EncryptionConfig {
    fn clone(&self) -> (r: Self)
        ensures
            r == *self,
    {
        EncryptionConfig { key: self.key, iv: self.iv }
    }
}

impl EncryptionConfig {
    /// The key.
    pub closed spec fn key(self) -> Seq<u8> {
        self.key@
    }

    /// The counter of the first block of the file.
    pub closed spec fn iv(self) -> Seq<u8> {
        self.iv@
    }

    /// Whether `r` is what `parts` asks for.
    pub open spec fn is_outcome(
        r: UploadResult<EncryptionConfig>,
        parts: Result<(Seq<u8>, Seq<u8>), Seq<char>>,
    ) -> bool {
        match parts {
            Ok((key, iv)) => r matches Ok(config) && config.key() == key && config.iv() == iv,
            Err(e) => r matches Err(UploadError::EncryptionError(m)) && m@ == e,
        }
    }

    /// Reads the key and the counter of an upload session.
    pub fn from_metadata(metadata: &EncryptMetadata) -> (r: UploadResult<Self>)
        ensures
            Self::is_outcome(
                r,
                config_parts(
                    base64_decoding(metadata.key_plain_text@),
                    base64_decoding(metadata.iv@),
                ),
            ),
    {
        let key: Result<Vec<u8>, String> = decode_base64(metadata.key_plain_text.as_str());
        let iv: Result<Vec<u8>, String> = decode_base64(metadata.iv.as_str());
        Self::from_decoded(key, iv)
    }

    /// Takes the decoded key and counter, or refuses them.
    pub fn from_decoded(
        key: Result<Vec<u8>, String>,
        iv: Result<Vec<u8>, String>,
    ) -> (r: UploadResult<Self>)
        ensures
            Self::is_outcome(r, config_parts(decoded(key), decoded(iv))),
    {
        let key_bytes: Vec<u8> = match key {
            Ok(bytes) => bytes,
            Err(e) => {
                let m: String = "Invalid key: ".to_owned().concat(e.as_str());
                return Err(UploadError::EncryptionError(m));
            },
        };
        let iv_bytes: Vec<u8> = match iv {
            Ok(bytes) => bytes,
            Err(e) => {
                let m: String = "Invalid IV: ".to_owned().concat(e.as_str());
                return Err(UploadError::EncryptionError(m));
            },
        };
        if key_bytes.len() != 32 {
            let n: String = decimal_text(key_bytes.len() as u64);
            let m: String = "Invalid key length: expected 32, got ".to_owned().concat(n.as_str());
            return Err(UploadError::EncryptionError(m));
        }
        if iv_bytes.len() != 16 {
            let n: String = decimal_text(iv_bytes.len() as u64);
            let m: String = "Invalid IV length: expected 16, got ".to_owned().concat(n.as_str());
            return Err(UploadError::EncryptionError(m));
        }
        let mut k: [u8; 32] = [0u8; 32];
        let mut i: usize = 0;
        while i < 32
            invariant
                i <= 32,
                key_bytes@.len() == 32,
                forall|j: int| 0 <= j < i ==> k@[j] == key_bytes@[j],
            decreases 32 - i,
        {
            k[i] = key_bytes[i];
            i = i + 1;
        }
        let mut v: [u8; 16] = [0u8; 16];
        let mut n: usize = 0;
        while n < 16
            invariant
                n <= 16,
                iv_bytes@.len() == 16,
                forall|j: int| 0 <= j < n ==> v@[j] == iv_bytes@[j],
            decreases 16 - n,
        {
            v[n] = iv_bytes[n];
            n = n + 1;
        }
        assert(k@ =~= key_bytes@);
        assert(v@ =~= iv_bytes@);
        Ok(EncryptionConfig { key: k, iv: v })
    }

    /// The counter of the block that holds the byte at `byte_offset`.
    fn counter_at_offset(&self, byte_offset: u64) -> (r: [u8; 16])
        ensures
            r@ == counter_block(self.iv(), (byte_offset / 16) as nat),
    {
        let mut counter: [u8; 16] = self.iv;
        Self::increment_counter(&mut counter, byte_offset / 16);
        counter
    }

    /// Steps a counter by `blocks`, modulo 2^128.
    pub fn increment_counter(counter: &mut [u8; 16], blocks: u64)
        ensures
            final(counter)@ == counter_block(old(counter)@, blocks as nat),
    {
        let ghost start = counter@;
        let ghost target = counter_block(start, blocks as nat);
        let mut carry: u64 = blocks;
        let mut i: usize = 16;
        assert(start.take(16) =~= start);
        assert(target =~= be_bytes(be_value(start.take(16)) + carry as nat, 16) + counter@.subrange(
            16,
            16,
        ));
        while i > 0 && carry != 0
            invariant
                i <= 16,
                start.len() == 16,
                counter@.take(i as int) == start.take(i as int),
                target == be_bytes(be_value(start.take(i as int)) + carry as nat, i as nat)
                    + counter@.subrange(i as int, 16),
            decreases i,
        {
            let ghost before = counter@;
            let ghost x = be_value(start.take(i as int)) + carry as nat;
            let k: usize = i - 1;
            let old_byte: u8 = counter[k];
            assert(old_byte == start.take(i as int)[k as int]);
            let low: u64 = carry & 0xFF;
            assert(carry & 0xFF == carry % 256) by (bit_vector);
            let sum: u64 = old_byte as u64 + low;
            let byte: u8 = (sum & 0xFF) as u8;
            assert((sum & 0xFF) == sum % 256) by (bit_vector);
            assert(sum >> 8 == sum / 256) by (bit_vector);
            assert(carry >> 8 == carry / 256) by (bit_vector);
            counter[k] = byte;
            let ghost next = (carry / 256 + sum / 256) as nat;
            proof {
                let prefix = start.take(i as int);
                assert(prefix.drop_last() =~= start.take(k as int));
                let high = be_value(start.take(k as int));
                assert(be_value(prefix) == high * 256 + old_byte as nat);
                assert(x / 256 == high + next);
                assert(x % 256 == byte as nat);
                lemma_be_bytes_len(x / 256, k as nat);
                lemma_be_bytes_len(x, i as nat);
                assert(be_bytes(x, i as nat) == be_bytes(high + next, k as nat).push(byte));
                assert(counter@.subrange(k as int, 16) =~= seq![byte] + before.subrange(
                    i as int,
                    16,
                ));
                assert(be_bytes(high + next, k as nat) + counter@.subrange(k as int, 16)
                    =~= be_bytes(x, i as nat) + before.subrange(i as int, 16));
                assert(counter@.take(k as int) =~= start.take(k as int)) by {
                    assert(forall|j: int|
                        0 <= j < k ==> counter@[j] == #[trigger] before.take(i as int)[j]);
                }
            }
            carry = (carry >> 8) + (sum >> 8);
            i = k;
        }
        proof {
            if carry == 0 {
                lemma_be_bytes_of_value(start.take(i as int));
                assert(counter@ =~= counter@.take(i as int) + counter@.subrange(i as int, 16));
            } else {
                assert(counter@ =~= be_bytes(be_value(start.take(0)) + carry as nat, 0)
                    + counter@.subrange(0, 16));
            }
        }
    }

    /// Encrypts, or decrypts, in place the bytes that stand at `byte_offset` in the file.
    pub fn encrypt_at_offset(&self, data: &mut [u8], byte_offset: u64)
        ensures
            final(data)@ == xor_keystream(self.key(), self.iv(), old(data)@, byte_offset as nat),
    {
        let ghost plain = data@;
        let ghost key = self.key();
        let ghost iv = self.iv();
        let ghost block = (byte_offset / 16) as nat;
        let mut counter: [u8; 16] = self.counter_at_offset(byte_offset);
        let ghost first = counter@;
        let offset_in_block: usize = (byte_offset % 16) as usize;
        if offset_in_block != 0 {
            let room: usize = 16 - offset_in_block;
            let head: usize = if room < data.len() {
                room
            } else {
                data.len()
            };
            let mut temp_block: [u8; 16] = [0u8; 16];
            let mut i: usize = 0;
            while i < head
                invariant
                    i <= head,
                    head <= data@.len(),
                    offset_in_block + head <= 16,
                    data@ == plain,
                    forall|j: int| 0 <= j < i ==> temp_block@[offset_in_block + j] == plain[j],
                decreases head - i,
            {
                temp_block[offset_in_block + i] = data[i];
                i = i + 1;
            }
            let ghost padded = temp_block@;
            apply_aes256_ctr(&self.key, &counter, &mut temp_block);
            let mut n: usize = 0;
            while n < head
                invariant
                    n <= head,
                    head <= data@.len(),
                    data@.len() == plain.len(),
                    offset_in_block + head <= 16,
                    forall|j: int| 0 <= j < n ==> data@[j] == temp_block@[offset_in_block + j],
                    forall|j: int| n <= j < plain.len() ==> data@[j] == plain[j],
                decreases head - n,
            {
                data[n] = temp_block[offset_in_block + n];
                n = n + 1;
            }
            assert forall|j: int| 0 <= j < head implies #[trigger] data@[j] == plain[j]
                ^ keystream_byte(key, iv, (byte_offset + j) as nat) by {
                let p = offset_in_block + j;
                counter_steps_add(iv, block, 0);
                assert((byte_offset + j) / 16 == block);
                assert((byte_offset + j) % 16 == p);
                assert(p / 16 == 0);
                assert(temp_block@[p] == padded[p] ^ aes256_block(
                    key,
                    counter_block(first, (p / 16) as nat),
                )[p % 16]);
            }
            if data.len() > head {
                let ghost half = data@;
                Self::increment_counter(&mut counter, 1);
                let (_, rest) = data.split_at_mut(head);
                apply_aes256_ctr(&self.key, &counter, rest);
                proof {
                    assert forall|j: int| head <= j < plain.len() implies #[trigger] data@[j]
                        == plain[j] ^ keystream_byte(key, iv, (byte_offset + j) as nat) by {
                        let q = j - head;
                        counter_steps_add(iv, block, 1);
                        counter_steps_add(iv, block + 1, (q / 16) as nat);
                        assert((byte_offset + j) / 16 == block + 1 + q / 16);
                        assert((byte_offset + j) % 16 == q % 16);
                    }
                }
            }
        } else {
            apply_aes256_ctr(&self.key, &counter, data);
            proof {
                assert forall|j: int| 0 <= j < plain.len() implies #[trigger] data@[j] == plain[j]
                    ^ keystream_byte(key, iv, (byte_offset + j) as nat) by {
                    counter_steps_add(iv, block, (j / 16) as nat);
                    assert((byte_offset + j) / 16 == block + j / 16);
                    assert((byte_offset + j) % 16 == j % 16);
                }
            }
        }
        assert(data@ =~= xor_keystream(key, iv, plain, byte_offset as nat));
    }
}

/// The key stream goes by the place of a byte in the file, so a file that is
/// encrypted in two pieces is the file encrypted at once, wherever it is cut.
pub proof fn encryption_splits(key: Seq<u8>, iv: Seq<u8>, a: Seq<u8>, b: Seq<u8>, offset: nat)
    ensures
        xor_keystream(key, iv, a + b, offset) == xor_keystream(key, iv, a, offset)
            + xor_keystream(key, iv, b, offset + a.len()),
{
    assert(xor_keystream(key, iv, a + b, offset) =~= xor_keystream(key, iv, a, offset)
        + xor_keystream(key, iv, b, offset + a.len()));
}

/// Encrypting twice at one place gives the data back.
pub proof fn encryption_undoes_itself(key: Seq<u8>, iv: Seq<u8>, data: Seq<u8>, offset: nat)
    ensures
        xor_keystream(key, iv, xor_keystream(key, iv, data, offset), offset) == data,
{
    let once = xor_keystream(key, iv, data, offset);
    assert forall|j: int| 0 <= j < data.len() implies #[trigger] xor_keystream(
        key,
        iv,
        once,
        offset,
    )[j] == data[j] by {
        let d = data[j];
        let k = keystream_byte(key, iv, (offset + j) as nat);
        assert((d ^ k) ^ k == d) by (bit_vector);
    }
    assert(xor_keystream(key, iv, once, offset) =~= data);
}

/// A file is encrypted as one stream that starts with the counter given: the byte at
/// `position` of the file meets the byte at `position % 16` of the block of the counter
/// `position / 16` steps on, wherever the piece that it is encrypted in starts.
pub proof fn file_is_one_stream(key: Seq<u8>, iv: Seq<u8>, data: Seq<u8>, offset: nat, j: int)
    requires
        0 <= j < data.len(),
    ensures
        xor_keystream(key, iv, data, offset).len() == data.len(),
        xor_keystream(key, iv, data, offset)[j] == data[j] ^ aes256_block(
            key,
            be_bytes(be_value(iv) + ((offset + j) / 16) as nat, 16),
        )[(offset + j) % 16],
{
}

/// Each further byte is the next digit of the number that bytes write, to the base of
/// 256.
pub proof fn bytes_are_digits(bytes: Seq<u8>, next: u8)
    ensures
        be_value(Seq::<u8>::empty()) == 0,
        be_value(bytes.push(next)) == be_value(bytes) * 256 + next,
{
    assert(bytes.push(next).drop_last() =~= bytes);
}

/// The bytes that a number is written in are its digits to the base of 256, the lowest
/// one last.
pub proof fn numbers_are_written_digit_by_digit(n: nat, len: nat, i: int)
    requires
        0 <= i < len,
    ensures
        be_bytes(n, len).len() == len,
        be_bytes(n, len)[i] == (n as int / vstd::arithmetic::power::pow(256, (len - 1 - i) as nat))
            % 256,
    decreases len,
{
    lemma_be_bytes_len(n, len);
    let shorter = (len - 1) as nat;
    lemma_be_bytes_len(n / 256, shorter);
    if i == len - 1 {
        vstd::arithmetic::power::lemma_pow0(256);
    } else {
        numbers_are_written_digit_by_digit(n / 256, shorter, i);
        let e = (len - 2 - i) as nat;
        vstd::arithmetic::power::lemma_pow_positive(256, e);
        vstd::arithmetic::power::lemma_pow_adds(256, 1, e);
        vstd::arithmetic::power::lemma_pow1(256);
        vstd::arithmetic::div_mod::lemma_div_denominator(
            n as int,
            256,
            vstd::arithmetic::power::pow(256, e),
        );
    }
}

proof fn lemma_value_of_be_bytes(n: nat, len: nat)
    ensures
        be_value(be_bytes(n, len)) == n as int % vstd::arithmetic::power::pow(256, len),
        vstd::arithmetic::power::pow(256, len) > 0,
    decreases len,
{
    vstd::arithmetic::power::lemma_pow_positive(256, len);
    if len == 0 {
        vstd::arithmetic::power::lemma_pow0(256);
    } else {
        let shorter = (len - 1) as nat;
        lemma_value_of_be_bytes(n / 256, shorter);
        let p = vstd::arithmetic::power::pow(256, shorter);
        vstd::arithmetic::power::lemma_pow_adds(256, 1, shorter);
        vstd::arithmetic::power::lemma_pow1(256);
        vstd::arithmetic::div_mod::lemma_mod_breakdown(n as int, 256, p);
        assert(be_bytes(n, len).drop_last() =~= be_bytes(n / 256, shorter));
    }
}

/// A counter counts: the number that it writes goes up with each step, and wraps where
/// sixteen bytes end.
pub proof fn counter_counts_blocks(counter: Seq<u8>, blocks: nat)
    ensures
        be_value(counter_block(counter, blocks)) == (be_value(counter) + blocks) as int
            % vstd::arithmetic::power::pow(256, 16),
{
    lemma_value_of_be_bytes(be_value(counter) + blocks, 16);
}

/// No two blocks of a file, as long as there are fewer than 256 to the power of 16 of
/// them, meet the same counter.
pub proof fn blocks_meet_different_counters(iv: Seq<u8>, one: nat, other: nat)
    requires
        one < other < vstd::arithmetic::power::pow(256, 16),
    ensures
        counter_block(iv, one) != counter_block(iv, other),
{
    let m = vstd::arithmetic::power::pow(256, 16);
    let v = be_value(iv);
    counter_counts_blocks(iv, one);
    counter_counts_blocks(iv, other);
    if counter_block(iv, one) == counter_block(iv, other) {
        vstd::arithmetic::div_mod::lemma_mod_equivalence(
            (v + other) as int,
            (v + one) as int,
            m,
        );
        vstd::arithmetic::div_mod::lemma_small_mod((other - one) as nat, m as nat);
    }
}

/// A key and a counter are taken exactly as they were decoded, and only if they have 32
/// and 16 bytes. Else what is wrong is told: first what could not be decoded, then what
/// has another length, and of both the key first.
pub proof fn key_and_counter_are_taken_as_they_are(
    r: UploadResult<EncryptionConfig>,
    key: Result<Seq<u8>, Seq<char>>,
    iv: Result<Seq<u8>, Seq<char>>,
)
    requires
        EncryptionConfig::is_outcome(r, config_parts(key, iv)),
    ensures
        r is Ok <==> key is Ok && iv is Ok && key->Ok_0.len() == 32 && iv->Ok_0.len() == 16,
        r matches Ok(config) ==> key == Ok::<Seq<u8>, Seq<char>>(config.key()) && iv == Ok::<
            Seq<u8>,
            Seq<char>,
        >(config.iv()),
        r matches Err(e) ==> {
            &&& e matches UploadError::EncryptionError(m)
            &&& key matches Err(cause) ==> m@ == "Invalid key: "@ + cause
            &&& key is Ok && iv is Err ==> m@ == "Invalid IV: "@ + iv->Err_0
            &&& key is Ok && iv is Ok && key->Ok_0.len() != 32 ==> m@
                == "Invalid key length: expected 32, got "@ + decimal(key->Ok_0.len())
            &&& key is Ok && iv is Ok && key->Ok_0.len() == 32 ==> m@
                == "Invalid IV length: expected 16, got "@ + decimal(iv->Ok_0.len())
        },
{
}

}
