//! Duino-Coin miner logic: the pool lookup answer, the job protocol spoken
//! with the mining node, and the DUCO-S1 nonce search.
//!
//! DUCO-S1: a job gives the previous block hash `h` (text), the expected
//! SHA-1 digest `e` (40 hex characters) and a difficulty `d`; the answer is
//! the smallest nonce `n < d * 100 + 1` with `SHA-1(h ++ decimal(n)) == e`.

use sha1::Digest;
use vstd::prelude::*;
use vstd::utf8::*;
use vstd::string::StringSliceAdditionalSpecFns;
use crate::text::{
    append_decimal, char_position, chars_of, decimal_bytes, decimal_chars, find, find_spec,
    is_unicode_whitespace, is_whitespace, parse_unsigned, parse_unsigned_spec, position_of_char,
    is_canonical_decimal, ascii_digits_value, lemma_canonical_decimal_unique, push_decimal_bytes, split, split_spec, trim, trim_spec, trim_start, trim_start_spec,
};

verus! {

/// Name the miner reports with every share.
pub const MINER_BANNER: &'static str = "SensorSensei Miner";

/// Length in bytes of a SHA-1 digest.
pub const HASH_LEN: usize = 20;

/// Length of a SHA-1 digest written in hexadecimal.
pub const HASH_HEX_LEN: usize = 40;

/// The SHA-1 digest of `data`.
pub uninterp spec fn sha1_spec(data: Seq<u8>) -> Seq<u8>;

/// `<sha1::Sha1 as sha1::Digest>::digest`: the SHA-1 digest of `data`, which
/// depends on `data` alone.
#[verifier::external_body]
fn sha1_digest(data: &[u8]) -> (d: [u8; HASH_LEN])
    ensures
        d@ == sha1_spec(data@),
{
    sha1::Sha1::digest(data).into()
}

/// `std::str::Utf8Error`, carried through opaquely: only whether UTF-8
/// decoding failed is used.
#[verifier::external_type_specification]
#[verifier::external_body]
pub struct ExUtf8Error(std::str::Utf8Error);

/// `std::str::from_utf8`: succeeds exactly when `bytes` is valid UTF-8, and
/// then returns the text those bytes encode.
#[verifier::external_body]
fn str_from_utf8(bytes: &[u8]) -> (r: Result<&str, std::str::Utf8Error>)
    ensures
        r is Ok <==> valid_utf8(bytes@),
        r matches Ok(s) ==> s.spec_bytes() == bytes@,
{
    std::str::from_utf8(bytes)
}

// ---------------------------------------------------------------- hex ----

/// Why a hexadecimal digest could not be decoded.
#[derive(Debug, Clone, Copy, PartialEq, Eq)]
pub enum HexError {
    /// The text is not 40 bytes long (the length it has is given).
    WrongLength(usize),
    /// Some two-character group is not a hexadecimal byte.
    InvalidDigit,
}

/// Whether the byte is an ASCII hexadecimal digit.
pub open spec fn is_hex_digit(b: u8) -> bool {
    (48 <= b && b <= 57) || (65 <= b && b <= 70) || (97 <= b && b <= 102)
}

/// The value of an ASCII hexadecimal digit.
pub open spec fn hex_value(b: u8) -> int {
    if 48 <= b && b <= 57 {
        b - 48
    } else if 65 <= b && b <= 70 {
        b - 55
    } else {
        b - 87
    }
}

/// Whether the two bytes `b0 b1` read as a `u8` in base 16 (the rule of
/// `u8::from_str_radix`: an optional `+`, then digits).
pub open spec fn hex_pair_valid(b0: u8, b1: u8) -> bool {
    (b0 == 43 && is_hex_digit(b1)) || (is_hex_digit(b0) && is_hex_digit(b1))
}

/// The byte the two characters `b0 b1` stand for.
pub open spec fn hex_pair_value(b0: u8, b1: u8) -> u8 {
    if b0 == 43 {
        hex_value(b1) as u8
    } else {
        (hex_value(b0) * 16 + hex_value(b1)) as u8
    }
}

/// Whether the first `i` two-byte groups of `b` are hexadecimal bytes.
pub open spec fn hex_pairs_valid_before(b: Seq<u8>, i: int) -> bool {
    forall|j: int| 0 <= j < i ==> #[trigger] hex_pair_valid(b[2 * j], b[2 * j + 1])
}

/// Whether the two-byte group `i` of `b` starts and ends on character boundaries.
pub open spec fn group_on_boundaries(b: Seq<u8>, i: int) -> bool {
    is_char_boundary(b, 2 * i) && is_char_boundary(b, 2 * i + 2)
}

/// Whether decoding the 40-byte text `b` group by group would have to cut
/// inside a character: the first group that is not a hexadecimal byte does
/// not start and end on character boundaries.
pub open spec fn hex_decode_cuts_character(b: Seq<u8>) -> bool {
    &&& b.len() == HASH_HEX_LEN
    &&& exists|i: int|
        0 <= i < HASH_LEN && hex_pairs_valid_before(b, i) && !#[trigger] group_on_boundaries(b, i)
}

/// The 20 bytes a 40-character hexadecimal text stands for.
pub open spec fn hex_bytes(b: Seq<u8>) -> Seq<u8> {
    Seq::new(HASH_LEN as nat, |i: int| hex_pair_value(b[2 * i], b[2 * i + 1]))
}

/// What decoding the UTF-8 bytes `b` of a hexadecimal digest gives.
pub open spec fn hex_decode_spec(b: Seq<u8>) -> Result<Seq<u8>, HexError> {
    if b.len() != HASH_HEX_LEN {
        Err(HexError::WrongLength(b.len() as usize))
    } else if hex_pairs_valid_before(b, HASH_LEN as int) {
        Ok(hex_bytes(b))
    } else {
        Err(HexError::InvalidDigit)
    }
}

/// The ASCII hexadecimal digit for `d` (0..16), in upper or lower case.
pub open spec fn hex_digit_byte(d: int, upper: bool) -> u8 {
    if d < 10 {
        (48 + d) as u8
    } else if upper {
        (55 + d) as u8
    } else {
        (87 + d) as u8
    }
}

/// The bytes `b` written in hexadecimal, two digits per byte, high digit first.
pub open spec fn hex_text(b: Seq<u8>, upper: bool) -> Seq<u8> {
    Seq::new(
        2 * b.len(),
        |i: int|
            hex_digit_byte(
                if i % 2 == 0 {
                    b[i / 2] / 16
                } else {
                    b[i / 2] % 16
                } as int,
                upper,
            ),
    )
}

proof fn lemma_hex_digit_byte(d: int, upper: bool)
    requires
        0 <= d < 16,
    ensures
        is_hex_digit(hex_digit_byte(d, upper)),
        hex_value(hex_digit_byte(d, upper)) == d,
        hex_digit_byte(d, upper) < 128,
        hex_digit_byte(d, upper) != 43,
{
}

proof fn lemma_hex_text_pair(b: Seq<u8>, upper: bool, j: int)
    requires
        0 <= j < b.len(),
    ensures
        hex_text(b, upper)[2 * j] < 128,
        hex_text(b, upper)[2 * j + 1] < 128,
        hex_pair_valid(hex_text(b, upper)[2 * j], hex_text(b, upper)[2 * j + 1]),
        hex_pair_value(hex_text(b, upper)[2 * j], hex_text(b, upper)[2 * j + 1]) == b[j],
{
    let t = hex_text(b, upper);
    assert((2 * j) % 2 == 0 && (2 * j) / 2 == j);
    assert((2 * j + 1) % 2 == 1 && (2 * j + 1) / 2 == j);
    assert(t[2 * j] == hex_digit_byte((b[j] / 16) as int, upper));
    assert(t[2 * j + 1] == hex_digit_byte((b[j] % 16) as int, upper));
    lemma_hex_digit_byte((b[j] / 16) as int, upper);
    lemma_hex_digit_byte((b[j] % 16) as int, upper);
}

proof fn lemma_hex_text_ascii(b: Seq<u8>, upper: bool)
    ensures
        forall|i: int| 0 <= i < hex_text(b, upper).len() ==> #[trigger] hex_text(b, upper)[i] < 128,
{
    assert forall|i: int| 0 <= i < hex_text(b, upper).len() implies #[trigger] hex_text(b, upper)[i]
        < 128 by {
        let j = i / 2;
        lemma_hex_text_pair(b, upper, j);
        if i % 2 == 0 {
            assert(i == 2 * j);
        } else {
            assert(i == 2 * j + 1);
        }
    }
}

proof fn lemma_ascii_groups_on_boundaries(t: Seq<u8>)
    requires
        valid_utf8(t),
        t.len() == HASH_HEX_LEN,
        forall|i: int| 0 <= i < t.len() ==> #[trigger] t[i] < 128,
    ensures
        forall|i: int| 0 <= i < HASH_LEN ==> #[trigger] group_on_boundaries(t, i),
{
    assert forall|i: int| 0 <= i < HASH_LEN implies #[trigger] group_on_boundaries(t, i) by {
        assert(t[2 * i] < 128);
        is_char_boundary_iff_not_is_continuation_byte(t, 2 * i);
        if 2 * i + 2 < t.len() {
            assert(t[2 * i + 2] < 128);
            is_char_boundary_iff_not_is_continuation_byte(t, 2 * i + 2);
        } else {
            is_char_boundary_start_end_of_seq(t);
        }
    }
}

/// Decoding the hexadecimal text (either case) of any 20 bytes gives those
/// bytes back, and the text can be decoded without cutting a character.
pub proof fn lemma_hex_round_trip(text: Seq<char>, b: Seq<u8>, upper: bool)
    requires
        b.len() == HASH_LEN,
        encode_utf8(text) == hex_text(b, upper),
    ensures
        !hex_decode_cuts_character(encode_utf8(text)),
        hex_decode_spec(encode_utf8(text)) == Ok::<Seq<u8>, HexError>(b),
{
    let t = hex_text(b, upper);
    encode_utf8_valid_utf8(text);
    assert forall|j: int| 0 <= j < HASH_LEN implies #[trigger] hex_pair_valid(t[2 * j], t[2 * j + 1])
        && hex_pair_value(t[2 * j], t[2 * j + 1]) == b[j] by {
        lemma_hex_text_pair(b, upper, j);
    }
    assert(hex_bytes(t) =~= b);
    lemma_hex_text_ascii(b, upper);
    lemma_ascii_groups_on_boundaries(t);
}

fn hex_digit_value(b: u8) -> (r: Option<u8>)
    ensures
        r matches Some(v) ==> is_hex_digit(b) && v == hex_value(b),
        r is None ==> !is_hex_digit(b),
{
    if 48 <= b && b <= 57 {
        Some(b - 48)
    } else if 65 <= b && b <= 70 {
        Some(b - 55)
    } else if 97 <= b && b <= 102 {
        Some(b - 87)
    } else {
        None
    }
}

/// Whether `hex_to_bytes` can decode `hex` without cutting inside a
/// character.
pub fn hex_decode_is_safe(hex: &str) -> (safe: bool)
    ensures
        safe == !hex_decode_cuts_character(hex.spec_bytes()),
{
    let bytes = hex.as_bytes();
    proof {
        encode_utf8_valid_utf8(hex@);
        assert(hex.spec_bytes() == encode_utf8(hex@));
    }
    if bytes.len() != HASH_HEX_LEN {
        return true;
    }
    let mut i: usize = 0;
    while i < HASH_LEN
        invariant
            bytes@ == hex.spec_bytes(),
            valid_utf8(bytes@),
            bytes@.len() == HASH_HEX_LEN,
            i <= HASH_LEN,
            hex_pairs_valid_before(bytes@, i as int),
            forall|j: int| 0 <= j < i ==> #[trigger] group_on_boundaries(bytes@, j),
        decreases HASH_LEN - i,
    {
        if !(hex.is_char_boundary(2 * i) && hex.is_char_boundary(2 * i + 2)) {
            assert(!group_on_boundaries(bytes@, i as int));
            return false;
        }
        assert(group_on_boundaries(bytes@, i as int));
        let b0 = bytes[2 * i];
        let b1 = bytes[2 * i + 1];
        let valid = match (hex_digit_value(b0), hex_digit_value(b1)) {
            (Some(_), Some(_)) => true,
            (None, Some(_)) => b0 == 43,
            _ => false,
        };
        if !valid {
            assert forall|k: int|
                0 <= k < HASH_LEN && hex_pairs_valid_before(bytes@, k) implies #[trigger] group_on_boundaries(
                bytes@,
                k,
            ) by {
                if k > i {
                    assert(hex_pair_valid(bytes@[2 * i], bytes@[2 * i + 1]));
                }
            }
            return true;
        }
        i = i + 1;
    }
    assert forall|k: int|
        0 <= k < HASH_LEN && hex_pairs_valid_before(bytes@, k) implies #[trigger] group_on_boundaries(
        bytes@,
        k,
    ) by {}
    true
}

/// Decodes a SHA-1 digest written as 40 hexadecimal characters.
pub fn hex_to_bytes(hex: &str) -> (r: Result<[u8; HASH_LEN], HexError>)
    requires
        !hex_decode_cuts_character(hex.spec_bytes()),
    ensures
        r matches Ok(b) ==> hex_decode_spec(hex.spec_bytes()) == Ok::<Seq<u8>, HexError>(b@),
        r matches Err(e) ==> hex_decode_spec(hex.spec_bytes()) == Err::<Seq<u8>, HexError>(e),
{
    let bytes = hex.as_bytes();
    if bytes.len() != HASH_HEX_LEN {
        return Err(HexError::WrongLength(bytes.len()));
    }
    let mut out = [0u8; HASH_LEN];
    let mut i: usize = 0;
    while i < HASH_LEN
        invariant
            bytes@ == hex.spec_bytes(),
            bytes@.len() == HASH_HEX_LEN,
            i <= HASH_LEN,
            hex_pairs_valid_before(bytes@, i as int),
            forall|j: int| 0 <= j < i ==> out@[j] == #[trigger] hex_bytes(bytes@)[j],
        decreases HASH_LEN - i,
    {
        let b0 = bytes[2 * i];
        let b1 = bytes[2 * i + 1];
        let value = match (hex_digit_value(b0), hex_digit_value(b1)) {
            (Some(hi), Some(lo)) => {
                if b0 == 43 {
                    lo
                } else {
                    hi * 16 + lo
                }
            },
            (None, Some(lo)) => {
                if b0 == 43 {
                    lo
                } else {
                    assert(!hex_pair_valid(bytes@[2 * (i as int)], bytes@[2 * (i as int) + 1]));
                    return Err(HexError::InvalidDigit);
                }
            },
            _ => {
                assert(!hex_pair_valid(bytes@[2 * (i as int)], bytes@[2 * (i as int) + 1]));
                return Err(HexError::InvalidDigit);
            },
        };
        out[i] = value;
        i = i + 1;
    }
    assert(out@ =~= hex_bytes(bytes@));
    Ok(out)
}

// ---------------------------------------------------------------- jobs ---

/// A mining job: find the nonce whose hash with `last_hash` is `expected_hash`.
#[derive(Debug)]
pub struct Job {
    pub last_hash: String,
    pub expected_hash: [u8; HASH_LEN],
    pub difficulty: u32,
}

/// Why a job line from the mining node was refused.
#[derive(Debug, Clone, Copy, PartialEq, Eq)]
pub enum JobError {
    /// Fewer than three comma-separated fields.
    Malformed,
    /// The third field is not a `u32`.
    BadDifficulty,
    /// The second field is not a 40-character hexadecimal digest.
    BadHash(HexError),
}

/// The comma-separated fields of a job line, once surrounding whitespace is removed.
pub open spec fn job_fields(line: Seq<char>) -> Seq<Seq<char>> {
    split_spec(trim_spec(line), ',')
}

/// Whether parsing the job line would reach the digest decoding and cut it
/// inside a character.
pub open spec fn job_decode_cuts_character(line: Seq<char>) -> bool {
    let f = job_fields(line);
    &&& f.len() >= 3
    &&& parse_unsigned_spec(f[2], u32::MAX as nat) is Some
    &&& hex_decode_cuts_character(encode_utf8(f[1]))
}

/// What parsing a job line gives: the previous hash text, the expected
/// digest bytes and the difficulty.
pub open spec fn parse_job_spec(line: Seq<char>) -> Result<(Seq<char>, Seq<u8>, u32), JobError> {
    let f = job_fields(line);
    if f.len() < 3 {
        Err(JobError::Malformed)
    } else if parse_unsigned_spec(f[2], u32::MAX as nat) is None {
        Err(JobError::BadDifficulty)
    } else {
        match hex_decode_spec(encode_utf8(f[1])) {
            Err(e) => Err(JobError::BadHash(e)),
            Ok(h) => Ok((f[0], h, parse_unsigned_spec(f[2], u32::MAX as nat)->Some_0 as u32)),
        }
    }
}

/// Whether parsing `line` can proceed without cutting a character apart.
pub fn job_line_is_safe(line: &str) -> (safe: bool)
    ensures
        safe == !job_decode_cuts_character(line@),
{
    let trimmed = trim(line);
    let fields = split(trimmed.as_str(), ',');
    if fields.len() < 3 {
        return true;
    }
    if parse_unsigned(fields[2].as_str(), 0xFFFF_FFFF).is_none() {
        return true;
    }
    hex_decode_is_safe(fields[1].as_str())
}

/// Parses the job line `last_hash,expected_hash_hex,difficulty[,...]`.
pub fn parse_job(line: &str) -> (r: Result<Job, JobError>)
    requires
        !job_decode_cuts_character(line@),
    ensures
        r matches Ok(job) ==> parse_job_spec(line@) == Ok::<(Seq<char>, Seq<u8>, u32), JobError>(
            (job.last_hash@, job.expected_hash@, job.difficulty),
        ),
        r matches Err(e) ==> parse_job_spec(line@) == Err::<(Seq<char>, Seq<u8>, u32), JobError>(e),
{
    let trimmed = trim(line);
    let fields = split(trimmed.as_str(), ',');
    if fields.len() < 3 {
        return Err(JobError::Malformed);
    }
    let difficulty = match parse_unsigned(fields[2].as_str(), 0xFFFF_FFFF) {
        Some(d) => d as u32,
        None => {
            return Err(JobError::BadDifficulty);
        },
    };
    let expected_hash = match hex_to_bytes(fields[1].as_str()) {
        Ok(h) => h,
        Err(e) => {
            return Err(JobError::BadHash(e));
        },
    };
    let last_hash = String::from_str(fields[0].as_str());
    Ok(Job { last_hash, expected_hash, difficulty })
}

impl Job {
    /// The exclusive upper bound of the nonce range: `difficulty * 100 + 1`.
    pub fn max_nonce(&self) -> (m: u32)
        requires
            self.difficulty * 100 + 1 <= u32::MAX,
        ensures
            m == self.difficulty * 100 + 1,
    {
        self.difficulty * 100 + 1
    }
}

/// Whether `nonce` solves the job: SHA-1 of the previous hash's bytes
/// followed by the nonce's decimal digits is the expected digest.
pub open spec fn nonce_solves(last_hash: Seq<u8>, expected: Seq<u8>, nonce: nat) -> bool {
    sha1_spec(last_hash + decimal_bytes(nonce)) == expected
}

/// A nonce solves a job exactly when SHA-1 of the previous hash's bytes
/// followed by decimal digits that denote the nonce (without leading zeros)
/// is the expected digest.
pub proof fn lemma_nonce_solves_digits(
    last_hash: Seq<u8>,
    expected: Seq<u8>,
    nonce: nat,
    digits: Seq<u8>,
)
    requires
        is_canonical_decimal(digits),
        ascii_digits_value(digits) == nonce,
    ensures
        nonce_solves(last_hash, expected, nonce) == (sha1_spec(last_hash + digits) == expected),
{
    lemma_canonical_decimal_unique(digits, nonce);
}

fn digests_equal(a: &[u8; HASH_LEN], b: &[u8; HASH_LEN]) -> (eq: bool)
    ensures
        eq == (a@ == b@),
{
    let mut i: usize = 0;
    while i < HASH_LEN
        invariant
            i <= HASH_LEN,
            forall|j: int| 0 <= j < i ==> a@[j] == b@[j],
        decreases HASH_LEN - i,
    {
        if a[i] != b[i] {
            return false;
        }
        i = i + 1;
    }
    assert(a@ =~= b@);
    true
}

/// DUCO-S1 search: the smallest nonce below `max_nonce` that solves the job,
/// or `None` when there is none.
pub fn find_nonce(last_hash: &str, expected_hash: &[u8; HASH_LEN], max_nonce: u32) -> (r: Option<
    u32,
>)
    ensures
        r matches Some(n) ==> n < max_nonce && nonce_solves(
            last_hash.spec_bytes(),
            expected_hash@,
            n as nat,
        ) && forall|m: nat| m < n ==> !nonce_solves(last_hash.spec_bytes(), expected_hash@, m),
        r is None ==> forall|m: nat|
            m < max_nonce ==> !nonce_solves(last_hash.spec_bytes(), expected_hash@, m),
{
    let prefix = last_hash.as_bytes();
    let mut nonce: u32 = 0;
    while nonce < max_nonce
        invariant
            prefix@ == last_hash.spec_bytes(),
            nonce <= max_nonce,
            forall|m: nat| m < nonce ==> !nonce_solves(last_hash.spec_bytes(), expected_hash@, m),
        decreases max_nonce - nonce,
    {
        let mut data: Vec<u8> = Vec::new();
        let mut i: usize = 0;
        while i < prefix.len()
            invariant
                i <= prefix@.len(),
                data@ == prefix@.take(i as int),
            decreases prefix@.len() - i,
        {
            data.push(prefix[i]);
            i = i + 1;
            assert(data@ =~= prefix@.take(i as int));
        }
        assert(prefix@.take(prefix@.len() as int) =~= prefix@);
        push_decimal_bytes(&mut data, nonce as u64);
        let digest = sha1_digest(data.as_slice());
        if digests_equal(&digest, expected_hash) {
            return Some(nonce);
        }
        nonce = nonce + 1;
    }
    None
}

/// Running count of accepted and rejected shares.
#[derive(Debug, Clone, Copy, PartialEq, Eq)]
pub struct ShareTally {
    pub accepted: u32,
    pub rejected: u32,
}

impl ShareTally {
    /// No share submitted yet.
    pub fn new() -> (t: Self)
        ensures
            t.accepted == 0 && t.rejected == 0,
    {
        ShareTally { accepted: 0, rejected: 0 }
    }

    /// Counts one share answer.
    pub fn record(&mut self, accepted: bool)
        requires
            old(self).accepted < u32::MAX,
            old(self).rejected < u32::MAX,
        ensures
            accepted ==> final(self).accepted == old(self).accepted + 1 && final(self).rejected
                == old(self).rejected,
            !accepted ==> final(self).rejected == old(self).rejected + 1 && final(self).accepted
                == old(self).accepted,
    {
        if accepted {
            self.accepted = self.accepted + 1;
        } else {
            self.rejected = self.rejected + 1;
        }
    }
}

/// What happened last in a mining session.
#[derive(Debug, Clone, Copy, PartialEq, Eq)]
pub enum SessionEvent {
    /// The nonce search of the current job ended, with the nonce found if any.
    SearchDone(Option<u32>),
    /// The mining node answered a submitted share (accepted or not).
    ShareAnswered(bool),
}

/// What the session does next.
#[derive(Debug, Clone, Copy, PartialEq, Eq)]
pub enum SessionAction {
    /// Submit the found nonce and wait for the answer.
    Submit(u32),
    /// Ask the mining node for the next job.
    RequestJob,
}

/// The decision of a mining session after each event: a found nonce is
/// submitted; a search without result, or an answered share (counted in
/// `tally`), leads to the next job request.
pub fn session_step(tally: &mut ShareTally, event: SessionEvent) -> (action: SessionAction)
    requires
        event matches SessionEvent::ShareAnswered(_) ==> old(tally).accepted < u32::MAX
            && old(tally).rejected < u32::MAX,
    ensures
        event matches SessionEvent::SearchDone(Some(n)) ==> action == SessionAction::Submit(n)
            && *final(tally) == *old(tally),
        event matches SessionEvent::SearchDone(None) ==> action == SessionAction::RequestJob
            && *final(tally) == *old(tally),
        event matches SessionEvent::ShareAnswered(acc) ==> action == SessionAction::RequestJob
            && (acc ==> final(tally).accepted == old(tally).accepted + 1
            && final(tally).rejected == old(tally).rejected) && (!acc
            ==> final(tally).rejected == old(tally).rejected + 1 && final(tally).accepted
            == old(tally).accepted),
{
    match event {
        SessionEvent::SearchDone(Some(n)) => SessionAction::Submit(n),
        SessionEvent::SearchDone(None) => SessionAction::RequestJob,
        SessionEvent::ShareAnswered(acc) => {
            tally.record(acc);
            SessionAction::RequestJob
        },
    }
}

/// Whether the mining node's answer to a share accepts it: `GOOD` or
/// `BLOCK` once surrounding whitespace is removed.
pub open spec fn share_accepted_spec(response: Seq<char>) -> bool {
    let t = trim_spec(response);
    t == seq!['G', 'O', 'O', 'D'] || t == seq!['B', 'L', 'O', 'C', 'K']
}

/// A share is accepted exactly when the answer, once surrounding
/// whitespace is removed, is the text `GOOD` or the text `BLOCK`; every
/// other answer (such as `BAD` or `BAD,reason`) is rejected.
pub proof fn lemma_share_accepted_exactly(response: Seq<char>)
    ensures
        share_accepted_spec(response) <==> ({
            let t = trim_spec(response);
            ||| (t.len() == 4 && t[0] == 'G' && t[1] == 'O' && t[2] == 'O' && t[3] == 'D')
            ||| (t.len() == 5 && t[0] == 'B' && t[1] == 'L' && t[2] == 'O' && t[3] == 'C' && t[4]
                == 'K')
        }),
{
    let t = trim_spec(response);
    if t.len() == 4 && t[0] == 'G' && t[1] == 'O' && t[2] == 'O' && t[3] == 'D' {
        assert(t =~= seq!['G', 'O', 'O', 'D']);
    }
    if t.len() == 5 && t[0] == 'B' && t[1] == 'L' && t[2] == 'O' && t[3] == 'C' && t[4] == 'K' {
        assert(t =~= seq!['B', 'L', 'O', 'C', 'K']);
    }
}

fn chars_equal(a: &Vec<char>, b: &Vec<char>) -> (eq: bool)
    ensures
        eq == (a@ == b@),
{
    if a.len() != b.len() {
        return false;
    }
    let mut i: usize = 0;
    while i < a.len()
        invariant
            a@.len() == b@.len(),
            i <= a@.len(),
            forall|j: int| 0 <= j < i ==> a@[j] == b@[j],
        decreases a@.len() - i,
    {
        if a[i] != b[i] {
            return false;
        }
        i = i + 1;
    }
    assert(a@ =~= b@);
    true
}

/// Whether the mining node accepted the submitted share.
pub fn share_accepted(response: &str) -> (accepted: bool)
    ensures
        accepted == share_accepted_spec(response@),
{
    let trimmed = trim(response);
    let t = chars_of(trimmed.as_str());
    let good = vec!['G', 'O', 'O', 'D'];
    let block = vec!['B', 'L', 'O', 'C', 'K'];
    assert(good@ =~= seq!['G', 'O', 'O', 'D']);
    assert(block@ =~= seq!['B', 'L', 'O', 'C', 'K']);
    chars_equal(&t, &good) || chars_equal(&t, &block)
}

// --------------------------------------------------------------- miner ---

/// The identity a miner works under.
pub struct DucoMiner {
    username: String,
    mining_key: String,
    device_id: String,
}

impl View for DucoMiner {
    /// The account name, the mining key and the device id.
    type V = (Seq<char>, Seq<char>, Seq<char>);

    closed spec fn view(&self) -> (Seq<char>, Seq<char>, Seq<char>) {
        (self.username@, self.mining_key@, self.device_id@)
    }
}

impl DucoMiner {
    /// A miner for the account `username` (with its `mining_key`) running on
    /// the device `chip_id`.
    pub fn new(chip_id: &str, username: &str, mining_key: &str) -> (m: Self)
        ensures
            m@ == (username@, mining_key@, chip_id@),
    {
        DucoMiner {
            username: String::from_str(username),
            mining_key: String::from_str(mining_key),
            device_id: String::from_str(chip_id),
        }
    }

    /// The line that asks the mining node for a job:
    /// `JOB,<username>,ESP32,<mining key>\n`.
    pub fn job_request(&self) -> (line: String)
        ensures
            line@ == seq!['J', 'O', 'B', ','] + self@.0 + seq![',', 'E', 'S', 'P', '3', '2', ',']
                + self@.1 + seq!['\n'],
    {
        let mut line = String::from_str("JOB,");
        line.append(self.username.as_str());
        line.append(",ESP32,");
        line.append(self.mining_key.as_str());
        line.append("\n");
        proof {
            reveal_strlit("JOB,");
            reveal_strlit(",ESP32,");
            reveal_strlit("\n");
        }
        line
    }

    /// The line that submits a found nonce:
    /// `<nonce>,<hashrate>,SensorSensei Miner,<device>,DUCOID<device>\n`.
    pub fn submit_line(&self, nonce: u32, hashrate: &str) -> (line: String)
        ensures
            line@ == decimal_chars(nonce as nat) + seq![','] + hashrate@ + seq![',']
                + MINER_BANNER@ + seq![','] + self@.2 + seq![',', 'D', 'U', 'C', 'O', 'I', 'D']
                + self@.2 + seq!['\n'],
    {
        let mut line = String::new();
        append_decimal(&mut line, nonce as u64);
        line.append(",");
        line.append(hashrate);
        line.append(",");
        line.append(MINER_BANNER);
        line.append(",");
        line.append(self.device_id.as_str());
        line.append(",DUCOID");
        line.append(self.device_id.as_str());
        line.append("\n");
        proof {
            reveal_strlit(",");
            reveal_strlit(",DUCOID");
            reveal_strlit("\n");
        }
        line
    }
}

// ---------------------------------------------------------------- pool ---

/// The key of a JSON member, quotes included.
pub open spec fn quoted_key(key: Seq<char>) -> Seq<char> {
    seq!['"'] + key + seq!['"']
}

/// Whether `c` ends an unquoted JSON value.
pub open spec fn is_value_end(c: char) -> bool {
    c == ',' || c == '}' || is_unicode_whitespace(c)
}

/// Whether `i` is the index of the first character of `s` that ends an
/// unquoted value.
pub open spec fn is_first_value_end(s: Seq<char>, i: int) -> bool {
    &&& 0 <= i < s.len()
    &&& is_value_end(s[i])
    &&& forall|j: int| 0 <= j < i ==> !is_value_end(#[trigger] s[j])
}

/// Length of the unquoted value at the start of `s`.
pub open spec fn value_end(s: Seq<char>) -> int {
    if exists|i: int| 0 <= i < s.len() && is_value_end(#[trigger] s[i]) {
        choose|i: int| is_first_value_end(s, i)
    } else {
        s.len() as int
    }
}

/// The value at the start of `rest`: the text between two quotes, or the
/// text up to the first `,`, `}` or whitespace.
pub open spec fn json_value_spec(rest: Seq<char>) -> Option<Seq<char>> {
    if rest.len() > 0 && rest[0] == '"' {
        match char_position(rest.drop_first(), '"') {
            Some(j) => Some(rest.drop_first().take(j)),
            None => None,
        }
    } else {
        Some(rest.take(value_end(rest)))
    }
}

/// What looking up `key` in the flat JSON text `json` gives: the value after
/// the first occurrence of the quoted key and a colon.
pub open spec fn extract_json_spec(json: Seq<char>, key: Seq<char>) -> Option<Seq<char>> {
    let pattern = quoted_key(key);
    match find_spec(json, pattern) {
        None => None,
        Some(idx) => {
            let rest = trim_start_spec(json.skip(idx + pattern.len()));
            if rest.len() > 0 && rest[0] == ':' {
                json_value_spec(trim_start_spec(rest.drop_first()))
            } else {
                None
            }
        },
    }
}

fn value_end_position(s: &Vec<char>) -> (k: usize)
    ensures
        k == value_end(s@),
        k <= s@.len(),
{
    let n = s.len();
    let mut i: usize = 0;
    while i < n
        invariant
            n == s@.len(),
            i <= n,
            forall|j: int| 0 <= j < i ==> !is_value_end(#[trigger] s@[j]),
        decreases n - i,
    {
        let c = s[i];
        if c == ',' || c == '}' || is_whitespace(c) {
            proof {
                assert(is_first_value_end(s@, i as int));
                let k = choose|k: int| is_first_value_end(s@, k);
                if k < i as int {
                    assert(!is_value_end(s@[k]));
                } else if k > i as int {
                    assert(!is_value_end(s@[i as int]));
                }
            }
            return i;
        }
        i = i + 1;
    }
    n
}

/// Looks `key` up in a flat JSON object without a JSON library: the value
/// after the first `"key"`, whitespace and a colon, either quoted or running
/// up to the next `,`, `}` or whitespace.
pub fn extract_json_string(json: &str, key: &str) -> (r: Option<String>)
    ensures
        r matches Some(v) ==> extract_json_spec(json@, key@) == Some(v@),
        r is None ==> extract_json_spec(json@, key@) is None,
{
    let js = chars_of(json);
    let mut quoted = String::from_str("\"");
    quoted.append(key);
    quoted.append("\"");
    proof {
        reveal_strlit("\"");
    }
    let pattern = chars_of(quoted.as_str());
    assert(pattern@ =~= quoted_key(key@));
    let idx = match find(&js, &pattern) {
        Some(i) => i,
        None => {
            return None;
        },
    };
    let total = js.len();
    assert(idx + pattern@.len() <= total);
    let after = idx + pattern.len();
    let rest = trim_start(json.substring_char(after, js.len()));
    assert(json@.subrange(after as int, js@.len() as int) =~= json@.skip(after as int));
    let rest_chars = chars_of(rest.as_str());
    if rest_chars.len() == 0 || rest_chars[0] != ':' {
        return None;
    }
    let value_text = trim_start(rest.as_str().substring_char(1, rest_chars.len()));
    assert(rest@.subrange(1, rest@.len() as int) =~= rest@.drop_first());
    let value_chars = chars_of(value_text.as_str());
    if value_chars.len() > 0 && value_chars[0] == '"' {
        let body = value_text.as_str().substring_char(1, value_chars.len());
        assert(value_text@.subrange(1, value_text@.len() as int) =~= value_text@.drop_first());
        let body_chars = chars_of(body);
        match position_of_char(&body_chars, '"') {
            Some(j) => Some(String::from_str(body.substring_char(0, j))),
            None => None,
        }
    } else {
        let end = value_end_position(&value_chars);
        Some(String::from_str(value_text.as_str().substring_char(0, end)))
    }
}

/// Why the pool lookup answer was refused.
#[derive(Debug, Clone, Copy, PartialEq, Eq)]
pub enum PoolError {
    /// The answer is not UTF-8 text.
    NotUtf8,
    /// The answer has no `ip` member.
    MissingIp,
    /// The answer has no `port` member.
    MissingPort,
    /// The `port` member is not a `u16`.
    BadPort,
}

/// What the pool lookup answer `body` gives: the mining node's address and port.
pub open spec fn pool_response_spec(body: Seq<u8>) -> Result<(Seq<char>, u16), PoolError> {
    if !valid_utf8(body) {
        Err(PoolError::NotUtf8)
    } else {
        let json = decode_utf8(body);
        match extract_json_spec(json, seq!['i', 'p']) {
            None => Err(PoolError::MissingIp),
            Some(ip) => match extract_json_spec(json, seq!['p', 'o', 'r', 't']) {
                None => Err(PoolError::MissingPort),
                Some(port) => match parse_unsigned_spec(port, u16::MAX as nat) {
                    None => Err(PoolError::BadPort),
                    Some(p) => Ok((ip, p as u16)),
                },
            },
        }
    }
}

/// Reads the mining node's address and port from the pool lookup answer.
pub fn parse_pool_response(body: &[u8]) -> (r: Result<(String, u16), PoolError>)
    ensures
        r matches Ok((ip, port)) ==> pool_response_spec(body@) == Ok::<
            (Seq<char>, u16),
            PoolError,
        >((ip@, port)),
        r matches Err(e) ==> pool_response_spec(body@) == Err::<(Seq<char>, u16), PoolError>(e),
{
    let json = match str_from_utf8(body) {
        Ok(s) => s,
        Err(_) => {
            return Err(PoolError::NotUtf8);
        },
    };
    proof {
        encode_utf8_decode_utf8(json@);
        assert(json@ == decode_utf8(body@));
        reveal_strlit("ip");
        reveal_strlit("port");
        assert("ip"@ =~= seq!['i', 'p']);
        assert("port"@ =~= seq!['p', 'o', 'r', 't']);
    }
    let ip = match extract_json_string(json, "ip") {
        Some(ip) => ip,
        None => {
            return Err(PoolError::MissingIp);
        },
    };
    let port_text = match extract_json_string(json, "port") {
        Some(p) => p,
        None => {
            return Err(PoolError::MissingPort);
        },
    };
    match parse_unsigned(port_text.as_str(), 0xFFFF) {
        Some(port) => Ok((ip, port as u16)),
        None => Err(PoolError::BadPort),
    }
}

} // verus!
