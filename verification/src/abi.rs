//! ABI words of event payloads, event signature hashes, and the hexadecimal
//! text forms of byte strings and addresses.
use vstd::prelude::*;
use vstd::string::StringSliceAdditionalSpecFns;
use ethers::abi::{ParamType, Token};

use crate::num::U256;
use crate::types::{Address, H256};

verus! {

/// The static ABI parameter types that event payloads use; the width is
/// that of the Solidity type.
#[derive(Clone, Copy, Debug)]
pub enum AbiKind {
    Address,
    Uint(usize),
    Int(usize),
}

/// One decoded ABI word.
#[derive(Clone, Copy, Debug)]
pub enum AbiWord {
    Address(Address),
    Uint(U256),
    Int(U256),
    Other,
}

/// The number that a big-endian byte string stands for.
pub open spec fn be_value(bytes: Seq<u8>) -> nat
    decreases bytes.len(),
{
    if bytes.len() == 0 {
        0
    } else {
        be_value(bytes.drop_last()) * 256 + bytes.last() as nat
    }
}

/// The `i`-th 32-byte word of a payload.
pub open spec fn word_at(payload: Seq<u8>, i: int) -> Seq<u8> {
    payload.subrange(32 * i, 32 * i + 32)
}

/// What a word of the given kind decodes to: an address is the low 20
/// bytes of the word, an integer is the word read big-endian.
pub open spec fn word_decodes(kind: AbiKind, word: Seq<u8>, w: AbiWord) -> bool {
    match kind {
        AbiKind::Address => w matches AbiWord::Address(a) && a@ == word.subrange(12, 32),
        AbiKind::Uint(_) => w matches AbiWord::Uint(v) && v@ == be_value(word),
        AbiKind::Int(_) => w matches AbiWord::Int(v) && v@ == be_value(word),
    }
}

/// Decoding succeeds exactly when the payload holds a word for every kind.
pub open spec fn abi_decodable(kinds: Seq<AbiKind>, payload: Seq<u8>) -> bool {
    payload.len() >= 32 * kinds.len()
}

pub open spec fn abi_decoded(kinds: Seq<AbiKind>, payload: Seq<u8>, words: Seq<AbiWord>) -> bool {
    &&& words.len() == kinds.len()
    &&& forall|i: int|
        0 <= i < kinds.len() ==> #[trigger] word_decodes(kinds[i], word_at(payload, i), words[i])
}

/// `ethers::abi::decode` on static parameter types. Its source reads the
/// `i`-th parameter from bytes `32 * i .. 32 * i + 32` and fails only when
/// the payload is too short; that is what the contract states. The error's
/// message is the decoder's own text and is left unsaid.
#[verifier::external_body]
pub(crate) fn abi_decode(kinds: &[AbiKind], payload: &[u8]) -> (r: Result<Vec<AbiWord>, String>)
    ensures
        r is Ok <==> abi_decodable(kinds@, payload@),
        r matches Ok(words) ==> abi_decoded(kinds@, payload@, words@),
{
    let types: Vec<ParamType> = kinds.iter().map(|k| match k {
        AbiKind::Address => ParamType::Address,
        AbiKind::Uint(b) => ParamType::Uint(*b),
        AbiKind::Int(b) => ParamType::Int(*b),
    }).collect();
    match ethers::abi::decode(&types, payload) {
        Ok(tokens) => Ok(tokens.into_iter().map(|t| match t {
            Token::Address(a) => AbiWord::Address(Address(a.0)),
            Token::Uint(u) => AbiWord::Uint(U256(u.0)),
            Token::Int(u) => AbiWord::Int(U256(u.0)),
            _ => AbiWord::Other,
        }).collect()),
        Err(err) => Err(err.to_string()),
    }
}

/// `ethers` `U256::from_big_endian` on a 32-byte word.
#[verifier::external_body]
pub(crate) fn u256_from_be(bytes: &[u8; 32]) -> (r: U256)
    ensures
        r@ == be_value(bytes@),
{
    U256(ethers::types::U256::from_big_endian(bytes).0)
}

/// The Keccak-256 digest of a byte string.
pub uninterp spec fn keccak256_spec(data: Seq<u8>) -> Seq<u8>;

/// `ethers::utils::keccak256`: the 32-byte Keccak-256 digest of the bytes.
#[verifier::external_body]
fn keccak256(data: &[u8]) -> (r: [u8; 32])
    ensures
        r@ == keccak256_spec(data@),
{
    ethers::utils::keccak256(data)
}

/// The log topic of an event signature: the digest of its UTF-8 bytes.
pub open spec fn topic_spec(signature: &str) -> Seq<u8> {
    keccak256_spec(signature.spec_bytes())
}

/// The log topic of an event signature.
pub fn topic(signature: &str) -> (r: H256)
    ensures
        r@ == topic_spec(signature),
{
    H256(keccak256(signature.as_bytes()))
}

/// The address held in the low 20 bytes of a topic.
pub open spec fn topic_address_spec(topic: Seq<u8>) -> Seq<u8> {
    topic.subrange(12, 32)
}

pub fn topic_to_address(topic: &H256) -> (r: Address)
    ensures
        r@ == topic_address_spec(topic@),
{
    let mut out = [0u8; 20];
    let mut i: usize = 0;
    while i < 20
        invariant
            i <= 20,
            topic@.len() == 32,
            out@.len() == 20,
            forall|j: int| 0 <= j < i ==> out@[j] == topic@[j + 12],
        decreases 20 - i,
    {
        out[i] = topic.0[i + 12];
        i = i + 1;
    }
    let r = Address(out);
    assert(r@ =~= topic_address_spec(topic@));
    r
}

/// The topic that holds an address in its low 20 bytes, zero above.
pub open spec fn address_topic_spec(address: Seq<u8>) -> Seq<u8> {
    Seq::new(12, |i: int| 0u8) + address
}

/// Builds the log topic of an address.
pub fn address_to_topic(address: Address) -> (r: H256)
    ensures
        r@ == address_topic_spec(address@),
{
    let mut out = [0u8; 32];
    let mut i: usize = 0;
    while i < 20
        invariant
            i <= 20,
            out@.len() == 32,
            address@.len() == 20,
            forall|j: int| 0 <= j < 12 ==> out@[j] == 0u8,
            forall|j: int| 12 <= j < 12 + i ==> out@[j] == address@[j - 12],
        decreases 20 - i,
    {
        out[i + 12] = address.0[i];
        i = i + 1;
    }
    let r = H256(out);
    assert(r@ =~= address_topic_spec(address@));
    r
}

/// The hexadecimal digit of a nibble, lower or upper case.
pub open spec fn hex_digit(v: nat, upper: bool) -> char {
    if v < 10 {
        (v + 48) as char
    } else if upper {
        (v - 10 + 65) as char
    } else {
        (v - 10 + 97) as char
    }
}

/// Two hexadecimal digits per byte, high nibble first.
pub open spec fn hex_text(bytes: Seq<u8>, upper: bool) -> Seq<char> {
    Seq::new(
        2 * bytes.len(),
        |i: int|
            if i % 2 == 0 {
                hex_digit(bytes[i / 2] as nat / 16, upper)
            } else {
                hex_digit(bytes[i / 2] as nat % 16, upper)
            },
    )
}

/// `hex::encode_upper`: two upper-case hexadecimal digits per byte.
#[verifier::external_body]
pub(crate) fn hex_upper(bytes: &[u8]) -> (r: String)
    ensures
        r@ == hex_text(bytes@, true),
{
    hex::encode_upper(bytes)
}

/// The `{:#x}` form of an address: `0x` and forty lower-case digits.
pub open spec fn address_text(address: Seq<u8>) -> Seq<char> {
    "0x"@ + hex_text(address, false)
}

/// `{:#x}` formatting of an `ethers` address, which writes `0x` and then
/// each byte as two lower-case hexadecimal digits.
#[verifier::external_body]
pub fn format_address(address: Address) -> (r: String)
    ensures
        r@ == address_text(address@),
{
    format!("{:#x}", ethers::types::Address::from(address.0))
}

/// The value of a hexadecimal digit, if it is one.
pub open spec fn hex_value(c: char) -> Option<nat> {
    if '0' <= c <= '9' {
        Some((c as nat - 48) as nat)
    } else if 'a' <= c <= 'f' {
        Some((c as nat - 97 + 10) as nat)
    } else if 'A' <= c <= 'F' {
        Some((c as nat - 65 + 10) as nat)
    } else {
        None
    }
}

pub open spec fn is_hex_space(c: char) -> bool {
    c == ' ' || c == '\r' || c == '\n' || c == '\t'
}

/// The text after an optional leading `0x`.
pub open spec fn strip_0x(s: Seq<char>) -> Seq<char> {
    if s.len() >= 2 && s[0] == '0' && s[1] == 'x' {
        s.subrange(2, s.len() as int)
    } else {
        s
    }
}

/// The hexadecimal digits of a text, blanks left out.
pub open spec fn hex_digits(s: Seq<char>) -> Seq<char> {
    s.filter(|c: char| !is_hex_space(c))
}

/// `Address::from_str` accepts a text, after an optional `0x`, made only of
/// hexadecimal digits and blanks, with exactly forty digits.
pub open spec fn address_parses(s: Seq<char>) -> bool {
    let t = strip_0x(s);
    &&& forall|i: int| 0 <= i < t.len() ==> (hex_value(#[trigger] t[i]) is Some || is_hex_space(t[i]))
    &&& hex_digits(t).len() == 40
}

/// The address that such a text stands for: each pair of digits is a byte.
pub open spec fn address_bytes(s: Seq<char>) -> Seq<u8> {
    let d = hex_digits(strip_0x(s));
    Seq::new(
        20,
        |i: int| (hex_value(d[2 * i])->0 * 16 + hex_value(d[2 * i + 1])->0) as u8,
    )
}

/// `ethers` `Address::from_str` (fixed-hash over rustc-hex): it strips one
/// leading `0x`, skips blanks, decodes pairs of hexadecimal digits and fails
/// on any other character or on a digit count other than forty. The error's
/// text is the parser's own and is left unsaid.
#[verifier::external_body]
pub(crate) fn parse_address(s: &str) -> (r: Result<Address, String>)
    ensures
        r is Ok <==> address_parses(s@),
        r matches Ok(a) ==> a@ == address_bytes(s@),
{
    match <ethers::types::Address as std::str::FromStr>::from_str(s) {
        Ok(a) => Ok(Address(a.0)),
        Err(err) => Err(err.to_string()),
    }
}


/// A value to encode as one ABI word.
#[derive(Clone, Copy, Debug)]
pub enum AbiValue {
    Address(Address),
    Uint(U256),
}

/// The `k` low bytes of a number, most significant first.
pub open spec fn be_bytes(n: nat, k: nat) -> Seq<u8>
    decreases k,
{
    if k == 0 {
        Seq::empty()
    } else {
        be_bytes(n / 256, (k - 1) as nat).push((n % 256) as u8)
    }
}

/// The word of a value: an address padded with twelve zero bytes in front,
/// an integer in 32 big-endian bytes.
pub open spec fn value_word(v: AbiValue) -> Seq<u8> {
    match v {
        AbiValue::Address(a) => Seq::new(12, |i: int| 0u8) + a@,
        AbiValue::Uint(u) => be_bytes(u@, 32),
    }
}

/// The words of the values, one after another.
pub open spec fn encoded_values(vs: Seq<AbiValue>) -> Seq<u8>
    decreases vs.len(),
{
    if vs.len() == 0 {
        Seq::empty()
    } else {
        encoded_values(vs.drop_last()) + value_word(vs.last())
    }
}

/// `ethers::abi::encode` of addresses and unsigned integers. Its source
/// writes each such token as one 32-byte head word, an address padded on
/// the left with zeros and an integer big-endian, with no tail.
#[verifier::external_body]
pub(crate) fn abi_encode(values: &[AbiValue]) -> (r: Vec<u8>)
    ensures
        r@ == encoded_values(values@),
{
    let tokens: Vec<Token> = values.iter().map(|v| match v {
        AbiValue::Address(a) => Token::Address(ethers::types::Address::from(a.0)),
        AbiValue::Uint(u) => Token::Uint(ethers::types::U256(u.0)),
    }).collect();
    ethers::abi::encode(&tokens)
}

/// `H256::from_low_u64_be` (fixed-hash): 24 zero bytes, then the number in
/// eight big-endian bytes.
#[verifier::external_body]
pub(crate) fn h256_from_low_u64(n: u64) -> (r: H256)
    ensures
        r@ == Seq::new(24, |i: int| 0u8) + be_bytes(n as nat, 8),
{
    H256(ethers::types::H256::from_low_u64_be(n).0)
}


/// `256^k`.
pub open spec fn byte_base(k: nat) -> nat
    decreases k,
{
    if k == 0 {
        1
    } else {
        byte_base((k - 1) as nat) * 256
    }
}

proof fn lemma_byte_base_positive(k: nat)
    ensures
        byte_base(k) > 0,
    decreases k,
{
    if k > 0 {
        lemma_byte_base_positive((k - 1) as nat);
    }
}

proof fn lemma_be_roundtrip(n: nat, k: nat)
    ensures
        be_bytes(n, k).len() == k,
        be_value(be_bytes(n, k)) == n % byte_base(k),
    decreases k,
{
    if k > 0 {
        let m = (k - 1) as nat;
        lemma_be_roundtrip(n / 256, m);
        lemma_byte_base_positive(m);
        let x = be_bytes(n / 256, m);
        let b = (n % 256) as u8;
        assert(x.push(b).drop_last() =~= x);
        let q = byte_base(m);
        let a = n / 256;
        assert((a % q) * 256 + n % 256 == n % (q * 256)) by (nonlinear_arith)
            requires
                q > 0,
                a == n / 256,
        {
            assert(n == 256 * a + n % 256);
            assert(a == q * (a / q) + a % q);
            assert(n == (q * 256) * (a / q) + ((a % q) * 256 + n % 256));
            assert(0 <= (a % q) * 256 + n % 256 < q * 256);
        }
    }
}

/// The `i`-th word of an encoding is the `i`-th value's word.
proof fn lemma_encoded_word(vs: Seq<AbiValue>, i: int)
    requires
        0 <= i < vs.len(),
    ensures
        encoded_values(vs).len() == 32 * vs.len(),
        word_at(encoded_values(vs), i) == value_word(vs[i]),
    decreases vs.len(),
{
    lemma_encoded_len(vs);
    let rest = vs.drop_last();
    lemma_encoded_len(rest);
    lemma_value_word_len(vs.last());
    if i < vs.len() - 1 {
        lemma_encoded_word(rest, i);
        assert(word_at(encoded_values(vs), i) =~= word_at(encoded_values(rest), i));
    } else {
        assert(word_at(encoded_values(vs), i) =~= value_word(vs.last()));
    }
}

proof fn lemma_value_word_len(v: AbiValue)
    ensures
        value_word(v).len() == 32,
{
    match v {
        AbiValue::Address(a) => {},
        AbiValue::Uint(u) => {
            lemma_be_roundtrip(u@, 32);
        },
    }
}

proof fn lemma_encoded_len(vs: Seq<AbiValue>)
    ensures
        encoded_values(vs).len() == 32 * vs.len(),
    decreases vs.len(),
{
    if vs.len() > 0 {
        lemma_encoded_len(vs.drop_last());
        lemma_value_word_len(vs.last());
    }
}

/// The type a value is decoded with.
pub open spec fn value_kind(v: AbiValue) -> AbiKind {
    match v {
        AbiValue::Address(_) => AbiKind::Address,
        AbiValue::Uint(_) => AbiKind::Uint(256),
    }
}

/// The word a value decodes back to.
pub open spec fn value_decoded(v: AbiValue) -> AbiWord {
    match v {
        AbiValue::Address(a) => AbiWord::Address(a),
        AbiValue::Uint(u) => AbiWord::Uint(u),
    }
}

/// Decoding an encoding with the values' own types accepts it and gives the
/// values back.
pub proof fn lemma_abi_roundtrip(vs: Seq<AbiValue>)
    ensures
        abi_decodable(vs.map_values(|v: AbiValue| value_kind(v)), encoded_values(vs)),
        abi_decoded(
            vs.map_values(|v: AbiValue| value_kind(v)),
            encoded_values(vs),
            vs.map_values(|v: AbiValue| value_decoded(v)),
        ),
{
    lemma_encoded_len(vs);
    let kinds = vs.map_values(|v: AbiValue| value_kind(v));
    let words = vs.map_values(|v: AbiValue| value_decoded(v));
    assert(byte_base(32) == crate::num::pow256()) by {
        reveal_with_fuel(byte_base, 33);
    }
    assert forall|i: int| 0 <= i < kinds.len() implies #[trigger] word_decodes(
        kinds[i],
        word_at(encoded_values(vs), i),
        words[i],
    ) by {
        lemma_encoded_word(vs, i);
        match vs[i] {
            AbiValue::Address(a) => {
                assert(value_word(vs[i]).subrange(12, 32) =~= a@);
            },
            AbiValue::Uint(u) => {
                lemma_be_roundtrip(u@, 32);
                crate::num::lemma_value_bounds(u.0);
            },
        }
    }
}

} // verus!
