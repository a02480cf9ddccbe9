//! Textbook RSA over big-endian byte strings, with the PKCS#1 v1.5 style
//! block framing of the 115 client protocol.

use vstd::prelude::*;
use vstd::arithmetic::power::*;
use vstd::arithmetic::div_mod::*;
use vstd::seq_lib::lemma_flatten_concat;
use num_bigint::{BigInt, Sign};
use rand::Rng;

verus! {

/// The number that a big-endian byte string denotes.
pub open spec fn be_value(bytes: Seq<u8>) -> nat
    decreases bytes.len(),
{
    if bytes.len() == 0 {
        0
    } else {
        be_value(bytes.drop_last()) * 256 + bytes.last() as nat
    }
}

/// The shortest big-endian byte string of `v`; zero is the single byte `0`.
pub open spec fn be_bytes(v: nat) -> Seq<u8>
    decreases v,
{
    if v < 256 {
        seq![v as u8]
    } else {
        be_bytes(v / 256).push((v % 256) as u8)
    }
}

/// `n` zero bytes.
pub open spec fn zeros(n: nat) -> Seq<u8> {
    Seq::new(n, |i: int| 0u8)
}

/// `bytes` with zero bytes in front, up to `size` bytes in all.
pub open spec fn left_pad(bytes: Seq<u8>, size: nat) -> Seq<u8> {
    if bytes.len() < size {
        zeros((size - bytes.len()) as nat) + bytes
    } else {
        bytes
    }
}

pub proof fn lemma_be_bytes(v: nat)
    ensures
        be_value(be_bytes(v)) == v,
        be_bytes(v).len() >= 1,
        v > 0 ==> be_bytes(v)[0] != 0,
    decreases v,
{
    if v >= 256 {
        lemma_be_bytes(v / 256);
        let s = be_bytes(v);
        assert(s.drop_last() =~= be_bytes(v / 256));
        lemma_fundamental_div_mod(v as int, 256);
        assert(0 <= v % 256 < 256);
        assert(s.last() as nat == v % 256);
        assert(be_value(s) == (v / 256) * 256 + v % 256);
    } else {
        let s = be_bytes(v);
        assert(s.drop_last() =~= Seq::<u8>::empty());
        assert(be_value(s.drop_last()) == 0);
        assert(s.last() == v as u8);
        assert(be_value(s) == v);
    }
}

pub proof fn lemma_be_value_bound(s: Seq<u8>)
    ensures
        be_value(s) < pow(256, s.len()),
    decreases s.len(),
{
    reveal(pow);
    if s.len() > 0 {
        lemma_be_value_bound(s.drop_last());
        let p = pow(256, (s.len() - 1) as nat);
        assert(be_value(s.drop_last()) * 256 + 256 <= p * 256) by (nonlinear_arith)
            requires be_value(s.drop_last()) < p;
    }
}

pub proof fn lemma_be_bytes_len_le(v: nat, k: nat)
    requires
        k >= 1,
        v < pow(256, k),
    ensures
        be_bytes(v).len() <= k,
    decreases k,
{
    reveal(pow);
    if v >= 256 {
        let p = pow(256, (k - 1) as nat);
        assert(k >= 2) by {
            if k == 1 {
                assert(pow(256, 0) == 1);
            }
        }
        assert(v / 256 < p) by {
            lemma_div_strictly_bounded_local(v as int, 256, p);
        }
        lemma_be_bytes_len_le(v / 256, (k - 1) as nat);
    }
}

proof fn lemma_div_strictly_bounded_local(x: int, d: int, p: int)
    requires
        0 <= x,
        d > 0,
        x < p * d,
    ensures
        x / d < p,
{
    lemma_fundamental_div_mod(x, d);
    assert(x / d < p) by (nonlinear_arith)
        requires
            x == d * (x / d) + x % d,
            0 <= x % d,
            x < p * d,
            d > 0,
    ;
}

pub proof fn lemma_be_bytes_len_ge(v: nat, k: nat)
    requires
        v >= pow(256, k),
    ensures
        be_bytes(v).len() >= k + 1,
    decreases k,
{
    reveal(pow);
    if k > 0 {
        let p = pow(256, (k - 1) as nat);
        lemma_pow_positive(256, (k - 1) as nat);
        assert(v >= 256);
        assert(v / 256 >= p) by {
            lemma_fundamental_div_mod(v as int, 256);
            assert(v / 256 >= p) by (nonlinear_arith)
                requires
                    v == 256 * (v / 256) + v % 256,
                    v % 256 < 256,
                    v >= 256 * p,
            ;
        }
        lemma_be_bytes_len_ge(v / 256, (k - 1) as nat);
    }
}

pub proof fn lemma_zeros_value(n: nat)
    ensures
        be_value(zeros(n)) == 0,
    decreases n,
{
    if n > 0 {
        assert(zeros(n).drop_last() =~= zeros((n - 1) as nat));
        lemma_zeros_value((n - 1) as nat);
    }
}

/// Zero bytes in front do not change the value of a big-endian string.
pub proof fn lemma_leading_zeros_value(n: nat, s: Seq<u8>)
    ensures
        be_value(zeros(n) + s) == be_value(s),
    decreases s.len(),
{
    if s.len() == 0 {
        assert(zeros(n) + s =~= zeros(n));
        lemma_zeros_value(n);
    } else {
        assert((zeros(n) + s).drop_last() =~= zeros(n) + s.drop_last());
        lemma_leading_zeros_value(n, s.drop_last());
    }
}

/// A string that starts with a nonzero byte is at least `256^(len - 1)`.
pub proof fn lemma_be_value_lower(s: Seq<u8>)
    requires
        s.len() >= 1,
        s[0] != 0,
    ensures
        be_value(s) >= pow(256, (s.len() - 1) as nat),
    decreases s.len(),
{
    reveal(pow);
    if s.len() > 1 {
        let t = s.drop_last();
        assert(t[0] == s[0]);
        lemma_be_value_lower(t);
    } else {
        assert(s.drop_last() =~= Seq::<u8>::empty());
    }
}

/// The shortest encoding of the value of a string that starts with a
/// nonzero byte is that string.
pub proof fn lemma_be_canonical(s: Seq<u8>)
    requires
        s.len() >= 1,
        s[0] != 0,
    ensures
        be_bytes(be_value(s)) == s,
    decreases s.len(),
{
    if s.len() == 1 {
        assert(s.drop_last() =~= Seq::<u8>::empty());
        assert(be_value(s.drop_last()) == 0);
        assert(be_value(s) == s[0] as nat);
        assert(be_bytes(be_value(s)) =~= s);
    } else {
        let t = s.drop_last();
        lemma_be_canonical(t);
        lemma_be_bytes(be_value(t));
        let v = be_value(s);
        assert(be_value(t) > 0);
        assert(v >= 256);
        assert(v / 256 == be_value(t) && v % 256 == s.last()) by {
            lemma_fundamental_div_mod(v as int, 256);
            lemma_div_aligned(be_value(t) as int, s.last() as int);
        }
        assert(be_bytes(v) =~= s);
    }
}

proof fn lemma_div_aligned(q: int, r: int)
    requires
        q >= 0,
        0 <= r < 256,
    ensures
        (q * 256 + r) / 256 == q,
        (q * 256 + r) % 256 == r,
{
    lemma_fundamental_div_mod(q * 256 + r, 256);
    let x = q * 256 + r;
    assert(x / 256 == q && x % 256 == r) by (nonlinear_arith)
        requires
            x == 256 * (x / 256) + x % 256,
            0 <= x % 256 < 256,
            x == q * 256 + r,
            0 <= r < 256,
    ;
}


/// The value of an ASCII hexadecimal digit byte, or -1.
pub open spec fn hex_digit(b: u8) -> int {
    if 48 <= b <= 57 {
        b - 48
    } else if 97 <= b <= 102 {
        b - 87
    } else if 65 <= b <= 70 {
        b - 55
    } else {
        -1
    }
}

/// A nonempty string of hexadecimal digit bytes.
pub open spec fn is_hex_digits(s: Seq<u8>) -> bool {
    s.len() > 0 && forall|i: int| 0 <= i < s.len() ==> hex_digit(#[trigger] s[i]) >= 0
}

/// The number that a string of hexadecimal digits denotes.
pub open spec fn hex_value(s: Seq<u8>) -> nat
    decreases s.len(),
{
    if s.len() == 0 {
        0
    } else {
        hex_value(s.drop_last()) * 16 + hex_digit(s.last()) as nat
    }
}

/// The bytes of a string of ASCII characters.
pub open spec fn ascii_bytes(s: Seq<char>) -> Seq<u8> {
    Seq::new(s.len(), |i: int| s[i] as u8)
}

/// A string of hexadecimal digits that starts with a nonzero digit is at
/// least `16^(len - 1)`.
pub proof fn lemma_hex_lower_bound(s: Seq<u8>)
    requires
        is_hex_digits(s),
        hex_digit(s[0]) >= 1,
    ensures
        hex_value(s) >= pow(16, (s.len() - 1) as nat),
    decreases s.len(),
{
    reveal(pow);
    if s.len() > 1 {
        let t = s.drop_last();
        assert(hex_digit(t[0]) >= 1);
        assert(is_hex_digits(t)) by {
            assert forall|i: int| 0 <= i < t.len() implies hex_digit(#[trigger] t[i]) >= 0 by {
                assert(t[i] == s[i]);
            }
        }
        lemma_hex_lower_bound(t);
        assert(hex_digit(s[s.len() - 1]) >= 0);
    } else {
        assert(s.drop_last() =~= Seq::<u8>::empty());
    }
}

/// A string of hexadecimal digits is below `16^len`.
pub proof fn lemma_hex_upper_bound(s: Seq<u8>)
    requires
        forall|i: int| 0 <= i < s.len() ==> hex_digit(#[trigger] s[i]) >= 0,
    ensures
        hex_value(s) < pow(16, s.len()),
    decreases s.len(),
{
    reveal(pow);
    if s.len() > 0 {
        let t = s.drop_last();
        assert forall|i: int| 0 <= i < t.len() implies hex_digit(#[trigger] t[i]) >= 0 by {
            assert(t[i] == s[i]);
        }
        lemma_hex_upper_bound(t);
        let p = pow(16, t.len());
        assert(hex_digit(s[s.len() - 1]) >= 0);
        assert(hex_digit(s.last()) < 16);
        assert(hex_value(t) * 16 + 16 <= p * 16) by (nonlinear_arith)
            requires hex_value(t) < p;
    }
}

// ---------------------------------------------------------------- framing

/// Bytes that are all nonzero.
pub open spec fn nonzero_bytes(s: Seq<u8>) -> bool {
    forall|i: int| 0 <= i < s.len() ==> #[trigger] s[i] != 0
}

/// A random byte turned into a padding byte in 1..=255.
pub open spec fn pad_byte(v: u8) -> u8 {
    (v % 255 + 1) as u8
}

/// The block that is encrypted for one chunk: `0, 2, padding, 0, chunk`.
pub open spec fn pkcs_block(pad: Seq<u8>, input: Seq<u8>) -> Seq<u8> {
    seq![0u8, 2u8] + pad + seq![0u8] + input
}

/// The first index at or after `from` that holds a zero byte.
pub open spec fn zero_index_from(s: Seq<u8>, from: nat) -> Option<nat>
    decreases s.len() - from,
{
    if from >= s.len() {
        None
    } else if s[from as int] == 0 {
        Some(from)
    } else {
        zero_index_from(s, from + 1)
    }
}

/// What follows the first zero byte after the first byte; nothing when
/// there is no such zero.
pub open spec fn unpad(s: Seq<u8>) -> Seq<u8> {
    match zero_index_from(s, 1) {
        Some(i) => s.skip(i + 1 as int),
        None => Seq::empty(),
    }
}

/// `data` cut into consecutive pieces of `size` bytes; the last may be
/// shorter.
pub open spec fn chunks(data: Seq<u8>, size: nat) -> Seq<Seq<u8>>
    decreases data.len(),
{
    if data.len() == 0 || size == 0 {
        Seq::empty()
    } else if data.len() <= size {
        seq![data]
    } else {
        seq![data.take(size as int)] + chunks(data.skip(size as int), size)
    }
}

/// `(block ^ exponent) mod modulus`, as shortest big-endian bytes.
pub open spec fn rsa_apply(block: Seq<u8>, exponent: Seq<u8>, modulus: Seq<u8>) -> Seq<u8> {
    be_bytes((pow(be_value(block) as int, be_value(exponent)) % (be_value(modulus) as int)) as nat)
}

pub proof fn lemma_chunks_step(s: Seq<u8>, size: nat)
    requires
        s.len() > 0,
        size > 0,
    ensures
        ({
            let m = if s.len() <= size { s.len() as int } else { size as int };
            chunks(s, size) == seq![s.take(m)] + chunks(s.skip(m), size)
        }),
{
    if s.len() <= size {
        assert(s.skip(s.len() as int) =~= Seq::<u8>::empty());
        assert(s.take(s.len() as int) =~= s);
        assert(chunks(s, size) =~= seq![s.take(s.len() as int)] + chunks(s.skip(s.len() as int), size));
    }
}

/// Cutting a string of whole pieces followed by more bytes cuts each part
/// on its own.
pub proof fn lemma_chunks_concat(a: Seq<u8>, b: Seq<u8>, size: nat)
    requires
        size == 0 || a.len() % size == 0,
    ensures
        chunks(a + b, size) == chunks(a, size) + chunks(b, size),
    decreases a.len(),
{
    if size == 0 {
        assert(chunks(a + b, size) =~= chunks(a, size) + chunks(b, size));
    } else if a.len() == 0 {
        assert(a + b =~= b);
        assert(chunks(a + b, size) =~= chunks(a, size) + chunks(b, size));
    } else {
        let n = a.len() as int;
        let s = size as int;
        assert(n >= s) by {
            lemma_fundamental_div_mod(n, s);
            assert(n >= s) by (nonlinear_arith)
                requires
                    n == s * (n / s) + n % s,
                    n % s == 0,
                    n > 0,
                    s > 0,
            ;
        }
        let rest = a.skip(s);
        assert(rest.len() % size == 0) by {
            lemma_mod_sub_multiples_vanish(n, s);
            assert(-s + n == rest.len());
        }
        lemma_chunks_concat(rest, b, size);
        if n == s && b.len() == 0 {
            assert(a + b =~= a);
            assert(chunks(b, size) =~= Seq::<Seq<u8>>::empty());
            assert(chunks(a + b, size) =~= chunks(a, size) + chunks(b, size));
        } else {
            lemma_chunks_step(a + b, size);
            lemma_chunks_step(a, size);
            assert((a + b).take(s) =~= a.take(s));
            assert((a + b).skip(s) =~= rest + b);
            if n == s {
                assert(rest =~= Seq::<u8>::empty());
                assert(a.take(n) =~= a.take(s));
                assert(a.skip(n) =~= rest);
            }
            assert(chunks(a + b, size) =~= chunks(a, size) + chunks(b, size));
        }
    }
}

pub proof fn lemma_zero_index_skip(s: Seq<u8>, a: nat, b: nat)
    requires
        a <= b <= s.len(),
        forall|k: int| a <= k < b ==> s[k] != 0,
    ensures
        zero_index_from(s, a) == zero_index_from(s, b),
    decreases b - a,
{
    if a < b {
        lemma_zero_index_skip(s, a + 1, b);
    }
}

/// Removing the framing gives back the chunk: the unpadding of
/// `decrypt` undoes the padding of `encrypt` for any block whose RSA round
/// trip restores its value.
pub proof fn lemma_unpad_undoes_padding(pad: Seq<u8>, input: Seq<u8>)
    requires
        nonzero_bytes(pad),
    ensures
        unpad(be_bytes(be_value(pkcs_block(pad, input)))) == input,
{
    let block = pkcs_block(pad, input);
    let rest = seq![2u8] + pad + seq![0u8] + input;
    assert(block =~= zeros(1) + rest);
    lemma_leading_zeros_value(1, rest);
    lemma_be_canonical(rest);
    let z = pad.len() + 1;
    assert(rest[z as int] == 0);
    lemma_zero_index_skip(rest, 1, z);
    assert(zero_index_from(rest, z) == Some(z));
    assert(rest.skip(z + 1 as int) =~= input);
}

/// Flattening blocks of equal length.
pub proof fn lemma_flatten_uniform(blocks: Seq<Seq<u8>>, k: nat)
    requires
        forall|j: int| 0 <= j < blocks.len() ==> (#[trigger] blocks[j]).len() == k,
    ensures
        blocks.flatten().len() == blocks.len() * k,
    decreases blocks.len(),
{
    if blocks.len() > 0 {
        let rest = blocks.drop_first();
        assert forall|j: int| 0 <= j < rest.len() implies (#[trigger] rest[j]).len() == k by {
            assert(rest[j] == blocks[j + 1]);
        }
        lemma_flatten_uniform(rest, k);
        assert(blocks[0].len() == k);
        let n = blocks.len();
        assert((n - 1) * k + k == n * k) by (nonlinear_arith);
    }
}

// ---------------------------------------------------------------- outside calls

/// `num_bigint`: `BigInt::modpow` on the values of three big-endian byte
/// strings, each read with `BigInt::from_bytes_be(Sign::Plus, ..)`, the
/// result given back by `to_bytes_be`. The crate computes
/// `(base ^ exponent) mod modulus`, in `[0, modulus)` for a positive
/// modulus, and `to_bytes_be` gives its shortest big-endian bytes, `[0]`
/// for zero. A modulus of zero panics; one of one is left out as well.
#[verifier::external_body]
fn modpow_be(base: &[u8], exponent: &[u8], modulus: &[u8]) -> (res: Vec<u8>)
    requires
        be_value(modulus@) > 1,
    ensures
        res@ == rsa_apply(base@, exponent@, modulus@),
{
    let modulus = BigInt::from_bytes_be(Sign::Plus, modulus);
    let exponent = BigInt::from_bytes_be(Sign::Plus, exponent);
    let (_, bytes) = BigInt::from_bytes_be(Sign::Plus, base).modpow(&exponent, &modulus).to_bytes_be();
    bytes
}

/// `num_bigint`: `BigInt::parse_bytes(digits, 16)`, its value given back by
/// `to_bytes_be`. For a nonempty string of hexadecimal digits the crate
/// parses the number that the digits denote; what it does with a sign,
/// underscores or other bytes is left unsaid here.
#[verifier::external_body]
fn parse_hex_be(digits: &[u8]) -> (res: Option<Vec<u8>>)
    ensures
        is_hex_digits(digits@) ==> res.is_some(),
        is_hex_digits(digits@) ==> res.unwrap()@ == be_bytes(hex_value(digits@)),
{
    BigInt::parse_bytes(digits, 16).map(|n| n.to_bytes_be().1)
}

/// `rand`: `Rng::fill` from `thread_rng()` on `len` zero bytes. The bytes
/// are random: only their number is stated.
#[verifier::external_body]
fn random_bytes(len: usize) -> (bytes: Vec<u8>)
    ensures
        bytes@.len() == len,
{
    let mut bytes = vec![0u8; len];
    rand::thread_rng().fill(bytes.as_mut_slice());
    bytes
}

// ---------------------------------------------------------------- the cipher

/// The modulus of the 115 client key, in hexadecimal.
pub const RSA_MODULUS_HEX: &'static str = "8686980c0f5a24c4b9d43020cd2c22703ff3f450756529058b1cf88f09b8602136477198a6e2683149659bd122c33592fdb5ad47944ad1ea4d36c6b172aad6338c3bb6ac6227502d010993ac967d1aef00f0c8e038de2e4d3bc2ec368af2e9f10a6f1eda4f7262f136420c07c331b871bf139f74f3010e3c4fe57df3afb71683";

/// The public exponent of the 115 client key, in hexadecimal.
pub const RSA_EXPONENT_HEX: &'static str = "10001";

/// An RSA public key; `n` and `e` are shortest big-endian byte strings and
/// `key_size` is the byte length of `n`.
pub struct MyRSA {
    n: Vec<u8>,
    e: Vec<u8>,
    key_size: usize,
}

impl MyRSA {
    #[verifier::type_invariant]
    spec fn well_formed(&self) -> bool {
        &&& be_value(self.n@) > 1
        &&& self.key_size == self.n@.len()
        &&& self.key_size >= 12
        &&& self.n@[0] != 0
    }

    /// The modulus.
    pub closed spec fn modulus(&self) -> nat {
        be_value(self.n@)
    }

    /// The public exponent.
    pub closed spec fn exponent(&self) -> nat {
        be_value(self.e@)
    }

    /// The byte length of the modulus, which is the length of every
    /// encrypted block.
    pub closed spec fn key_len(&self) -> nat {
        self.key_size as nat
    }

    /// The largest chunk of plain text that one block carries.
    pub closed spec fn chunk_len(&self) -> nat {
        (self.key_size - 11) as nat
    }

    /// The key applied to a block, as shortest big-endian bytes.
    pub closed spec fn apply(&self, block: Seq<u8>) -> Seq<u8> {
        rsa_apply(block, self.e@, self.n@)
    }

    /// One encrypted block: the key applied, zero-padded in front to the
    /// key length.
    pub closed spec fn encrypt_block(&self, block: Seq<u8>) -> Seq<u8> {
        left_pad(self.apply(block), self.key_size as nat)
    }

    /// The paddings fit the chunks of `data`: one per chunk, nonzero, of
    /// the length that fills the block.
    pub closed spec fn pads_fit(&self, data: Seq<u8>, pads: Seq<Seq<u8>>) -> bool {
        let cs = chunks(data, self.chunk_len());
        &&& pads.len() == cs.len()
        &&& forall|j: int|
            0 <= j < pads.len() ==> {
                &&& (#[trigger] pads[j]).len() + cs[j].len() + 3 == self.key_size
                &&& nonzero_bytes(pads[j])
            }
    }

    /// Every framed block is smaller than the modulus, so that the key's
    /// inverse gives it back.
    pub closed spec fn blocks_below_modulus(&self, data: Seq<u8>, pads: Seq<Seq<u8>>) -> bool {
        let cs = chunks(data, self.chunk_len());
        forall|j: int|
            0 <= j < pads.len() ==> be_value(#[trigger] pkcs_block(pads[j], cs[j])) < be_value(
                self.n@,
            )
    }

    /// A framed block of the key length is smaller than the modulus.
    proof fn lemma_block_below_modulus(&self, pad: Seq<u8>, input: Seq<u8>)
        requires
            self.well_formed(),
            pad.len() + input.len() + 3 == self.key_size,
        ensures
            be_value(pkcs_block(pad, input)) < be_value(self.n@),
    {
        let rest = seq![2u8] + pad + seq![0u8] + input;
        assert(pkcs_block(pad, input) =~= zeros(1) + rest);
        lemma_leading_zeros_value(1, rest);
        lemma_be_value_bound(rest);
        lemma_be_value_lower(self.n@);
    }

    /// The encrypted blocks of the chunks, with the given paddings.
    pub closed spec fn cipher_blocks(&self, cs: Seq<Seq<u8>>, pads: Seq<Seq<u8>>) -> Seq<Seq<u8>> {
        Seq::new(cs.len(), |j: int| self.encrypt_block(pkcs_block(pads[j], cs[j])))
    }

    /// The encryption of `data` with the given paddings.
    pub closed spec fn encryption(&self, data: Seq<u8>, pads: Seq<Seq<u8>>) -> Seq<u8> {
        self.cipher_blocks(chunks(data, self.chunk_len()), pads).flatten()
    }

    /// The decrypted pieces of the blocks.
    pub closed spec fn plain_pieces(&self, cs: Seq<Seq<u8>>) -> Seq<Seq<u8>> {
        Seq::new(cs.len(), |j: int| unpad(self.apply(cs[j])))
    }

    /// The decryption of `data`.
    pub closed spec fn decryption(&self, data: Seq<u8>) -> Seq<u8> {
        self.plain_pieces(chunks(data, self.key_size as nat)).flatten()
    }

    /// Encryption goes chunk by chunk: encrypting whole chunks followed by
    /// more data gives the encryption of the chunks followed by that of the
    /// rest, each with its own paddings.
    pub proof fn lemma_encryption_concat(
        &self,
        a: Seq<u8>,
        b: Seq<u8>,
        pads_a: Seq<Seq<u8>>,
        pads_b: Seq<Seq<u8>>,
    )
        requires
            a.len() % self.chunk_len() == 0,
            self.pads_fit(a, pads_a),
            self.pads_fit(b, pads_b),
        ensures
            self.pads_fit(a + b, pads_a + pads_b),
            self.encryption(a + b, pads_a + pads_b) == self.encryption(a, pads_a) + self.encryption(
                b,
                pads_b,
            ),
    {
        let c = self.chunk_len();
        lemma_chunks_concat(a, b, c);
        let ca = chunks(a, c);
        let cb = chunks(b, c);
        assert(pads_a.len() == ca.len() && pads_b.len() == cb.len());
        let ps = pads_a + pads_b;
        let cs = ca + cb;
        assert forall|j: int| 0 <= j < cs.len() implies #[trigger] pkcs_block(ps[j], cs[j]) == (if j
            < ca.len() {
            pkcs_block(pads_a[j], ca[j])
        } else {
            pkcs_block(pads_b[j - ca.len()], cb[j - ca.len()])
        }) by {
            if j < ca.len() {
                assert(ps[j] == pads_a[j] && cs[j] == ca[j]);
            } else {
                assert(ps[j] == pads_b[j - ca.len()] && cs[j] == cb[j - ca.len()]);
            }
        }
        assert forall|j: int| 0 <= j < ps.len() implies {
            &&& (#[trigger] ps[j]).len() + cs[j].len() + 3 == self.key_size
            &&& nonzero_bytes(ps[j])
        } by {
            if j < ca.len() {
                assert(ps[j] == pads_a[j] && cs[j] == ca[j]);
            } else {
                assert(ps[j] == pads_b[j - ca.len()] && cs[j] == cb[j - ca.len()]);
            }
        }
        assert(self.cipher_blocks(ca + cb, pads_a + pads_b) =~= self.cipher_blocks(ca, pads_a)
            + self.cipher_blocks(cb, pads_b));
        lemma_flatten_concat(self.cipher_blocks(ca, pads_a), self.cipher_blocks(cb, pads_b));
    }

    /// Decryption goes block by block: decrypting whole blocks followed by
    /// more data gives the decryption of the blocks followed by that of the
    /// rest.
    pub proof fn lemma_decryption_concat(&self, a: Seq<u8>, b: Seq<u8>)
        requires
            a.len() % self.key_len() == 0,
        ensures
            self.decryption(a + b) == self.decryption(a) + self.decryption(b),
    {
        let k = self.key_size as nat;
        lemma_chunks_concat(a, b, k);
        let ca = chunks(a, k);
        let cb = chunks(b, k);
        assert(self.plain_pieces(ca + cb) =~= self.plain_pieces(ca) + self.plain_pieces(cb));
        lemma_flatten_concat(self.plain_pieces(ca), self.plain_pieces(cb));
    }

    /// Every encrypted block has the key length.
    proof fn lemma_block_len(&self, block: Seq<u8>)
        requires
            self.well_formed(),
        ensures
            self.encrypt_block(block).len() == self.key_size,
    {
        let m = be_value(self.n@) as int;
        let x = pow(be_value(block) as int, be_value(self.e@));
        lemma_mod_bound(x, m);
        lemma_be_value_bound(self.n@);
        let v = (x % m) as nat;
        lemma_be_bytes_len_le(v, self.key_size as nat);
    }

    /// The 115 client key.
    pub fn new() -> (rsa: Self)
        ensures
            rsa.modulus() == hex_value(ascii_bytes(RSA_MODULUS_HEX@)),
            rsa.exponent() == hex_value(ascii_bytes(RSA_EXPONENT_HEX@)),
            rsa.exponent() == 65537,
            rsa.key_len() == be_bytes(rsa.modulus()).len(),
            rsa.key_len() == 128,
            rsa.chunk_len() == 117,
    {
        let n_hex = RSA_MODULUS_HEX.as_bytes();
        let e_hex = RSA_EXPONENT_HEX.as_bytes();
        proof {
            reveal_strlit("8686980c0f5a24c4b9d43020cd2c22703ff3f450756529058b1cf88f09b8602136477198a6e2683149659bd122c33592fdb5ad47944ad1ea4d36c6b172aad6338c3bb6ac6227502d010993ac967d1aef00f0c8e038de2e4d3bc2ec368af2e9f10a6f1eda4f7262f136420c07c331b871bf139f74f3010e3c4fe57df3afb71683");
            reveal_strlit("10001");
            broadcast use vstd::string::group_string_axioms;
            assert(forall|i: int| 0 <= i < 256 ==> '0' <= #[trigger] RSA_MODULUS_HEX@[i] <= 'f');
            assert(vstd::string::is_ascii(RSA_MODULUS_HEX));
            assert(vstd::string::is_ascii(RSA_EXPONENT_HEX));
            assert(n_hex@ =~= ascii_bytes(RSA_MODULUS_HEX@));
            assert(e_hex@ =~= ascii_bytes(RSA_EXPONENT_HEX@));
            assert(forall|i: int| 0 <= i < 256 ==> hex_digit(#[trigger] n_hex@[i]) >= 0);
            assert(is_hex_digits(n_hex@));
            assert(is_hex_digits(e_hex@));
            assert(hex_digit(n_hex@[0]) == 8);
            lemma_hex_lower_bound(n_hex@);
            lemma_hex_upper_bound(n_hex@);
            lemma_pow_increases(16, 254, 255);
            lemma_pow_multiplies(16, 2, 127);
            lemma_pow_multiplies(16, 2, 128);
            reveal_with_fuel(pow, 3);
            assert(pow(16, 2) == 256);
            lemma_be_bytes_len_ge(hex_value(n_hex@), 127);
            lemma_be_bytes_len_le(hex_value(n_hex@), 128);
            lemma_be_bytes(hex_value(n_hex@));
            assert(hex_value(n_hex@) > 0);
            lemma_pow_positive(256, 127);
        }
        let n = parse_hex_be(n_hex).unwrap();
        let e = parse_hex_be(e_hex).unwrap();
        let key_size = n.len();
        proof {
            lemma_be_bytes(hex_value(e_hex@));
            let eb = e_hex@;
            assert(eb =~= seq![49u8, 48u8, 48u8, 48u8, 49u8]);
            assert(eb.drop_last() =~= seq![49u8, 48u8, 48u8, 48u8]);
            assert(eb.drop_last().drop_last() =~= seq![49u8, 48u8, 48u8]);
            assert(eb.drop_last().drop_last().drop_last() =~= seq![49u8, 48u8]);
            assert(eb.drop_last().drop_last().drop_last().drop_last() =~= seq![49u8]);
            assert(eb.drop_last().drop_last().drop_last().drop_last().drop_last() =~= Seq::<u8>::empty());
            assert(seq![49u8].drop_last() =~= Seq::<u8>::empty());
            assert(seq![49u8, 48u8].drop_last() =~= seq![49u8]);
            assert(seq![49u8, 48u8, 48u8].drop_last() =~= seq![49u8, 48u8]);
            assert(seq![49u8, 48u8, 48u8, 48u8].drop_last() =~= seq![49u8, 48u8, 48u8]);
            assert(hex_value(Seq::<u8>::empty()) == 0);
            assert(hex_value(seq![49u8]) == 1);
            assert(hex_value(seq![49u8, 48u8]) == 16);
            assert(hex_value(seq![49u8, 48u8, 48u8]) == 256);
            assert(hex_value(seq![49u8, 48u8, 48u8, 48u8]) == 4096);
            assert(hex_value(eb) == 65537);
        }
        MyRSA { n, e, key_size }
    }

    /// Encrypts `data` chunk by chunk: every chunk of at most
    /// `key_len - 11` bytes is framed with random nonzero padding and
    /// encrypted into one block of `key_len` bytes.
    pub fn encrypt(&self, data: &[u8]) -> (out: Vec<u8>)
        ensures
            exists|pads: Seq<Seq<u8>>|
                #[trigger] self.pads_fit(data@, pads) && out@ == self.encryption(data@, pads)
                    && self.blocks_below_modulus(data@, pads),
            out@.len() == chunks(data@, self.chunk_len()).len() * self.key_len(),
    {
        proof {
            use_type_invariant(self);
        }
        let size = self.key_size - 11;
        let ghost c = self.chunk_len();
        let mut buf: Vec<u8> = Vec::new();
        let mut pos: usize = 0;
        let ghost mut done: Seq<Seq<u8>> = Seq::empty();
        let ghost mut pads: Seq<Seq<u8>> = Seq::empty();
        assert(data@.skip(0) =~= data@);
        while pos < data.len()
            invariant
                self.well_formed(),
                size == c,
                c == self.chunk_len(),
                c >= 1,
                pos <= data@.len(),
                chunks(data@, c) == done + chunks(data@.skip(pos as int), c),
                pads.len() == done.len(),
                forall|j: int|
                    0 <= j < pads.len() ==> {
                        &&& (#[trigger] pads[j]).len() + done[j].len() + 3 == self.key_size
                        &&& nonzero_bytes(pads[j])
                    },
                buf@ == self.cipher_blocks(done, pads).flatten(),
                buf@.len() == done.len() * self.key_size,
            decreases data@.len() - pos,
        {
            let end = if data.len() - pos <= size {
                data.len()
            } else {
                pos + size
            };
            let chunk = &data[pos..end];
            let ghost before = buf@;
            self.encrypt_slice(chunk, &mut buf);
            proof {
                let pad = choose|pad: Seq<u8>|
                    #![trigger pkcs_block(pad, chunk@)]
                    pad.len() + chunk@.len() + 3 == self.key_size && nonzero_bytes(pad) && buf@
                        == before + self.encrypt_block(pkcs_block(pad, chunk@));
                let rest = data@.skip(pos as int);
                lemma_chunks_step(rest, c);
                assert(rest.take((end - pos) as int) =~= chunk@);
                assert(rest.skip((end - pos) as int) =~= data@.skip(end as int));
                assert(done + chunks(rest, c) =~= done.push(chunk@) + chunks(data@.skip(end as int), c));
                let old_done = done;
                let old_pads = pads;
                done = done.push(chunk@);
                pads = pads.push(pad);
                assert(self.cipher_blocks(done, pads) =~= self.cipher_blocks(old_done, old_pads).push(
                    self.encrypt_block(pkcs_block(pad, chunk@)),
                ));
                self.cipher_blocks(old_done, old_pads).lemma_flatten_push(self.encrypt_block(pkcs_block(pad, chunk@)));
                self.lemma_block_len(pkcs_block(pad, chunk@));
                let n = old_done.len();
                let k = self.key_size;
                assert(n * k + k == (n + 1) * k) by (nonlinear_arith);
            }
            pos = end;
        }
        proof {
            assert(data@.skip(pos as int) =~= Seq::<u8>::empty());
            assert(chunks(data@, c) =~= done);
            assert(self.pads_fit(data@, pads));
            assert(buf@ == self.encryption(data@, pads));
            assert forall|j: int| 0 <= j < pads.len() implies be_value(
                #[trigger] pkcs_block(pads[j], chunks(data@, c)[j]),
            ) < be_value(self.n@) by {
                self.lemma_block_below_modulus(pads[j], done[j]);
            }
            assert(self.blocks_below_modulus(data@, pads));
        }
        buf
    }

    fn encrypt_slice(&self, input: &[u8], buf: &mut Vec<u8>)
        requires
            input@.len() + 3 <= self.key_len(),
        ensures
            exists|pad: Seq<u8>|
                #![trigger pkcs_block(pad, input@)]
                pad.len() + input@.len() + 3 == self.key_len() && nonzero_bytes(pad) && final(buf)@
                    == old(buf)@ + self.encrypt_block(pkcs_block(pad, input@)),
    {
        proof {
            use_type_invariant(self);
        }
        let pad_size = self.key_size - input.len() - 3;
        let pad_data = random_bytes(pad_size);
        let mut msg_buf: Vec<u8> = Vec::new();
        msg_buf.push(0);
        msg_buf.push(2);
        let ghost mut pad: Seq<u8> = Seq::empty();
        for i in 0..pad_size
            invariant
                pad_data@.len() == pad_size,
                pad.len() == i,
                nonzero_bytes(pad),
                msg_buf@ == seq![0u8, 2u8] + pad,
        {
            let v = pad_data[i] % 0xff + 0x01;
            msg_buf.push(v);
            proof {
                pad = pad.push(v);
            }
        }
        msg_buf.push(0);
        for i in 0..input.len()
            invariant
                msg_buf@ == seq![0u8, 2u8] + pad + seq![0u8] + input@.take(i as int),
        {
            msg_buf.push(input[i]);
            proof {
                assert(input@.take(i + 1) =~= input@.take(i as int).push(input@[i as int]));
            }
        }
        proof {
            assert(input@.take(input@.len() as int) =~= input@);
            assert(msg_buf@ =~= pkcs_block(pad, input@));
        }
        let ret = modpow_be(msg_buf.as_slice(), self.e.as_slice(), self.n.as_slice());
        proof {
            self.lemma_block_len(msg_buf@);
        }
        let ghost before = buf@;
        if self.key_size > ret.len() {
            let start_len = self.key_size - ret.len();
            for i in 0..start_len
                invariant
                    buf@ == before + zeros(i as nat),
            {
                buf.push(0);
                proof {
                    assert(zeros((i + 1) as nat) =~= zeros(i as nat).push(0u8));
                }
            }
        }
        let ghost mid = buf@;
        for i in 0..ret.len()
            invariant
                buf@ == mid + ret@.take(i as int),
        {
            buf.push(ret[i]);
            proof {
                assert(ret@.take(i + 1) =~= ret@.take(i as int).push(ret@[i as int]));
            }
        }
        proof {
            assert(ret@.take(ret@.len() as int) =~= ret@);
            assert(buf@ =~= before + self.encrypt_block(pkcs_block(pad, input@)));
        }
    }

    /// Decrypts `data` block by block: every block of `key_len` bytes (the
    /// last may be shorter) has the key applied, and what follows the
    /// framing is kept.
    pub fn decrypt(&self, data: &[u8]) -> (out: Vec<u8>)
        ensures
            out@ == self.decryption(data@),
    {
        proof {
            use_type_invariant(self);
        }
        let size = self.key_size;
        let ghost c = self.key_size as nat;
        let mut buf: Vec<u8> = Vec::new();
        let mut pos: usize = 0;
        let ghost mut done: Seq<Seq<u8>> = Seq::empty();
        assert(data@.skip(0) =~= data@);
        while pos < data.len()
            invariant
                self.well_formed(),
                size == c,
                c >= 1,
                pos <= data@.len(),
                chunks(data@, c) == done + chunks(data@.skip(pos as int), c),
                buf@ == self.plain_pieces(done).flatten(),
            decreases data@.len() - pos,
        {
            let end = if data.len() - pos <= size {
                data.len()
            } else {
                pos + size
            };
            let chunk = &data[pos..end];
            self.decrypt_slice(chunk, &mut buf);
            proof {
                let rest = data@.skip(pos as int);
                lemma_chunks_step(rest, c);
                assert(rest.take((end - pos) as int) =~= chunk@);
                assert(rest.skip((end - pos) as int) =~= data@.skip(end as int));
                assert(done + chunks(rest, c) =~= done.push(chunk@) + chunks(data@.skip(end as int), c));
                let old_done = done;
                done = done.push(chunk@);
                assert(self.plain_pieces(done) =~= self.plain_pieces(old_done).push(unpad(self.apply(chunk@))));
                self.plain_pieces(old_done).lemma_flatten_push(unpad(self.apply(chunk@)));
            }
            pos = end;
        }
        proof {
            assert(data@.skip(pos as int) =~= Seq::<u8>::empty());
            assert(chunks(data@, c) =~= done);
        }
        buf
    }

    fn decrypt_slice(&self, input: &[u8], buf: &mut Vec<u8>)
        ensures
            final(buf)@ == old(buf)@ + unpad(self.apply(input@)),
    {
        proof {
            use_type_invariant(self);
        }
        let ret = modpow_be(input, self.e.as_slice(), self.n.as_slice());
        let ghost before = buf@;
        let mut i: usize = 0;
        while i < ret.len()
            invariant
                i <= ret@.len(),
                ret@ == self.apply(input@),
                before == old(buf)@,
                buf@ == before,
                forall|k: int| 1 <= k < i ==> ret@[k] != 0,
            decreases ret@.len() - i,
        {
            if ret[i] == 0 && i != 0 {
                let mut j = i + 1;
                while j < ret.len()
                    invariant
                        1 <= i < ret@.len(),
                        ret@[i as int] == 0,
                        before == old(buf)@,
                        ret@ == self.apply(input@),
                        forall|k: int| 1 <= k < i ==> ret@[k] != 0,
                        i + 1 <= j <= ret@.len(),
                        buf@ == before + ret@.subrange(i + 1, j as int),
                    decreases ret@.len() - j,
                {
                    buf.push(ret[j]);
                    proof {
                        assert(ret@.subrange(i + 1, j + 1) =~= ret@.subrange(i + 1, j as int).push(ret@[j as int]));
                    }
                    j += 1;
                }
                proof {
                    lemma_zero_index_skip(ret@, 1, i as nat);
                    assert(zero_index_from(ret@, i as nat) == Some(i as nat));
                    assert(ret@ == self.apply(input@));
                    assert(zero_index_from(ret@, 1) == Some(i as nat));
                    assert(ret@.subrange(i + 1, ret@.len() as int) =~= ret@.skip(i + 1));
                    assert(unpad(self.apply(input@)) == ret@.skip(i + 1));
                    assert(buf@ == before + unpad(self.apply(input@)));
                }
                return;
            }
            i += 1;
        }
        proof {
            if ret@.len() >= 1 {
                lemma_zero_index_skip(ret@, 1, ret@.len());
            }
            assert(buf@ =~= before + Seq::<u8>::empty());
        }
    }
} // impl MyRSA

} // verus!
