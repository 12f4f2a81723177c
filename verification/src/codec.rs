//! Decoding and re-encoding of the fixed-width base-36 identifier text.

use vstd::prelude::*;

verus! {

/// Number of symbols in one identifier token.
pub const TOKEN_LEN: usize = 25;

/// True when the byte is a symbol of the (case-insensitive) base-36 alphabet.
pub open spec fn is_symbol(b: u8) -> bool {
    (48 <= b && b <= 57) || (65 <= b && b <= 90) || (97 <= b && b <= 122)
}

/// Numeric value of an alphabet symbol; 0 on bytes outside the alphabet.
pub open spec fn symbol_value(b: u8) -> nat {
    if 48 <= b && b <= 57 {
        (b - 48) as nat
    } else if 65 <= b && b <= 90 {
        (b - 55) as nat
    } else if 97 <= b && b <= 122 {
        (b - 87) as nat
    } else {
        0
    }
}

/// All bytes of the sequence are alphabet symbols.
pub open spec fn all_symbols(s: Seq<u8>) -> bool {
    forall|i: int| 0 <= i < s.len() ==> is_symbol(s[i])
}

/// Value of a token text read as a base-36 number, most significant first.
pub open spec fn token_value(s: Seq<u8>) -> nat
    decreases s.len(),
{
    if s.len() == 0 {
        0
    } else {
        token_value(s.drop_last()) * 36 + symbol_value(s.last())
    }
}

/// A token the decoder accepts: exact width, alphabet symbols only, and a
/// value that fits the 128-bit integer form.
pub open spec fn well_formed_token(s: Seq<u8>) -> bool {
    &&& s.len() == TOKEN_LEN
    &&& all_symbols(s)
    &&& token_value(s) <= u128::MAX
}

/// Timestamp field: the 48 bits above bit 80.
pub open spec fn ts_of(v: u128) -> u64 {
    (v >> 80) as u64
}

/// High counter field: 24 bits at bit 56.
pub open spec fn counter_hi_of(v: u128) -> u32 {
    ((v >> 56) & 0xff_ffff) as u32
}

/// Low counter field: 24 bits at bit 32.
pub open spec fn counter_lo_of(v: u128) -> u32 {
    ((v >> 32) & 0xff_ffff) as u32
}

/// Entropy field: the low 32 bits.
pub open spec fn entropy_of(v: u128) -> u32 {
    (v & 0xffff_ffff) as u32
}

/// Mathematical image of a decoded identifier.
#[verifier::ext_equal]
pub ghost struct IdView {
    pub str_bytes: Seq<u8>,
    pub int_value: u128,
    pub timestamp: u64,
    pub counter_hi: u32,
    pub counter_lo: u32,
    pub entropy: u32,
}

impl IdView {
    /// Structural soundness: text width and field decomposition agree with
    /// the integer form.
    pub open spec fn wf(self) -> bool {
        &&& self.str_bytes.len() == TOKEN_LEN
        &&& self.int_value == token_value(self.str_bytes)
        &&& self.timestamp == ts_of(self.int_value)
        &&& self.counter_hi == counter_hi_of(self.int_value)
        &&& self.counter_lo == counter_lo_of(self.int_value)
        &&& self.entropy == entropy_of(self.int_value)
    }
}

/// What a well-formed token decodes to.
pub open spec fn spec_decode(s: Seq<u8>) -> IdView {
    let v = token_value(s) as u128;
    IdView {
        str_bytes: s,
        int_value: v,
        timestamp: ts_of(v),
        counter_hi: counter_hi_of(v),
        counter_lo: counter_lo_of(v),
        entropy: entropy_of(v),
    }
}

/// Holds representations and internal field values of one identifier.
pub struct Identifier {
    pub str_bytes: Vec<u8>,
    pub int_value: u128,
    pub timestamp: u64,
    pub counter_hi: u32,
    pub counter_lo: u32,
    pub entropy: u32,
}

impl View for Identifier {
    type V = IdView;

    open spec fn view(&self) -> IdView {
        IdView {
            str_bytes: self.str_bytes@,
            int_value: self.int_value,
            timestamp: self.timestamp,
            counter_hi: self.counter_hi,
            counter_lo: self.counter_lo,
            entropy: self.entropy,
        }
    }
}

/// The field bounds that the bit decomposition forces.
pub proof fn lemma_field_bounds(v: u128)
    ensures
        ts_of(v) < 0x1_0000_0000_0000u64,
        counter_hi_of(v) <= 0xff_ffffu32,
        counter_lo_of(v) <= 0xff_ffffu32,
{
    assert(v >> 80 < 0x1_0000_0000_0000u128) by (bit_vector);
    assert((v >> 56) & 0xff_ffff <= 0xff_ffffu128) by (bit_vector);
    assert((v >> 32) & 0xff_ffff <= 0xff_ffffu128) by (bit_vector);
}

/// Symbol value of one byte; 0xff marks a byte outside the alphabet.
pub fn decode_symbol(b: u8) -> (n: u8)
    ensures
        is_symbol(b) ==> n == symbol_value(b) && n < 36,
        !is_symbol(b) ==> n == 0xff,
{
    if 48 <= b && b <= 57 {
        b - 48
    } else if 65 <= b && b <= 90 {
        b - 55
    } else if 97 <= b && b <= 122 {
        b - 87
    } else {
        0xff
    }
}

/// The value of a prefix never exceeds the value of the whole token.
pub proof fn lemma_prefix_value_le(s: Seq<u8>, i: int)
    requires
        0 <= i <= s.len(),
    ensures
        token_value(s.take(i)) <= token_value(s),
    decreases s.len() - i,
{
    if i < s.len() {
        assert(s.take(i + 1).drop_last() =~= s.take(i));
        assert(token_value(s.take(i + 1)) == token_value(s.take(i)) * 36 + symbol_value(
            s.take(i + 1).last(),
        ));
        assert(token_value(s.take(i)) <= token_value(s.take(i)) * 36) by (nonlinear_arith);
        lemma_prefix_value_le(s, i + 1);
        assert(s.take(s.len() as int) =~= s);
    } else {
        assert(s.take(i) =~= s);
    }
}

impl Identifier {
    /// Decodes a textual token. Returns the identifier exactly when the
    /// token is well formed: 25 bytes, alphabet symbols only, and a value
    /// that fits 128 bits.
    pub fn new(str_bytes: &[u8]) -> (r: Option<Self>)
        ensures
            r is Some <==> well_formed_token(str_bytes@),
            r matches Some(id) ==> id@ == spec_decode(str_bytes@) && id@.wf(),
    {
        if str_bytes.len() != TOKEN_LEN {
            return None;
        }
        let mut text: Vec<u8> = Vec::new();
        let mut int_value: u128 = 0;
        let mut i: usize = 0;
        while i < TOKEN_LEN
            invariant
                0 <= i <= TOKEN_LEN,
                str_bytes@.len() == TOKEN_LEN,
                text@ =~= str_bytes@.take(i as int),
                all_symbols(str_bytes@.take(i as int)),
                int_value == token_value(str_bytes@.take(i as int)),
            decreases TOKEN_LEN - i,
        {
            let b = str_bytes[i];
            let n = decode_symbol(b);
            if n == 0xff {
                assert(!is_symbol(str_bytes@[i as int]));
                return None;
            }
            let shifted = match int_value.checked_mul(36) {
                Some(m) => m,
                None => {
                    proof {
                        lemma_prefix_overflow(str_bytes@, i as int);
                    }
                    return None;
                },
            };
            int_value = match shifted.checked_add(n as u128) {
                Some(v) => v,
                None => {
                    proof {
                        lemma_prefix_overflow(str_bytes@, i as int);
                    }
                    return None;
                },
            };
            text.push(b);
            proof {
                assert(str_bytes@.take(i + 1).drop_last() =~= str_bytes@.take(i as int));
                assert(str_bytes@.take(i + 1).last() == str_bytes@[i as int]);
            }
            i = i + 1;
        }
        proof {
            assert(str_bytes@.take(TOKEN_LEN as int) =~= str_bytes@);
        }
        let timestamp = extract_timestamp(int_value);
        let counter_hi = extract_counter_hi(int_value);
        let counter_lo = extract_counter_lo(int_value);
        let entropy = extract_entropy(int_value);
        Some(Identifier { str_bytes: text, int_value, timestamp, counter_hi, counter_lo, entropy })
    }
}

/// If extending the prefix at position `i` overflows, the whole token does
/// not fit 128 bits.
proof fn lemma_prefix_overflow(s: Seq<u8>, i: int)
    requires
        0 <= i < s.len(),
        token_value(s.take(i)) * 36 + symbol_value(s[i]) > u128::MAX,
    ensures
        token_value(s) > u128::MAX,
{
    assert(s.take(i + 1).drop_last() =~= s.take(i));
    assert(s.take(i + 1).last() == s[i]);
    assert(token_value(s.take(i + 1)) == token_value(s.take(i)) * 36 + symbol_value(s[i]));
    lemma_prefix_value_le(s, i + 1);
}

/// Timestamp bits of the integer form.
pub fn extract_timestamp(v: u128) -> (r: u64)
    ensures
        r == ts_of(v),
{
    proof {
        lemma_field_bounds(v);
        assert(v >> 80 < 0x1_0000_0000_0000u128) by (bit_vector);
    }
    (v >> 80) as u64
}

/// High counter bits of the integer form.
pub fn extract_counter_hi(v: u128) -> (r: u32)
    ensures
        r == counter_hi_of(v),
{
    proof {
        assert((v >> 56) & 0xff_ffff <= 0xff_ffffu128) by (bit_vector);
    }
    ((v >> 56) & 0xff_ffff) as u32
}

/// Low counter bits of the integer form.
pub fn extract_counter_lo(v: u128) -> (r: u32)
    ensures
        r == counter_lo_of(v),
{
    proof {
        assert((v >> 32) & 0xff_ffff <= 0xff_ffffu128) by (bit_vector);
    }
    ((v >> 32) & 0xff_ffff) as u32
}

/// Entropy bits of the integer form.
pub fn extract_entropy(v: u128) -> (r: u32)
    ensures
        r == entropy_of(v),
{
    proof {
        assert(v & 0xffff_ffff <= 0xffff_ffffu128) by (bit_vector);
    }
    (v & 0xffff_ffff) as u32
}

/// True for the canonical spelling of the alphabet: digits and upper case.
pub open spec fn is_canonical_symbol(b: u8) -> bool {
    (48 <= b && b <= 57) || (65 <= b && b <= 90)
}

/// All bytes of the sequence are canonical symbols.
pub open spec fn all_canonical(s: Seq<u8>) -> bool {
    forall|i: int| 0 <= i < s.len() ==> is_canonical_symbol(s[i])
}

/// Canonical symbol for a digit value below 36.
pub open spec fn canonical_symbol(d: nat) -> u8 {
    if d < 10 {
        (48 + d) as u8
    } else {
        (55 + d) as u8
    }
}

/// The `n` least significant base-36 digits of `v`, in canonical spelling.
pub open spec fn encode_rec(v: nat, n: nat) -> Seq<u8>
    decreases n,
{
    if n == 0 {
        Seq::empty()
    } else {
        encode_rec(v / 36, (n - 1) as nat) + seq![canonical_symbol(v % 36)]
    }
}

/// Canonical symbol of one digit value.
pub fn encode_symbol(d: u8) -> (b: u8)
    requires
        d < 36,
    ensures
        b == canonical_symbol(d as nat),
        is_canonical_symbol(b),
{
    if d < 10 {
        48 + d
    } else {
        55 + d
    }
}

/// Low `n` base-36 digits of `v` as canonical text.
pub fn encode_value(v: u128, n: usize) -> (r: Vec<u8>)
    ensures
        r@ == encode_rec(v as nat, n as nat),
        r@.len() == n,
        all_canonical(r@),
    decreases n,
{
    if n == 0 {
        Vec::new()
    } else {
        let mut r = encode_value(v / 36, n - 1);
        let d = (v % 36) as u8;
        r.push(encode_symbol(d));
        r
    }
}

/// Canonical 25-symbol text of an identifier's integer form. Every 128-bit
/// value fits in 25 base-36 digits.
pub fn encode(v: u128) -> (r: Vec<u8>)
    ensures
        r@ == encode_rec(v as nat, TOKEN_LEN as nat),
        r@.len() == TOKEN_LEN,
        all_canonical(r@),
{
    encode_value(v, TOKEN_LEN)
}

/// Round-trip law: re-encoding the value of a canonical token gives back
/// exactly the same text. Together with `lemma_decode_injective` this makes
/// decoding a bijection between canonical well-formed tokens and their
/// integer values.
pub proof fn lemma_round_trip(s: Seq<u8>)
    requires
        all_canonical(s),
    ensures
        encode_rec(token_value(s), s.len()) == s,
    decreases s.len(),
{
    if s.len() > 0 {
        let t = s.drop_last();
        let b = s.last();
        assert(is_canonical_symbol(b));
        assert(is_symbol(b));
        let d = symbol_value(b);
        assert(d < 36);
        assert(token_value(s) == token_value(t) * 36 + d);
        assert((token_value(t) * 36 + d) / 36 == token_value(t) && (token_value(t) * 36 + d) % 36
            == d) by (nonlinear_arith)
            requires
                d < 36,
        ;
        assert(canonical_symbol(d) == b);
        assert(all_canonical(t));
        lemma_round_trip(t);
        assert(encode_rec(token_value(s), s.len()) == encode_rec(token_value(t), t.len()) + seq![b]);
        assert(t + seq![b] =~= s);
    } else {
        assert(encode_rec(token_value(s), 0) =~= s);
    }
}

/// Two canonical tokens of the same length with the same value are the same
/// text: decoding does not conflate distinct canonical tokens.
pub proof fn lemma_decode_injective(s: Seq<u8>, t: Seq<u8>)
    requires
        all_canonical(s),
        all_canonical(t),
        s.len() == t.len(),
        token_value(s) == token_value(t),
    ensures
        s == t,
{
    lemma_round_trip(s);
    lemma_round_trip(t);
}

} // verus!
