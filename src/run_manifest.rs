use vstd::prelude::*;
use vstd::string::*;
use vstd::utf8::*;

verus! {

/// FNV-1a 64-bit offset basis.
pub const FNV_OFFSET: u64 = 0xcbf2_9ce4_8422_2325;

/// FNV-1a 64-bit prime.
pub const FNV_PRIME: u64 = 0x0000_0100_0000_01b3;

/// FNV-1a 64-bit hash of a byte sequence.
pub open spec fn fnv1a(bytes: Seq<u8>) -> u64
    decreases bytes.len(),
{
    if bytes.len() == 0 {
        FNV_OFFSET
    } else {
        let h = fnv1a(bytes.drop_last()) ^ (bytes.last() as u64);
        ((h as nat * FNV_PRIME as nat) % 0x1_0000_0000_0000_0000) as u64
    }
}

/// Lower-case hexadecimal digit of `d < 16`.
pub open spec fn hex_char(d: nat) -> char {
    if d < 10 {
        ((d + 48) as u8) as char
    } else {
        ((d + 87) as u8) as char
    }
}

/// The low `count` hexadecimal digits of `n`, most significant first.
pub open spec fn hex_digits(n: nat, count: nat) -> Seq<char>
    decreases count,
{
    if count == 0 {
        Seq::empty()
    } else {
        hex_digits(n / 16, (count - 1) as nat).push(hex_char(n % 16))
    }
}

/// Decimal digit of `d < 10`.
pub open spec fn dec_char(d: nat) -> char {
    ((d + 48) as u8) as char
}

/// Decimal representation of `n`, without leading zeros.
pub open spec fn decimal(n: nat) -> Seq<char>
    decreases n,
{
    if n < 10 {
        seq![dec_char(n)]
    } else {
        decimal(n / 10).push(dec_char(n % 10))
    }
}

/// Text of a string slice holding one hexadecimal digit.
fn hex_digit_str(d: u64) -> (r: &'static str)
    requires
        d < 16,
    ensures
        r@ == seq![hex_char(d as nat)],
{
    proof {
        reveal_strlit("0");
        reveal_strlit("1");
        reveal_strlit("2");
        reveal_strlit("3");
        reveal_strlit("4");
        reveal_strlit("5");
        reveal_strlit("6");
        reveal_strlit("7");
        reveal_strlit("8");
        reveal_strlit("9");
        reveal_strlit("a");
        reveal_strlit("b");
        reveal_strlit("c");
        reveal_strlit("d");
        reveal_strlit("e");
        reveal_strlit("f");
    }
    let r = match d {
        0 => "0",
        1 => "1",
        2 => "2",
        3 => "3",
        4 => "4",
        5 => "5",
        6 => "6",
        7 => "7",
        8 => "8",
        9 => "9",
        10 => "a",
        11 => "b",
        12 => "c",
        13 => "d",
        14 => "e",
        _ => "f",
    };
    assert(r@ =~= seq![hex_char(d as nat)]);
    r
}

/// Sixteen lower-case hexadecimal digits of `n`, zero-padded.
fn hex16(n: u64) -> (r: String)
    ensures
        r@ == hex_digits(n as nat, 16),
{
    let mut s = String::new();
    let mut rest: u64 = n;
    let mut k: u64 = 0;
    proof {
        assert(pow16(0) == 1);
        assert(s@ =~= hex_digits(n as nat, 0));
    }
    while k < 16
        invariant
            0 <= k <= 16,
            rest as nat == n as nat / pow16(k as nat),
            s@ == hex_digits(n as nat, k as nat),
        decreases 16 - k,
    {
        let d = hex_digit_str(rest % 16);
        proof {
            lemma_hex_digits_step(n as nat, k as nat);
        }
        let mut t = String::from_str(d);
        t.append(s.as_str());
        s = t;
        proof {
            lemma_pow16_div(n as nat, k as nat);
        }
        rest = rest / 16;
        k += 1;
    }
    s
}

/// `16` to the power `k`.
pub open spec fn pow16(k: nat) -> nat
    decreases k,
{
    if k == 0 {
        1
    } else {
        16 * pow16((k - 1) as nat)
    }
}

proof fn lemma_pow16_div(n: nat, k: nat)
    ensures
        n / pow16(k) / 16 == n / pow16(k + 1),
{
    lemma_pow16_positive(k);
    vstd::arithmetic::div_mod::lemma_div_denominator(n as int, pow16(k) as int, 16);
    assert(pow16(k) * 16 == 16 * pow16(k)) by (nonlinear_arith);
}

proof fn lemma_pow16_positive(k: nat)
    ensures
        pow16(k) > 0,
    decreases k,
{
    if k > 0 {
        lemma_pow16_positive((k - 1) as nat);
    }
}

/// Widening to one more digit puts the next more significant digit in front.
proof fn lemma_hex_digits_step(n: nat, k: nat)
    ensures
        hex_digits(n, k + 1) == seq![hex_char((n / pow16(k)) % 16)] + hex_digits(n, k),
    decreases k,
{
    if k == 0 {
        assert(pow16(0) == 1);
        assert(n / 1 == n);
        assert(hex_digits(n / 16, 0) == Seq::<char>::empty());
        assert(hex_digits(n, 0) == Seq::<char>::empty());
        assert(hex_digits(n, 1) =~= seq![hex_char(n % 16)] + hex_digits(n, 0));
    } else {
        let k1 = (k - 1) as nat;
        lemma_hex_digits_step(n / 16, k1);
        lemma_pow16_positive(k1);
        vstd::arithmetic::div_mod::lemma_div_denominator(n as int, 16, pow16(k1) as int);
        assert(16 * pow16(k1) == pow16(k));
        let c = hex_char((n / pow16(k)) % 16);
        assert(hex_digits(n, k + 1) == hex_digits(n / 16, k).push(hex_char(n % 16)));
        assert(hex_digits(n, k) == hex_digits(n / 16, k1).push(hex_char(n % 16)));
        assert(hex_digits(n / 16, k) == seq![c] + hex_digits(n / 16, k1));
        assert(hex_digits(n, k + 1) =~= seq![c] + hex_digits(n, k));
    }
}

/// Provenance of one training run, with the hashes of its inputs.
#[derive(Clone, Debug, PartialEq, Eq)]
pub struct RunManifest {
    pub crate_version: String,
    pub git_commit: Option<String>,
    pub seed: Option<u64>,
    pub config_hash: String,
    pub input_hash: String,
    pub feature_schema_hash: String,
}

/// The canonical `key=value;` text of a manifest that its hash is taken over; an absent
/// commit or seed is written as an empty value.
pub open spec fn manifest_text(m: RunManifest) -> Seq<char> {
    let commit = match m.git_commit {
        Some(g) => g@,
        None => Seq::empty(),
    };
    let seed = match m.seed {
        Some(v) => decimal(v as nat),
        None => Seq::empty(),
    };
    "crate_version="@ + m.crate_version@ + ";git_commit="@ + commit + ";seed="@ + seed
        + ";config_hash="@ + m.config_hash@ + ";input_hash="@ + m.input_hash@
        + ";feature_schema_hash="@ + m.feature_schema_hash@ + ";"@
}

/// Hash of a byte string: the 64-bit FNV-1a hash as sixteen lower-case hexadecimal digits.
pub fn hash_bytes_sha256(bytes: &[u8]) -> (r: String)
    ensures
        r@ == hex_digits(fnv1a(bytes@) as nat, 16),
{
    let mut hash: u64 = FNV_OFFSET;
    let mut i: usize = 0;
    proof {
        assert(bytes@.subrange(0, 0) =~= Seq::<u8>::empty());
    }
    while i < bytes.len()
        invariant
            0 <= i <= bytes@.len(),
            hash == fnv1a(bytes@.subrange(0, i as int)),
        decreases bytes@.len() - i,
    {
        proof {
            assert(bytes@.subrange(0, i + 1).drop_last() =~= bytes@.subrange(0, i as int));
        }
        hash = hash ^ (bytes[i] as u64);
        hash = hash.wrapping_mul(FNV_PRIME);
        i += 1;
    }
    proof {
        assert(bytes@.subrange(0, bytes@.len() as int) =~= bytes@);
    }
    hex16(hash)
}

/// Decimal text of `n`.
fn decimal_string(n: u64) -> (r: String)
    ensures
        r@ == decimal(n as nat),
{
    let d = hex_digit_str(n % 10);
    let mut s = String::from_str(d);
    let mut rest: u64 = n / 10;
    while rest > 0
        invariant
            rest > 0 ==> decimal(n as nat) == decimal(rest as nat) + s@,
            rest == 0 ==> decimal(n as nat) == s@,
        decreases rest,
    {
        let d = hex_digit_str(rest % 10);
        proof {
            if rest >= 10 {
                assert(decimal(rest as nat) == decimal((rest / 10) as nat).push(
                    dec_char((rest % 10) as nat),
                ));
                assert(decimal(rest as nat) + s@ =~= decimal((rest / 10) as nat) + (d@ + s@));
            } else {
                assert(decimal(rest as nat) =~= d@);
            }
        }
        let mut t = String::from_str(d);
        t.append(s.as_str());
        s = t;
        rest = rest / 10;
    }
    s
}

impl RunManifest {
    /// Hash of the manifest's canonical text, in the form `hash_bytes_sha256` gives.
    pub fn manifest_hash(&self) -> (r: String)
        ensures
            r@ == hex_digits(fnv1a(encode_utf8(manifest_text(*self))) as nat, 16),
    {
        let mut text = String::from_str("crate_version=");
        text.append(self.crate_version.as_str());
        text.append(";git_commit=");
        match &self.git_commit {
            Some(g) => text.append(g.as_str()),
            None => {},
        }
        text.append(";seed=");
        match self.seed {
            Some(v) => {
                let digits = decimal_string(v);
                text.append(digits.as_str());
            },
            None => {},
        }
        text.append(";config_hash=");
        text.append(self.config_hash.as_str());
        text.append(";input_hash=");
        text.append(self.input_hash.as_str());
        text.append(";feature_schema_hash=");
        text.append(self.feature_schema_hash.as_str());
        text.append(";");
        assert(text@ =~= manifest_text(*self));
        let bytes = text.as_str().as_bytes();
        hash_bytes_sha256(bytes)
    }
}

} // verus!
