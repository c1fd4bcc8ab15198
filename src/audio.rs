//! Decoding of SPHERE audio sample payloads to 16-bit PCM.
use vstd::prelude::*;

use crate::text::{chars_of, contains, contains_str, lower_of, lowercase};

verus! {

pub open spec fn pow2(e: nat) -> nat
    decreases e,
{
    if e == 0 {
        1
    } else {
        2 * pow2((e - 1) as nat)
    }
}

fn scale(base: i32, e: u8) -> (r: i32)
    requires
        0 <= base <= 504,
        e <= 7,
    ensures
        r as int == base * pow2(e as nat),
{
    let mut v = base;
    let mut k: u8 = 0;
    proof {
        lemma_pow2_table(0);
    }
    while k < e
        invariant
            k <= e <= 7,
            0 <= base <= 504,
            v as int == base * pow2(k as nat),
        decreases e - k,
    {
        proof {
            lemma_pow2_table(k as nat);
            lemma_pow2_table((k + 1) as nat);
            assert(base * pow2(k as nat) <= 504 * 64) by (nonlinear_arith)
                requires
                    0 <= base <= 504,
                    pow2(k as nat) <= 64,
            ;
            assert(base * pow2((k + 1) as nat) == 2 * (base * pow2(k as nat))) by (nonlinear_arith)
                requires
                    pow2((k + 1) as nat) == 2 * pow2(k as nat),
            ;
        }
        v = v * 2;
        k = k + 1;
    }
    v
}

proof fn lemma_pow2_table(e: nat)
    requires
        e <= 7,
    ensures
        pow2(e) <= 128,
        e < 7 ==> pow2(e) <= 64,
        e == 0 ==> pow2(e) == 1,
        e < 7 ==> pow2(e + 1) == 2 * pow2(e),
{
    reveal_with_fuel(pow2, 9);
}

/// ITU-T G.711 mu-law expansion of one byte.
pub open spec fn mu_law_value(byte: u8) -> int {
    let b = 255 - byte;
    let e = (b / 16) % 8;
    let m = b % 16;
    let v = (m * 8 + 132) * pow2(e as nat);
    if b >= 128 {
        -v
    } else {
        v
    }
}

/// ITU-T G.711 A-law expansion of one byte.
pub open spec fn a_law_value(byte: u8) -> int {
    let b = byte ^ 0x55u8;
    let e = (b / 16) % 8;
    let m = b % 16;
    let base = if e == 0 {
        m * 16 + 8
    } else {
        m * 16 + 264
    };
    let v = if e > 1 {
        base * pow2((e - 1) as nat)
    } else {
        base
    };
    if b >= 128 {
        v
    } else {
        -v
    }
}

/// Decodes one mu-law byte to a 16-bit sample.
pub fn mu_law_to_i16(byte: u8) -> (r: i16)
    ensures
        r as int == mu_law_value(byte),
{
    let b: u8 = 255 - byte;
    let e: u8 = (b / 16) % 8;
    let m: u8 = b % 16;
    let v = scale(m as i32 * 8 + 132, e);
    proof {
        lemma_pow2_table(e as nat);
        assert((m * 8 + 132) * pow2(e as nat) <= 252 * 128) by (nonlinear_arith)
            requires
                m < 16,
                pow2(e as nat) <= 128,
        ;
    }
    if b >= 128 {
        -(v as i16)
    } else {
        v as i16
    }
}

/// Decodes one A-law byte to a 16-bit sample.
pub fn a_law_to_i16(byte: u8) -> (r: i16)
    ensures
        r as int == a_law_value(byte),
{
    let b: u8 = byte ^ 0x55u8;
    let e: u8 = (b / 16) % 8;
    let m: u8 = b % 16;
    let base: i32 = if e == 0 {
        m as i32 * 16 + 8
    } else {
        m as i32 * 16 + 264
    };
    let v = if e > 1 {
        scale(base, e - 1)
    } else {
        base
    };
    proof {
        if e > 1 {
            lemma_pow2_table((e - 1) as nat);
            assert(base * pow2((e - 1) as nat) <= 504 * 64) by (nonlinear_arith)
                requires
                    0 <= base <= 504,
                    pow2((e - 1) as nat) <= 64,
            ;
        }
    }
    if b >= 128 {
        v as i16
    } else {
        -(v as i16)
    }
}

/// Sample codings of SPHERE payloads that are decoded.
#[derive(PartialEq, Eq, Structural, Clone, Copy, Debug)]
pub enum SphereCoding {
    /// Signed 16-bit PCM.
    Pcm16,
    /// Signed 8-bit PCM, widened.
    Pcm8,
    /// G.711 mu-law.
    MuLaw,
    /// G.711 A-law.
    ALaw,
}

/// How a payload of the given coding (lowercased) and sample width is decoded, if at all.
pub open spec fn coding_of(c: Seq<char>, n: u16) -> Option<SphereCoding> {
    if crate::text::contains(c, "shorten"@) {
        None
    } else if crate::text::contains(c, "pcm"@) && n == 2 {
        Some(SphereCoding::Pcm16)
    } else if crate::text::contains(c, "pcm"@) && n == 1 {
        Some(SphereCoding::Pcm8)
    } else if (crate::text::contains(c, "ulaw"@) || crate::text::contains(c, "mulaw"@) || crate::text::contains(c, "mu-law"@)) && n == 1 {
        Some(SphereCoding::MuLaw)
    } else if (crate::text::contains(c, "alaw"@) || crate::text::contains(c, "a-law"@)) && n == 1 {
        Some(SphereCoding::ALaw)
    } else {
        None
    }
}

/// Chooses the decoding of a SPHERE payload from its `sample_coding` (default `pcm`) and
/// `sample_n_bytes`; Shorten-compressed payloads are not decoded.
pub fn sphere_coding(sample_coding: Option<&str>, sample_n_bytes: u16) -> (r: Option<SphereCoding>)
    ensures
        r == coding_of(lower_of(match sample_coding { Some(c) => c@, None => "pcm"@ }), sample_n_bytes),
{
    let raw = match sample_coding {
        Some(c) => c,
        None => "pcm",
    };
    let l = lowercase(raw);
    let v = chars_of(l.as_str());
    let n = v.len();
    assert(v@.subrange(0, n as int) == v@);
    if contains_str(&v, 0, n, "shorten") {
        None
    } else if contains_str(&v, 0, n, "pcm") && sample_n_bytes == 2 {
        Some(SphereCoding::Pcm16)
    } else if contains_str(&v, 0, n, "pcm") && sample_n_bytes == 1 {
        Some(SphereCoding::Pcm8)
    } else if (contains_str(&v, 0, n, "ulaw") || contains_str(&v, 0, n, "mulaw") || contains_str(&v, 0, n, "mu-law")) && sample_n_bytes == 1 {
        Some(SphereCoding::MuLaw)
    } else if (contains_str(&v, 0, n, "alaw") || contains_str(&v, 0, n, "a-law")) && sample_n_bytes == 1 {
        Some(SphereCoding::ALaw)
    } else {
        None
    }
}

/// The 16-bit sample of payload position `i` under a coding.
pub open spec fn sample_at(coding: SphereCoding, big_endian: bool, p: Seq<u8>, i: int) -> int {
    match coding {
        SphereCoding::Pcm16 => {
            let (hi, lo) = if big_endian { (p[2 * i], p[2 * i + 1]) } else { (p[2 * i + 1], p[2 * i]) };
            let u = hi * 256 + lo;
            if u >= 32768 { u - 65536 } else { u }
        },
        SphereCoding::Pcm8 => (if p[i] >= 128 { p[i] - 256 } else { p[i] as int }) * 256,
        SphereCoding::MuLaw => mu_law_value(p[i]),
        SphereCoding::ALaw => a_law_value(p[i]),
    }
}

/// Number of samples a payload holds under a coding (a trailing odd byte of 16-bit PCM is
/// dropped).
pub open spec fn sample_count(coding: SphereCoding, p: Seq<u8>) -> int {
    if coding == SphereCoding::Pcm16 {
        p.len() as int / 2
    } else {
        p.len() as int
    }
}

/// Decodes a SPHERE payload to 16-bit samples.
pub fn decode_sphere_samples(coding: SphereCoding, big_endian: bool, payload: &[u8]) -> (r: Vec<i16>)
    ensures
        r@.len() == sample_count(coding, payload@),
        forall|i: int| 0 <= i < r@.len() ==> r@[i] as int == sample_at(coding, big_endian, payload@, i),
{
    let mut out: Vec<i16> = Vec::new();
    let n = if coding == SphereCoding::Pcm16 { payload.len() / 2 } else { payload.len() };
    let mut i: usize = 0;
    while i < n
        invariant
            n == sample_count(coding, payload@),
            coding == SphereCoding::Pcm16 ==> 2 * n <= payload@.len(),
            n <= payload@.len(),
            payload@.len() <= usize::MAX,
            i <= n,
            out@.len() == i,
            forall|k: int| 0 <= k < i ==> out@[k] as int == sample_at(coding, big_endian, payload@, k),
        decreases n - i,
    {
        let s: i16 = match coding {
            SphereCoding::Pcm16 => {
                let a = payload[2 * i];
                let b = payload[2 * i + 1];
                let (hi, lo) = if big_endian { (a, b) } else { (b, a) };
                let u: u32 = hi as u32 * 256 + lo as u32;
                if u >= 32768 {
                    (u as i32 - 65536) as i16
                } else {
                    u as i16
                }
            },
            SphereCoding::Pcm8 => {
                let b = payload[i];
                if b >= 128 { (b as i16 - 256) * 256 } else { b as i16 * 256 }
            },
            SphereCoding::MuLaw => mu_law_to_i16(payload[i]),
            SphereCoding::ALaw => a_law_to_i16(payload[i]),
        };
        out.push(s);
        i = i + 1;
    }
    out
}

} // verus!
