//! Mu-law companding of 16-bit linear PCM samples, after ITU-T G.711 but with
//! the sign bit inverted: after the final inversion of all bits, a code with
//! bit 7 clear is a non-negative sample (0 encodes to 0x7F, where G.711 gives 0xFF).
use vstd::prelude::*;

verus! {

/// Powers of two up to 2^10, as the codec uses them.
pub open spec fn pow2_small(e: int) -> int {
    if e <= 0 {
        1
    } else if e == 1 {
        2
    } else if e == 2 {
        4
    } else if e == 3 {
        8
    } else if e == 4 {
        16
    } else if e == 5 {
        32
    } else if e == 6 {
        64
    } else if e == 7 {
        128
    } else if e == 8 {
        256
    } else if e == 9 {
        512
    } else {
        1024
    }
}

/// The segment (exponent) of a biased magnitude: the position of its highest
/// set bit among bits 7 to 14, counted from bit 7; 0 when none is set.
pub open spec fn ulaw_segment(b: int) -> int {
    if b >= 16384 {
        7
    } else if b >= 8192 {
        6
    } else if b >= 4096 {
        5
    } else if b >= 2048 {
        4
    } else if b >= 1024 {
        3
    } else if b >= 512 {
        2
    } else if b >= 256 {
        1
    } else {
        0
    }
}

/// The mu-law code of a linear sample: the magnitude is clipped to 32635 and
/// biased by 132; the code holds the sign (set for non-negative samples), the
/// segment and the four bits below the segment's leading bit, all inverted.
pub open spec fn ulaw_encode(sample: i16) -> u8 {
    let mag: int = if sample < 0 {
        -(sample as int)
    } else {
        sample as int
    };
    let b = (if mag > 32635 {
        32635
    } else {
        mag
    }) + 132;
    let e = ulaw_segment(b);
    let m = (b / pow2_small(e + 3)) % 16;
    let code = (if sample < 0 {
        0
    } else {
        128int
    }) + 16 * e + m;
    (255 - code) as u8
}

/// The linear sample of a mu-law code: with `x` the inverted code, segment
/// `e = bits 4..6` and mantissa `m = bits 0..3`, the magnitude is
/// `(8 m + 132) 2^e - 132`, positive when bit 7 of `x` is set.
pub open spec fn ulaw_decode(u: u8) -> int {
    let x = 255 - u;
    let e = (x / 16) % 8;
    let m = x % 16;
    let mag = (8 * m + 132) * pow2_small(e) - 132;
    if x >= 128 {
        mag
    } else {
        -mag
    }
}

fn pow2_exec(e: i32) -> (r: i32)
    requires
        0 <= e <= 10,
    ensures
        r == pow2_small(e as int),
{
    if e == 0 {
        1
    } else if e == 1 {
        2
    } else if e == 2 {
        4
    } else if e == 3 {
        8
    } else if e == 4 {
        16
    } else if e == 5 {
        32
    } else if e == 6 {
        64
    } else if e == 7 {
        128
    } else if e == 8 {
        256
    } else if e == 9 {
        512
    } else {
        1024
    }
}

pub struct G711;

impl G711 {
    /// Encodes a linear sample as mu-law. The sample must not be `i16::MIN`,
    /// whose magnitude does not fit in an `i16`.
    pub fn linear_to_ulaw(sample: i16) -> (u: u8)
        requires
            sample != i16::MIN,
        ensures
            u == ulaw_encode(sample),
    {
        let mut s: i32 = sample as i32;
        let sign: i32 = if s < 0 {
            s = -s;
            0
        } else {
            0x80
        };
        if s > 32635 {
            s = 32635;
        }
        s = s + 128 + 4;
        let exponent: i32 = if s >= 0x4000 {
            7
        } else if s >= 0x2000 {
            6
        } else if s >= 0x1000 {
            5
        } else if s >= 0x800 {
            4
        } else if s >= 0x400 {
            3
        } else if s >= 0x200 {
            2
        } else if s >= 0x100 {
            1
        } else {
            0
        };
        let mantissa = (s / pow2_exec(exponent + 3)) % 16;
        let ulaw = sign + exponent * 16 + mantissa;
        (255 - ulaw) as u8
    }

    /// Decodes a mu-law code to a linear sample.
    pub fn ulaw_to_linear(ulaw: u8) -> (s: i16)
        ensures
            s as int == ulaw_decode(ulaw),
    {
        let x: u8 = 255 - ulaw;
        let exponent = ((x / 16) % 8) as i32;
        let mantissa = (x % 16) as i32;
        let f = pow2_exec(exponent);
        assert((8 * mantissa + 132) * f <= 252 * 128) by (nonlinear_arith)
            requires
                0 <= mantissa < 16,
                0 < f <= 128,
        ;
        assert((8 * mantissa + 132) * f >= 132) by (nonlinear_arith)
            requires
                0 <= mantissa < 16,
                0 < f <= 128,
        ;
        let mag = (8 * mantissa + 132) * f - 132;
        if x >= 128 {
            mag as i16
        } else {
            (-mag) as i16
        }
    }
}


/// Encoding a decoded mu-law code gives the code back, for every code but 0xFF
/// (the code 0xFF is the "negative zero" and decodes to 0, as 0x7F does, whose
/// encoding is 0x7F). Decoded values are valid inputs to the encoder.
pub proof fn lemma_ulaw_roundtrip(u: u8)
    requires
        u != 0xFF,
    ensures
        i16::MIN < ulaw_decode(u) <= i16::MAX,
        ulaw_encode(ulaw_decode(u) as i16) == u,
{
    let x: int = 255 - u;
    let e = (x / 16) % 8;
    let m = x % 16;
    assert(x == 128 * (x / 128) + 16 * e + m);
    assert(0 <= m < 16);
    assert(0 <= e < 8);
    let p = pow2_small(e);
    let b = (8 * m + 132) * p;
    if e == 0 {
        assert(b == 8 * m + 132);
    } else if e == 1 {
        assert(b == 16 * m + 264);
    } else if e == 2 {
        assert(b == 32 * m + 528);
    } else if e == 3 {
        assert(b == 64 * m + 1056);
    } else if e == 4 {
        assert(b == 128 * m + 2112);
    } else if e == 5 {
        assert(b == 256 * m + 4224);
    } else if e == 6 {
        assert(b == 512 * m + 8448);
    } else {
        assert(b == 1024 * m + 16896);
    }
    assert(ulaw_segment(b) == e);
    assert((b / pow2_small(e + 3)) % 16 == m);
}

/// Every code decodes to a sample between -32124 and 32124.
pub proof fn lemma_ulaw_decode_range(u: u8)
    ensures
        -32124 <= ulaw_decode(u) <= 32124,
{
    let x: int = 255 - u;
    let e = (x / 16) % 8;
    let m = x % 16;
    assert(0 <= m < 16);
    assert(0 <= e < 8);
    let p = pow2_small(e);
    assert(1 <= p <= 128);
    assert((8 * m + 132) * p <= 252 * 128) by (nonlinear_arith)
        requires
            0 <= m < 16,
            1 <= p <= 128,
    ;
    assert((8 * m + 132) * p >= 132) by (nonlinear_arith)
        requires
            0 <= m < 16,
            1 <= p <= 128,
    ;
}

/// A magnitude up to 32635, biased, split into segment and mantissa and put
/// back together, is off by at most 512 and stays non-negative.
proof fn lemma_ulaw_magnitude(mag: int)
    requires
        0 <= mag <= 32635,
    ensures
        ({
            let b = mag + 132;
            let e = ulaw_segment(b);
            let m = (b / pow2_small(e + 3)) % 16;
            let d = (8 * m + 132) * pow2_small(e) - 132;
            &&& 0 <= e < 8
            &&& 0 <= m < 16
            &&& 0 <= d
            &&& -512 <= d - mag <= 512
        }),
{
    let b = mag + 132;
    let e = ulaw_segment(b);
    let q = b / pow2_small(e + 3);
    if e == 0 {
        assert(16 <= q < 32);
    } else if e == 1 {
        assert(16 <= q < 32);
    } else if e == 2 {
        assert(16 <= q < 32);
    } else if e == 3 {
        assert(16 <= q < 32);
    } else if e == 4 {
        assert(16 <= q < 32);
    } else if e == 5 {
        assert(16 <= q < 32);
    } else if e == 6 {
        assert(16 <= q < 32);
    } else {
        assert(16 <= q < 32);
    }
    assert(q % 16 == q - 16);
}

/// Encoding then decoding a sample whose magnitude is at most 32635 is off by
/// at most 512 and keeps its sign.
pub proof fn lemma_ulaw_error(s: i16)
    requires
        -32635 <= s <= 32635,
    ensures
        ({
            let d = ulaw_decode(ulaw_encode(s));
            &&& -512 <= d - s <= 512
            &&& s > 0 ==> d >= 0
            &&& s < 0 ==> d <= 0
        }),
{
    let mag: int = if s < 0 {
        -(s as int)
    } else {
        s as int
    };
    lemma_ulaw_magnitude(mag);
    let b = mag + 132;
    let e = ulaw_segment(b);
    let m = (b / pow2_small(e + 3)) % 16;
    let sign: int = if s < 0 {
        0
    } else {
        128
    };
    let code = sign + 16 * e + m;
    assert(0 <= code <= 255);
    let u = ulaw_encode(s);
    assert(u == 255 - code);
    let x: int = 255 - u;
    assert(x == code);
    assert(x / 16 == sign / 16 + e);
    assert((x / 16) % 8 == e);
    assert(x % 16 == m);
    assert(x >= 128 <==> s >= 0);
}

} // verus!
