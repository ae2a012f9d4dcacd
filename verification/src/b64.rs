//! Base64 (RFC 4648, standard alphabet, padded), for the two places that need
//! it: images reach a rich paste as `data:` URIs and reach the history file as
//! text.

use vstd::prelude::*;

use crate::text::string_of;

verus! {

/// The byte that stands for a 6-bit value in the standard alphabet.
pub open spec fn alpha_byte(v: u32) -> u8 {
    if v < 26 {
        (v + 65) as u8
    } else if v < 52 {
        (v + 71) as u8
    } else if v < 62 {
        (v - 4) as u8
    } else if v == 62 {
        43u8
    } else {
        47u8
    }
}

/// The padding byte, `=`.
pub open spec fn pad_byte() -> u8 {
    61u8
}

/// The four output bytes for one group of `n` input bytes (1 to 3), the
/// missing inputs given as zero.
pub open spec fn encode_group(b0: u32, b1: u32, b2: u32, n: nat) -> Seq<u8> {
    let t = (b0 << 16u32) | (b1 << 8u32) | b2;
    seq![
        alpha_byte((t >> 18u32) & 63u32),
        alpha_byte((t >> 12u32) & 63u32),
        if n > 1 { alpha_byte((t >> 6u32) & 63u32) } else { pad_byte() },
        if n > 2 { alpha_byte(t & 63u32) } else { pad_byte() },
    ]
}

/// The size of the group that starts a non-empty input.
pub open spec fn group_len(x: Seq<u8>) -> nat {
    if x.len() < 3 {
        x.len()
    } else {
        3
    }
}

/// The encoding of `x`, as bytes.
pub open spec fn encode_bytes(x: Seq<u8>) -> Seq<u8>
    decreases x.len(),
{
    if x.len() == 0 {
        seq![]
    } else {
        let n = group_len(x);
        let b1: u8 = if n > 1 {
            x[1]
        } else {
            0
        };
        let b2: u8 = if n > 2 {
            x[2]
        } else {
            0
        };
        encode_group(x[0] as u32, b1 as u32, b2 as u32, n) + encode_bytes(x.skip(n as int))
    }
}

/// Bytes read as the characters of the same value.
pub open spec fn as_chars(b: Seq<u8>) -> Seq<char> {
    b.map_values(|x: u8| x as char)
}

/// The base64 text of `x`.
pub open spec fn encoded(x: Seq<u8>) -> Seq<char> {
    as_chars(encode_bytes(x))
}

/// ASCII whitespace as `u8::is_ascii_whitespace` defines it.
pub open spec fn is_ascii_ws(b: u8) -> bool {
    b == 32 || b == 9 || b == 10 || b == 12 || b == 13
}

/// Bytes that decoding skips over: ASCII whitespace and padding.
pub open spec fn skipped(b: u8) -> bool {
    is_ascii_ws(b) || b == pad_byte()
}

/// `b` with every skipped byte removed.
pub open spec fn clean(b: Seq<u8>) -> Seq<u8>
    decreases b.len(),
{
    if b.len() == 0 {
        seq![]
    } else if skipped(b[0]) {
        clean(b.drop_first())
    } else {
        seq![b[0]] + clean(b.drop_first())
    }
}

/// The 6-bit value of an alphabet byte, or 255 for any other byte.
pub open spec fn sextet(b: u8) -> u32 {
    if 65 <= b <= 90 {
        (b - 65) as u32
    } else if 97 <= b <= 122 {
        (b - 71) as u32
    } else if 48 <= b <= 57 {
        (b + 4) as u32
    } else if b == 43 {
        62
    } else if b == 47 {
        63
    } else {
        255
    }
}

/// The bytes carried by one group of at most four cleaned characters, or
/// `None` when the group is too short or holds a byte outside the alphabet.
pub open spec fn decode_group(g: Seq<u8>) -> Option<Seq<u8>> {
    if g.len() < 2 {
        None
    } else if exists|i: int| 0 <= i < g.len() && sextet(#[trigger] g[i]) == 255 {
        None
    } else {
        let acc = (sextet(g[0]) << 18u32) | (sextet(g[1]) << 12u32) | (if g.len() > 2 {
            sextet(g[2]) << 6u32
        } else {
            0u32
        }) | (if g.len() > 3 {
            sextet(g[3])
        } else {
            0u32
        });
        Some(
            seq![(acc >> 16u32) as u8] + (if g.len() > 2 {
                seq![(acc >> 8u32) as u8]
            } else {
                seq![]
            }) + (if g.len() > 3 {
                seq![acc as u8]
            } else {
                seq![]
            }),
        )
    }
}

/// The size of the group that starts a non-empty cleaned text.
pub open spec fn quad_len(c: Seq<u8>) -> nat {
    if c.len() < 4 {
        c.len()
    } else {
        4
    }
}

/// Decoding of cleaned text, four characters at a time.
pub open spec fn decode_clean(c: Seq<u8>) -> Option<Seq<u8>>
    decreases c.len(),
{
    if c.len() == 0 {
        Some(seq![])
    } else {
        let k = quad_len(c);
        match decode_group(c.take(k as int)) {
            None => None,
            Some(head) => match decode_clean(c.skip(k as int)) {
                None => None,
                Some(rest) => Some(head + rest),
            },
        }
    }
}

/// What `decode` gives for a text with these UTF-8 bytes.
pub open spec fn decoded(bytes: Seq<u8>) -> Option<Seq<u8>> {
    decode_clean(clean(bytes))
}

fn alpha(v: u32) -> (c: char)
    requires
        v < 64,
    ensures
        c == alpha_byte(v) as char,
{
    if v < 26 {
        ((v + 65) as u8) as char
    } else if v < 52 {
        ((v + 71) as u8) as char
    } else if v < 62 {
        ((v - 4) as u8) as char
    } else if v == 62 {
        '+'
    } else {
        '/'
    }
}

fn sextet_of(b: u8) -> (v: u32)
    ensures
        v == sextet(b),
{
    if 65 <= b && b <= 90 {
        (b - 65) as u32
    } else if 97 <= b && b <= 122 {
        (b - 71) as u32
    } else if 48 <= b && b <= 57 {
        (b + 4) as u32
    } else if b == 43 {
        62
    } else if b == 47 {
        63
    } else {
        255
    }
}

proof fn lemma_as_chars_add(a: Seq<u8>, b: Seq<u8>)
    ensures
        as_chars(a + b) == as_chars(a) + as_chars(b),
{
    assert(as_chars(a + b) =~= as_chars(a) + as_chars(b));
}

/// Base64 text for `bytes`, padded to a multiple of four characters.
pub fn encode(bytes: &[u8]) -> (s: String)
    ensures
        s@ == encoded(bytes@),
{
    let n = bytes.len();
    let mut out: Vec<char> = Vec::new();
    let mut i: usize = 0;
    proof {
        assert(bytes@.skip(0) =~= bytes@);
    }
    while i < n
        invariant
            i <= n == bytes@.len(),
            encoded(bytes@) == out@ + encoded(bytes@.skip(i as int)),
        decreases n - i,
    {
        let ghost rest = bytes@.skip(i as int);
        let b0 = bytes[i] as u32;
        let b1: u32 = if n - i > 1 {
            bytes[i + 1] as u32
        } else {
            0
        };
        let b2: u32 = if n - i > 2 {
            bytes[i + 2] as u32
        } else {
            0
        };
        let t = (b0 << 16u32) | (b1 << 8u32) | b2;
        assert(((t >> 18u32) & 63u32) < 64 && ((t >> 12u32) & 63u32) < 64 && ((t >> 6u32) & 63u32)
            < 64 && (t & 63u32) < 64) by (bit_vector);
        let c0 = alpha((t >> 18u32) & 63u32);
        let c1 = alpha((t >> 12u32) & 63u32);
        let c2 = if n - i > 1 {
            alpha((t >> 6u32) & 63u32)
        } else {
            '='
        };
        let c3 = if n - i > 2 {
            alpha(t & 63u32)
        } else {
            '='
        };
        let step: usize = if n - i < 3 {
            n - i
        } else {
            3
        };
        proof {
            let g = group_len(rest);
            assert(g == step);
            let e = encode_group(b0, b1, b2, g);
            assert(rest[0] == bytes@[i as int]);
            if g > 1 {
                assert(rest[1] == bytes@[i + 1]);
            }
            if g > 2 {
                assert(rest[2] == bytes@[i + 2]);
            }
            assert(encode_bytes(rest) == e + encode_bytes(rest.skip(g as int)));
            assert(rest.skip(g as int) =~= bytes@.skip(i + step));
            lemma_as_chars_add(e, encode_bytes(rest.skip(g as int)));
            assert(as_chars(e) =~= seq![c0, c1, c2, c3]);
        }
        out.push(c0);
        out.push(c1);
        out.push(c2);
        out.push(c3);
        i = i + step;
    }
    proof {
        assert(bytes@.skip(n as int) =~= Seq::<u8>::empty());
        assert(out@ + encoded(Seq::<u8>::empty()) =~= out@);
    }
    string_of(out.as_slice())
}

fn is_skipped(b: u8) -> (r: bool)
    ensures
        r == skipped(b),
{
    b == 32 || b == 9 || b == 10 || b == 12 || b == 13 || b == 61
}

/// The bytes a base64 text stands for, or `None` when it holds a character
/// outside the alphabet or ends in a lone character. Whitespace and padding
/// are ignored wherever they appear.
pub fn decode(text: &str) -> (r: Option<Vec<u8>>)
    ensures
        match r {
            Some(v) => decoded(vstd::utf8::encode_utf8(text@)) == Some(v@),
            None => decoded(vstd::utf8::encode_utf8(text@)) is None,
        },
{
    let raw = text.as_bytes();
    let ghost b = raw@;
    assert(b == vstd::utf8::encode_utf8(text@));
    let mut cleaned: Vec<u8> = Vec::new();
    let mut i: usize = 0;
    proof {
        assert(b.skip(0) =~= b);
    }
    while i < raw.len()
        invariant
            i <= raw@.len(),
            b == raw@,
            clean(b) == cleaned@ + clean(b.skip(i as int)),
        decreases raw.len() - i,
    {
        let x = raw[i];
        proof {
            let rest = b.skip(i as int);
            assert(rest[0] == x);
            assert(rest.drop_first() =~= b.skip(i + 1));
        }
        if !is_skipped(x) {
            proof {
                assert(cleaned@.push(x) =~= cleaned@ + seq![x]);
            }
            cleaned.push(x);
        }
        i = i + 1;
    }
    proof {
        assert(b.skip(raw.len() as int) =~= Seq::<u8>::empty());
        assert(cleaned@ + Seq::<u8>::empty() =~= cleaned@);
    }
    let c = cleaned;
    let n = c.len();
    let mut out: Vec<u8> = Vec::new();
    let mut j: usize = 0;
    proof {
        assert(c@.skip(0) =~= c@);
        assert(Seq::<u8>::empty() + clean(b) =~= clean(b));
    }
    while j < n
        invariant
            j <= n == c@.len(),
            clean(b) == c@,
            b == vstd::utf8::encode_utf8(text@),
            decode_clean(c@) == match decode_clean(c@.skip(j as int)) {
                Some(rest) => Some(out@ + rest),
                None => None::<Seq<u8>>,
            },
        decreases n - j,
    {
        let ghost rest = c@.skip(j as int);
        let k: usize = if n - j < 4 {
            n - j
        } else {
            4
        };
        let ghost g = rest.take(k as int);
        assert(quad_len(rest) == k);
        if k < 2 {
            proof {
                assert(decode_clean(rest) is None);
            }
            return None;
        }
        let s0 = sextet_of(c[j]);
        let s1 = sextet_of(c[j + 1]);
        let s2: u32 = if k > 2 {
            sextet_of(c[j + 2])
        } else {
            0
        };
        let s3: u32 = if k > 3 {
            sextet_of(c[j + 3])
        } else {
            0
        };
        proof {
            assert(g[0] == c@[j as int]);
            assert(g[1] == c@[j + 1]);
            if k > 2 {
                assert(g[2] == c@[j + 2]);
            }
            if k > 3 {
                assert(g[3] == c@[j + 3]);
            }
        }
        if s0 == 255 || s1 == 255 || s2 == 255 || s3 == 255 {
            proof {
                if s0 == 255 {
                    assert(sextet(g[0]) == 255);
                } else if s1 == 255 {
                    assert(sextet(g[1]) == 255);
                } else if s2 == 255 {
                    assert(sextet(g[2]) == 255);
                } else {
                    assert(sextet(g[3]) == 255);
                }
                assert(decode_group(g) is None);
                assert(decode_clean(rest) is None);
            }
            return None;
        }
        let acc: u32 = (s0 << 18u32) | (s1 << 12u32) | (if k > 2 {
            s2 << 6u32
        } else {
            0u32
        }) | (if k > 3 {
            s3
        } else {
            0u32
        });
        let ghost before = out@;
        out.push((acc >> 16u32) as u8);
        if k > 2 {
            out.push((acc >> 8u32) as u8);
        }
        if k > 3 {
            out.push(acc as u8);
        }
        proof {
            assert forall|m: int| 0 <= m < g.len() implies sextet(#[trigger] g[m]) != 255 by {
                if m == 0 {
                } else if m == 1 {
                } else if m == 2 {
                } else {
                }
            }
            let h = decode_group(g)->0;
            assert(decode_group(g) == Some(h));
            assert(out@ =~= before + h);
            assert(rest.skip(k as int) =~= c@.skip(j + k));
            match decode_clean(c@.skip(j + k)) {
                Some(r2) => {
                    assert(before + (h + r2) =~= out@ + r2);
                },
                None => {},
            }
        }
        j = j + k;
    }
    proof {
        assert(c@.skip(n as int) =~= Seq::<u8>::empty());
        assert(out@ + Seq::<u8>::empty() =~= out@);
    }
    Some(out)
}


proof fn lemma_alpha(v: u32)
    requires
        v < 64,
    ensures
        sextet(alpha_byte(v)) == v,
        !skipped(alpha_byte(v)),
        alpha_byte(v) < 128,
{
}

proof fn lemma_group_bits(b0: u8, b1: u8, b2: u8)
    ensures
        ({
            let t = ((b0 as u32) << 16u32) | ((b1 as u32) << 8u32) | (b2 as u32);
            let s0 = (t >> 18u32) & 63u32;
            let s1 = (t >> 12u32) & 63u32;
            let s2 = (t >> 6u32) & 63u32;
            let s3 = t & 63u32;
            let a4 = (s0 << 18u32) | (s1 << 12u32) | (s2 << 6u32) | s3;
            let a3 = (s0 << 18u32) | (s1 << 12u32) | (s2 << 6u32) | 0u32;
            let a2 = (s0 << 18u32) | (s1 << 12u32) | 0u32 | 0u32;
            &&& s0 < 64 && s1 < 64 && s2 < 64 && s3 < 64
            &&& (a4 >> 16u32) as u8 == b0 && (a4 >> 8u32) as u8 == b1 && a4 as u8 == b2
            &&& (b2 == 0 ==> (a3 >> 16u32) as u8 == b0 && (a3 >> 8u32) as u8 == b1)
            &&& (b1 == 0 && b2 == 0 ==> (a2 >> 16u32) as u8 == b0)
        }),
{
    assert({
        let t = ((b0 as u32) << 16u32) | ((b1 as u32) << 8u32) | (b2 as u32);
        let s0 = (t >> 18u32) & 63u32;
        let s1 = (t >> 12u32) & 63u32;
        let s2 = (t >> 6u32) & 63u32;
        let s3 = t & 63u32;
        let a4 = (s0 << 18u32) | (s1 << 12u32) | (s2 << 6u32) | s3;
        let a3 = (s0 << 18u32) | (s1 << 12u32) | (s2 << 6u32) | 0u32;
        let a2 = (s0 << 18u32) | (s1 << 12u32) | 0u32 | 0u32;
        &&& s0 < 64 && s1 < 64 && s2 < 64 && s3 < 64
        &&& (a4 >> 16u32) as u8 == b0 && (a4 >> 8u32) as u8 == b1 && a4 as u8 == b2
        &&& (b2 == 0 ==> (a3 >> 16u32) as u8 == b0 && (a3 >> 8u32) as u8 == b1)
        &&& (b1 == 0 && b2 == 0 ==> (a2 >> 16u32) as u8 == b0)
    }) by (bit_vector);
}

proof fn lemma_clean_add(a: Seq<u8>, b: Seq<u8>)
    ensures
        clean(a + b) == clean(a) + clean(b),
    decreases a.len(),
{
    if a.len() == 0 {
        assert(a + b =~= b);
        assert(clean(a) + clean(b) =~= clean(b));
    } else {
        lemma_clean_add(a.drop_first(), b);
        assert((a + b).drop_first() =~= a.drop_first() + b);
        assert((a + b)[0] == a[0]);
        if !skipped(a[0]) {
            assert(seq![a[0]] + (clean(a.drop_first()) + clean(b)) =~= (seq![a[0]] + clean(
                a.drop_first(),
            )) + clean(b));
        }
    }
}

proof fn lemma_clean_unskipped(a: Seq<u8>)
    requires
        forall|i: int| 0 <= i < a.len() ==> !skipped(#[trigger] a[i]),
    ensures
        clean(a) == a,
    decreases a.len(),
{
    if a.len() > 0 {
        assert(!skipped(a[0]));
        lemma_clean_unskipped(a.drop_first());
        assert(seq![a[0]] + a.drop_first() =~= a);
    } else {
        assert(a =~= Seq::<u8>::empty());
    }
}

proof fn lemma_clean_all_skipped(a: Seq<u8>)
    requires
        forall|i: int| 0 <= i < a.len() ==> skipped(#[trigger] a[i]),
    ensures
        clean(a) == Seq::<u8>::empty(),
    decreases a.len(),
{
    if a.len() > 0 {
        assert(skipped(a[0]));
        assert forall|i: int| 0 <= i < a.drop_first().len() implies skipped(
            #[trigger] a.drop_first()[i],
        ) by {
            assert(a.drop_first()[i] == a[i + 1]);
        }
        lemma_clean_all_skipped(a.drop_first());
    }
}

/// The text of a group after cleaning: its alphabet bytes, without padding.
proof fn lemma_group_clean(b0: u8, b1: u8, b2: u8, n: nat)
    requires
        1 <= n <= 3,
        n < 3 ==> b2 == 0,
        n < 2 ==> b1 == 0,
    ensures
        ({
            let e = encode_group(b0 as u32, b1 as u32, b2 as u32, n);
            let c = clean(e);
            &&& c == e.take(n + 1int)
            &&& decode_group(c) == Some(seq![b0, b1, b2].take(n as int))
            &&& forall|i: int| 0 <= i < e.len() ==> #[trigger] e[i] < 128
        }),
{
    let t = ((b0 as u32) << 16u32) | ((b1 as u32) << 8u32) | (b2 as u32);
    lemma_group_bits(b0, b1, b2);
    let s0 = (t >> 18u32) & 63u32;
    let s1 = (t >> 12u32) & 63u32;
    let s2 = (t >> 6u32) & 63u32;
    let s3 = t & 63u32;
    lemma_alpha(s0);
    lemma_alpha(s1);
    lemma_alpha(s2);
    lemma_alpha(s3);
    let e = encode_group(b0 as u32, b1 as u32, b2 as u32, n);
    let k = e.take(n + 1int);
    assert forall|i: int| 0 <= i < k.len() implies !skipped(#[trigger] k[i]) by {
        if i == 0 {
        } else if i == 1 {
        } else if i == 2 {
        } else {
        }
    }
    lemma_clean_unskipped(k);
    let p = e.skip(n + 1int);
    assert forall|i: int| 0 <= i < p.len() implies skipped(#[trigger] p[i]) by {
        assert(p[i] == e[n + 1 + i]);
    }
    lemma_clean_all_skipped(p);
    assert(e =~= k + p);
    lemma_clean_add(k, p);
    assert(clean(e) =~= k);
    assert forall|m: int| 0 <= m < k.len() implies sextet(#[trigger] k[m]) != 255 by {
        if m == 0 {
        } else if m == 1 {
        } else if m == 2 {
        } else {
        }
    }
    let out = decode_group(k)->0;
    assert(out =~= seq![b0, b1, b2].take(n as int));
}

proof fn lemma_ascii_bytes(b: Seq<u8>)
    requires
        forall|i: int| 0 <= i < b.len() ==> #[trigger] b[i] < 128,
    ensures
        vstd::utf8::encode_utf8(as_chars(b)) == b,
{
    let c = as_chars(b);
    assert forall|i: int| 0 <= i < c.len() implies '\0' <= #[trigger] c[i] <= '\u{7f}' by {
        assert(c[i] == b[i] as char);
    }
    assert(vstd::utf8::is_ascii_chars(c));
    vstd::utf8::is_ascii_chars_encode_utf8(c);
    let e = vstd::utf8::encode_utf8(c);
    assert forall|i: int| 0 <= i < b.len() implies e[i] == b[i] by {
        assert(c[i] as u8 == e[i]);
    }
    assert(e =~= b);
}

proof fn lemma_encode_parts(x: Seq<u8>)
    ensures
        forall|i: int| 0 <= i < encode_bytes(x).len() ==> #[trigger] encode_bytes(x)[i] < 128,
        decode_clean(clean(encode_bytes(x))) == Some(x),
    decreases x.len(),
{
    if x.len() == 0 {
        assert(clean(Seq::<u8>::empty()) =~= Seq::<u8>::empty());
    } else {
        let n = group_len(x);
        let b1: u8 = if n > 1 {
            x[1]
        } else {
            0
        };
        let b2: u8 = if n > 2 {
            x[2]
        } else {
            0
        };
        let e = encode_group(x[0] as u32, b1 as u32, b2 as u32, n);
        let rest = x.skip(n as int);
        lemma_encode_parts(rest);
        lemma_group_clean(x[0], b1, b2, n);
        let r = encode_bytes(rest);
        assert(encode_bytes(x) == e + r);
        assert forall|i: int| 0 <= i < (e + r).len() implies #[trigger] (e + r)[i] < 128 by {
            if i < e.len() {
            } else {
                assert((e + r)[i] == r[i - e.len()]);
            }
        }
        lemma_clean_add(e, r);
        let ce = clean(e);
        let cr = clean(r);
        let c = ce + cr;
        assert(seq![x[0], b1, b2].take(n as int) =~= x.take(n as int));
        if n == 3 {
            assert(quad_len(c) == 4);
            assert(c.take(4) =~= ce);
            assert(c.skip(4) =~= cr);
            assert(x.take(3) + rest =~= x);
        } else {
            assert(rest =~= Seq::<u8>::empty());
            assert(r =~= Seq::<u8>::empty());
            assert(cr =~= Seq::<u8>::empty());
            assert(quad_len(c) == n + 1);
            assert(c.take(n + 1int) =~= ce);
            assert(c.skip(n + 1int) =~= Seq::<u8>::empty());
            assert(x.take(n as int) + Seq::<u8>::empty() =~= x);
        }
    }
}

/// Decoding the base64 text of any bytes gives those bytes back.
pub proof fn lemma_decode_encode(x: Seq<u8>)
    ensures
        decoded(vstd::utf8::encode_utf8(encoded(x))) == Some(x),
{
    lemma_encode_parts(x);
    lemma_ascii_bytes(encode_bytes(x));
}

/// Whether a cleaned text holds a byte outside the alphabet.
pub open spec fn has_stray(c: Seq<u8>) -> bool {
    exists|i: int| 0 <= i < c.len() && sextet(#[trigger] c[i]) == 255
}

proof fn lemma_decode_clean_rejects(c: Seq<u8>)
    ensures
        decode_clean(c) is None <==> (has_stray(c) || c.len() % 4 == 1),
    decreases c.len(),
{
    if c.len() > 0 {
        let k = quad_len(c);
        let g = c.take(k as int);
        let rest = c.skip(k as int);
        lemma_decode_clean_rejects(rest);
        assert(has_stray(c) <==> (has_stray(g) || has_stray(rest))) by {
            if has_stray(c) {
                let i = choose|i: int| 0 <= i < c.len() && sextet(#[trigger] c[i]) == 255;
                if i < k {
                    assert(g[i] == c[i]);
                } else {
                    assert(rest[i - k] == c[i]);
                }
            }
            if has_stray(g) {
                let i = choose|i: int| 0 <= i < g.len() && sextet(#[trigger] g[i]) == 255;
                assert(c[i] == g[i]);
            }
            if has_stray(rest) {
                let i = choose|i: int| 0 <= i < rest.len() && sextet(#[trigger] rest[i]) == 255;
                assert(c[i + k] == rest[i]);
            }
        }
        if c.len() < 4 {
            assert(rest.len() == 0);
            assert(!has_stray(rest));
        } else {
            assert(rest.len() == c.len() - 4);
        }
    } else {
        assert(!has_stray(c));
    }
}

/// Decoding fails exactly when, once whitespace and padding are dropped, a
/// byte lies outside the base64 alphabet or the characters leave a lone one
/// over after the groups of four.
pub proof fn law_decode_rejects(bytes: Seq<u8>)
    ensures
        decoded(bytes) is None <==> (has_stray(clean(bytes)) || clean(bytes).len() % 4 == 1),
{
    lemma_decode_clean_rejects(clean(bytes));
}

/// Whitespace and padding anywhere in a text never change what it decodes
/// to.
pub proof fn law_decode_ignores_skipped(a: Seq<u8>, w: Seq<u8>, b: Seq<u8>)
    requires
        forall|i: int| 0 <= i < w.len() ==> skipped(#[trigger] w[i]),
    ensures
        decoded(a + w + b) == decoded(a + b),
{
    lemma_clean_add(a + w, b);
    lemma_clean_add(a, w);
    lemma_clean_add(a, b);
    lemma_clean_all_skipped(w);
    assert(clean(a) + Seq::<u8>::empty() =~= clean(a));
}

/// The encoding uses the standard base64 alphabet of RFC 4648: the values
/// 0 to 25 are `A` to `Z`, 26 to 51 are `a` to `z`, 52 to 61 are `0` to `9`,
/// 62 is `+` and 63 is `/`; decoding reads each of these back as its value
/// and no other byte as a value at all.
pub proof fn law_standard_alphabet()
    ensures
        forall|v: u32| v < 26 ==> #[trigger] alpha_byte(v) == 'A' as u32 + v,
        forall|v: u32| 26 <= v < 52 ==> #[trigger] alpha_byte(v) == 'a' as u32 + (v - 26),
        forall|v: u32| 52 <= v < 62 ==> #[trigger] alpha_byte(v) == '0' as u32 + (v - 52),
        alpha_byte(62) == '+' as u32,
        alpha_byte(63) == '/' as u32,
        pad_byte() == '=' as u32,
        forall|v: u32| v < 64 ==> #[trigger] sextet(alpha_byte(v)) == v,
        forall|b: u8| #[trigger] sextet(b) != 255 ==> sextet(b) < 64 && alpha_byte(sextet(b)) == b,
{
}

proof fn lemma_group_sextets(b0: u32, b1: u32, b2: u32)
    requires
        b0 < 256,
        b1 < 256,
        b2 < 256,
    ensures
        ((((b0 << 16u32) | (b1 << 8u32) | b2) >> 18u32) & 63u32) == b0 >> 2u32,
        ((((b0 << 16u32) | (b1 << 8u32) | b2) >> 12u32) & 63u32) == ((b0 & 3u32) << 4u32) | (b1
            >> 4u32),
        ((((b0 << 16u32) | (b1 << 8u32) | b2) >> 6u32) & 63u32) == ((b1 & 15u32) << 2u32) | (b2
            >> 6u32),
        (((b0 << 16u32) | (b1 << 8u32) | b2) & 63u32) == b2 & 63u32,
        ((b0 & 3u32) << 4u32) | (0u32 >> 4u32) == (b0 & 3u32) << 4u32,
        ((b1 & 15u32) << 2u32) | (0u32 >> 6u32) == (b1 & 15u32) << 2u32,
{
    assert(((((b0 << 16u32) | (b1 << 8u32) | b2) >> 18u32) & 63u32) == b0 >> 2u32) by (bit_vector)
        requires
            b0 < 256,
            b1 < 256,
            b2 < 256,
    ;
    assert(((((b0 << 16u32) | (b1 << 8u32) | b2) >> 12u32) & 63u32) == ((b0 & 3u32) << 4u32) | (
    b1 >> 4u32)) by (bit_vector)
        requires
            b0 < 256,
            b1 < 256,
            b2 < 256,
    ;
    assert(((((b0 << 16u32) | (b1 << 8u32) | b2) >> 6u32) & 63u32) == ((b1 & 15u32) << 2u32) | (b2
        >> 6u32)) by (bit_vector)
        requires
            b0 < 256,
            b1 < 256,
            b2 < 256,
    ;
    assert((((b0 << 16u32) | (b1 << 8u32) | b2) & 63u32) == b2 & 63u32) by (bit_vector)
        requires
            b0 < 256,
            b1 < 256,
            b2 < 256,
    ;
    assert(((b0 & 3u32) << 4u32) | (0u32 >> 4u32) == (b0 & 3u32) << 4u32) by (bit_vector);
    assert(((b1 & 15u32) << 2u32) | (0u32 >> 6u32) == (b1 & 15u32) << 2u32) by (bit_vector);
}

/// Base64 writes each group of three bytes as four characters, reading the
/// 24 bits six at a time from the most significant; a last group of two
/// bytes ends in one `=`, a last group of one byte in two.
pub proof fn law_encoding_groups(x: Seq<u8>)
    ensures
        x.len() == 0 ==> encode_bytes(x).len() == 0,
        x.len() >= 3 ==> encode_bytes(x) == seq![
            alpha_byte(x[0] as u32 >> 2u32),
            alpha_byte(((x[0] as u32 & 3u32) << 4u32) | (x[1] as u32 >> 4u32)),
            alpha_byte(((x[1] as u32 & 15u32) << 2u32) | (x[2] as u32 >> 6u32)),
            alpha_byte(x[2] as u32 & 63u32),
        ] + encode_bytes(x.skip(3)),
        x.len() == 2 ==> encode_bytes(x) == seq![
            alpha_byte(x[0] as u32 >> 2u32),
            alpha_byte(((x[0] as u32 & 3u32) << 4u32) | (x[1] as u32 >> 4u32)),
            alpha_byte((x[1] as u32 & 15u32) << 2u32),
            pad_byte(),
        ],
        x.len() == 1 ==> encode_bytes(x) == seq![
            alpha_byte(x[0] as u32 >> 2u32),
            alpha_byte((x[0] as u32 & 3u32) << 4u32),
            pad_byte(),
            pad_byte(),
        ],
{
    if x.len() >= 3 {
        lemma_group_sextets(x[0] as u32, x[1] as u32, x[2] as u32);
    } else if x.len() == 2 {
        lemma_group_sextets(x[0] as u32, x[1] as u32, 0);
        assert(x.skip(2).len() == 0);
        assert(encode_bytes(x.skip(2)) =~= Seq::<u8>::empty());
    } else if x.len() == 1 {
        lemma_group_sextets(x[0] as u32, 0, 0);
        assert(x.skip(1).len() == 0);
        assert(encode_bytes(x.skip(1)) =~= Seq::<u8>::empty());
    }
}

} // verus!
