//! Base64 for the `Bytes` wire encoding.
//!
//! A `Bytes` value crosses the wire as a base64-encoded JSON string.  The
//! standard alphabet with `=` padding is used; decoding inverts encoding
//! exactly, which the round-trip lemma below proves.

use vstd::prelude::*;

verus! {

/// The base64 alphabet: the character for a six-bit value.
pub open spec fn spec_sextet_char(x: nat) -> u8 {
    if x < 26 {
        (65 + x) as u8
    } else if x < 52 {
        (97 + (x - 26)) as u8
    } else if x < 62 {
        (48 + (x - 52)) as u8
    } else if x == 62 {
        43u8
    } else {
        47u8
    }
}

/// The six-bit value of an alphabet character, if it is one.
pub open spec fn spec_sextet_val(c: u8) -> Option<u8> {
    if 65 <= c <= 90 {
        Option::Some((c - 65) as u8)
    } else if 97 <= c <= 122 {
        Option::Some((c - 97 + 26) as u8)
    } else if 48 <= c <= 57 {
        Option::Some((c - 48 + 52) as u8)
    } else if c == 43 {
        Option::Some(62u8)
    } else if c == 47 {
        Option::Some(63u8)
    } else {
        Option::None
    }
}

/// The alphabet is injective: decoding a character gives back the six-bit
/// value it was chosen for.
pub proof fn lemma_sextet_round_trip(x: nat)
    requires
        x < 64,
    ensures
        spec_sextet_val(spec_sextet_char(x)) == Option::Some(x as u8),
{
}

/// Base64 text of a byte string: four characters for every three bytes,
/// with `=` padding closing a final group of one or two bytes.
pub open spec fn spec_b64(s: Seq<u8>) -> Seq<u8>
    decreases s.len(),
{
    if s.len() == 0 {
        Seq::empty()
    } else if s.len() == 1 {
        let b0 = s[0] as nat;
        seq![
            spec_sextet_char(b0 / 4),
            spec_sextet_char((b0 % 4) * 16),
            61u8,
            61u8,
        ]
    } else if s.len() == 2 {
        let b0 = s[0] as nat;
        let b1 = s[1] as nat;
        seq![
            spec_sextet_char(b0 / 4),
            spec_sextet_char((b0 % 4) * 16 + b1 / 16),
            spec_sextet_char((b1 % 16) * 4),
            61u8,
        ]
    } else {
        let b0 = s[0] as nat;
        let b1 = s[1] as nat;
        let b2 = s[2] as nat;
        seq![
            spec_sextet_char(b0 / 4),
            spec_sextet_char((b0 % 4) * 16 + b1 / 16),
            spec_sextet_char((b1 % 16) * 4 + b2 / 64),
            spec_sextet_char(b2 % 64),
        ] + spec_b64(s.skip(3))
    }
}

/// The bytes a base64 text denotes, if it is well formed: whole groups of
/// four characters, padding only in the last group.
pub open spec fn spec_b64_parse(t: Seq<u8>) -> Option<Seq<u8>>
    decreases t.len(),
{
    if t.len() == 0 {
        Option::Some(Seq::empty())
    } else if t.len() < 4 {
        Option::None
    } else {
        match (spec_sextet_val(t[0]), spec_sextet_val(t[1])) {
            (Option::Some(v0), Option::Some(v1)) => {
                if t[2] == 61 && t[3] == 61 {
                    if t.len() == 4 {
                        Option::Some(seq![(v0 * 4 + v1 / 16) as u8])
                    } else {
                        Option::None
                    }
                } else if t[3] == 61 {
                    match spec_sextet_val(t[2]) {
                        Option::Some(v2) => {
                            if t.len() == 4 {
                                Option::Some(
                                    seq![
                                        (v0 * 4 + v1 / 16) as u8,
                                        ((v1 % 16) * 16 + v2 / 4) as u8,
                                    ],
                                )
                            } else {
                                Option::None
                            }
                        },
                        Option::None => Option::None,
                    }
                } else {
                    match (spec_sextet_val(t[2]), spec_sextet_val(t[3])) {
                        (Option::Some(v2), Option::Some(v3)) => {
                            match spec_b64_parse(t.skip(4)) {
                                Option::Some(rest) => Option::Some(
                                    seq![
                                        (v0 * 4 + v1 / 16) as u8,
                                        ((v1 % 16) * 16 + v2 / 4) as u8,
                                        ((v2 % 4) * 64 + v3) as u8,
                                    ] + rest,
                                ),
                                Option::None => Option::None,
                            }
                        },
                        _ => Option::None,
                    }
                }
            },
            _ => Option::None,
        }
    }
}

/// Decoding inverts encoding: the base64 text of any byte string parses
/// back to that byte string.
pub proof fn lemma_b64_round_trip(s: Seq<u8>)
    ensures
        spec_b64_parse(spec_b64(s)) == Option::Some(s),
    decreases s.len(),
{
    if s.len() == 0 {
    } else if s.len() == 1 {
        let b0 = s[0] as nat;
        lemma_sextet_round_trip(b0 / 4);
        lemma_sextet_round_trip((b0 % 4) * 16);
        assert(((b0 / 4) * 4 + ((b0 % 4) * 16) / 16) == b0);
        assert(spec_b64_parse(spec_b64(s)) == Option::Some(seq![s[0]]));
        assert(seq![s[0]] =~= s);
    } else if s.len() == 2 {
        let b0 = s[0] as nat;
        let b1 = s[1] as nat;
        lemma_sextet_round_trip(b0 / 4);
        lemma_sextet_round_trip((b0 % 4) * 16 + b1 / 16);
        lemma_sextet_round_trip((b1 % 16) * 4);
        let v1 = (b0 % 4) * 16 + b1 / 16;
        let v2 = (b1 % 16) * 4;
        assert((b0 / 4) * 4 + v1 / 16 == b0);
        assert((v1 % 16) * 16 + v2 / 4 == b1);
        assert(spec_b64_parse(spec_b64(s)) == Option::Some(seq![s[0], s[1]]));
        assert(seq![s[0], s[1]] =~= s);
    } else {
        let b0 = s[0] as nat;
        let b1 = s[1] as nat;
        let b2 = s[2] as nat;
        lemma_sextet_round_trip(b0 / 4);
        lemma_sextet_round_trip((b0 % 4) * 16 + b1 / 16);
        lemma_sextet_round_trip((b1 % 16) * 4 + b2 / 64);
        lemma_sextet_round_trip(b2 % 64);
        let v1 = (b0 % 4) * 16 + b1 / 16;
        let v2 = (b1 % 16) * 4 + b2 / 64;
        let v3 = b2 % 64;
        assert((b0 / 4) * 4 + v1 / 16 == b0);
        assert((v1 % 16) * 16 + v2 / 4 == b1);
        assert((v2 % 4) * 64 + v3 == b2);
        lemma_b64_round_trip(s.skip(3));
        let t = spec_b64(s);
        assert(t.skip(4) =~= spec_b64(s.skip(3)));
        assert(t[3] != 61 && t[2] != 61);
        assert(spec_b64_parse(t) == Option::Some(seq![s[0], s[1], s[2]] + s.skip(3)));
        assert(seq![s[0], s[1], s[2]] + s.skip(3) =~= s);
    }
}

/// The alphabet character for a six-bit value.
pub fn sextet_char(x: u8) -> (r: u8)
    requires
        x < 64,
    ensures
        r == spec_sextet_char(x as nat),
{
    if x < 26 {
        65 + x
    } else if x < 52 {
        97 + (x - 26)
    } else if x < 62 {
        48 + (x - 52)
    } else if x == 62 {
        43
    } else {
        47
    }
}

/// The six-bit value of an alphabet character, if it is one.
pub fn sextet_val(c: u8) -> (r: Option<u8>)
    ensures
        r == spec_sextet_val(c),
{
    if 65 <= c && c <= 90 {
        Option::Some(c - 65)
    } else if 97 <= c && c <= 122 {
        Option::Some(c - 97 + 26)
    } else if 48 <= c && c <= 57 {
        Option::Some(c - 48 + 52)
    } else if c == 43 {
        Option::Some(62)
    } else if c == 47 {
        Option::Some(63)
    } else {
        Option::None
    }
}

/// Base64-encode a byte string.
pub fn b64_encode(s: &[u8]) -> (r: Vec<u8>)
    ensures
        r@ == spec_b64(s@),
{
    let mut out: Vec<u8> = Vec::new();
    let mut i: usize = 0;
    proof {
        assert(s@.skip(0) =~= s@);
    }
    while s.len() - i >= 3
        invariant
            i <= s@.len(),
            spec_b64(s@) == out@ + spec_b64(s@.skip(i as int)),
        decreases s@.len() - i,
    {
        let b0 = s[i];
        let b1 = s[i + 1];
        let b2 = s[i + 2];
        out.push(sextet_char(b0 / 4));
        out.push(sextet_char((b0 % 4) * 16 + b1 / 16));
        out.push(sextet_char((b1 % 16) * 4 + b2 / 64));
        out.push(sextet_char(b2 % 64));
        proof {
            let rem = s@.skip(i as int);
            assert(rem[0] == s@[i as int] && rem[1] == s@[i + 1] && rem[2] == s@[i + 2]);
            assert(rem.skip(3) =~= s@.skip(i + 3));
            assert(spec_b64(rem) == seq![
                spec_sextet_char((s@[i as int] as nat) / 4),
                spec_sextet_char(((s@[i as int] as nat) % 4) * 16 + (s@[i + 1] as nat) / 16),
                spec_sextet_char(((s@[i + 1] as nat) % 16) * 4 + (s@[i + 2] as nat) / 64),
                spec_sextet_char((s@[i + 2] as nat) % 64),
            ] + spec_b64(s@.skip(i + 3)));
            assert(spec_b64(s@) =~= out@ + spec_b64(s@.skip(i + 3)));
        }
        i = i + 3;
    }
    if s.len() - i == 1 {
        let b0 = s[i];
        out.push(sextet_char(b0 / 4));
        out.push(sextet_char((b0 % 4) * 16));
        out.push(61);
        out.push(61);
        proof {
            let rem = s@.skip(i as int);
            assert(rem.len() == 1 && rem[0] == s@[i as int]);
            assert(spec_b64(s@) =~= out@);
        }
    } else if s.len() - i == 2 {
        let b0 = s[i];
        let b1 = s[i + 1];
        out.push(sextet_char(b0 / 4));
        out.push(sextet_char((b0 % 4) * 16 + b1 / 16));
        out.push(sextet_char((b1 % 16) * 4));
        out.push(61);
        proof {
            let rem = s@.skip(i as int);
            assert(rem.len() == 2 && rem[0] == s@[i as int] && rem[1] == s@[i + 1]);
            assert(spec_b64(s@) =~= out@);
        }
    } else {
        proof {
            assert(s@.skip(i as int).len() == 0);
            assert(spec_b64(s@) =~= out@);
        }
    }
    out
}

/// Base64-decode a byte string.  Returns the bytes exactly when the text
/// is well formed.
pub fn b64_decode(t: &[u8]) -> (r: Option<Vec<u8>>)
    ensures
        match r {
            Option::Some(v) => spec_b64_parse(t@) == Option::Some(v@),
            Option::None => spec_b64_parse(t@) is None,
        },
{
    let mut out: Vec<u8> = Vec::new();
    let mut i: usize = 0;
    proof {
        assert(t@.skip(0) =~= t@);
    }
    while i < t.len()
        invariant
            i <= t@.len(),
            match spec_b64_parse(t@.skip(i as int)) {
                Option::Some(rest) => spec_b64_parse(t@) == Option::Some(out@ + rest),
                Option::None => spec_b64_parse(t@) is None,
            },
        decreases t@.len() - i,
    {
        let ghost rem = t@.skip(i as int);
        if t.len() - i < 4 {
            return Option::None;
        }
        proof {
            assert(rem[0] == t@[i as int] && rem[1] == t@[i + 1] && rem[2] == t@[i + 2] && rem[3]
                == t@[i + 3]);
        }
        let v0 = match sextet_val(t[i]) {
            Option::Some(v) => v,
            Option::None => {
                return Option::None;
            },
        };
        let v1 = match sextet_val(t[i + 1]) {
            Option::Some(v) => v,
            Option::None => {
                return Option::None;
            },
        };
        if t[i + 2] == 61 && t[i + 3] == 61 {
            if t.len() - i != 4 {
                return Option::None;
            }
            out.push(v0 * 4 + v1 / 16);
            proof {
                assert(rem.len() == 4);
                assert(spec_b64_parse(rem) == Option::Some(seq![(v0 * 4 + v1 / 16) as u8]));
                assert(out@ =~= out@.subrange(0, out@.len() - 1) + seq![(v0 * 4 + v1 / 16) as u8]);
                assert(spec_b64_parse(t@) == Option::Some(out@));
            }
            return Option::Some(out);
        }
        if t[i + 3] == 61 {
            let v2 = match sextet_val(t[i + 2]) {
                Option::Some(v) => v,
                Option::None => {
                    return Option::None;
                },
            };
            if t.len() - i != 4 {
                return Option::None;
            }
            out.push(v0 * 4 + v1 / 16);
            out.push((v1 % 16) * 16 + v2 / 4);
            proof {
                assert(rem.len() == 4);
                assert(spec_b64_parse(rem) == Option::Some(
                    seq![(v0 * 4 + v1 / 16) as u8, ((v1 % 16) * 16 + v2 / 4) as u8],
                ));
                assert(spec_b64_parse(t@) == Option::Some(out@));
            }
            return Option::Some(out);
        }
        let v2 = match sextet_val(t[i + 2]) {
            Option::Some(v) => v,
            Option::None => {
                return Option::None;
            },
        };
        let v3 = match sextet_val(t[i + 3]) {
            Option::Some(v) => v,
            Option::None => {
                return Option::None;
            },
        };
        out.push(v0 * 4 + v1 / 16);
        out.push((v1 % 16) * 16 + v2 / 4);
        out.push((v2 % 4) * 64 + v3);
        proof {
            assert(rem.skip(4) =~= t@.skip(i + 4));
            assert(spec_b64_parse(rem) == (match spec_b64_parse(t@.skip(i + 4)) {
                Option::Some(rest) => Option::Some(
                    seq![
                        (v0 * 4 + v1 / 16) as u8,
                        ((v1 % 16) * 16 + v2 / 4) as u8,
                        ((v2 % 4) * 64 + v3) as u8,
                    ] + rest,
                ),
                Option::None => Option::<Seq<u8>>::None,
            }));
        }
        i = i + 4;
    }
    proof {
        assert(t@.skip(i as int).len() == 0);
        assert(out@ + Seq::<u8>::empty() =~= out@);
    }
    Option::Some(out)
}

} // verus!
