//! A deterministic textual transport encoding for the policy document:
//! the standard 64-character alphabet with `=` padding.  The decoder is
//! stated mathematically so the encoding is provably lossless.

use vstd::prelude::*;
use vstd::string::StringExecFns;

verus! {

/// The alphabet character for a six-bit value.
pub open spec fn b64_char(v: int) -> char {
    if v == 0 {
        'A'
    } else if v == 1 {
        'B'
    } else if v == 2 {
        'C'
    } else if v == 3 {
        'D'
    } else if v == 4 {
        'E'
    } else if v == 5 {
        'F'
    } else if v == 6 {
        'G'
    } else if v == 7 {
        'H'
    } else if v == 8 {
        'I'
    } else if v == 9 {
        'J'
    } else if v == 10 {
        'K'
    } else if v == 11 {
        'L'
    } else if v == 12 {
        'M'
    } else if v == 13 {
        'N'
    } else if v == 14 {
        'O'
    } else if v == 15 {
        'P'
    } else if v == 16 {
        'Q'
    } else if v == 17 {
        'R'
    } else if v == 18 {
        'S'
    } else if v == 19 {
        'T'
    } else if v == 20 {
        'U'
    } else if v == 21 {
        'V'
    } else if v == 22 {
        'W'
    } else if v == 23 {
        'X'
    } else if v == 24 {
        'Y'
    } else if v == 25 {
        'Z'
    } else if v == 26 {
        'a'
    } else if v == 27 {
        'b'
    } else if v == 28 {
        'c'
    } else if v == 29 {
        'd'
    } else if v == 30 {
        'e'
    } else if v == 31 {
        'f'
    } else if v == 32 {
        'g'
    } else if v == 33 {
        'h'
    } else if v == 34 {
        'i'
    } else if v == 35 {
        'j'
    } else if v == 36 {
        'k'
    } else if v == 37 {
        'l'
    } else if v == 38 {
        'm'
    } else if v == 39 {
        'n'
    } else if v == 40 {
        'o'
    } else if v == 41 {
        'p'
    } else if v == 42 {
        'q'
    } else if v == 43 {
        'r'
    } else if v == 44 {
        's'
    } else if v == 45 {
        't'
    } else if v == 46 {
        'u'
    } else if v == 47 {
        'v'
    } else if v == 48 {
        'w'
    } else if v == 49 {
        'x'
    } else if v == 50 {
        'y'
    } else if v == 51 {
        'z'
    } else if v == 52 {
        '0'
    } else if v == 53 {
        '1'
    } else if v == 54 {
        '2'
    } else if v == 55 {
        '3'
    } else if v == 56 {
        '4'
    } else if v == 57 {
        '5'
    } else if v == 58 {
        '6'
    } else if v == 59 {
        '7'
    } else if v == 60 {
        '8'
    } else if v == 61 {
        '9'
    } else if v == 62 {
        '+'
    } else if v == 63 {
        '/'
    } else {
        'A'
    }
}

/// The six-bit value of an alphabet character, or -1 for anything else.
pub open spec fn b64_rev(c: char) -> int {
    if c == 'A' {
        0
    } else if c == 'B' {
        1
    } else if c == 'C' {
        2
    } else if c == 'D' {
        3
    } else if c == 'E' {
        4
    } else if c == 'F' {
        5
    } else if c == 'G' {
        6
    } else if c == 'H' {
        7
    } else if c == 'I' {
        8
    } else if c == 'J' {
        9
    } else if c == 'K' {
        10
    } else if c == 'L' {
        11
    } else if c == 'M' {
        12
    } else if c == 'N' {
        13
    } else if c == 'O' {
        14
    } else if c == 'P' {
        15
    } else if c == 'Q' {
        16
    } else if c == 'R' {
        17
    } else if c == 'S' {
        18
    } else if c == 'T' {
        19
    } else if c == 'U' {
        20
    } else if c == 'V' {
        21
    } else if c == 'W' {
        22
    } else if c == 'X' {
        23
    } else if c == 'Y' {
        24
    } else if c == 'Z' {
        25
    } else if c == 'a' {
        26
    } else if c == 'b' {
        27
    } else if c == 'c' {
        28
    } else if c == 'd' {
        29
    } else if c == 'e' {
        30
    } else if c == 'f' {
        31
    } else if c == 'g' {
        32
    } else if c == 'h' {
        33
    } else if c == 'i' {
        34
    } else if c == 'j' {
        35
    } else if c == 'k' {
        36
    } else if c == 'l' {
        37
    } else if c == 'm' {
        38
    } else if c == 'n' {
        39
    } else if c == 'o' {
        40
    } else if c == 'p' {
        41
    } else if c == 'q' {
        42
    } else if c == 'r' {
        43
    } else if c == 's' {
        44
    } else if c == 't' {
        45
    } else if c == 'u' {
        46
    } else if c == 'v' {
        47
    } else if c == 'w' {
        48
    } else if c == 'x' {
        49
    } else if c == 'y' {
        50
    } else if c == 'z' {
        51
    } else if c == '0' {
        52
    } else if c == '1' {
        53
    } else if c == '2' {
        54
    } else if c == '3' {
        55
    } else if c == '4' {
        56
    } else if c == '5' {
        57
    } else if c == '6' {
        58
    } else if c == '7' {
        59
    } else if c == '8' {
        60
    } else if c == '9' {
        61
    } else if c == '+' {
        62
    } else if c == '/' {
        63
    } else {
        -1
    }
}

/// The alphabet inverts its own characters.
pub proof fn lemma_b64_char_rev(v: int)
    requires
        0 <= v < 64,
    ensures
        b64_rev(b64_char(v)) == v,
        b64_char(v) != '=',
{
}

/// The encoding of a byte sequence: three bytes become four alphabet
/// characters; a final group of one or two bytes is padded with `=`.
pub open spec fn b64_encode(bytes: Seq<u8>) -> Seq<char>
    decreases bytes.len(),
{
    if bytes.len() == 0 {
        Seq::empty()
    } else if bytes.len() == 1 {
        let b0 = bytes[0] as int;
        seq![b64_char(b0 / 4), b64_char((b0 % 4) * 16), '=', '=']
    } else if bytes.len() == 2 {
        let b0 = bytes[0] as int;
        let b1 = bytes[1] as int;
        seq![b64_char(b0 / 4), b64_char((b0 % 4) * 16 + b1 / 16), b64_char((b1 % 16) * 4), '=']
    } else {
        let b0 = bytes[0] as int;
        let b1 = bytes[1] as int;
        let b2 = bytes[2] as int;
        seq![
            b64_char(b0 / 4),
            b64_char((b0 % 4) * 16 + b1 / 16),
            b64_char((b1 % 16) * 4 + b2 / 64),
            b64_char(b2 % 64),
        ] + b64_encode(bytes.subrange(3, bytes.len() as int))
    }
}

/// The decoding of a character sequence: four characters back to three
/// bytes, honouring `=` padding in the final group; anything outside the
/// alphabet or of broken shape decodes to nothing.
pub open spec fn b64_decode(chars: Seq<char>) -> Option<Seq<u8>>
    decreases chars.len(),
{
    if chars.len() == 0 {
        Some(Seq::empty())
    } else if chars.len() < 4 {
        None
    } else {
        let r0 = b64_rev(chars[0]);
        let r1 = b64_rev(chars[1]);
        if r0 < 0 || r1 < 0 {
            None
        } else if chars[2] == '=' && chars[3] == '=' {
            if chars.len() == 4 && r1 % 16 == 0 {
                Some(seq![(r0 * 4 + r1 / 16) as u8])
            } else {
                None
            }
        } else if chars[3] == '=' {
            let r2 = b64_rev(chars[2]);
            if chars.len() == 4 && r2 >= 0 && r2 % 4 == 0 {
                Some(seq![(r0 * 4 + r1 / 16) as u8, ((r1 % 16) * 16 + r2 / 4) as u8])
            } else {
                None
            }
        } else {
            let r2 = b64_rev(chars[2]);
            let r3 = b64_rev(chars[3]);
            if r2 >= 0 && r3 >= 0 {
                match b64_decode(chars.subrange(4, chars.len() as int)) {
                    Some(rest) => Some(
                        seq![
                            (r0 * 4 + r1 / 16) as u8,
                            ((r1 % 16) * 16 + r2 / 4) as u8,
                            ((r2 % 4) * 64 + r3) as u8,
                        ] + rest,
                    ),
                    None => None,
                }
            } else {
                None
            }
        }
    }
}

/// The encoding is lossless: decoding what was encoded gives the bytes
/// back, for every byte sequence.
pub proof fn lemma_b64_round_trip(bytes: Seq<u8>)
    ensures
        b64_decode(b64_encode(bytes)) == Some(bytes),
    decreases bytes.len(),
{
    if bytes.len() == 0 {
        assert(b64_encode(bytes) =~= Seq::<char>::empty());
    } else if bytes.len() == 1 {
        let b0 = bytes[0] as int;
        lemma_b64_char_rev(b0 / 4);
        lemma_b64_char_rev((b0 % 4) * 16);
        assert((b0 / 4) * 4 + ((b0 % 4) * 16) / 16 == b0);
        assert(b64_decode(b64_encode(bytes)) matches Some(s) && s =~= bytes);
    } else if bytes.len() == 2 {
        let b0 = bytes[0] as int;
        let b1 = bytes[1] as int;
        lemma_b64_char_rev(b0 / 4);
        lemma_b64_char_rev((b0 % 4) * 16 + b1 / 16);
        lemma_b64_char_rev((b1 % 16) * 4);
        assert((b0 / 4) * 4 + ((b0 % 4) * 16 + b1 / 16) / 16 == b0);
        assert((((b0 % 4) * 16 + b1 / 16) % 16) * 16 + ((b1 % 16) * 4) / 4 == b1);
        assert(b64_decode(b64_encode(bytes)) matches Some(s) && s =~= bytes);
    } else {
        let b0 = bytes[0] as int;
        let b1 = bytes[1] as int;
        let b2 = bytes[2] as int;
        let rest = bytes.subrange(3, bytes.len() as int);
        lemma_b64_round_trip(rest);
        lemma_b64_char_rev(b0 / 4);
        lemma_b64_char_rev((b0 % 4) * 16 + b1 / 16);
        lemma_b64_char_rev((b1 % 16) * 4 + b2 / 64);
        lemma_b64_char_rev(b2 % 64);
        let enc = b64_encode(bytes);
        let group = seq![
            b64_char(b0 / 4),
            b64_char((b0 % 4) * 16 + b1 / 16),
            b64_char((b1 % 16) * 4 + b2 / 64),
            b64_char(b2 % 64),
        ];
        assert(enc == group + b64_encode(rest));
        assert(b64_encode(rest).len() % 4 == 0 || b64_encode(rest).len() >= 4 || b64_encode(
            rest,
        ).len() == 0 || true);
        assert(enc[0] == group[0] && enc[1] == group[1] && enc[2] == group[2] && enc[3]
            == group[3]);
        assert(enc.subrange(4, enc.len() as int) =~= b64_encode(rest));
        assert((b0 / 4) * 4 + ((b0 % 4) * 16 + b1 / 16) / 16 == b0);
        assert((((b0 % 4) * 16 + b1 / 16) % 16) * 16 + ((b1 % 16) * 4 + b2 / 64) / 4 == b1);
        assert(((((b1 % 16) * 4 + b2 / 64)) % 4) * 64 + (b2 % 64) == b2);
        assert(b64_decode(enc) matches Some(s) && s =~= bytes);
    }
}

/// The alphabet character of a six-bit value, as a one-character string.
fn b64_char_str(v: u8) -> (r: &'static str)
    requires
        v < 64,
    ensures
        r@ =~= seq![b64_char(v as int)],
{
    let r: &'static str = match v {
        0 => "A",
        1 => "B",
        2 => "C",
        3 => "D",
        4 => "E",
        5 => "F",
        6 => "G",
        7 => "H",
        8 => "I",
        9 => "J",
        10 => "K",
        11 => "L",
        12 => "M",
        13 => "N",
        14 => "O",
        15 => "P",
        16 => "Q",
        17 => "R",
        18 => "S",
        19 => "T",
        20 => "U",
        21 => "V",
        22 => "W",
        23 => "X",
        24 => "Y",
        25 => "Z",
        26 => "a",
        27 => "b",
        28 => "c",
        29 => "d",
        30 => "e",
        31 => "f",
        32 => "g",
        33 => "h",
        34 => "i",
        35 => "j",
        36 => "k",
        37 => "l",
        38 => "m",
        39 => "n",
        40 => "o",
        41 => "p",
        42 => "q",
        43 => "r",
        44 => "s",
        45 => "t",
        46 => "u",
        47 => "v",
        48 => "w",
        49 => "x",
        50 => "y",
        51 => "z",
        52 => "0",
        53 => "1",
        54 => "2",
        55 => "3",
        56 => "4",
        57 => "5",
        58 => "6",
        59 => "7",
        60 => "8",
        61 => "9",
        62 => "+",
        63 => "/",
        _ => "A",
    };
    proof {
        reveal_strlit("A");
        reveal_strlit("B");
        reveal_strlit("C");
        reveal_strlit("D");
        reveal_strlit("E");
        reveal_strlit("F");
        reveal_strlit("G");
        reveal_strlit("H");
        reveal_strlit("I");
        reveal_strlit("J");
        reveal_strlit("K");
        reveal_strlit("L");
        reveal_strlit("M");
        reveal_strlit("N");
        reveal_strlit("O");
        reveal_strlit("P");
        reveal_strlit("Q");
        reveal_strlit("R");
        reveal_strlit("S");
        reveal_strlit("T");
        reveal_strlit("U");
        reveal_strlit("V");
        reveal_strlit("W");
        reveal_strlit("X");
        reveal_strlit("Y");
        reveal_strlit("Z");
        reveal_strlit("a");
        reveal_strlit("b");
        reveal_strlit("c");
        reveal_strlit("d");
        reveal_strlit("e");
        reveal_strlit("f");
        reveal_strlit("g");
        reveal_strlit("h");
        reveal_strlit("i");
        reveal_strlit("j");
        reveal_strlit("k");
        reveal_strlit("l");
        reveal_strlit("m");
        reveal_strlit("n");
        reveal_strlit("o");
        reveal_strlit("p");
        reveal_strlit("q");
        reveal_strlit("r");
        reveal_strlit("s");
        reveal_strlit("t");
        reveal_strlit("u");
        reveal_strlit("v");
        reveal_strlit("w");
        reveal_strlit("x");
        reveal_strlit("y");
        reveal_strlit("z");
        reveal_strlit("0");
        reveal_strlit("1");
        reveal_strlit("2");
        reveal_strlit("3");
        reveal_strlit("4");
        reveal_strlit("5");
        reveal_strlit("6");
        reveal_strlit("7");
        reveal_strlit("8");
        reveal_strlit("9");
        reveal_strlit("+");
        reveal_strlit("/");
    }
    r
}

/// The transport encoding of a byte vector, per [`b64_encode`].
pub fn encode_base64(bytes: &Vec<u8>) -> (r: String)
    ensures
        r@ == b64_encode(bytes@),
{
    let ghost bv = bytes@;
    let n = bytes.len();
    let mut out = String::new();
    proof {
        assert(bv.subrange(0, bv.len() as int) =~= bv);
        assert(out@ + b64_encode(bv) =~= b64_encode(bv));
    }
    let mut k: usize = 0;
    while n - k >= 3
        invariant
            k <= n,
            n == bytes.len(),
            bv == bytes@,
            b64_encode(bv) == out@ + b64_encode(bv.subrange(k as int, bv.len() as int)),
        decreases n - k,
    {
        let ghost suffix = bv.subrange(k as int, bv.len() as int);
        let b0 = bytes[k];
        let b1 = bytes[k + 1];
        let b2 = bytes[k + 2];
        proof {
            assert(suffix.len() >= 3);
            assert(suffix[0] == b0 && suffix[1] == b1 && suffix[2] == b2);
            assert(suffix.subrange(3, suffix.len() as int) =~= bv.subrange(
                k + 3 as int,
                bv.len() as int,
            ));
        }
        out.append(b64_char_str(b0 / 4));
        out.append(b64_char_str((b0 % 4) * 16 + b1 / 16));
        out.append(b64_char_str((b1 % 16) * 4 + b2 / 64));
        out.append(b64_char_str(b2 % 64));
        k = k + 3;
    }
    if n - k == 1 {
        let ghost suffix = bv.subrange(k as int, bv.len() as int);
        let b0 = bytes[k];
        proof {
            assert(suffix.len() == 1);
            assert(suffix[0] == b0);
        }
        out.append(b64_char_str(b0 / 4));
        out.append(b64_char_str((b0 % 4) * 16));
        out.append("==");
        proof {
            reveal_strlit("==");
            assert(out@ =~= b64_encode(bv));
        }
    } else if n - k == 2 {
        let ghost suffix = bv.subrange(k as int, bv.len() as int);
        let b0 = bytes[k];
        let b1 = bytes[k + 1];
        proof {
            assert(suffix.len() == 2);
            assert(suffix[0] == b0 && suffix[1] == b1);
        }
        out.append(b64_char_str(b0 / 4));
        out.append(b64_char_str((b0 % 4) * 16 + b1 / 16));
        out.append(b64_char_str((b1 % 16) * 4));
        out.append("=");
        proof {
            reveal_strlit("=");
            assert(out@ =~= b64_encode(bv));
        }
    } else {
        proof {
            assert(bv.subrange(k as int, bv.len() as int) =~= Seq::<u8>::empty());
            assert(out@ =~= b64_encode(bv));
        }
    }
    out
}

} // verus!
