//! Strict base64: standard alphabet, `=` padding at the end of the text and
//! nowhere else. White space between the characters does not count: encoders
//! wrap their lines.

use vstd::prelude::*;
use vstd::string::*;
use vstd::utf8::encode_utf8;

verus! {

/// ASCII white space: space, tab, line feed, form feed, carriage return.
pub open spec fn is_ascii_space(byte: u8) -> bool {
    byte == 0x20 || byte == 0x09 || byte == 0x0A || byte == 0x0C || byte == 0x0D
}

/// The value of a character of the alphabet.
pub open spec fn sextet(byte: u8) -> Option<nat> {
    if 65 <= byte <= 90 {
        Some((byte - 65) as nat)
    } else if 97 <= byte <= 122 {
        Some((byte - 97 + 26) as nat)
    } else if 48 <= byte <= 57 {
        Some((byte - 48 + 52) as nat)
    } else if byte == 43 {
        Some(62)
    } else if byte == 47 {
        Some(63)
    } else {
        None
    }
}

/// What is wrong with some base64 text.
pub enum Base64Fault {
    Length,
    Padding,
    Byte(u8),
}

/// The hexadecimal digit with the value `n`.
pub open spec fn hex_char(n: nat) -> char {
    if n < 10 {
        (48 + n) as char
    } else {
        (87 + n) as char
    }
}

impl Base64Fault {
    /// The message shown for this fault.
    pub open spec fn text(self) -> Seq<char> {
        match self {
            Base64Fault::Length => "base64 length must be a multiple of 4"@,
            Base64Fault::Padding => "malformed base64 padding"@,
            Base64Fault::Byte(byte) => "invalid base64 byte 0x"@ + seq![
                hex_char(byte as nat / 16),
                hex_char(byte as nat % 16),
            ],
        }
    }
}

/// How many of the four characters are padding.
pub open spec fn padding_in(chunk: Seq<u8>) -> int {
    (if chunk[0] == 61 { 1int } else { 0 }) + (if chunk[1] == 61 { 1int } else { 0 }) + (
    if chunk[2] == 61 { 1int } else { 0 }) + (if chunk[3] == 61 { 1int } else { 0 })
}

/// The place of the first of the first `n` characters that is not in the
/// alphabet, or `n`.
pub open spec fn first_foreign(chunk: Seq<u8>, n: int) -> int
    decreases n,
{
    if n <= 0 {
        0
    } else {
        let before = first_foreign(chunk, n - 1);
        if before < n - 1 || sextet(chunk[n - 1]) is None {
            before
        } else {
            n
        }
    }
}

/// The value of a character, 0 for padding.
pub open spec fn sextet_or_zero(byte: u8) -> nat {
    match sextet(byte) {
        Some(v) => v,
        None => 0,
    }
}

/// The bytes that four characters encode. Only the last group of a text may be
/// padded.
#[verifier::opaque]
pub open spec fn decoded_chunk(chunk: Seq<u8>, last: bool) -> Result<Seq<u8>, Base64Fault> {
    let padding = padding_in(chunk);
    let used = 4 - padding;
    if padding > 2 || (padding > 0 && !last) || exists|i: int|
        0 <= i < used && #[trigger] chunk[i] == 61 {
        Err(Base64Fault::Padding)
    } else if first_foreign(chunk, used) < used {
        Err(Base64Fault::Byte(chunk[first_foreign(chunk, used)]))
    } else {
        let n = ((sextet_or_zero(chunk[0]) * 64 + sextet_or_zero(chunk[1])) * 64 + sextet_or_zero(
            chunk[2],
        )) * 64 + sextet_or_zero(chunk[3]);
        Ok(
            seq![(n / 65536) as u8, (n / 256 % 256) as u8, (n % 256) as u8].subrange(
                0,
                3 - padding,
            ),
        )
    }
}

/// The bytes that whole groups of four characters encode; the first faulty
/// group decides.
pub open spec fn decoded_chunks(chars: Seq<u8>) -> Result<Seq<u8>, Base64Fault>
    decreases chars.len(),
{
    if chars.len() < 4 {
        Ok(Seq::empty())
    } else {
        match decoded_chunk(chars.subrange(0, 4), chars.len() == 4) {
            Err(fault) => Err(fault),
            Ok(bytes) => match decoded_chunks(chars.skip(4)) {
                Err(fault) => Err(fault),
                Ok(rest) => Ok(bytes + rest),
            },
        }
    }
}

pub open spec fn without_space(bytes: Seq<u8>) -> Seq<u8> {
    bytes.filter(|b: u8| !is_ascii_space(b))
}

/// The bytes that base64 text encodes.
pub open spec fn base64_value(text: Seq<u8>) -> Result<Seq<u8>, Base64Fault> {
    let chars = without_space(text);
    if chars.len() % 4 != 0 {
        Err(Base64Fault::Length)
    } else {
        decoded_chunks(chars)
    }
}

fn sextet_of(byte: u8) -> (value: Option<u32>)
    ensures
        match value {
            Some(v) => sextet(byte) == Some(v as nat) && v < 64,
            None => sextet(byte) is None,
        },
{
    if 65 <= byte && byte <= 90 {
        Some((byte - 65) as u32)
    } else if 97 <= byte && byte <= 122 {
        Some((byte - 97) as u32 + 26)
    } else if 48 <= byte && byte <= 57 {
        Some((byte - 48) as u32 + 52)
    } else if byte == 43 {
        Some(62)
    } else if byte == 47 {
        Some(63)
    } else {
        None
    }
}

fn hex_digit_of(n: u8) -> (c: char)
    requires
        n < 16,
    ensures
        c == hex_char(n as nat),
{
    if n < 10 {
        (48 + n) as char
    } else {
        (87 + n) as char
    }
}

fn foreign_byte(byte: u8) -> (message: String)
    ensures
        message@ == Base64Fault::Byte(byte).text(),
{
    let mut m: String = "invalid base64 byte 0x".to_string();
    m.push(hex_digit_of(byte / 16));
    m.push(hex_digit_of(byte % 16));
    assert(m@ =~= Base64Fault::Byte(byte).text());
    m
}

/// Decodes the group of four characters at `at` onto the end of `out`.
fn decode_chunk(out: &mut Vec<u8>, chars: &Vec<u8>, at: usize) -> (result: Result<(), String>)
    requires
        at + 4 <= chars@.len(),
    ensures
        match decoded_chunk(chars@.subrange(at as int, at + 4), at + 4 == chars@.len()) {
            Ok(bytes) => result is Ok && final(out)@ == old(out)@ + bytes,
            Err(fault) => result matches Err(message) && message@ == fault.text(),
        },
{
    reveal(decoded_chunk);
    let ghost chunk = chars@.subrange(at as int, at + 4);
    assert(chars.len() == chars@.len());
    let c0: u8 = chars[at];
    let c1: u8 = chars[at + 1];
    let c2: u8 = chars[at + 2];
    let c3: u8 = chars[at + 3];
    assert(chunk[0] == c0 && chunk[1] == c1 && chunk[2] == c2 && chunk[3] == c3);
    let p0: usize = if c0 == 61 { 1 } else { 0 };
    let p1: usize = if c1 == 61 { 1 } else { 0 };
    let p2: usize = if c2 == 61 { 1 } else { 0 };
    let p3: usize = if c3 == 61 { 1 } else { 0 };
    let padding: usize = p0 + p1 + p2 + p3;
    let last: bool = chars.len() - at == 4;
    let well_padded: bool = padding == 0 || (last && ((padding == 1 && c3 == 61) || (padding == 2
        && c3 == 61 && c2 == 61)));
    if !well_padded {
        proof {
            if last && padding <= 2 {
                let i: int = if c0 == 61 {
                    0
                } else if c1 == 61 {
                    1
                } else {
                    2
                };
                assert(chunk[i] == 61 && i < 4 - padding);
            }
        }
        return Err("malformed base64 padding".to_string());
    }
    proof {
        reveal_with_fuel(first_foreign, 5);
    }
    let v0: u32 = match sextet_of(c0) {
        Some(v) => v,
        None => {
            return Err(foreign_byte(c0));
        },
    };
    let v1: u32 = match sextet_of(c1) {
        Some(v) => v,
        None => {
            return Err(foreign_byte(c1));
        },
    };
    let v2: u32 = if padding == 2 {
        0
    } else {
        match sextet_of(c2) {
            Some(v) => v,
            None => {
                return Err(foreign_byte(c2));
            },
        }
    };
    let v3: u32 = if padding >= 1 {
        0
    } else {
        match sextet_of(c3) {
            Some(v) => v,
            None => {
                return Err(foreign_byte(c3));
            },
        }
    };
    let n: u32 = ((v0 * 64 + v1) * 64 + v2) * 64 + v3;
    let ghost before = out@;
    let ghost three = seq![(n / 65536) as u8, (n / 256 % 256) as u8, (n % 256) as u8];
    out.push((n / 65536) as u8);
    if padding < 2 {
        out.push((n / 256 % 256) as u8);
    }
    if padding < 1 {
        out.push((n % 256) as u8);
    }
    assert(out@ =~= before + three.subrange(0, 3 - padding));
    Ok(())
}

/// Decodes base64 text.
pub fn base64_decode(input: &str) -> (result: Result<Vec<u8>, String>)
    ensures
        match base64_value(encode_utf8(input@)) {
            Ok(bytes) => result matches Ok(out) && out@ == bytes,
            Err(fault) => result matches Err(message) && message@ == fault.text(),
        },
{
    let bytes: &[u8] = input.as_bytes();
    let ghost kept = |b: u8| !is_ascii_space(b);
    let mut chars: Vec<u8> = Vec::new();
    let mut i: usize = 0;
    assert(chars@ =~= bytes@.subrange(0, 0).filter(kept)) by {
        reveal(Seq::filter);
    }
    while i < bytes.len()
        invariant
            i <= bytes@.len(),
            kept == (|b: u8| !is_ascii_space(b)),
            chars@ == bytes@.subrange(0, i as int).filter(kept),
        decreases bytes@.len() - i,
    {
        let b: u8 = bytes[i];
        proof {
            reveal(Seq::filter);
            assert(bytes@.subrange(0, i + 1).drop_last() =~= bytes@.subrange(0, i as int));
        }
        if !(b == 0x20 || b == 0x09 || b == 0x0A || b == 0x0C || b == 0x0D) {
            chars.push(b);
        }
        i = i + 1;
    }
    assert(bytes@.subrange(0, i as int) =~= bytes@);
    let len: usize = chars.len();
    if len % 4 != 0 {
        return Err("base64 length must be a multiple of 4".to_string());
    }
    let mut out: Vec<u8> = Vec::new();
    let mut at: usize = 0;
    let ghost whole = decoded_chunks(chars@);
    proof {
        assert(chars@.skip(0) =~= chars@);
        if whole is Ok {
            assert(out@ + whole->Ok_0 =~= whole->Ok_0);
        }
    }
    while at < len
        invariant
            at <= len,
            len == chars@.len(),
            (len - at) % 4 == 0,
            whole == decoded_chunks(chars@),
            base64_value(encode_utf8(input@)) == whole,
            match decoded_chunks(chars@.skip(at as int)) {
                Ok(rest) => whole matches Ok(all) && all == out@ + rest,
                Err(fault) => whole == Err::<Seq<u8>, Base64Fault>(fault),
            },
        decreases len - at,
    {
        let ghost rest = chars@.skip(at as int);
        let ghost before = out@;
        proof {
            assert(rest.subrange(0, 4) =~= chars@.subrange(at as int, at + 4));
            assert(rest.skip(4) =~= chars@.skip(at + 4));
        }
        if let Err(message) = decode_chunk(&mut out, &chars, at) {
            return Err(message);
        }
        proof {
            let bytes = decoded_chunk(rest.subrange(0, 4), rest.len() == 4)->Ok_0;
            if let Ok(more) = decoded_chunks(rest.skip(4)) {
                assert(before + (bytes + more) =~= out@ + more);
            }
        }
        at = at + 4;
    }
    assert(out@ + Seq::<u8>::empty() =~= out@);
    Ok(out)
}

// ---------------------------------------------------------------------------
// Laws
// ---------------------------------------------------------------------------

/// The character of the alphabet with the value `n`.
pub open spec fn alphabet(n: nat) -> u8 {
    if n < 26 {
        (65 + n) as u8
    } else if n < 52 {
        (97 + n - 26) as u8
    } else if n < 62 {
        (48 + n - 52) as u8
    } else if n == 62 {
        43
    } else {
        47
    }
}

/// The base64 text of `data`.
pub open spec fn base64_text(data: Seq<u8>) -> Seq<u8>
    decreases data.len(),
{
    if data.len() == 0 {
        Seq::empty()
    } else {
        let b0 = data[0] as nat;
        let b1 = if data.len() > 1 {
            data[1] as nat
        } else {
            0
        };
        let b2 = if data.len() > 2 {
            data[2] as nat
        } else {
            0
        };
        let n = b0 * 65536 + b1 * 256 + b2;
        seq![
            alphabet(n / 262144),
            alphabet(n / 4096 % 64),
            if data.len() > 1 {
                alphabet(n / 64 % 64)
            } else {
                61
            },
            if data.len() > 2 {
                alphabet(n % 64)
            } else {
                61
            },
        ] + base64_text(
            if data.len() > 3 {
                data.skip(3)
            } else {
                Seq::empty()
            },
        )
    }
}

proof fn alphabet_reads_back(n: nat)
    requires
        n < 64,
    ensures
        sextet(alphabet(n)) == Some(n),
        !is_ascii_space(alphabet(n)),
        alphabet(n) != 61,
{
}

/// Four characters decode to the bytes of the number that they spell.
proof fn chunk_of_values(
    chunk: Seq<u8>,
    last: bool,
    v0: nat,
    v1: nat,
    v2: nat,
    v3: nat,
    padding: int,
)
    requires
        chunk.len() == 4,
        padding > 0 ==> last,
        v0 < 64,
        v1 < 64,
        v2 < 64,
        v3 < 64,
        0 <= padding <= 2,
        chunk[0] == alphabet(v0),
        chunk[1] == alphabet(v1),
        chunk[2] == if padding == 2 {
            61
        } else {
            alphabet(v2)
        },
        chunk[3] == if padding >= 1 {
            61
        } else {
            alphabet(v3)
        },
        padding == 2 ==> v2 == 0,
        padding >= 1 ==> v3 == 0,
    ensures
        ({
            let n = ((v0 * 64 + v1) * 64 + v2) * 64 + v3;
            let three = seq![(n / 65536) as u8, (n / 256 % 256) as u8, (n % 256) as u8];
            decoded_chunk(chunk, last) == Ok::<Seq<u8>, Base64Fault>(
                three.subrange(0, 3 - padding),
            )
        }),
{
    reveal(decoded_chunk);
    alphabet_reads_back(v0);
    alphabet_reads_back(v1);
    alphabet_reads_back(v2);
    alphabet_reads_back(v3);
    reveal_with_fuel(first_foreign, 5);
    assert(padding_in(chunk) == padding);
    assert(forall|i: int| 0 <= i < 4 - padding ==> #[trigger] chunk[i] != 61);
}

/// The four values of three bytes spell the same number.
proof fn values_spell_the_bytes(b0: u32, b1: u32, b2: u32, n: u32)
    by (bit_vector)
    requires
        b0 < 256,
        b1 < 256,
        b2 < 256,
        n == b0 * 65536 + b1 * 256 + b2,
    ensures
        n / 262144 < 64,
        n == ((n / 262144 * 64 + n / 4096 % 64) * 64 + n / 64 % 64) * 64 + n % 64,
        n / 65536 == b0,
        n / 256 % 256 == b1,
        n % 256 == b2,
        b2 == 0 ==> n % 64 == 0,
        b2 == 0 && b1 == 0 ==> n / 64 % 64 == 0,
{
}

proof fn encoded_chunk_decodes(data: Seq<u8>)
    requires
        data.len() > 0,
    ensures
        decoded_chunk(base64_text(data).subrange(0, 4), base64_text(data).len() == 4) == Ok::<
            Seq<u8>,
            Base64Fault,
        >(
            data.subrange(
                0,
                if data.len() < 3 {
                    data.len() as int
                } else {
                    3
                },
            ),
        ),
{
    let chunk = base64_text(data).subrange(0, 4);
    let last = base64_text(data).len() == 4;
    assert(data.len() <= 3 ==> base64_text(Seq::empty()).len() == 0);
    let b0 = data[0] as nat;
    let b1 = if data.len() > 1 {
        data[1] as nat
    } else {
        0
    };
    let b2 = if data.len() > 2 {
        data[2] as nat
    } else {
        0
    };
    let n = b0 * 65536 + b1 * 256 + b2;
    let padding: int = if data.len() > 2 {
        0
    } else if data.len() > 1 {
        1
    } else {
        2
    };
    values_spell_the_bytes(b0 as u32, b1 as u32, b2 as u32, n as u32);
    chunk_of_values(chunk, last, n / 262144, n / 4096 % 64, n / 64 % 64, n % 64, padding);
    let three = seq![(n / 65536) as u8, (n / 256 % 256) as u8, (n % 256) as u8];
    assert(three.subrange(0, 3 - padding) =~= data.subrange(
        0,
        if data.len() < 3 {
            data.len() as int
        } else {
            3
        },
    ));
}

proof fn encoding_is_plain(data: Seq<u8>)
    ensures
        base64_text(data).len() % 4 == 0,
        forall|i: int|
            0 <= i < base64_text(data).len() ==> !is_ascii_space(#[trigger] base64_text(data)[i]),
        decoded_chunks(base64_text(data)) == Ok::<Seq<u8>, Base64Fault>(data),
    decreases data.len(),
{
    if data.len() > 0 {
        let text = base64_text(data);
        let tail = if data.len() > 3 {
            data.skip(3)
        } else {
            Seq::empty()
        };
        encoding_is_plain(tail);
        encoded_chunk_decodes(data);
        assert(text.skip(4) =~= base64_text(tail));
        let head = data.subrange(
            0,
            if data.len() < 3 {
                data.len() as int
            } else {
                3
            },
        );
        assert(head + tail =~= data);
        assert forall|i: int| 0 <= i < text.len() implies !is_ascii_space(#[trigger] text[i]) by {
            if i >= 4 {
                assert(text[i] == base64_text(tail)[i - 4]);
            }
        }
    } else {
        assert(data =~= Seq::empty());
    }
}

/// Nothing is filtered out of a sequence without white space.
proof fn nothing_filtered(bytes: Seq<u8>)
    requires
        forall|i: int| 0 <= i < bytes.len() ==> !is_ascii_space(#[trigger] bytes[i]),
    ensures
        without_space(bytes) == bytes,
    decreases bytes.len(),
{
    reveal(Seq::filter);
    if bytes.len() > 0 {
        nothing_filtered(bytes.drop_last());
        assert(bytes.drop_last().push(bytes.last()) =~= bytes);
    }
}

/// Decoding what was encoded gives the data back.
pub proof fn base64_round_trips(data: Seq<u8>)
    ensures
        base64_value(base64_text(data)) == Ok::<Seq<u8>, Base64Fault>(data),
{
    encoding_is_plain(data);
    nothing_filtered(base64_text(data));
}

proof fn padding_ends_groups(chars: Seq<u8>, i: int)
    requires
        chars.len() % 4 == 0,
        decoded_chunks(chars) is Ok,
        0 <= i < chars.len(),
        chars[i] == 61,
    ensures
        i >= chars.len() - 2,
    decreases chars.len(),
{
    reveal(decoded_chunk);
    let chunk = chars.subrange(0, 4);
    if i >= 4 {
        padding_ends_groups(chars.skip(4), i - 4);
    } else {
        assert(chunk[i] == 61);
        assert(padding_in(chunk) > 0);
    }
}

/// Padding stands only at the end: of a text that decodes, white space aside,
/// no character but the last two is `=`.
pub proof fn padding_stands_at_the_end(text: Seq<u8>, i: int)
    requires
        base64_value(text) is Ok,
        0 <= i < without_space(text).len(),
        without_space(text)[i] == 61,
    ensures
        i >= without_space(text).len() - 2,
{
    padding_ends_groups(without_space(text), i);
}

/// White space anywhere in the text changes nothing.
pub proof fn base64_ignores_white_space(text: Seq<u8>, other: Seq<u8>)
    requires
        without_space(text) == without_space(other),
    ensures
        base64_value(text) == base64_value(other),
{
}

/// The characters of the alphabet and their values: `A` to `Z`, `a` to `z`, `0`
/// to `9`, `+` and `/`, counted in this order; no other character has one.
pub proof fn characters_count_in_order(byte: u8, value: nat)
    ensures
        sextet(byte) == Some(value) <==> {
            ||| value < 26 && byte == 'A' as nat + value
            ||| 26 <= value < 52 && byte == 'a' as nat + value - 26
            ||| 52 <= value < 62 && byte == '0' as nat + value - 52
            ||| value == 62 && byte == '+' as nat
            ||| value == 63 && byte == '/' as nat
        },
{
}

proof fn decoded_chunk_is_plain(chunk: Seq<u8>, last: bool, i: int)
    requires
        chunk.len() == 4,
        decoded_chunk(chunk, last) is Ok,
        0 <= i < 4,
    ensures
        chunk[i] == 61 || sextet(chunk[i]) is Some,
        decoded_chunk(chunk, last)->Ok_0.len() == 3 - padding_in(chunk),
{
    reveal(decoded_chunk);
    reveal_with_fuel(first_foreign, 5);
    let used = 4 - padding_in(chunk);
    assert(forall|k: int| 0 <= k < used ==> #[trigger] chunk[k] != 61);
    assert(first_foreign(chunk, used) >= used);
}

proof fn decoded_chunks_are_plain(chars: Seq<u8>, i: int)
    requires
        chars.len() % 4 == 0,
        decoded_chunks(chars) is Ok,
        0 <= i < chars.len(),
    ensures
        chars[i] == 61 || sextet(chars[i]) is Some,
    decreases chars.len(),
{
    let chunk = chars.subrange(0, 4);
    if i < 4 {
        decoded_chunk_is_plain(chunk, chars.len() == 4, i);
        assert(chunk[i] == chars[i]);
    } else {
        decoded_chunks_are_plain(chars.skip(4), i - 4);
    }
}

/// A text that decodes holds, white space aside, only characters of the
/// alphabet and padding, in whole groups of four.
pub proof fn decoded_texts_are_plain(text: Seq<u8>, i: int)
    requires
        base64_value(text) is Ok,
        0 <= i < without_space(text).len(),
    ensures
        without_space(text).len() % 4 == 0,
        without_space(text)[i] == '=' as nat || sextet(without_space(text)[i]) is Some,
{
    decoded_chunks_are_plain(without_space(text), i);
}

/// White space is dropped byte by byte: space, tab, line feed, form feed and
/// carriage return go, every other byte stays, in order.
pub proof fn white_space_is_dropped(byte: u8, front: Seq<u8>, back: Seq<u8>)
    ensures
        without_space(Seq::empty()) == Seq::<u8>::empty(),
        without_space(seq![byte]) == (if byte == 32 || byte == 9 || byte == 10 || byte == 12 || byte
            == 13 {
            Seq::empty()
        } else {
            seq![byte]
        }),
        without_space(front + back) == without_space(front) + without_space(back),
{
    reveal_with_fuel(Seq::filter, 2);
    assert(seq![byte].drop_last() =~= Seq::empty());
    assert(without_space(seq![byte]) =~= if byte == 32 || byte == 9 || byte == 10 || byte == 12
        || byte == 13 {
        Seq::empty()
    } else {
        seq![byte]
    });
    assert(without_space(Seq::empty()) =~= Seq::empty());
    Seq::filter_distributes_over_add(front, back, |b: u8| !is_ascii_space(b));
}

/// A text whose length is no multiple of four does not decode for that reason,
/// and a text that does decode carries three bytes for each group of four
/// characters, less one for each character of padding.
pub proof fn lengths_go_together(text: Seq<u8>)
    ensures
        without_space(text).len() % 4 != 0 <==> base64_value(text) == Err::<Seq<u8>, Base64Fault>(
            Base64Fault::Length,
        ),
        base64_value(text) matches Ok(data) ==> 3 * (without_space(text).len() / 4) - 2
            <= data.len() <= 3 * (without_space(text).len() / 4),
{
    chunk_lengths(without_space(text));
}

proof fn chunk_lengths(chars: Seq<u8>)
    ensures
        decoded_chunks(chars) matches Ok(data) ==> 3 * (chars.len() / 4) - 2 <= data.len() <= 3 * (
        chars.len() / 4),
        decoded_chunks(chars) != Err::<Seq<u8>, Base64Fault>(Base64Fault::Length),
    decreases chars.len(),
{
    if chars.len() >= 4 {
        let chunk = chars.subrange(0, 4);
        let rest = chars.skip(4);
        chunk_lengths(rest);
        reveal(decoded_chunk);
        if decoded_chunks(chars) is Ok {
            decoded_chunk_is_plain(chunk, chars.len() == 4, 0);
            assert(rest.len() / 4 == chars.len() / 4 - 1);
            if chars.len() != 4 {
                assert(padding_in(chunk) == 0);
            }
        }
    }
}

proof fn chunk_faults(chunk: Seq<u8>, last: bool)
    requires
        chunk.len() == 4,
    ensures
        decoded_chunk(chunk, last) matches Err(Base64Fault::Byte(byte)) ==> chunk.contains(byte)
            && byte != 61 && sextet(byte) is None,
        decoded_chunk(chunk, last) matches Err(Base64Fault::Padding) ==> chunk.contains(61),
        decoded_chunk(chunk, last) is Ok || decoded_chunk(chunk, last)->Err_0 is Byte
            || decoded_chunk(chunk, last)->Err_0 is Padding,
{
    reveal(decoded_chunk);
    reveal_with_fuel(first_foreign, 5);
    let padding = padding_in(chunk);
    let used = 4 - padding;
    if padding > 0 {
        let i: int = if chunk[0] == 61 {
            0
        } else if chunk[1] == 61 {
            1
        } else if chunk[2] == 61 {
            2
        } else {
            3
        };
        assert(chunk[i] == 61);
    }
    let at = first_foreign(chunk, used);
    if 0 <= at < used {
        assert(chunk.contains(chunk[at]));
    }
}

proof fn chunks_faults(chars: Seq<u8>)
    ensures
        decoded_chunks(chars) matches Err(Base64Fault::Byte(byte)) ==> chars.contains(byte) && byte
            != 61 && sextet(byte) is None,
        decoded_chunks(chars) matches Err(Base64Fault::Padding) ==> chars.contains(61),
    decreases chars.len(),
{
    if chars.len() >= 4 {
        let chunk = chars.subrange(0, 4);
        let rest = chars.skip(4);
        chunk_faults(chunk, chars.len() == 4);
        chunks_faults(rest);
        assert forall|byte: u8| chunk.contains(byte) implies chars.contains(byte) by {
            let i = choose|i: int| 0 <= i < chunk.len() && chunk[i] == byte;
            assert(chars[i] == byte);
        }
        assert forall|byte: u8| rest.contains(byte) implies chars.contains(byte) by {
            let i = choose|i: int| 0 <= i < rest.len() && rest[i] == byte;
            assert(chars[i + 4] == byte);
        }
    }
}

/// A fault names something that is really there: a byte that the text holds and
/// that is neither of the alphabet nor padding, or padding that the text holds.
pub proof fn faults_are_there(text: Seq<u8>)
    ensures
        base64_value(text) matches Err(Base64Fault::Byte(byte)) ==> without_space(text).contains(
            byte,
        ) && byte != '=' as nat && sextet(byte) is None,
        base64_value(text) matches Err(Base64Fault::Padding) ==> without_space(text).contains(61),
{
    chunks_faults(without_space(text));
}

} // verus!
