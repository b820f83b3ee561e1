//! Base64 with padding, for basic authentication.
use vstd::prelude::*;

verus! {

/// The symbol of a six-bit number.
pub open spec fn symbol(value: nat) -> char {
    if value < 26 {
        ('A' as u32 + value) as char
    } else if value < 52 {
        ('a' as u32 + (value - 26)) as char
    } else if value < 62 {
        ('0' as u32 + (value - 52)) as char
    } else if value == 62 {
        '+'
    } else {
        '/'
    }
}

/// The six-bit number of a symbol.
pub open spec fn symbol_value(c: char) -> nat {
    if 'A' <= c <= 'Z' {
        (c as nat - 'A' as nat) as nat
    } else if 'a' <= c <= 'z' {
        (c as nat - 'a' as nat + 26) as nat
    } else if '0' <= c <= '9' {
        (c as nat - '0' as nat + 52) as nat
    } else if c == '+' {
        62
    } else {
        63
    }
}

/// The four symbols of up to three bytes: 24 bits cut into groups of six, with padding in place
/// of the groups that hold no bit of the input.
pub open spec fn group(bytes: Seq<u8>) -> Seq<char> {
    let b0 = bytes[0] as nat;
    let b1 = if bytes.len() > 1 {
        bytes[1] as nat
    } else {
        0
    };
    let b2 = if bytes.len() > 2 {
        bytes[2] as nat
    } else {
        0
    };
    let triple = b0 * 65536 + b1 * 256 + b2;
    seq![
        symbol(triple / 262144),
        symbol(triple / 4096 % 64),
        if bytes.len() > 1 {
            symbol(triple / 64 % 64)
        } else {
            '='
        },
        if bytes.len() > 2 {
            symbol(triple % 64)
        } else {
            '='
        },
    ]
}

/// The text of a sequence of bytes.
pub open spec fn encoded(bytes: Seq<u8>) -> Seq<char>
    decreases bytes.len(),
{
    if bytes.len() == 0 {
        Seq::empty()
    } else if bytes.len() <= 3 {
        group(bytes)
    } else {
        group(bytes.take(3)) + encoded(bytes.skip(3))
    }
}

/// The bytes of four symbols.
pub open spec fn ungroup(symbols: Seq<char>) -> Seq<u8> {
    let v0 = symbol_value(symbols[0]);
    let v1 = symbol_value(symbols[1]);
    let v2 = symbol_value(symbols[2]);
    let v3 = symbol_value(symbols[3]);
    let first = (v0 * 4 + v1 / 16) as u8;
    let second = (v1 % 16 * 16 + v2 / 4) as u8;
    let third = (v2 % 4 * 64 + v3) as u8;
    if symbols[2] == '=' {
        seq![first]
    } else if symbols[3] == '=' {
        seq![first, second]
    } else {
        seq![first, second, third]
    }
}

/// The bytes of a text.
pub open spec fn decoded(text: Seq<char>) -> Seq<u8>
    decreases text.len(),
{
    if text.len() < 4 {
        Seq::empty()
    } else {
        ungroup(text.take(4)) + decoded(text.skip(4))
    }
}

proof fn lemma_symbol(value: nat)
    requires
        value < 64,
    ensures
        symbol_value(symbol(value)) == value,
        symbol(value) != '=',
{
}

proof fn lemma_cut(b0: u32, b1: u32, b2: u32)
    requires
        b0 < 256,
        b1 < 256,
        b2 < 256,
    ensures
        ({
            let triple = b0 * 65536 + b1 * 256 + b2;
            &&& triple / 262144 == b0 / 4
            &&& triple / 4096 % 64 == b0 % 4 * 16 + b1 / 16
            &&& triple / 64 % 64 == b1 % 16 * 4 + b2 / 64
            &&& triple % 64 == b2 % 64
        }),
{
    assert((b0 * 65536 + b1 * 256 + b2) / 262144 == b0 / 4) by (bit_vector)
        requires
            b0 < 256,
            b1 < 256,
            b2 < 256,
    ;
    assert((b0 * 65536 + b1 * 256 + b2) / 4096 % 64 == b0 % 4 * 16 + b1 / 16) by (bit_vector)
        requires
            b0 < 256,
            b1 < 256,
            b2 < 256,
    ;
    assert((b0 * 65536 + b1 * 256 + b2) / 64 % 64 == b1 % 16 * 4 + b2 / 64) by (bit_vector)
        requires
            b0 < 256,
            b1 < 256,
            b2 < 256,
    ;
}

proof fn lemma_paste(b0: nat, b1: nat, b2: nat, v0: nat, v1: nat, v2: nat, v3: nat)
    requires
        b0 < 256,
        b1 < 256,
        b2 < 256,
        v0 == b0 / 4,
        v1 == b0 % 4 * 16 + b1 / 16,
        v2 == b1 % 16 * 4 + b2 / 64,
        v3 == b2 % 64,
    ensures
        v0 < 64,
        v1 < 64,
        v2 < 64,
        v3 < 64,
        v0 * 4 + v1 / 16 == b0,
        v1 % 16 * 16 + v2 / 4 == b1,
        v2 % 4 * 64 + v3 == b2,
{
}

proof fn lemma_group(bytes: Seq<u8>)
    requires
        0 < bytes.len() <= 3,
    ensures
        ungroup(group(bytes)) == bytes,
{
    let b0 = bytes[0] as nat;
    let b1 = if bytes.len() > 1 {
        bytes[1] as nat
    } else {
        0
    };
    let b2 = if bytes.len() > 2 {
        bytes[2] as nat
    } else {
        0
    };
    let triple = b0 * 65536 + b1 * 256 + b2;
    let v0 = triple / 262144;
    let v1 = triple / 4096 % 64;
    let v2 = triple / 64 % 64;
    let v3 = triple % 64;
    lemma_cut(b0 as u32, b1 as u32, b2 as u32);
    lemma_paste(b0, b1, b2, v0, v1, v2, v3);
    lemma_symbol(v0);
    lemma_symbol(v1);
    lemma_symbol(v2);
    lemma_symbol(v3);
    let back = ungroup(group(bytes));
    assert(group(bytes)[0] == symbol(v0) && group(bytes)[1] == symbol(v1));
    assert(back[0] == bytes[0]);
    if bytes.len() > 1 {
        assert(group(bytes)[2] == symbol(v2));
        assert(back[1] == bytes[1]);
    }
    if bytes.len() > 2 {
        assert(group(bytes)[3] == symbol(v3));
        assert(back[2] == bytes[2]);
    }
    assert(back =~= bytes);
}

/// What is encoded is what is decoded.
pub proof fn decoding_gives_back(bytes: Seq<u8>)
    ensures
        decoded(encoded(bytes)) == bytes,
    decreases bytes.len(),
{
    let text = encoded(bytes);
    if bytes.len() == 0 {
        assert(bytes =~= Seq::<u8>::empty());
    } else if bytes.len() <= 3 {
        lemma_group(bytes);
        assert(text.take(4) =~= text);
        assert(decoded(text.skip(4)) =~= Seq::<u8>::empty());
        assert(decoded(text) =~= bytes);
    } else {
        lemma_group(bytes.take(3));
        decoding_gives_back(bytes.skip(3));
        assert(text.take(4) =~= group(bytes.take(3)));
        assert(text.skip(4) =~= encoded(bytes.skip(3)));
        assert(bytes.take(3) + bytes.skip(3) =~= bytes);
    }
}

/// Four characters for every three bytes begun.
pub proof fn encoded_length(bytes: Seq<u8>)
    ensures
        encoded(bytes).len() == (bytes.len() + 2) / 3 * 4,
    decreases bytes.len(),
{
    if bytes.len() > 3 {
        encoded_length(bytes.skip(3));
    }
}

fn six_bits(value: u32) -> (c: char)
    requires
        value < 64,
    ensures
        c == symbol(value as nat),
{
    if value < 26 {
        (65 + value as u8) as char
    } else if value < 52 {
        (97 + (value - 26) as u8) as char
    } else if value < 62 {
        (48 + (value - 52) as u8) as char
    } else if value == 62 {
        '+'
    } else {
        '/'
    }
}

/// Encodes the UTF-8 bytes of a text.
pub fn base64_encode(input: &str) -> (result: String)
    ensures
        result@ == encoded(vstd::utf8::encode_utf8(input@)),
{
    let bytes = input.as_bytes();
    let mut result = String::new();
    let mut at: usize = 0;
    assert(bytes@.skip(0) =~= bytes@);
    while at < bytes.len()
        invariant
            at <= bytes@.len(),
            result@ + encoded(bytes@.skip(at as int)) == encoded(bytes@),
        decreases bytes@.len() - at,
    {
        let ghost rest = bytes@.skip(at as int);
        let ghost before = result@;
        let count: usize = if bytes.len() - at < 3 {
            bytes.len() - at
        } else {
            3
        };
        let b0: u32 = bytes[at] as u32;
        let b1: u32 = if count > 1 {
            bytes[at + 1] as u32
        } else {
            0
        };
        let b2: u32 = if count > 2 {
            bytes[at + 2] as u32
        } else {
            0
        };
        let triple: u32 = b0 * 65536 + b1 * 256 + b2;
        result.push(six_bits(triple / 262144));
        result.push(six_bits(triple / 4096 % 64));
        if count > 1 {
            result.push(six_bits(triple / 64 % 64));
        } else {
            result.push('=');
        }
        if count > 2 {
            result.push(six_bits(triple % 64));
        } else {
            result.push('=');
        }
        proof {
            assert(rest.take(count as int)[0] == bytes@[at as int]);
            assert(result@ =~= before + group(rest.take(count as int)));
            assert(rest.skip(count as int) =~= bytes@.skip(at + count));
            if rest.len() <= 3 {
                assert(rest.take(count as int) =~= rest);
                assert(encoded(bytes@.skip(at + count)) =~= Seq::<char>::empty());
            }
            assert(result@ + encoded(bytes@.skip(at + count)) =~= before + encoded(rest));
        }
        at = at + count;
    }
    assert(encoded(bytes@.skip(at as int)) =~= Seq::<char>::empty());
    assert(result@ =~= encoded(bytes@));
    result
}

/// The symbols are the letters from A to Z and from a to z, the digits, plus and slash, in this
/// order.
pub proof fn alphabet(value: nat)
    requires
        value < 64,
    ensures
        symbol(value) == "ABCDEFGHIJKLMNOPQRSTUVWXYZabcdefghijklmnopqrstuvwxyz0123456789+/"@[value as int],
{
    reveal_strlit("ABCDEFGHIJKLMNOPQRSTUVWXYZabcdefghijklmnopqrstuvwxyz0123456789+/");
}

} // verus!
