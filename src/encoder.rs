//! A base64-like encoding: little-endian blocks of up to three bytes, read six
//! bits at a time from the low end, with no padding symbol ever emitted.
use vstd::prelude::*;

verus! {

/// The number of entries in the symbol table, the padding symbol included.
pub const ALPHABET_LEN: usize = 65;

/// Entry `i` of the symbol table: `A`-`Z`, `a`-`z`, `0`-`9`, `+`, `/`, then `=`.
pub open spec fn symbol(i: int) -> u8 {
    if i < 26 {
        (65 + i) as u8
    } else if i < 52 {
        (97 + (i - 26)) as u8
    } else if i < 62 {
        (48 + (i - 52)) as u8
    } else if i == 62 {
        43u8
    } else if i == 63 {
        47u8
    } else {
        61u8
    }
}

/// The whole symbol table.
pub open spec fn alphabet() -> Seq<u8> {
    Seq::new(65, |i: int| symbol(i))
}

/// The symbols that encoding may emit: every entry but the padding one.
pub open spec fn is_data_symbol(c: u8) -> bool {
    alphabet().subrange(0, 64).contains(c)
}

/// `c` is an ASCII letter, an ASCII digit, `+` or `/`.
pub open spec fn is_letter_digit_plus_slash(c: u8) -> bool {
    (65 <= c <= 90) || (97 <= c <= 122) || (48 <= c <= 57) || c == 43 || c == 47
}

/// The data symbols are exactly the ASCII letters, the ASCII digits, `+` and
/// `/`; in particular the padding symbol `=` is not one of them.
pub proof fn lemma_data_symbols(c: u8)
    ensures
        is_data_symbol(c) <==> is_letter_digit_plus_slash(c),
        is_data_symbol(c) ==> c != 61,
{
    let t = alphabet().subrange(0, 64);
    if is_data_symbol(c) {
        let k = choose|k: int| 0 <= k < t.len() && t[k] == c;
        assert(t[k] == symbol(k));
    }
    if is_letter_digit_plus_slash(c) {
        let k: int = if 65 <= c <= 90 {
            c - 65
        } else if 97 <= c <= 122 {
            c - 97 + 26
        } else if 48 <= c <= 57 {
            c - 48 + 52
        } else if c == 43 {
            62
        } else {
            63
        };
        assert(t[k] == c);
    }
}

/// The little-endian value of a block of one to three bytes.
pub open spec fn block_value(block: Seq<u8>) -> u32 {
    (block[0] as int + (if block.len() > 1 {
        256 * block[1]
    } else {
        0
    }) + (if block.len() > 2 {
        65536 * block[2]
    } else {
        0
    })) as u32
}

/// How many six-bit windows a block of `len` bytes is read as.
pub open spec fn window_count(len: nat) -> nat {
    if len == 3 {
        4
    } else if len == 1 {
        2
    } else {
        3
    }
}

/// Window `j` of `v`: bits `6j` to `6j + 5`.
pub open spec fn window(v: u32, j: int) -> u32 {
    (v >> ((6 * j) as u32)) & 0x3Fu32
}

/// The symbols for one block.
pub open spec fn encode_block(block: Seq<u8>) -> Seq<u8> {
    Seq::new(
        window_count(block.len()),
        |j: int| symbol(window(block_value(block), j) as int),
    )
}

/// The symbols for the first `n` full three-byte blocks of `b`.
pub open spec fn encode_full_blocks(b: Seq<u8>, n: nat) -> Seq<u8>
    decreases n,
{
    if n == 0 {
        seq![]
    } else {
        encode_full_blocks(b, (n - 1) as nat) + encode_block(
            b.subrange((3 * (n - 1)) as int, (3 * n) as int),
        )
    }
}

/// The encoding of `b`: its full blocks, then the trailing one or two bytes if any.
pub open spec fn encode(b: Seq<u8>) -> Seq<u8> {
    let n = b.len() / 3;
    encode_full_blocks(b, n) + (if b.len() % 3 > 0 {
        encode_block(b.subrange((3 * n) as int, b.len() as int))
    } else {
        seq![]
    })
}

/// The length that the encoding of `len` bytes has.
pub open spec fn encoded_len(len: nat) -> nat {
    4 * (len / 3) + (if len % 3 == 0 {
        0nat
    } else if len % 3 == 1 {
        2nat
    } else {
        3nat
    })
}

proof fn lemma_block_symbols(block: Seq<u8>)
    ensures
        forall|j: int|
            0 <= j < encode_block(block).len() ==> #[trigger] is_data_symbol(
                encode_block(block)[j],
            ),
{
    assert forall|j: int|
        0 <= j < encode_block(block).len() implies #[trigger] is_data_symbol(
        encode_block(block)[j],
    ) by {
        let w = window(block_value(block), j);
        let v = block_value(block);
        let s = (6 * j) as u32;
        assert((v >> s) & 0x3Fu32 < 64) by (bit_vector);
        assert(alphabet().subrange(0, 64)[w as int] == encode_block(block)[j]);
    }
}

proof fn lemma_full_blocks(b: Seq<u8>, n: nat)
    requires
        3 * n <= b.len(),
    ensures
        encode_full_blocks(b, n).len() == 4 * n,
        forall|i: int|
            0 <= i < encode_full_blocks(b, n).len() ==> #[trigger] is_data_symbol(
                encode_full_blocks(b, n)[i],
            ),
    decreases n,
{
    if n > 0 {
        lemma_full_blocks(b, (n - 1) as nat);
        let prev = encode_full_blocks(b, (n - 1) as nat);
        let blk = encode_block(b.subrange((3 * (n - 1)) as int, (3 * n) as int));
        lemma_block_symbols(b.subrange((3 * (n - 1)) as int, (3 * n) as int));
        assert forall|i: int|
            0 <= i < encode_full_blocks(b, n).len() implies #[trigger] is_data_symbol(
            encode_full_blocks(b, n)[i],
        ) by {
            if i < prev.len() {
                assert(encode_full_blocks(b, n)[i] == prev[i]);
            } else {
                assert(encode_full_blocks(b, n)[i] == blk[i - prev.len()]);
            }
        }
    }
}

/// The encoding of `b` has four symbols per full block, and two or three for a
/// trailing block of one or two bytes.
pub proof fn lemma_encoded_len(b: Seq<u8>)
    ensures
        encode(b).len() == encoded_len(b.len()),
{
    lemma_full_blocks(b, b.len() / 3);
}

/// Every symbol of an encoding is one of the 64 data symbols; the padding symbol
/// never occurs.
pub proof fn lemma_alphabet_closure(b: Seq<u8>)
    ensures
        forall|i: int| 0 <= i < encode(b).len() ==> #[trigger] is_data_symbol(encode(b)[i]),
{
    let n = b.len() / 3;
    let full = encode_full_blocks(b, n);
    lemma_full_blocks(b, n);
    if b.len() % 3 > 0 {
        lemma_block_symbols(b.subrange((3 * n) as int, b.len() as int));
    }
    assert forall|i: int| 0 <= i < encode(b).len() implies #[trigger] is_data_symbol(
        encode(b)[i],
    ) by {
        if i >= full.len() {
            assert(encode(b)[i] == encode_block(b.subrange((3 * n) as int, b.len() as int))[i
                - full.len()]);
        } else {
            assert(encode(b)[i] == full[i]);
        }
    }
}

/// The symbol table, indexed by a six-bit window (the last entry is padding).
pub fn variant_base64_dict() -> (r: Vec<u8>)
    ensures
        r@ == alphabet(),
{
    let mut dict: Vec<u8> = Vec::with_capacity(ALPHABET_LEN);
    let mut i: u8 = 0;
    while (i as usize) < ALPHABET_LEN
        invariant
            i <= ALPHABET_LEN,
            dict@ == alphabet().take(i as int),
        decreases ALPHABET_LEN - i as usize,
    {
        let c: u8 = if i < 26 {
            65 + i
        } else if i < 52 {
            97 + (i - 26)
        } else if i < 62 {
            48 + (i - 52)
        } else if i == 62 {
            43
        } else if i == 63 {
            47
        } else {
            61
        };
        dict.push(c);
        i = i + 1;
        assert(dict@ =~= alphabet().take(i as int));
    }
    assert(dict@ =~= alphabet());
    dict
}

/// Encodes the `byte_count` bytes of `bytes` that start at `start_index` as one
/// block, looking each window up in `base64_dict`.
pub fn process_block_encode(
    start_index: usize,
    byte_count: usize,
    base64_dict: &Vec<u8>,
    bytes: &[u8],
) -> (r: Vec<u8>)
    requires
        1 <= byte_count <= 3,
        start_index + byte_count <= bytes@.len(),
        base64_dict@ == alphabet(),
    ensures
        r@ == encode_block(bytes@.subrange(start_index as int, start_index + byte_count)),
{
    let ghost block = bytes@.subrange(start_index as int, start_index + byte_count);
    let b0 = bytes[start_index] as u32;
    let b1: u32 = if byte_count > 1 {
        bytes[start_index + 1] as u32
    } else {
        0
    };
    let b2: u32 = if byte_count > 2 {
        bytes[start_index + 2] as u32
    } else {
        0
    };
    let coding_int: u32 = b0 + b1 * 256 + b2 * 65536;
    assert(coding_int == block_value(block));
    let step_count: u32 = if byte_count == 3 {
        4
    } else if byte_count == 1 {
        2
    } else {
        3
    };
    let mut out: Vec<u8> = Vec::with_capacity(step_count as usize);
    let mut j: u32 = 0;
    while j < step_count
        invariant
            j <= step_count,
            step_count == window_count(block.len()),
            coding_int == block_value(block),
            base64_dict@ == alphabet(),
            out@ == encode_block(block).take(j as int),
        decreases step_count - j,
    {
        let shift: u32 = 6 * j;
        let index: u32 = (coding_int >> shift) & 0x3F;
        assert((coding_int >> shift) & 0x3Fu32 < 64) by (bit_vector);
        assert(index == window(coding_int, j as int));
        out.push(base64_dict[index as usize]);
        j = j + 1;
        assert(out@ =~= encode_block(block).take(j as int));
    }
    assert(out@ =~= encode_block(block));
    out
}

/// Encodes `bytes`: each full three-byte block as four symbols, then a trailing
/// block of one or two bytes as two or three symbols.
pub fn variant_base64_encode(bytes: Vec<u8>) -> (r: Vec<u8>)
    ensures
        r@ == encode(bytes@),
        r@.len() == encoded_len(bytes@.len()),
        forall|i: int| 0 <= i < r@.len() ==> #[trigger] is_data_symbol(r@[i]),
        forall|i: int| 0 <= i < r@.len() ==> #[trigger] is_letter_digit_plus_slash(r@[i]),
        forall|i: int| 0 <= i < r@.len() ==> #[trigger] r@[i] != 61,
{
    let base64_dict = variant_base64_dict();
    let mut result: Vec<u8> = Vec::new();
    let blocks_count = bytes.len() / 3;
    let leftover_bytes = bytes.len() % 3;
    let mut i: usize = 0;
    let mut start: usize = 0;
    while i < blocks_count
        invariant
            i <= blocks_count,
            start == 3 * i,
            blocks_count == bytes@.len() / 3,
            base64_dict@ == alphabet(),
            result@ == encode_full_blocks(bytes@, i as nat),
        decreases blocks_count - i,
    {
        assert(3 * i + 3 <= bytes@.len()) by (nonlinear_arith)
            requires
                i < blocks_count,
                blocks_count == bytes@.len() / 3,
        ;
        assert(start + 3 <= bytes@.len());
        let block = process_block_encode(start, 3, &base64_dict, bytes.as_slice());
        result.extend_from_slice(block.as_slice());
        assert(start + 3 <= bytes@.len());
        i = i + 1;
        start = start + 3;
        assert(result@ =~= encode_full_blocks(bytes@, i as nat));
    }
    if leftover_bytes > 0 {
        assert(start + leftover_bytes == bytes@.len());
        let block = process_block_encode(
            start,
            leftover_bytes,
            &base64_dict,
            bytes.as_slice(),
        );
        result.extend_from_slice(block.as_slice());
    }
    assert(result@ =~= encode(bytes@));
    proof {
        lemma_encoded_len(bytes@);
        lemma_alphabet_closure(bytes@);
        assert forall|i: int| 0 <= i < result@.len() implies is_letter_digit_plus_slash(
            #[trigger] result@[i],
        ) && result@[i] != 61 by {
            assert(is_data_symbol(result@[i]));
            lemma_data_symbols(result@[i]);
        }
    }
    result
}

} // verus!
