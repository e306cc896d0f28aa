//! 8x8 monochrome bitmaps: text rows of `#` (on) and `.` (off) and their bytes.
use vstd::prelude::*;
use vstd::string::StringSliceAdditionalSpecFns;
use vstd::string::StringExecFns;

verus! {

/// The byte of `#`.
pub const HASH: u8 = 35;

/// Bit `k` of `x` is set.
pub open spec fn bit_set(x: u8, k: u8) -> bool {
    (x >> k) & 1 == 1
}

/// Whether parsing the text row `row` sets bit `k` of its byte: the last eight
/// characters of the row give bits 0 to 7, the last one bit 7, and a bit is set
/// when its character is `#`. Bits with no character (rows shorter than eight)
/// stay clear; characters before the last eight have no effect.
pub open spec fn pixel_on(row: Seq<u8>, k: int) -> bool {
    let j = k + row.len() - 8;
    0 <= j && row[j] == HASH
}

/// The text rendering of the byte `x`: eight characters, the first for bit 7
/// and the last for bit 0, `#` for a set bit and `.` for a clear one.
pub open spec fn rendered_row(x: u8) -> Seq<char> {
    Seq::new(8, |j: int| if bit_set(x, (7 - j) as u8) { '#' } else { '.' })
}

proof fn lemma_shift_in_low(x: u8, c: u8, y: u8, k: u8, k1: u8)
    by (bit_vector)
    requires
        y == (x >> 1u8) | c,
        c == 0 || c == 128,
        k < 7,
        k1 == k + 1,
    ensures
        ((y >> k) & 1 == 1) == ((x >> k1) & 1 == 1),
{
}

proof fn lemma_shift_in_top(x: u8, c: u8, y: u8)
    by (bit_vector)
    requires
        y == (x >> 1u8) | c,
        c == 0 || c == 128,
    ensures
        ((y >> 7u8) & 1 == 1) == (c == 128),
{
}

proof fn lemma_zero_has_no_bits(k: u8)
    by (bit_vector)
    requires
        k < 8,
    ensures
        !((0u8 >> k) & 1 == 1),
{
}

/// Parses one text row into a byte.
fn parse_row(row: &[u8]) -> (byte: u8)
    ensures
        forall|k: u8| k < 8 ==> bit_set(byte, k) == pixel_on(row@, k as int),
{
    let mut byte: u8 = 0;
    let mut i: usize = 0;
    proof {
        assert forall|k: u8| k < 8 implies bit_set(byte, k) == pixel_on(row@.take(0), k as int) by {
            lemma_zero_has_no_bits(k);
        }
    }
    while i < row.len()
        invariant
            i <= row@.len(),
            forall|k: u8| k < 8 ==> bit_set(byte, k) == pixel_on(row@.take(i as int), k as int),
        decreases row@.len() - i,
    {
        let b = row[i];
        let c: u8 = if b == HASH {
            128
        } else {
            0
        };
        let old_byte = byte;
        byte = (byte >> 1) | c;
        proof {
            let before = row@.take(i as int);
            let after = row@.take(i + 1);
            assert forall|k: u8| k < 8 implies bit_set(byte, k) == pixel_on(after, k as int) by {
                if k < 7 {
                    let k1: u8 = (k + 1) as u8;
                    lemma_shift_in_low(old_byte, c, byte, k, k1);
                    assert(bit_set(old_byte, k1) == pixel_on(before, k1 as int));
                    let j = k + after.len() - 8;
                    if 0 <= j {
                        assert(after[j] == before[j]);
                    }
                } else {
                    lemma_shift_in_top(old_byte, c, byte);
                    assert(after[i as int] == b);
                }
            }
        }
        i = i + 1;
    }
    proof {
        assert(row@.take(row@.len() as int) == row@);
    }
    byte
}

/// Parses eight text rows into eight bytes, row by row (see [`pixel_on`]).
pub fn parse_bitmap_8x8(lines: [&str; 8]) -> (res: [u8; 8])
    ensures
        forall|i: int, k: u8|
            0 <= i < 8 && k < 8 ==> #[trigger] bit_set(res[i], k) == pixel_on(
                lines[i].spec_bytes(),
                k as int,
            ),
{
    let mut result = [0u8; 8];
    let mut i: usize = 0;
    while i < 8
        invariant
            i <= 8,
            forall|r: int, k: u8|
                0 <= r < i && k < 8 ==> #[trigger] bit_set(result[r], k) == pixel_on(
                    lines[r].spec_bytes(),
                    k as int,
                ),
        decreases 8 - i,
    {
        let line: &str = lines[i];
        let byte = parse_row(line.as_bytes());
        result[i] = byte;
        i = i + 1;
    }
    result
}

/// Renders one byte as a text row (see [`rendered_row`]).
fn render_row(byte: u8) -> (line: String)
    ensures
        line@ == rendered_row(byte),
{
    let mut line = String::new();
    let mut j: u8 = 0;
    while j < 8
        invariant
            j <= 8,
            line@ == rendered_row(byte).take(j as int),
        decreases 8 - j,
    {
        let bit = (byte >> (7 - j)) & 1;
        if bit == 1 {
            line.append("#");
            proof {
                reveal_strlit("#");
            }
        } else {
            line.append(".");
            proof {
                reveal_strlit(".");
            }
        }
        proof {
            assert(line@ == rendered_row(byte).take(j + 1));
        }
        j = j + 1;
    }
    proof {
        assert(rendered_row(byte).take(8) == rendered_row(byte));
    }
    line
}

/// Renders eight bytes as eight text rows (see [`rendered_row`]).
pub fn render_bitmap_8x8(bytes: [u8; 8]) -> (res: [String; 8])
    ensures
        forall|i: int| 0 <= i < 8 ==> (#[trigger] res[i])@ == rendered_row(bytes[i]),
{
    [
        render_row(bytes[0]),
        render_row(bytes[1]),
        render_row(bytes[2]),
        render_row(bytes[3]),
        render_row(bytes[4]),
        render_row(bytes[5]),
        render_row(bytes[6]),
        render_row(bytes[7]),
    ]
}

proof fn lemma_bits_determine_byte(a: u8, b: u8)
    by (bit_vector)
    requires
        (a >> 0u8) & 1 == (b >> 0u8) & 1,
        (a >> 1u8) & 1 == (b >> 1u8) & 1,
        (a >> 2u8) & 1 == (b >> 2u8) & 1,
        (a >> 3u8) & 1 == (b >> 3u8) & 1,
        (a >> 4u8) & 1 == (b >> 4u8) & 1,
        (a >> 5u8) & 1 == (b >> 5u8) & 1,
        (a >> 6u8) & 1 == (b >> 6u8) & 1,
        (a >> 7u8) & 1 == (b >> 7u8) & 1,
    ensures
        a == b,
{
}

proof fn lemma_bit_is_zero_or_one(a: u8, k: u8)
    by (bit_vector)
    ensures
        (a >> k) & 1 == 0 || (a >> k) & 1 == 1,
{
}

/// Two bytes with the same eight bits are equal.
pub proof fn lemma_same_bits_same_byte(a: u8, b: u8)
    requires
        forall|k: u8| k < 8 ==> bit_set(a, k) == bit_set(b, k),
    ensures
        a == b,
{
    assert forall|k: u8| k < 8 implies (a >> k) & 1 == (b >> k) & 1 by {
        lemma_bit_is_zero_or_one(a, k);
        lemma_bit_is_zero_or_one(b, k);
        assert(bit_set(a, k) == bit_set(b, k));
    }
    lemma_bits_determine_byte(a, b);
}

/// A rendered row is eight ASCII characters, each `#` or `.`, and its bytes are
/// those characters' codes.
pub proof fn lemma_rendered_row_bytes(x: u8)
    ensures
        vstd::utf8::is_ascii_chars(rendered_row(x)),
        vstd::utf8::encode_utf8(rendered_row(x)).len() == 8,
        forall|j: int|
            0 <= j < 8 ==> #[trigger] vstd::utf8::encode_utf8(rendered_row(x))[j] == if bit_set(
                x,
                (7 - j) as u8,
            ) {
                HASH
            } else {
                46u8
            },
{
    let r = rendered_row(x);
    assert(vstd::utf8::is_ascii_chars(r));
    vstd::utf8::is_ascii_chars_encode_utf8(r);
    assert forall|j: int| 0 <= j < 8 implies #[trigger] vstd::utf8::encode_utf8(r)[j] == if bit_set(
        x,
        (7 - j) as u8,
    ) {
        HASH
    } else {
        46u8
    } by {
        assert(r[j] as u8 == vstd::utf8::encode_utf8(r)[j]);
    }
}

/// Parsing a rendered row gives the byte with its bits in reverse order: a row
/// is rendered from bit 7 down to bit 0 but parsed from bit 0 up to bit 7. So a
/// byte survives rendering and parsing exactly when it reads the same in both
/// bit orders (as every row of the symmetric test image does).
pub proof fn lemma_parse_of_render(x: u8, y: u8)
    requires
        forall|k: u8|
            k < 8 ==> #[trigger] bit_set(y, k) == pixel_on(
                vstd::utf8::encode_utf8(rendered_row(x)),
                k as int,
            ),
    ensures
        forall|k: u8| k < 8 ==> #[trigger] bit_set(y, k) == bit_set(x, (7 - k) as u8),
        (y == x) <==> (forall|k: u8| k < 8 ==> #[trigger] bit_set(x, k) == bit_set(x, (7 - k) as u8)),
{
    lemma_rendered_row_bytes(x);
    let row = vstd::utf8::encode_utf8(rendered_row(x));
    assert forall|k: u8| k < 8 implies #[trigger] bit_set(y, k) == bit_set(x, (7 - k) as u8) by {
        assert(row[k as int] == if bit_set(x, (7 - k) as u8) { HASH } else { 46u8 });
    }
    if forall|k: u8| k < 8 ==> #[trigger] bit_set(x, k) == bit_set(x, (7 - k) as u8) {
        assert forall|k: u8| k < 8 implies bit_set(y, k) == bit_set(x, k) by {
            assert(bit_set(y, k) == bit_set(x, (7 - k) as u8));
            assert(bit_set(x, k) == bit_set(x, (7 - k) as u8));
        }
        lemma_same_bits_same_byte(y, x);
    }
    if y == x {
        assert forall|k: u8| k < 8 implies #[trigger] bit_set(x, k) == bit_set(x, (7 - k) as u8) by {
            assert(bit_set(y, k) == bit_set(x, (7 - k) as u8));
        }
    }
}

} // verus!
