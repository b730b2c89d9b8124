//! The hexadecimal preview of an opaque payload.

use vstd::prelude::*;
use crate::text::string_from_chars;

verus! {

/// How many payload bytes the preview shows.
pub const PREVIEW_BYTES: usize = 48;

/// The character that marks a cut preview (`…`, U+2026).
pub const ELLIPSIS: char = '\u{2026}';

/// The lower-case hexadecimal digit of `d` (`d < 16`).
pub open spec fn hex_digit(d: u8) -> char {
    if d < 10 {
        (48 + d) as char
    } else {
        (87 + d) as char
    }
}

/// The two digits of a byte, as `format!("{b:02x}")` writes them.
pub open spec fn hex_byte(b: u8) -> Seq<char> {
    seq![hex_digit(b / 16), hex_digit(b % 16)]
}

/// The digits of all the bytes, in order.
pub open spec fn hex_of(bytes: Seq<u8>) -> Seq<char>
    decreases bytes.len(),
{
    if bytes.len() == 0 {
        seq![]
    } else {
        hex_of(bytes.drop_last()) + hex_byte(bytes.last())
    }
}

/// The preview of a payload: the digits of its first 48 bytes, then `…` when
/// the payload is longer.
pub open spec fn hex_preview_of(raw: Seq<u8>) -> Seq<char> {
    if raw.len() > PREVIEW_BYTES {
        hex_of(raw.take(PREVIEW_BYTES as int)) + seq![ELLIPSIS]
    } else {
        hex_of(raw)
    }
}

fn digit_char(d: u8) -> (c: char)
    requires
        d < 16,
    ensures
        c == hex_digit(d),
{
    if d < 10 {
        (48 + d) as char
    } else {
        (87 + d) as char
    }
}

/// A lower-case hex preview of at most the first 48 bytes of `raw`, followed by
/// `…` when `raw` is longer.
pub fn hex_preview(raw: &[u8]) -> (s: String)
    ensures
        s@ == hex_preview_of(raw@),
{
    let n = if raw.len() < PREVIEW_BYTES {
        raw.len()
    } else {
        PREVIEW_BYTES
    };
    let mut out: Vec<char> = Vec::new();
    for i in 0..n
        invariant
            n <= raw@.len(),
            n <= PREVIEW_BYTES,
            out@ == hex_of(raw@.take(i as int)),
    {
        let b = raw[i];
        out.push(digit_char(b / 16));
        out.push(digit_char(b % 16));
        assert(raw@.take(i + 1).drop_last() =~= raw@.take(i as int));
    }
    if raw.len() > n {
        out.push(ELLIPSIS);
    } else {
        assert(raw@.take(n as int) =~= raw@);
    }
    string_from_chars(&out)
}

/// The value of a lower-case hexadecimal digit.
pub open spec fn hex_value(c: char) -> int {
    if (c as int) < 58 {
        c as int - 48
    } else {
        c as int - 87
    }
}

/// The bytes that a string of digit pairs spells.
pub open spec fn unhex(s: Seq<char>) -> Seq<u8>
    decreases s.len(),
{
    if s.len() < 2 {
        seq![]
    } else {
        unhex(s.take(s.len() - 2)) + seq![
            (16 * hex_value(s[s.len() - 2]) + hex_value(s[s.len() - 1])) as u8,
        ]
    }
}

proof fn lemma_hex_digit_value(d: u8)
    requires
        d < 16,
    ensures
        hex_value(hex_digit(d)) == d,
        '0' <= hex_digit(d) <= '9' || 'a' <= hex_digit(d) <= 'f',
{
}

proof fn lemma_hex_of(bytes: Seq<u8>)
    ensures
        hex_of(bytes).len() == 2 * bytes.len(),
        unhex(hex_of(bytes)) == bytes,
    decreases bytes.len(),
{
    if bytes.len() > 0 {
        let b = bytes.last();
        lemma_hex_of(bytes.drop_last());
        lemma_hex_digit_value(b / 16);
        lemma_hex_digit_value(b % 16);
        let h = hex_of(bytes);
        assert(h.take(h.len() - 2) =~= hex_of(bytes.drop_last()));
        assert(16 * (b / 16) + b % 16 == b);
        assert(bytes.drop_last() + seq![b] =~= bytes);
    }
}

/// Every byte shown takes two digits, and a cut preview ends in one `…`.
pub proof fn hex_preview_length(raw: Seq<u8>)
    ensures
        hex_preview_of(raw).len() == 2 * (if raw.len() > PREVIEW_BYTES {
            PREVIEW_BYTES as int
        } else {
            raw.len() as int
        }) + (if raw.len() > PREVIEW_BYTES {
            1int
        } else {
            0int
        }),
{
    if raw.len() > PREVIEW_BYTES {
        lemma_hex_of(raw.take(PREVIEW_BYTES as int));
    } else {
        lemma_hex_of(raw);
    }
}

/// The preview is faithful: reading its digits back in pairs gives the bytes
/// it shows, the whole payload when that is at most 48 bytes long.
pub proof fn hex_preview_decodes(raw: Seq<u8>)
    ensures
        raw.len() <= PREVIEW_BYTES ==> unhex(hex_preview_of(raw)) == raw,
        raw.len() > PREVIEW_BYTES ==> unhex(hex_preview_of(raw).drop_last()) == raw.take(
            PREVIEW_BYTES as int,
        ),
{
    if raw.len() > PREVIEW_BYTES {
        lemma_hex_of(raw.take(PREVIEW_BYTES as int));
        let p = hex_preview_of(raw);
        assert(p.drop_last() =~= hex_of(raw.take(PREVIEW_BYTES as int)));
    } else {
        lemma_hex_of(raw);
    }
}

} // verus!
