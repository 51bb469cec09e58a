//! The scanning core: byte classification and the next-token scan, with the
//! spec-level model both token views are proved against.

use vstd::prelude::*;

verus! {

/// The double-quote byte, which opens and closes a whitespace-immune span.
pub const QUOTE: u8 = 34;

/// Whitespace classification: tab, line feed, carriage return and space.
///
/// The set is exactly the bytes selected by the `0x2600` bitmask over codes
/// 0..32, plus the space byte; other control bytes, vertical tab and form
/// feed among them, deliberately count as ordinary token bytes.
pub open spec fn is_ws_byte(b: u8) -> bool {
    b == 9 || b == 10 || b == 13 || b == 32
}

/// Classifies one byte as whitespace, by the fixed table of [`is_ws_byte`].
pub fn is_whitespace(chr: u8) -> (r: bool)
    ensures
        r == is_ws_byte(chr),
{
    if chr < 32 {
        let c: u32 = chr as u32;
        proof {
            assert(c < 32 ==> (((1u32 << c) & 0x2600u32 != 0) <==> (c == 9 || c == 10 || c == 13)))
                by (bit_vector);
        }
        (1u32 << c) & 0x2600u32 != 0
    } else {
        chr == 32
    }
}

/// The scan position after the maximal run of whitespace bytes starting at `i`.
pub open spec fn skip_ws_from(s: Seq<u8>, i: int) -> int
    decreases s.len() - i
        when 0 <= i <= s.len()
{
    if i < s.len() && is_ws_byte(s[i]) {
        skip_ws_from(s, i + 1)
    } else {
        i
    }
}

/// The scan position where a token that is being read at `i` ends.
///
/// Outside a quoted span (`quoted == false`) the scan stops before the first
/// whitespace byte or at the end of the input; a double-quote byte is consumed
/// and toggles the scan into a quoted span. Inside a quoted span every byte is
/// consumed unconditionally until a closing double-quote byte is consumed or
/// the input ends.
pub open spec fn scan_from(s: Seq<u8>, i: int, quoted: bool) -> int
    decreases s.len() - i
        when 0 <= i <= s.len()
{
    if i >= s.len() {
        i
    } else if quoted {
        scan_from(s, i + 1, s[i] != QUOTE)
    } else if is_ws_byte(s[i]) {
        i
    } else {
        scan_from(s, i + 1, s[i] == QUOTE)
    }
}

/// True when a scan that resumes at `i` still finds a token.
pub open spec fn has_token(s: Seq<u8>, i: int) -> bool {
    skip_ws_from(s, i) < s.len()
}

/// Where the token found by a scan resuming at `i` starts.
pub open spec fn token_start(s: Seq<u8>, i: int) -> int {
    skip_ws_from(s, i)
}

/// Where the token starting at `start` ends.
pub open spec fn token_end(s: Seq<u8>, start: int) -> int {
    scan_from(s, start, false)
}

/// Bounds of the whitespace skip: it moves only forward, stays within the
/// input, skips whitespace bytes only, and stops only before a non-whitespace
/// byte or at the end.
pub proof fn lemma_skip_ws_bounds(s: Seq<u8>, i: int)
    requires
        0 <= i <= s.len(),
    ensures
        i <= skip_ws_from(s, i) <= s.len(),
        skip_ws_from(s, i) < s.len() ==> !is_ws_byte(s[skip_ws_from(s, i)]),
        forall|k: int| i <= k < skip_ws_from(s, i) ==> is_ws_byte(#[trigger] s[k]),
    decreases s.len() - i,
{
    if i < s.len() && is_ws_byte(s[i]) {
        lemma_skip_ws_bounds(s, i + 1);
    }
}

/// Bounds of the token scan: it moves only forward, stays within the input,
/// and when it stops before the end it stops on a whitespace byte, outside
/// any quoted span.
pub proof fn lemma_scan_bounds(s: Seq<u8>, i: int, quoted: bool)
    requires
        0 <= i <= s.len(),
    ensures
        i <= scan_from(s, i, quoted) <= s.len(),
        scan_from(s, i, quoted) < s.len() ==> is_ws_byte(s[scan_from(s, i, quoted)]),
    decreases s.len() - i,
{
    if i < s.len() {
        if quoted {
            lemma_scan_bounds(s, i + 1, s[i] != QUOTE);
        } else if !is_ws_byte(s[i]) {
            lemma_scan_bounds(s, i + 1, s[i] == QUOTE);
        }
    }
}

/// A token is never empty: a scan that starts on a non-whitespace byte
/// consumes at least that byte.
pub proof fn lemma_token_nonempty(s: Seq<u8>, start: int)
    requires
        0 <= start < s.len(),
        !is_ws_byte(s[start]),
    ensures
        start < token_end(s, start) <= s.len(),
{
    lemma_scan_bounds(s, start + 1, s[start] == QUOTE);
}

/// In valid UTF-8, the position after a one-byte (ASCII) character is a
/// character boundary.
pub proof fn lemma_boundary_after_ascii(bytes: Seq<u8>, p: int)
    requires
        vstd::utf8::valid_utf8(bytes),
        0 <= p < bytes.len(),
        bytes[p] < 0x80,
    ensures
        vstd::utf8::is_char_boundary(bytes, p + 1),
{
    vstd::utf8::is_char_boundary_iff_not_is_continuation_byte(bytes, p);
    if p + 1 == bytes.len() {
        vstd::utf8::is_char_boundary_start_end_of_seq(bytes);
    } else {
        vstd::utf8::valid_utf8_split(bytes, p);
        let suf = bytes.subrange(p, bytes.len() as int);
        assert(vstd::utf8::is_leading_byte_width_1(suf[0]));
        assert(vstd::utf8::length_of_first_scalar(suf) == 1);
        assert(vstd::utf8::valid_utf8(vstd::utf8::pop_first_scalar(suf)));
        let rest = vstd::utf8::pop_first_scalar(suf);
        assert(rest =~= bytes.subrange(p + 1, bytes.len() as int));
        assert(rest[0] == bytes[p + 1]);
        assert(!vstd::utf8::is_continuation_byte(rest[0]));
        vstd::utf8::is_char_boundary_iff_not_is_continuation_byte(bytes, p + 1);
    }
}

/// The whitespace skip never stops inside a character: whitespace bytes are
/// ASCII, so the position it reaches is a character boundary whenever the
/// position it resumed at was one.
pub proof fn lemma_skip_ws_boundary(s: Seq<u8>, i: int)
    requires
        vstd::utf8::valid_utf8(s),
        0 <= i <= s.len(),
        vstd::utf8::is_char_boundary(s, i),
    ensures
        vstd::utf8::is_char_boundary(s, skip_ws_from(s, i)),
    decreases s.len() - i,
{
    if i < s.len() && is_ws_byte(s[i]) {
        lemma_boundary_after_ascii(s, i);
        lemma_skip_ws_boundary(s, i + 1);
    }
}

/// A position at the end of the input, or holding a whitespace byte, is a
/// character boundary.
pub proof fn lemma_stop_boundary(s: Seq<u8>, p: int)
    requires
        vstd::utf8::valid_utf8(s),
        0 <= p <= s.len(),
        p == s.len() || is_ws_byte(s[p]),
    ensures
        vstd::utf8::is_char_boundary(s, p),
{
    if p == s.len() {
        vstd::utf8::is_char_boundary_start_end_of_seq(s);
    } else {
        vstd::utf8::is_char_boundary_iff_not_is_continuation_byte(s, p);
    }
}

/// Locates the next token in `s` when scanning resumes at `from`: skips the
/// whitespace run, then scans to the token's end. Returns `(start, end)`;
/// `start == s.len()` means the input is exhausted (and then `end == start`).
pub fn scan_next(s: &[u8], from: usize) -> (r: (usize, usize))
    requires
        from <= s@.len(),
    ensures
        r.0 == token_start(s@, from as int),
        r.1 == scan_from(s@, r.0 as int, false),
        from <= r.0 <= r.1 <= s@.len(),
{
    let mut i: usize = from;
    while i < s.len() && is_whitespace(*vstd::slice::slice_index_get(s, i))
        invariant
            from <= i <= s@.len(),
            skip_ws_from(s@, from as int) == skip_ws_from(s@, i as int),
        decreases s@.len() - i,
    {
        i = i + 1;
    }
    let start = i;
    let mut quoted = false;
    while i < s.len() && (quoted || !is_whitespace(*vstd::slice::slice_index_get(s, i)))
        invariant
            start <= i <= s@.len(),
            scan_from(s@, start as int, false) == scan_from(s@, i as int, quoted),
        decreases s@.len() - i,
    {
        let b = *vstd::slice::slice_index_get(s, i);
        if quoted {
            quoted = b != QUOTE;
        } else {
            quoted = b == QUOTE;
        }
        i = i + 1;
    }
    (start, i)
}

} // verus!
