//! The two token views: borrowed string slices and byte-offset ranges.

use crate::scan::{
    has_token, lemma_scan_bounds, lemma_skip_ws_bounds, lemma_skip_ws_boundary,
    lemma_stop_boundary, lemma_token_nonempty, scan_next, token_end, token_start,
};
use vstd::prelude::*;
use vstd::string::StringSliceAdditionalSpecFns;
use vstd::utf8::encode_utf8_valid_utf8;

verus! {

/// Tokenizes a command line string producing string slices.
pub struct Tokens<'a> {
    s: &'a str,
}

impl<'a> Tokens<'a> {
    /// The bytes the tokenizer has not consumed yet.
    pub closed spec fn remaining(self) -> Seq<u8> {
        self.s.spec_bytes()
    }

    /// Starts a scan over the whole of `s`.
    pub fn from(s: &'a str) -> (r: Tokens<'a>)
        ensures
            r.remaining() == s.spec_bytes(),
    {
        Tokens { s }
    }

    /// Returns the remainder of the command string.
    pub fn tail_str(&self) -> (r: &'a str)
        ensures
            r.spec_bytes() == self.remaining(),
    {
        self.s
    }

    /// Yields the next token as a slice of the input, or `None` once only
    /// whitespace is left. The token is the exact bytes of its span, quote
    /// bytes included; the remainder then starts right after the token. On
    /// exhaustion the trailing whitespace is consumed, so the remainder is
    /// empty and every later call yields `None` again.
    pub fn next(&mut self) -> (r: Option<&'a str>)
        ensures
            ({
                let s = old(self).remaining();
                if has_token(s, 0) {
                    let start = token_start(s, 0);
                    let end = token_end(s, start);
                    &&& 0 <= start < end <= s.len()
                    &&& (r matches Some(t) && t.spec_bytes() == s.subrange(start, end))
                    &&& final(self).remaining() == s.subrange(end, s.len() as int)
                } else {
                    &&& r is None
                    &&& final(self).remaining() == Seq::<u8>::empty()
                }
            }),
    {
        let s = self.s;
        let bytes = s.as_bytes();
        let (start, end) = scan_next(bytes, 0);
        proof {
            encode_utf8_valid_utf8(s@);
            lemma_skip_ws_bounds(bytes@, 0);
            lemma_scan_bounds(bytes@, start as int, false);
            lemma_skip_ws_boundary(bytes@, 0);
        }
        if start >= bytes.len() {
            let (_, rest) = s.split_at(start);
            self.s = rest;
            proof {
                assert(rest.spec_bytes() =~= Seq::<u8>::empty());
            }
            None
        } else {
            proof {
                lemma_token_nonempty(bytes@, start as int);
                vstd::utf8::valid_utf8_split(bytes@, start as int);
            }
            let (_, r1) = s.split_at(start);
            proof {
                lemma_stop_boundary(r1.spec_bytes(), end - start);
            }
            let (tok, rest) = r1.split_at(end - start);
            self.s = rest;
            proof {
                assert(tok.spec_bytes() =~= bytes@.subrange(start as int, end as int));
                assert(rest.spec_bytes() =~= bytes@.subrange(end as int, bytes@.len() as int));
            }
            Some(tok)
        }
    }
}

/// Tokenizes a command line string producing ranges.
pub struct TokenRanges<'a> {
    s: &'a str,
    i: usize,
}

impl<'a> TokenRanges<'a> {
    /// The cursor stays within the input and on a character boundary, so the
    /// remainder is always a well-formed slice of the original string.
    #[verifier::type_invariant]
    spec fn wf(self) -> bool {
        &&& self.i <= self.s.spec_bytes().len()
        &&& vstd::utf8::is_char_boundary(self.s.spec_bytes(), self.i as int)
    }

    /// The bytes of the original command string.
    pub closed spec fn full(self) -> Seq<u8> {
        self.s.spec_bytes()
    }

    /// The cursor: the byte offset scanning resumes at.
    pub closed spec fn cursor(self) -> int {
        self.i as int
    }

    /// Starts a scan over the whole of `s`, with the cursor at offset zero.
    pub fn from(s: &'a str) -> (r: TokenRanges<'a>)
        ensures
            r.full() == s.spec_bytes(),
            r.cursor() == 0,
    {
        proof {
            encode_utf8_valid_utf8(s@);
        }
        TokenRanges { s, i: 0 }
    }

    /// Returns the original command string.
    pub fn as_str(&self) -> (r: &'a str)
        ensures
            r.spec_bytes() == self.full(),
    {
        self.s
    }

    /// Returns the remainder of the command string: everything from the
    /// cursor to the end of the input.
    pub fn tail_str(&self) -> (r: &'a str)
        ensures
            r.spec_bytes() == self.full().subrange(self.cursor(), self.full().len() as int),
    {
        proof {
            use_type_invariant(self);
            encode_utf8_valid_utf8(self.s@);
        }
        let s = self.s;
        let (_, rest) = s.split_at(self.i);
        proof {
            assert(rest.spec_bytes() =~= s.spec_bytes().subrange(
                self.i as int,
                s.spec_bytes().len() as int,
            ));
        }
        rest
    }

    /// Yields the byte offsets `start..end` of the next token, or `None` once
    /// only whitespace is left of the remainder. The cursor advances to the
    /// token's end; on exhaustion it advances over the trailing whitespace to
    /// the end of the input, so every later call yields `None` again.
    pub fn next(&mut self) -> (r: Option<core::ops::Range<usize>>)
        ensures
            ({
                let s = old(self).full();
                let c = old(self).cursor();
                &&& final(self).full() == s
                &&& if has_token(s, c) {
                    let start = token_start(s, c);
                    let end = token_end(s, start);
                    &&& c <= start < end <= s.len()
                    &&& (r matches Some(rg) && rg.start == start && rg.end == end)
                    &&& final(self).cursor() == end
                } else {
                    &&& r is None
                    &&& final(self).cursor() == s.len()
                }
            }),
    {
        proof {
            use_type_invariant(&*self);
        }
        let s = self.s;
        let bytes = s.as_bytes();
        let (start, end) = scan_next(bytes, self.i);
        proof {
            encode_utf8_valid_utf8(s@);
            lemma_skip_ws_bounds(bytes@, self.i as int);
            lemma_scan_bounds(bytes@, start as int, false);
            lemma_stop_boundary(bytes@, end as int);
        }
        self.i = end;
        if start >= bytes.len() {
            None
        } else {
            Some(start..end)
        }
    }
}

} // verus!
