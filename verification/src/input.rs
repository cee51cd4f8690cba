//! The input cursor: the source text together with the byte offset reached
//! and the recursion-guard depth.
//!
//! All positions are byte offsets into the original source. A cursor is
//! well formed when its offset lies on a character boundary, so every slice
//! taken from it is again valid UTF-8.

use vstd::prelude::*;

verus! {

use vstd::utf8::{
    decode_utf8, encode_scalar, is_char_boundary, length_of_first_scalar, valid_utf8,
};
use vstd::string::StringSliceAdditionalSpecFns;

/// A position in the source text. `text` is the whole source; `pos` is the
/// byte offset reached so far; `depth` counts how many recursive wrappers
/// are currently entered (see the `wrap` module).
#[derive(Clone, Copy)]
pub struct Input<'a> {
    pub text: &'a str,
    pub pos: usize,
    pub depth: usize,
}

impl<'a> Input<'a> {
    /// The bytes of the whole source text.
    pub open spec fn sbytes(&self) -> Seq<u8> {
        self.text.spec_bytes()
    }

    /// A cursor is well formed when its offset is inside the text and on a
    /// character boundary.
    pub open spec fn wf(&self) -> bool {
        &&& self.sbytes().len() <= usize::MAX
        &&& self.pos <= self.sbytes().len()
        &&& is_char_boundary(self.sbytes(), self.pos as int)
    }

    /// The bytes not yet consumed.
    pub open spec fn rem(&self) -> Seq<u8> {
        self.sbytes().subrange(self.pos as int, self.sbytes().len() as int)
    }

    /// The characters not yet consumed.
    pub open spec fn rem_chars(&self) -> Seq<char> {
        decode_utf8(self.rem())
    }

    /// The cursor `n` bytes further into the same text, at the same depth.
    pub open spec fn advanced(&self, n: int) -> Input<'a> {
        Input { text: self.text, pos: (self.pos + n) as usize, depth: self.depth }
    }

    /// The same cursor one recursion level deeper.
    pub open spec fn spec_deeper(&self) -> Input<'a> {
        Input { text: self.text, pos: self.pos, depth: (self.depth + 1) as usize }
    }

    /// A cursor at the start of `text`.
    pub fn new(text: &'a str) -> (r: Input<'a>)
        ensures
            r == (Input { text, pos: 0usize, depth: 0usize }),
            r.wf(),
    {
        let b = text.as_bytes();
        proof {
            vstd::slice::axiom_spec_len(b);
            assert(text.spec_bytes().len() <= usize::MAX);
            vstd::utf8::encode_utf8_valid_utf8(text@);
            vstd::utf8::is_char_boundary_start_end_of_seq(text.spec_bytes());
        }
        Input { text, pos: 0, depth: 0 }
    }

    /// True when the remaining input starts with the bytes of `pat`.
    pub fn starts_with(&self, pat: &str) -> (r: bool)
        requires
            self.wf(),
        ensures
            r == (self.rem().len() >= pat.spec_bytes().len() && self.rem().subrange(
                0,
                pat.spec_bytes().len() as int,
            ) == pat.spec_bytes()),
    {
        let text_bytes = self.text.as_bytes();
        let pat_bytes = pat.as_bytes();
        let n = pat_bytes.len();
        if self.text.len() - self.pos < n {
            assert(self.rem().len() < pat.spec_bytes().len());
            return false;
        }
        let mut i: usize = 0;
        while i < n
            invariant
                self.wf(),
                n == pat_bytes@.len() <= self.sbytes().len() - self.pos,
                text_bytes@ == self.sbytes(),
                pat_bytes@ == pat.spec_bytes(),
                0 <= i <= n,
                forall|j: int| 0 <= j < i ==> self.rem()[j] == pat_bytes@[j],
            decreases n - i,
        {
            if text_bytes[self.pos + i] != pat_bytes[i] {
                assert(self.rem()[i as int] != pat.spec_bytes()[i as int]);
                assert(self.rem().subrange(0, n as int) != pat.spec_bytes()) by {
                    assert(self.rem().subrange(0, n as int)[i as int] != pat.spec_bytes()[
                        i as int
                    ]);
                }
                return false;
            }
            i += 1;
        }
        assert(self.rem().subrange(0, n as int) =~= pat.spec_bytes());
        true
    }

    /// The cursor `bytes` bytes further on. The new offset must again be a
    /// character boundary.
    pub fn skip(&self, bytes: usize) -> (r: Input<'a>)
        requires
            self.wf(),
            self.pos + bytes <= self.sbytes().len(),
            is_char_boundary(self.sbytes(), self.pos + bytes),
        ensures
            r == self.advanced(bytes as int),
            r.wf(),
    {
        Input { text: self.text, pos: self.pos + bytes, depth: self.depth }
    }

    /// The first remaining character together with the cursor after it, or
    /// `None` at the end of the input.
    pub fn pop_char(&self) -> (r: Option<(char, Input<'a>)>)
        requires
            self.wf(),
        ensures
            match r {
                Some((c, rest)) => {
                    &&& self.rem_chars().len() > 0
                    &&& c == self.rem_chars()[0]
                    &&& rest == self.advanced(length_of_first_scalar(self.rem()))
                    &&& self.pos < rest.pos <= self.sbytes().len()
                    &&& rest.wf()
                },
                None => self.pos == self.sbytes().len() && self.rem_chars().len() == 0,
            },
    {
        proof {
            broadcast use vstd::utf8::group_utf8_lib;
            broadcast use vstd::string::group_string_axioms;

        }
        let (_, suffix) = self.text.split_at(self.pos);
        proof {
            assert(suffix.spec_bytes() =~= self.rem());
            assert(decode_utf8(suffix.spec_bytes()) == suffix@);
            assert(suffix@ == self.rem_chars());
        }
        let mut it = suffix.chars();
        let first = it.next();
        match first {
            None => {
                assert(suffix@.len() == 0);
                assert(self.rem() =~= vstd::utf8::encode_utf8(suffix@));
                assert(self.rem().len() == 0);
                None
            },
            Some(c) => {
                assert(c == self.rem_chars()[0]);
                let w = width_of_char(c);
                proof {
                    vstd::utf8::encode_utf8_first_scalar(suffix@);
                    assert(vstd::utf8::encode_utf8(suffix@) == self.rem());
                    assert(length_of_first_scalar(self.rem()) == w as int);
                    lemma_boundary_after_first_scalar(self.sbytes(), self.pos as int);
                }
                Some((c, Input { text: self.text, pos: self.pos + w, depth: self.depth }))
            },
        }
    }

    /// The remaining input as a string slice.
    pub fn as_str(&self) -> (r: &'a str)
        requires
            self.wf(),
        ensures
            r.spec_bytes() == self.rem(),
            r@ == self.rem_chars(),
    {
        proof {
            broadcast use vstd::utf8::group_utf8_lib;

        }
        let (_, suffix) = self.text.split_at(self.pos);
        proof {
            assert(suffix.spec_bytes() =~= self.rem());
            assert(decode_utf8(suffix.spec_bytes()) == suffix@);
        }
        suffix
    }

    /// The text consumed between the older cursor `before` and this one.
    pub fn get_consumed(&self, before: &Input<'a>) -> (r: &'a str)
        requires
            self.wf(),
            before.wf(),
            before.text == self.text,
            before.pos <= self.pos,
        ensures
            r.spec_bytes() == self.sbytes().subrange(before.pos as int, self.pos as int),
            r@ == decode_utf8(self.sbytes().subrange(before.pos as int, self.pos as int)),
    {
        proof {
            broadcast use vstd::utf8::group_utf8_lib;

        }
        let (prefix, _) = self.text.split_at(self.pos);
        proof {
            assert(prefix.spec_bytes() =~= self.sbytes().subrange(0, self.pos as int));
            assert(is_char_boundary(prefix.spec_bytes(), before.pos as int)) by {
                lemma_boundary_of_prefix(self.sbytes(), self.pos as int, before.pos as int);
            }
        }
        let (_, consumed) = prefix.split_at(before.pos);
        proof {
            assert(consumed.spec_bytes() =~= self.sbytes().subrange(
                before.pos as int,
                self.pos as int,
            ));
            assert(decode_utf8(consumed.spec_bytes()) == consumed@);
        }
        consumed
    }

    /// True when no input remains.
    pub fn is_empty(&self) -> (r: bool)
        requires
            self.wf(),
        ensures
            r == (self.rem().len() == 0),
    {
        proof {
            assert(self.rem().len() == self.sbytes().len() - self.pos);
        }
        self.pos >= self.text.len()
    }

    /// The same cursor one recursion level deeper.
    pub fn deeper(&self) -> (r: Input<'a>)
        requires
            self.depth < usize::MAX,
        ensures
            r == self.spec_deeper(),
    {
        Input { text: self.text, pos: self.pos, depth: self.depth + 1 }
    }
}

/// The byte width of the UTF-8 encoding of `c`.
fn width_of_char(c: char) -> (w: usize)
    ensures
        w as int == encode_scalar(c as u32).len(),
        1 <= w <= 4,
{
    proof {
        broadcast use vstd::utf8::group_utf8_lib;

    }
    let u = c as u32;
    if u < 0x80 {
        1
    } else if u < 0x800 {
        2
    } else if u < 0x10000 {
        3
    } else {
        4
    }
}

/// A character boundary stays a character boundary when the sequence is cut
/// short at a later boundary.
pub proof fn lemma_boundary_of_prefix(bytes: Seq<u8>, cut: int, i: int)
    requires
        valid_utf8(bytes),
        is_char_boundary(bytes, cut),
        is_char_boundary(bytes, i),
        0 <= i <= cut <= bytes.len(),
    ensures
        is_char_boundary(bytes.subrange(0, cut), i),
{
    vstd::utf8::valid_utf8_split(bytes, cut);
    let prefix = bytes.subrange(0, cut);
    if i == cut {
        vstd::utf8::is_char_boundary_start_end_of_seq(prefix);
        assert(prefix.len() == cut);
    } else {
        vstd::utf8::is_char_boundary_iff_not_is_continuation_byte(bytes, i);
        vstd::utf8::is_char_boundary_iff_not_is_continuation_byte(prefix, i);
        assert(prefix[i] == bytes[i]);
    }
}

/// A boundary of the remaining input, shifted by the entry offset, is a
/// boundary of the whole sequence.
pub proof fn lemma_boundary_compose(bytes: Seq<u8>, pos: int, k: int)
    requires
        valid_utf8(bytes),
        is_char_boundary(bytes, pos),
        0 <= pos <= bytes.len(),
        0 <= k <= bytes.len() - pos,
        is_char_boundary(bytes.subrange(pos, bytes.len() as int), k),
    ensures
        is_char_boundary(bytes, pos + k),
{
    let rem = bytes.subrange(pos, bytes.len() as int);
    vstd::utf8::valid_utf8_split(bytes, pos);
    if pos + k == bytes.len() {
        vstd::utf8::is_char_boundary_start_end_of_seq(bytes);
    } else {
        vstd::utf8::is_char_boundary_iff_not_is_continuation_byte(rem, k);
        assert(rem[k] == bytes[pos + k]);
        vstd::utf8::is_char_boundary_iff_not_is_continuation_byte(bytes, pos + k);
    }
}

/// A prefix of a valid UTF-8 sequence that is itself valid UTF-8 ends on a
/// character boundary.
pub proof fn lemma_valid_prefix_is_boundary(bytes: Seq<u8>, n: int)
    requires
        valid_utf8(bytes),
        0 <= n <= bytes.len(),
        valid_utf8(bytes.subrange(0, n)),
    ensures
        is_char_boundary(bytes, n),
    decreases n,
{
    if n == 0 {
    } else {
        let prefix = bytes.subrange(0, n);
        assert(vstd::utf8::valid_first_scalar(prefix));
        assert(vstd::utf8::valid_first_scalar(bytes));
        let w = length_of_first_scalar(prefix);
        assert(forall|i: int| 0 <= i < n ==> prefix[i] == bytes[i]);
        assert(length_of_first_scalar(bytes) == w);
        assert(vstd::utf8::decode_first_codepoint(bytes) == vstd::utf8::decode_first_codepoint(
            prefix,
        ));
        let bt = vstd::utf8::pop_first_scalar(bytes);
        let pt = vstd::utf8::pop_first_scalar(prefix);
        assert(pt =~= bt.subrange(0, n - w));
        assert(valid_utf8(bt));
        assert(valid_utf8(pt));
        lemma_valid_prefix_is_boundary(bt, n - w);
    }
}

/// Just past the first scalar of the remaining input is again a character
/// boundary of the whole sequence.
pub proof fn lemma_boundary_after_first_scalar(bytes: Seq<u8>, pos: int)
    requires
        valid_utf8(bytes),
        is_char_boundary(bytes, pos),
        0 <= pos <= bytes.len(),
        bytes.subrange(pos, bytes.len() as int).len() > 0,
    ensures
        ({
            let rem = bytes.subrange(pos, bytes.len() as int);
            let w = length_of_first_scalar(rem);
            &&& 1 <= w <= rem.len()
            &&& is_char_boundary(bytes, pos + w)
        }),
{
    broadcast use vstd::utf8::group_utf8_lib;

    let rem = bytes.subrange(pos, bytes.len() as int);
    assert(valid_utf8(rem));
    let w = length_of_first_scalar(rem);
    assert(vstd::utf8::valid_first_scalar(rem));
    assert(1 <= w <= rem.len());
    if pos + w == bytes.len() {
    } else {
        assert(is_char_boundary(rem, w)) by {
            reveal_with_fuel(vstd::utf8::is_char_boundary, 2);
        }
        assert(!vstd::utf8::is_continuation_byte(rem[w]));
        assert(bytes[pos + w] == rem[w]);
    }
}

} // verus!
