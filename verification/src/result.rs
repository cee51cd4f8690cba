//! Failure values and diagnostics.
//!
//! Evaluation reports failures with raw byte offsets (`RawEzpcError`); the
//! drivers convert those into a user-facing error (`EzpcError`) whose
//! position has been rendered as a line number, a column number counted in
//! Unicode scalar values, and the text of the offending line (`Position`).

use vstd::prelude::*;

use crate::input::{lemma_boundary_after_first_scalar, Input};

verus! {

use vstd::string::StringExecFns;
use vstd::string::StringSliceAdditionalSpecFns;
use vstd::string::StrSliceExecFns;
use vstd::utf8::{decode_utf8, is_char_boundary, valid_utf8};

/// A failure raised during evaluation, carrying raw byte offsets into the
/// source text.
///
/// Only `Mismatch` is recoverable: ordered choice, optionality and
/// repetition may convert it into trying something else. `Fatal` and
/// `Recursion` abort the whole parse.
#[derive(Clone, Copy, Debug)]
pub enum RawEzpcError {
    /// Recoverable: the node did not apply at `pos`.
    Mismatch { pos: usize },
    /// Committed: the grammar had chosen this branch and then rejected the
    /// input at `pos`.
    Fatal { message: &'static str, pos: usize },
    /// The recursion guard of a wrapped node tripped at `pos`.
    Recursion { max_depth: usize, parser_name: &'static str, pos: usize },
}

impl RawEzpcError {
    /// The byte offset the failure points at.
    pub open spec fn spec_pos(&self) -> usize {
        match *self {
            RawEzpcError::Mismatch { pos } => pos,
            RawEzpcError::Fatal { pos, .. } => pos,
            RawEzpcError::Recursion { pos, .. } => pos,
        }
    }

    /// True for the recoverable failure kind.
    pub open spec fn is_mismatch(&self) -> bool {
        self is Mismatch
    }
}

/// The number of line feeds among the first `end` bytes.
pub open spec fn count_newlines(bytes: Seq<u8>, end: int) -> int
    decreases end,
{
    if end <= 0 {
        0
    } else {
        count_newlines(bytes, end - 1) + if bytes[end - 1] == 10u8 {
            1int
        } else {
            0int
        }
    }
}

/// The byte offset at which the line containing offset `off` begins: just
/// past the last line feed before `off`, or the start of the text.
pub open spec fn spec_line_start(bytes: Seq<u8>, off: int) -> int
    decreases off,
{
    if off <= 0 {
        0
    } else if bytes[off - 1] == 10u8 {
        off
    } else {
        spec_line_start(bytes, off - 1)
    }
}

/// The first offset at or after `from` holding a carriage return or line
/// feed, or the end of the text.
pub open spec fn spec_line_end(bytes: Seq<u8>, from: int) -> int
    decreases bytes.len() - from,
{
    if from < 0 {
        from
    } else if from >= bytes.len() {
        bytes.len() as int
    } else if bytes[from] == 13u8 || bytes[from] == 10u8 {
        from
    } else {
        spec_line_end(bytes, from + 1)
    }
}

/// The 1-based line number of the byte offset `off`: one more than the
/// number of line feeds before it.
pub open spec fn spec_line(bytes: Seq<u8>, off: int) -> int {
    count_newlines(bytes, off) + 1
}

/// The 1-based column of the byte offset `off`: one more than the number
/// of Unicode scalar values between the start of its line and `off`.
pub open spec fn spec_column(bytes: Seq<u8>, off: int) -> int {
    decode_utf8(bytes.subrange(spec_line_start(bytes, off), off)).len() as int + 1
}

/// The text of the line containing the byte offset `off`, up to its first
/// carriage return or line feed.
pub open spec fn spec_excerpt(bytes: Seq<u8>, off: int) -> Seq<char> {
    let ls = spec_line_start(bytes, off);
    decode_utf8(bytes.subrange(ls, spec_line_end(bytes, ls)))
}

/// How a rendered position relates to a byte offset into the source.
pub open spec fn position_rel(source: &str, off: int, p: Position) -> bool {
    &&& p.line == spec_line(source.spec_bytes(), off)
    &&& p.column == spec_column(source.spec_bytes(), off)
    &&& p.line_str@ == spec_excerpt(source.spec_bytes(), off)
}

/// A raw byte offset rendered for people: the 1-based line, the 1-based
/// column in Unicode scalar values, and the text of the line itself.
#[derive(Debug)]
pub struct Position {
    pub line: usize,
    pub column: usize,
    pub line_str: String,
}

/// A valid UTF-8 sequence decodes to at most one character per byte.
pub proof fn lemma_decode_len_le(bytes: Seq<u8>)
    requires
        valid_utf8(bytes),
    ensures
        decode_utf8(bytes).len() <= bytes.len(),
    decreases bytes.len(),
{
    if bytes.len() > 0 {
        let rest = vstd::utf8::pop_first_scalar(bytes);
        assert(vstd::utf8::length_of_first_scalar(bytes) >= 1);
        lemma_decode_len_le(rest);
    }
}

/// There are never more line feeds than bytes.
proof fn lemma_count_newlines_le(bytes: Seq<u8>, end: int)
    ensures
        count_newlines(bytes, end) <= if end <= 0 {
            0int
        } else {
            end
        },
    decreases end,
{
    if end > 0 {
        lemma_count_newlines_le(bytes, end - 1);
    }
}

/// The start of a line never lies past the offset that names the line.
proof fn lemma_line_start_le(bytes: Seq<u8>, off: int)
    requires
        off >= 0,
    ensures
        0 <= spec_line_start(bytes, off) <= off,
    decreases off,
{
    if off > 0 && bytes[off - 1] != 10u8 {
        lemma_line_start_le(bytes, off - 1);
    }
}

/// A line begins right after a line feed or at the start of the text.
proof fn lemma_line_start_after_newline(bytes: Seq<u8>, off: int)
    requires
        off >= 0,
    ensures
        ({
            let ls = spec_line_start(bytes, off);
            ls == 0 || bytes[ls - 1] == 10u8
        }),
    decreases off,
{
    if off > 0 && bytes[off - 1] != 10u8 {
        lemma_line_start_after_newline(bytes, off - 1);
    }
}

/// The end of a line lies between `from` and the end of the text.
proof fn lemma_line_end_range(bytes: Seq<u8>, from: int)
    requires
        0 <= from <= bytes.len(),
    ensures
        from <= spec_line_end(bytes, from) <= bytes.len(),
    decreases bytes.len() - from,
{
    if from < bytes.len() && bytes[from] != 13u8 && bytes[from] != 10u8 {
        lemma_line_end_range(bytes, from + 1);
    }
}

/// The start of a line is a character boundary.
proof fn lemma_line_start_boundary(bytes: Seq<u8>, off: int)
    requires
        valid_utf8(bytes),
        0 <= off <= bytes.len(),
    ensures
        is_char_boundary(bytes, spec_line_start(bytes, off)),
{
    broadcast use vstd::utf8::group_utf8_lib;

    lemma_line_start_le(bytes, off);
    lemma_line_start_after_newline(bytes, off);
    let ls = spec_line_start(bytes, off);
    if ls == 0 {
    } else {
        assert(bytes[ls - 1] == 10u8);
        assert(!vstd::utf8::is_continuation_byte(bytes[ls - 1]));
        assert(is_char_boundary(bytes, ls - 1));
        let rem = bytes.subrange(ls - 1, bytes.len() as int);
        assert(rem[0] == 10u8);
        lemma_boundary_after_first_scalar(bytes, ls - 1);
        assert(vstd::utf8::length_of_first_scalar(rem) == 1) by {
            assert(vstd::utf8::is_leading_byte_width_1(rem[0]));
        }
    }
}

/// The end of a line is a character boundary.
proof fn lemma_line_end_boundary(bytes: Seq<u8>, from: int)
    requires
        valid_utf8(bytes),
        0 <= from <= bytes.len(),
    ensures
        is_char_boundary(bytes, spec_line_end(bytes, from)),
{
    broadcast use vstd::utf8::group_utf8_lib;

    lemma_line_end_range(bytes, from);
    let le = spec_line_end(bytes, from);
    if le == bytes.len() {
    } else {
        assert(bytes[le] == 13u8 || bytes[le] == 10u8) by {
            lemma_line_end_terminator(bytes, from);
        }
        assert(!vstd::utf8::is_continuation_byte(bytes[le]));
    }
}

/// What the end of a line points at, when it is not the end of the text.
proof fn lemma_line_end_terminator(bytes: Seq<u8>, from: int)
    requires
        0 <= from <= bytes.len(),
        spec_line_end(bytes, from) < bytes.len(),
    ensures
        ({
            let le = spec_line_end(bytes, from);
            bytes[le] == 13u8 || bytes[le] == 10u8
        }),
    decreases bytes.len() - from,
{
    if from < bytes.len() && bytes[from] != 13u8 && bytes[from] != 10u8 {
        lemma_line_end_terminator(bytes, from + 1);
    }
}

/// A boundary of the whole sequence that lies between two boundaries `cut`
/// and `end` is a boundary of the slice between them.
proof fn lemma_boundary_of_middle(bytes: Seq<u8>, cut: int, i: int)
    requires
        valid_utf8(bytes),
        is_char_boundary(bytes, cut),
        is_char_boundary(bytes, i),
        0 <= cut <= i <= bytes.len(),
    ensures
        is_char_boundary(bytes.subrange(cut, bytes.len() as int), i - cut),
{
    vstd::utf8::valid_utf8_split(bytes, cut);
    let suffix = bytes.subrange(cut, bytes.len() as int);
    if i == bytes.len() {
        vstd::utf8::is_char_boundary_start_end_of_seq(suffix);
        assert(suffix.len() == i - cut);
    } else if i == cut {
        vstd::utf8::is_char_boundary_start_end_of_seq(suffix);
    } else {
        vstd::utf8::is_char_boundary_iff_not_is_continuation_byte(bytes, i);
        assert(suffix[i - cut] == bytes[i]);
        vstd::utf8::is_char_boundary_iff_not_is_continuation_byte(suffix, i - cut);
    }
}

impl Position {
    /// Renders the raw byte offset `pos` within `source`: the line is one
    /// more than the number of line feeds before `pos`; the column is one
    /// more than the number of Unicode scalar values between the start of
    /// the line and `pos`; the excerpt is the text of the line itself.
    #[verifier::loop_isolation(false)]
    #[verifier::rlimit(60)]
    pub fn from_ptr(source: &str, pos: usize) -> (r: Position)
        requires
            pos <= source.spec_bytes().len(),
            is_char_boundary(source.spec_bytes(), pos as int),
            source.spec_bytes().len() < usize::MAX,
        ensures
            position_rel(source, pos as int, r),
    {
        proof {
            broadcast use vstd::utf8::group_utf8_lib;

        }
        let bytes = source.as_bytes();
        let ghost gb: Seq<u8> = source.spec_bytes();
        proof {
            vstd::slice::axiom_spec_len(bytes);
        }

        // One pass over the prefix counts the line feeds and finds where
        // the current line begins.
        let mut line_count: usize = 0;
        let mut ls: usize = 0;
        let mut i: usize = 0;
        while i < pos
            invariant
                bytes@ == gb,
                pos <= gb.len() < usize::MAX,
                0 <= i <= pos,
                line_count == count_newlines(gb, i as int),
                line_count <= i,
                ls == spec_line_start(gb, i as int),
                0 <= ls <= i,
            decreases pos - i,
        {
            proof {
                lemma_count_newlines_le(gb, i as int);
            }
            if bytes[i] == 10 {
                line_count = line_count + 1;
                ls = i + 1;
            }
            i = i + 1;
        }

        // Scan forward for the end of the line.
        let n = bytes.len();
        let mut le: usize = ls;
        proof {
            lemma_line_start_le(gb, pos as int);
        }
        while le < n && bytes[le] != 13 && bytes[le] != 10
            invariant
                bytes@ == gb,
                n == gb.len() < usize::MAX,
                0 <= ls <= le <= n,
                spec_line_end(gb, ls as int) == spec_line_end(gb, le as int),
            decreases n - le,
        {
            le = le + 1;
        }
        proof {
            assert(spec_line_end(gb, le as int) == le as int);
            lemma_line_start_boundary(gb, pos as int);
            lemma_line_end_boundary(gb, ls as int);
        }

        // The column counts the scalars between the line start and `pos`.
        let (_, tail) = source.split_at(ls);
        proof {
            assert(tail.spec_bytes() =~= gb.subrange(ls as int, gb.len() as int));
            lemma_boundary_of_middle(gb, ls as int, pos as int);
            lemma_boundary_of_middle(gb, ls as int, le as int);
        }
        let (col_part, _) = tail.split_at(pos - ls);
        proof {
            assert(col_part.spec_bytes() =~= gb.subrange(ls as int, pos as int));
            assert(col_part@ == decode_utf8(gb.subrange(ls as int, pos as int)));
            lemma_decode_len_le(col_part.spec_bytes());
            assert(col_part@.len() <= pos - ls);
        }
        let column = col_part.unicode_len() + 1;

        // The excerpt is the text of the line itself.
        let (line_part, _) = tail.split_at(le - ls);
        proof {
            assert(line_part.spec_bytes() =~= gb.subrange(ls as int, le as int));
            assert(line_part@ == decode_utf8(gb.subrange(ls as int, le as int)));
        }
        let line_str = line_part.to_owned();

        proof {
            lemma_count_newlines_le(gb, pos as int);
        }
        Position { line: line_count + 1, column, line_str }
    }
}

/// A user-facing failure: what the raw failure kinds become once the end
/// of the parse is checked and positions are rendered.
#[derive(Debug)]
pub enum EzpcError {
    /// The grammar succeeded without consuming the whole input.
    PartialParse { pos: Position },
    /// A committed failure, with the message the grammar gave.
    Fatal { expected: &'static str, pos: Position },
    /// A recursion guard tripped.
    Recursion { max_depth: usize, parser_name: &'static str, pos: Position },
}

/// How a user-facing error relates to the raw failure it was made from: the
/// kind and payload carry over and the position is rendered. A recoverable
/// mismatch that reaches the user means the input did not parse whole.
pub open spec fn from_raw_rel(source: &str, raw: RawEzpcError, e: EzpcError) -> bool {
    match raw {
        RawEzpcError::Mismatch { pos } => e matches EzpcError::PartialParse { pos: p }
            && position_rel(source, pos as int, p),
        RawEzpcError::Fatal { message, pos } => e matches EzpcError::Fatal { expected, pos: p }
            && expected == message && position_rel(source, pos as int, p),
        RawEzpcError::Recursion { max_depth, parser_name, pos } => e matches EzpcError::Recursion {
            max_depth: d,
            parser_name: n,
            pos: p,
        } && d == max_depth && n == parser_name && position_rel(source, pos as int, p),
    }
}

impl EzpcError {
    /// Renders the raw failure against its source text: the kind and its
    /// payload carry over and the position becomes line and column.
    pub fn from_raw(raw: RawEzpcError, source: &str) -> (r: EzpcError)
        requires
            raw.spec_pos() <= source.spec_bytes().len(),
            is_char_boundary(source.spec_bytes(), raw.spec_pos() as int),
            source.spec_bytes().len() < usize::MAX,
        ensures
            from_raw_rel(source, raw, r),
    {
        match raw {
            RawEzpcError::Mismatch { pos } => EzpcError::PartialParse {
                pos: Position::from_ptr(source, pos),
            },
            RawEzpcError::Fatal { message, pos } => EzpcError::Fatal {
                expected: message,
                pos: Position::from_ptr(source, pos),
            },
            RawEzpcError::Recursion { max_depth, parser_name, pos } => EzpcError::Recursion {
                max_depth,
                parser_name,
                pos: Position::from_ptr(source, pos),
            },
        }
    }
}

// Rendering.

/// The decimal digit character for `d`.
pub open spec fn dec_digit(d: nat) -> char {
    ((48 + d) as u32) as char
}

/// The decimal representation of `n`, most significant digit first.
pub open spec fn dec_rep(n: nat) -> Seq<char>
    decreases n,
{
    if n < 10 {
        seq![dec_digit(n)]
    } else {
        dec_rep(n / 10) + seq![dec_digit(n % 10)]
    }
}

/// `n` spaces.
pub open spec fn spaces_seq(n: nat) -> Seq<char> {
    Seq::new(n, |i: int| ' ')
}

/// The decimal digit `d` as a string.
fn digit_str(d: usize) -> (r: &'static str)
    requires
        d < 10,
    ensures
        r@ == seq![dec_digit(d as nat)],
{
    proof {
        reveal_strlit("0");
        reveal_strlit("1");
        reveal_strlit("2");
        reveal_strlit("3");
        reveal_strlit("4");
        reveal_strlit("5");
        reveal_strlit("6");
        reveal_strlit("7");
        reveal_strlit("8");
        reveal_strlit("9");
    }
    match d {
        0 => "0",
        1 => "1",
        2 => "2",
        3 => "3",
        4 => "4",
        5 => "5",
        6 => "6",
        7 => "7",
        8 => "8",
        _ => "9",
    }
}

/// Renders `n` in decimal.
pub fn to_dec_string(n: usize) -> (r: String)
    ensures
        r@ == dec_rep(n as nat),
    decreases n,
{
    if n < 10 {
        digit_str(n).to_owned()
    } else {
        let mut s = to_dec_string(n / 10);
        s.append(digit_str(n % 10));
        proof {
            assert(s@ =~= dec_rep((n / 10) as nat) + seq![dec_digit((n % 10) as nat)]);
        }
        s
    }
}

/// A string of `n` spaces.
pub fn spaces(n: usize) -> (r: String)
    ensures
        r@ == spaces_seq(n as nat),
{
    let mut s = String::new();
    let mut i: usize = 0;
    proof {
        reveal_strlit(" ");
    }
    while i < n
        invariant
            0 <= i <= n,
            s@.len() == i,
            forall|j: int| 0 <= j < i ==> s@[j] == ' ',
        decreases n - i,
    {
        proof {
            reveal_strlit(" ");
        }
        s.append(" ");
        i = i + 1;
    }
    proof {
        assert(s@ =~= spaces_seq(n as nat));
    }
    s
}

/// The diagnostic block for a rendered position: an arrow line naming line
/// and column, then the offending line of text, then a caret under the
/// offending column.
pub open spec fn rendered_position(line: nat, column: nat, excerpt: Seq<char>) -> Seq<char> {
    let num = dec_rep(line);
    let pad = spaces_seq(num.len());
    " --> line "@ + num + ", column "@ + dec_rep(column) + "
"@ + pad + " |
"@ + num + " | "@
        + excerpt + "
"@ + pad + " | "@ + spaces_seq((column - 1) as nat) + "^"@
}

impl Position {
    /// A rendered position names a column, so its column is at least one.
    pub open spec fn wf(&self) -> bool {
        self.column >= 1
    }

    /// The diagnostic block for this position: an arrow line naming line
    /// and column, the offending line of text, and a caret under the
    /// offending column.
    pub fn to_display_string(&self) -> (r: String)
        requires
            self.wf(),
        ensures
            r@ == rendered_position(self.line as nat, self.column as nat, self.line_str@),
    {
        let num = to_dec_string(self.line);
        let pad_len = num.as_str().unicode_len();
        let pad = spaces(pad_len);
        let colnum = to_dec_string(self.column);
        let caret_pad = spaces(self.column - 1);
        let mut out = String::new();
        out.append(" --> line ");
        out.append(num.as_str());
        out.append(", column ");
        out.append(colnum.as_str());
        out.append("
");
        out.append(pad.as_str());
        out.append(" |
");
        out.append(num.as_str());
        out.append(" | ");
        out.append(self.line_str.as_str());
        out.append("
");
        out.append(pad.as_str());
        out.append(" | ");
        out.append(caret_pad.as_str());
        out.append("^");
        proof {
            assert(out@ =~= rendered_position(
                self.line as nat,
                self.column as nat,
                self.line_str@,
            ));
        }
        out
    }
}

/// The full message for a user-facing error: what kind of failure it was,
/// followed by the diagnostic block of its position.
pub open spec fn rendered_error(e: EzpcError) -> Seq<char> {
    match e {
        EzpcError::PartialParse { pos } => "Parsing stopped before reaching end of input:
"@
            + rendered_position(pos.line as nat, pos.column as nat, pos.line_str@),
        EzpcError::Fatal { expected, pos } => expected@ + "
"@ + rendered_position(
            pos.line as nat,
            pos.column as nat,
            pos.line_str@,
        ),
        EzpcError::Recursion { max_depth, parser_name, pos } => "Exceeded maximum recursion depth "@
            + dec_rep(max_depth as nat) + " of parser "@ + parser_name@ + ":
"@
            + rendered_position(pos.line as nat, pos.column as nat, pos.line_str@),
    }
}

impl EzpcError {
    /// The position the error points at.
    pub open spec fn spec_pos(&self) -> Position {
        match *self {
            EzpcError::PartialParse { pos } => pos,
            EzpcError::Fatal { pos, .. } => pos,
            EzpcError::Recursion { pos, .. } => pos,
        }
    }

    /// The full message for this error: what kind of failure it was,
    /// followed by the diagnostic block of its position.
    pub fn to_display_string(&self) -> (r: String)
        requires
            self.spec_pos().wf(),
        ensures
            r@ == rendered_error(*self),
    {
        match self {
            EzpcError::PartialParse { pos } => {
                let mut out = String::new();
                out.append("Parsing stopped before reaching end of input:
");
                let block = pos.to_display_string();
                out.append(block.as_str());
                proof {
                    assert(out@ =~= rendered_error(*self));
                }
                out
            },
            EzpcError::Fatal { expected, pos } => {
                let mut out = String::new();
                out.append(expected);
                out.append("
");
                let block = pos.to_display_string();
                out.append(block.as_str());
                proof {
                    assert(out@ =~= rendered_error(*self));
                }
                out
            },
            EzpcError::Recursion { max_depth, parser_name, pos } => {
                let mut out = String::new();
                out.append("Exceeded maximum recursion depth ");
                let num = to_dec_string(*max_depth);
                out.append(num.as_str());
                out.append(" of parser ");
                out.append(parser_name);
                out.append(":
");
                let block = pos.to_display_string();
                out.append(block.as_str());
                proof {
                    assert(out@ =~= rendered_error(*self));
                }
                out
            },
        }
    }
}

} // verus!
