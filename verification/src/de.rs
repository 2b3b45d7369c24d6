//! The reader: a character cursor that tracks 1-indexed line and column,
//! skips whitespace and `#`-to-end-of-line comments between tokens, and
//! reads primitive tokens; above it, the recursive-descent productions
//! driven by a [`Shape`] live in this module too.

use vstd::prelude::*;

use crate::digits::{spec_digits_val, spec_dec_str};
use crate::error::{err, Error, ErrorCode, Position};
use crate::ident::{
    digit_val, is_digit, is_ident_first_char, is_ident_other_char, spec_digit_val, spec_is_digit,
    spec_is_ident, spec_is_ident_first_char, spec_is_ident_other_char,
};
use crate::item::{FieldShape, Item, Shape, VariantForm, VariantShape};
use crate::outside::push_char;
use crate::strutil::str_chars;

verus! {

/// Whether `c` separates tokens: blank space or the opening of a comment.
pub open spec fn spec_is_skippable(c: char) -> bool {
    c == ' ' || c == '\t' || c == '\n' || c == '\r' || c == '#'
}

/// The text from the next line break on (a comment runs to the end of its
/// line).
pub open spec fn spec_skip_line(s: Seq<char>) -> Seq<char>
    decreases s.len(),
{
    if s.len() == 0 {
        s
    } else if s[0] == '\n' {
        s
    } else {
        spec_skip_line(s.skip(1))
    }
}

/// A comment never grows the text it ends.
pub proof fn lemma_skip_line_len(s: Seq<char>)
    ensures
        spec_skip_line(s).len() <= s.len(),
    decreases s.len(),
{
    if s.len() > 0 && s[0] != '\n' {
        lemma_skip_line_len(s.skip(1));
    }
}

/// The text with every leading run of whitespace and comments removed:
/// what remains to be read once tokens separate.
pub open spec fn spec_skip_ws(s: Seq<char>) -> Seq<char>
    decreases s.len(),
    via spec_skip_ws_decreases
{
    if s.len() == 0 {
        s
    } else if s[0] == ' ' || s[0] == '\t' || s[0] == '\n' || s[0] == '\r' {
        spec_skip_ws(s.skip(1))
    } else if s[0] == '#' {
        spec_skip_ws(spec_skip_line(s.skip(1)))
    } else {
        s
    }
}

#[via_fn]
proof fn spec_skip_ws_decreases(s: Seq<char>) {
    if s.len() > 0 && s[0] == '#' {
        lemma_skip_line_len(s.skip(1));
    }
}

/// The digits of `s` with the underscore separators stripped.
pub open spec fn spec_strip_unders(s: Seq<char>) -> Seq<char>
    decreases s.len(),
{
    if s.len() == 0 {
        Seq::empty()
    } else {
        spec_strip_unders(s.drop_last()) + (if s.last() == '_' {
            Seq::<char>::empty()
        } else {
            seq![s.last()]
        })
    }
}

/// Whether `c` may appear in a digit run: a digit or a separator.
pub open spec fn spec_is_digit_run_char(c: char) -> bool {
    spec_is_digit(c) || c == '_'
}

/// Whether `s` is a nonempty run of digits and separators that opens with
/// a digit: the unsigned integer-literal body of the grammar.
pub open spec fn spec_digit_run_lit(s: Seq<char>) -> bool {
    &&& s.len() > 0
    &&& spec_is_digit(s[0])
    &&& forall|i: int| 0 <= i < s.len() ==> spec_is_digit_run_char(#[trigger] s[i])
}

/// The magnitude a digit run denotes once its separators are stripped.
pub open spec fn spec_run_val(s: Seq<char>) -> nat {
    spec_digits_val(spec_strip_unders(s))
}

/// Whether `s` is an optionally signed digit run.
pub open spec fn spec_signed_run_lit(s: Seq<char>) -> bool {
    if s.len() > 0 && (s[0] == '+' || s[0] == '-') {
        spec_digit_run_lit(s.skip(1))
    } else {
        spec_digit_run_lit(s)
    }
}

/// The signed value an optionally signed digit run denotes.
pub open spec fn spec_signed_run_val(s: Seq<char>) -> int {
    if s.len() > 0 && s[0] == '-' {
        -(spec_run_val(s.skip(1)) as int)
    } else if s.len() > 0 && s[0] == '+' {
        spec_run_val(s.skip(1)) as int
    } else {
        spec_run_val(s) as int
    }
}

/// Whether `c` may continue an `r#`-prefixed identifier: identifier
/// characters plus the hyphen.
pub open spec fn spec_is_raw_ident_char(c: char) -> bool {
    spec_is_ident_other_char(c) || c == '-'
}

/// Whether `c` needs no escaping inside a double-quoted string and is
/// spelled as itself by the writer: printable ASCII that is not a quote
/// or a backslash.
pub open spec fn spec_is_plain_str_char(c: char) -> bool {
    ' ' <= c && c <= '~' && c != '"' && c != '\\' && c != '\''
}

/// Whether `rm` is a double-quoted string whose body needs no escaping.
pub open spec fn spec_quoted_plain(rm: Seq<char>) -> bool {
    &&& rm.len() >= 2
    &&& rm[0] == '"'
    &&& rm[rm.len() - 1] == '"'
    &&& forall|i: int| 0 < i < rm.len() - 1 ==> spec_is_plain_str_char(#[trigger] rm[i])
}

/// Indexing into the unread text reads the underlying characters.
pub proof fn lemma_rem_index(b: Bytes, i: int)
    requires
        b.pos <= b.chars@.len(),
        0 <= i < b.rem().len(),
    ensures
        b.rem().len() == b.chars@.len() - b.pos,
        b.rem()[i] == b.chars@[b.pos + i],
{
}

/// The character cursor: the input as characters, the current offset, and
/// the 1-indexed line and column of that offset (columns count characters).
pub struct Bytes {
    pub chars: Vec<char>,
    pub pos: usize,
    pub line: usize,
    pub col: usize,
}

impl Bytes {
    /// The cursor's well-formedness: the offset is inside the text, and the
    /// line/column pair stays within what the consumed prefix allows.
    pub open spec fn wf(&self) -> bool {
        &&& self.pos <= self.chars@.len()
        &&& self.chars@.len() < usize::MAX
        &&& 1 <= self.line <= self.pos + 1
        &&& 1 <= self.col <= self.pos + 1
    }

    /// The text still to be read.
    pub open spec fn rem(&self) -> Seq<char> {
        self.chars@.skip(self.pos as int)
    }

    /// A cursor at the start of `s`.
    pub fn new(s: &str) -> (r: Bytes)
        requires
            s@.len() < usize::MAX,
        ensures
            r.wf(),
            r.chars@ == s@,
            r.pos == 0,
            r.line == 1,
            r.col == 1,
    {
        Bytes { chars: str_chars(s), pos: 0, line: 1, col: 1 }
    }

    /// The 1-indexed position of the next character.
    pub fn position(&self) -> (r: Position)
        ensures
            r == (Position { line: self.line, col: self.col }),
    {
        Position { line: self.line, col: self.col }
    }

    /// The next character, if any, without consuming it.
    pub fn peek(&self) -> (r: Option<char>)
        requires
            self.wf(),
        ensures
            self.pos < self.chars@.len() ==> r == Some(self.chars@[self.pos as int]),
            self.pos == self.chars@.len() ==> r is None,
    {
        if self.pos < self.chars.len() {
            Some(self.chars[self.pos])
        } else {
            None
        }
    }

    /// Whether the whole input has been consumed.
    pub fn at_eof(&self) -> (r: bool)
        requires
            self.wf(),
        ensures
            r == (self.pos == self.chars@.len()),
    {
        self.pos == self.chars.len()
    }

    /// Consumes one character, stepping the line on a line break and the
    /// column otherwise.
    pub fn advance(&mut self)
        requires
            old(self).wf(),
            old(self).pos < old(self).chars@.len(),
        ensures
            final(self).wf(),
            final(self).chars == old(self).chars,
            final(self).pos == old(self).pos + 1,
            old(self).chars@[old(self).pos as int] == '\n' ==> final(self).line == old(self).line
                + 1 && final(self).col == 1,
            old(self).chars@[old(self).pos as int] != '\n' ==> final(self).line == old(self).line
                && final(self).col == old(self).col + 1,
    {
        let c = self.chars[self.pos];
        if c == '\n' {
            self.line = self.line + 1;
            self.col = 1;
        } else {
            self.col = self.col + 1;
        }
        self.pos = self.pos + 1;
    }

    /// A saved cursor state, for backtracking.
    pub fn save(&self) -> (r: (usize, usize, usize))
        ensures
            r == (self.pos, self.line, self.col),
    {
        (self.pos, self.line, self.col)
    }

    /// Returns to a state previously handed out by [`Bytes::save`].
    pub fn restore(&mut self, snap: (usize, usize, usize))
        requires
            old(self).wf(),
            snap.0 <= old(self).chars@.len(),
            1 <= snap.1 <= snap.0 + 1,
            1 <= snap.2 <= snap.0 + 1,
        ensures
            final(self).wf(),
            final(self).chars == old(self).chars,
            final(self).pos == snap.0,
            final(self).line == snap.1,
            final(self).col == snap.2,
    {
        self.pos = snap.0;
        self.line = snap.1;
        self.col = snap.2;
    }

    /// Consumes `c` when it is next; says whether it did.
    pub fn consume(&mut self, c: char) -> (r: bool)
        requires
            old(self).wf(),
        ensures
            final(self).wf(),
            final(self).chars == old(self).chars,
            r == (old(self).pos < old(self).chars@.len() && old(self).chars@[old(self).pos as int]
                == c),
            r ==> final(self).pos == old(self).pos + 1,
            !r ==> *final(self) == *old(self),
    {
        if self.pos < self.chars.len() && self.chars[self.pos] == c {
            self.advance();
            true
        } else {
            false
        }
    }

    /// Skips whitespace and `#` comments until a significant character or
    /// the end of input. A cursor already at a significant character does
    /// not move.
    pub fn skip_ws(&mut self)
        requires
            old(self).wf(),
        ensures
            final(self).wf(),
            final(self).chars == old(self).chars,
            final(self).pos >= old(self).pos,
            final(self).pos == final(self).chars@.len() || !spec_is_skippable(
                final(self).chars@[final(self).pos as int],
            ),
            old(self).pos < old(self).chars@.len() && !spec_is_skippable(
                old(self).chars@[old(self).pos as int],
            ) ==> *final(self) == *old(self),
            final(self).rem() == spec_skip_ws(old(self).rem()),
    {
        loop
            invariant
                self.wf(),
                self.chars == old(self).chars,
                self.pos >= old(self).pos,
                old(self).pos < old(self).chars@.len() && !spec_is_skippable(
                    old(self).chars@[old(self).pos as int],
                ) ==> *self == *old(self),
                spec_skip_ws(self.rem()) == spec_skip_ws(old(self).rem()),
            decreases self.chars@.len() - self.pos,
        {
            if self.pos == self.chars.len() {
                proof {
                    assert(self.rem() =~= Seq::<char>::empty());
                }
                return ;
            }
            let c = self.chars[self.pos];
            proof {
                lemma_rem_index(*self, 0);
            }
            if c == ' ' || c == '\t' || c == '\n' || c == '\r' {
                let ghost pre_rem = self.rem();
                self.advance();
                proof {
                    assert(self.rem() =~= pre_rem.skip(1));
                }
            } else if c == '#' {
                let ghost it0 = self.pos;
                let ghost pre_rem = self.rem();
                self.advance();
                proof {
                    assert(self.rem() =~= pre_rem.skip(1));
                }
                while self.pos < self.chars.len() && self.chars[self.pos] != '\n'
                    invariant
                        self.wf(),
                        self.chars == old(self).chars,
                        self.pos > it0,
                        self.pos >= old(self).pos,
                        spec_skip_ws(old(self).rem()) == spec_skip_ws(spec_skip_line(self.rem())),
                    decreases self.chars@.len() - self.pos,
                {
                    let ghost mid_rem = self.rem();
                    proof {
                        lemma_rem_index(*self, 0);
                    }
                    self.advance();
                    proof {
                        assert(self.rem() =~= mid_rem.skip(1));
                    }
                }
                proof {
                    if self.pos == self.chars@.len() {
                        assert(self.rem() =~= Seq::<char>::empty());
                    } else {
                        lemma_rem_index(*self, 0);
                    }
                }
            } else {
                return ;
            }
        }
    }

    /// Reads a bare identifier: a maximal run opened by an
    /// identifier-first character. On failure nothing is consumed and the
    /// kind is `ExpectedIdentifier` at the current position.
    pub fn ident(&mut self) -> (r: Result<String, Error>)
        requires
            old(self).wf(),
        ensures
            final(self).wf(),
            final(self).chars == old(self).chars,
            final(self).pos >= old(self).pos,
            match r {
                Ok(w) => {
                    &&& old(self).pos < old(self).chars@.len()
                    &&& spec_is_ident_first_char(old(self).chars@[old(self).pos as int])
                    &&& final(self).pos == old(self).pos + w@.len()
                    &&& w@ == old(self).chars@.subrange(
                        old(self).pos as int,
                        final(self).pos as int,
                    )
                    &&& w@.len() >= 1
                    &&& forall|i: int|
                        0 < i < w@.len() ==> spec_is_ident_other_char(#[trigger] w@[i])
                    &&& (final(self).pos == final(self).chars@.len() || !spec_is_ident_other_char(
                        final(self).chars@[final(self).pos as int],
                    ))
                },
                Err(e) => {
                    &&& *final(self) == *old(self)
                    &&& e == (Error {
                        code: ErrorCode::ExpectedIdentifier,
                        position: Position { line: old(self).line, col: old(self).col },
                    })
                    &&& (old(self).pos == old(self).chars@.len() || !spec_is_ident_first_char(
                        old(self).chars@[old(self).pos as int],
                    ))
                },
            },
    {
        if self.pos == self.chars.len() || !is_ident_first_char(self.chars[self.pos]) {
            return err(ErrorCode::ExpectedIdentifier, self.line, self.col);
        }
        let mut w = String::new();
        push_char(&mut w, self.chars[self.pos]);
        self.advance();
        while self.pos < self.chars.len() && is_ident_other_char(self.chars[self.pos])
            invariant
                self.wf(),
                self.chars == old(self).chars,
                self.pos >= old(self).pos + 1,
                w@.len() == self.pos - old(self).pos,
                w@ == old(self).chars@.subrange(old(self).pos as int, self.pos as int),
                forall|i: int| 0 < i < w@.len() ==> spec_is_ident_other_char(#[trigger] w@[i]),
            decreases self.chars@.len() - self.pos,
        {
            push_char(&mut w, self.chars[self.pos]);
            self.advance();
            proof {
                assert(w@ =~= old(self).chars@.subrange(old(self).pos as int, self.pos as int));
            }
        }
        Ok(w)
    }

    /// Reads a maximal run of digits and separators, yielding the value of
    /// the digits with separators stripped, or nothing when that value
    /// overflows 64 bits. The run itself is consumed either way.
    pub fn digit_run(&mut self) -> (r: Option<u64>)
        requires
            old(self).wf(),
        ensures
            final(self).wf(),
            final(self).chars == old(self).chars,
            final(self).pos >= old(self).pos,
            forall|i: int|
                old(self).pos <= i < final(self).pos ==> spec_is_digit_run_char(
                    #[trigger] old(self).chars@[i],
                ),
            final(self).pos == final(self).chars@.len() || !spec_is_digit_run_char(
                final(self).chars@[final(self).pos as int],
            ),
            match r {
                Some(m) => m == spec_digits_val(
                    spec_strip_unders(
                        old(self).chars@.subrange(old(self).pos as int, final(self).pos as int),
                    ),
                ),
                None => spec_digits_val(
                    spec_strip_unders(
                        old(self).chars@.subrange(old(self).pos as int, final(self).pos as int),
                    ),
                ) > u64::MAX,
            },
    {
        let mut mag: u64 = 0;
        let mut ok = true;
        let ghost start = self.pos as int;
        while self.pos < self.chars.len() && (is_digit(self.chars[self.pos]) || self.chars[self.pos]
            == '_')
            invariant
                self.wf(),
                self.chars == old(self).chars,
                self.pos >= old(self).pos,
                start == old(self).pos as int,
                forall|i: int|
                    start <= i < self.pos ==> spec_is_digit_run_char(#[trigger] self.chars@[i]),
                ok ==> mag == spec_digits_val(
                    spec_strip_unders(self.chars@.subrange(start, self.pos as int)),
                ),
                !ok ==> spec_digits_val(
                    spec_strip_unders(self.chars@.subrange(start, self.pos as int)),
                ) > u64::MAX,
            decreases self.chars@.len() - self.pos,
        {
            let c = self.chars[self.pos];
            let ghost pre = self.chars@.subrange(start, self.pos as int);
            if c == '_' {
                proof {
                    assert(self.chars@.subrange(start, self.pos + 1 as int).drop_last() =~= pre);
                    assert(spec_strip_unders(self.chars@.subrange(start, self.pos + 1 as int))
                        =~= spec_strip_unders(pre));
                }
                self.advance();
            } else {
                let d = digit_val(c);
                proof {
                    assert(self.chars@.subrange(start, self.pos + 1 as int).drop_last() =~= pre);
                    assert(spec_strip_unders(self.chars@.subrange(start, self.pos + 1 as int))
                        =~= spec_strip_unders(pre) + seq![c]);
                    crate::digits::lemma_digits_val_push(spec_strip_unders(pre), c);
                }
                if ok {
                    if mag <= (u64::MAX - d as u64) / 10 {
                        proof {
                            assert(mag * 10 + d <= u64::MAX) by (nonlinear_arith)
                                requires
                                    mag <= (u64::MAX - d as u64) / 10,
                                    d < 10,
                            ;
                        }
                        mag = mag * 10 + d as u64;
                    } else {
                        proof {
                            let v = spec_digits_val(spec_strip_unders(pre));
                            assert(v * 10 + spec_digit_val(c) > u64::MAX) by (nonlinear_arith)
                                requires
                                    v == mag as nat,
                                    mag > (u64::MAX - spec_digit_val(c)) / 10,
                                    spec_digit_val(c) < 10,
                            ;
                        }
                        ok = false;
                    }
                } else {
                    proof {
                        let v = spec_digits_val(spec_strip_unders(pre));
                        assert(v * 10 + spec_digit_val(c) >= v) by (nonlinear_arith);
                    }
                }
                self.advance();
            }
        }
        if ok {
            Some(mag)
        } else {
            None
        }
    }
}

/// Stripping separators from a run without separators changes nothing.
pub proof fn lemma_strip_unders_id(s: Seq<char>)
    requires
        forall|i: int| 0 <= i < s.len() ==> #[trigger] s[i] != '_',
    ensures
        spec_strip_unders(s) == s,
    decreases s.len(),
{
    if s.len() == 0 {
        assert(spec_strip_unders(s) =~= s);
    } else {
        lemma_strip_unders_id(s.drop_last());
        assert(spec_strip_unders(s) =~= s);
    }
}

/// Reads a boolean: the bare word `true` or `false`. Any other token is
/// `ExpectedBoolean` at the token's position.
pub fn de_bool(b: &mut Bytes) -> (r: Result<bool, Error>)
    requires
        old(b).wf(),
    ensures
        final(b).wf(),
        final(b).chars == old(b).chars,
        final(b).pos >= old(b).pos,
        r matches Err(e) ==> e.code == ErrorCode::ExpectedBoolean,
        r is Ok ==> final(b).pos > old(b).pos,
        old(b).rem() == seq!['t', 'r', 'u', 'e'] ==> r == Ok::<bool, Error>(true) && final(b).pos == final(b).chars@.len(),
        old(b).rem() == seq!['f', 'a', 'l', 's', 'e'] ==> r == Ok::<bool, Error>(false) && final(b).pos == final(b).chars@.len(),
    {
        proof {
            reveal_strlit("true");
            reveal_strlit("false");
        }
        proof {
            if old(b).rem() == seq!['t', 'r', 'u', 'e'] {
                lemma_rem_index(*old(b), 0);
                assert(old(b).chars@[old(b).pos as int] == 't');
            }
            if old(b).rem() == seq!['f', 'a', 'l', 's', 'e'] {
                lemma_rem_index(*old(b), 0);
                assert(old(b).chars@[old(b).pos as int] == 'f');
            }
        }
        b.skip_ws();
        let p = b.position();
        let got = match b.ident() {
            Ok(w) => w,
            Err(_) => {
                proof {
                    if old(b).rem() == seq!['t', 'r', 'u', 'e'] {
                        assert(false);
                    }
                    if old(b).rem() == seq!['f', 'a', 'l', 's', 'e'] {
                        assert(false);
                    }
                }
                return err(ErrorCode::ExpectedBoolean, p.line, p.col);
            },
        };
        proof {
            if old(b).rem() == seq!['t', 'r', 'u', 'e'] {
                if got@.len() < 4 {
                    assert(b.pos < b.chars@.len());
                    lemma_rem_index(*old(b), got@.len() as int);
                    assert(b.chars@[b.pos as int] == old(b).rem()[got@.len() as int]);
                    assert(false);
                }
                assert forall|i: int| 0 <= i < 4 implies got@[i] == old(b).rem()[i] by {
                    lemma_rem_index(*old(b), i);
                }
                assert(got@ =~= "true"@);
            }
            if old(b).rem() == seq!['f', 'a', 'l', 's', 'e'] {
                if got@.len() < 5 {
                    assert(b.pos < b.chars@.len());
                    lemma_rem_index(*old(b), got@.len() as int);
                    assert(b.chars@[b.pos as int] == old(b).rem()[got@.len() as int]);
                    assert(false);
                }
                assert forall|i: int| 0 <= i < 5 implies got@[i] == old(b).rem()[i] by {
                    lemma_rem_index(*old(b), i);
                }
                assert(got@ =~= "false"@);
            }
        }
        if crate::strutil::str_eq(got.as_str(), "true") {
            Ok(true)
        } else if crate::strutil::str_eq(got.as_str(), "false") {
            Ok(false)
        } else {
            err(ErrorCode::ExpectedBoolean, p.line, p.col)
        }
    }

proof fn lemma_char_lit_facts(b0: Bytes, c: char)
    requires
        b0.pos <= b0.chars@.len(),
        b0.rem() == seq!['\''] + crate::ser::spec_esc_char(c) + seq!['\''],
    ensures
        b0.chars@.len() - b0.pos == 2 + crate::ser::spec_esc_char(c).len(),
        b0.chars@[b0.pos as int] == '\'',
        b0.chars@[b0.pos + 1] == crate::ser::spec_esc_char(c)[0],
        (c == '\\' || c == '\'') ==> b0.chars@[b0.pos + 1] == '\\' && b0.chars@[b0.pos + 2] == c
            && b0.chars@[b0.pos + 3] == '\'',
        !(c == '\\' || c == '\'') ==> b0.chars@[b0.pos + 1] == c && b0.chars@[b0.pos + 2] == '\'',
{
    let e = crate::ser::spec_esc_char(c);
    lemma_rem_index(b0, 0);
    lemma_rem_index(b0, 1);
    lemma_rem_index(b0, 2);
    if e.len() == 2 {
        lemma_rem_index(b0, 3);
    }
}

/// Reads a char: single-quoted with `\\` and `\'` escapes, or one bare
/// character.
pub fn de_char(b: &mut Bytes) -> (r: Result<char, Error>)
    requires
        old(b).wf(),
    ensures
        final(b).wf(),
        final(b).chars == old(b).chars,
        final(b).pos >= old(b).pos,
        r matches Err(e) ==> e.code == ErrorCode::ExpectedChar,
        r is Ok ==> final(b).pos > old(b).pos,
        forall|c: char|
            old(b).rem() == seq!['\''] + crate::ser::spec_esc_char(c) + seq!['\''] ==> r == Ok::<char, Error>(c)
                && final(b).pos == final(b).chars@.len(),
    {
        proof {
            assert forall|c: char|
                old(b).rem() == seq!['\''] + crate::ser::spec_esc_char(c) + seq!['\''] implies !spec_is_skippable(
                old(b).chars@[old(b).pos as int],
            ) by {
                lemma_char_lit_facts(*old(b), c);
            }
        }
        b.skip_ws();
        let p = b.position();
        if b.consume('\'') {
            let c0 = match b.peek() {
                Some(c) => c,
                None => {
                    proof {
                        assert forall|c: char|
                            old(b).rem() == seq!['\''] + crate::ser::spec_esc_char(c) + seq![
                                '\'',
                            ] implies false by {
                            lemma_char_lit_facts(*old(b), c);
                        }
                    }
                    return err(ErrorCode::ExpectedChar, p.line, p.col);
                },
            };
            let c = if c0 == '\\' {
                b.advance();
                let e0 = match b.peek() {
                    Some(c) => c,
                    None => {
                        proof {
                            assert forall|c: char|
                                old(b).rem() == seq!['\''] + crate::ser::spec_esc_char(c) + seq![
                                    '\'',
                                ] implies false by {
                                lemma_char_lit_facts(*old(b), c);
                            }
                        }
                        return err(ErrorCode::ExpectedChar, p.line, p.col);
                    },
                };
                b.advance();
                match e0 {
                    '\\' => '\\',
                    '\'' => '\'',
                    '"' => '"',
                    'n' => '\n',
                    'r' => '\r',
                    't' => '\t',
                    '0' => '\0',
                    _ => {
                        proof {
                            assert forall|c: char|
                                old(b).rem() == seq!['\''] + crate::ser::spec_esc_char(c) + seq![
                                    '\'',
                                ] implies false by {
                                lemma_char_lit_facts(*old(b), c);
                            }
                        }
                        return err(ErrorCode::ExpectedChar, p.line, p.col);
                    },
                }
            } else {
                b.advance();
                c0
            };
            proof {
                assert forall|cc: char|
                    old(b).rem() == seq!['\''] + crate::ser::spec_esc_char(cc) + seq![
                        '\'',
                    ] implies c == cc && b.pos + 1 == b.chars@.len() && b.chars@[b.pos as int]
                    == '\'' by {
                    lemma_char_lit_facts(*old(b), cc);
                }
            }
            if b.consume('\'') {
                Ok(c)
            } else {
                err(ErrorCode::ExpectedChar, p.line, p.col)
            }
        } else {
            proof {
                assert forall|c: char|
                    old(b).rem() == seq!['\''] + crate::ser::spec_esc_char(c) + seq![
                        '\'',
                    ] implies false by {
                    lemma_char_lit_facts(*old(b), c);
                }
            }
            match b.peek() {
                Some(c) => {
                    b.advance();
                    Ok(c)
                },
                None => err(ErrorCode::ExpectedChar, p.line, p.col),
            }
        }
    }

/// Reads an unsigned integer no greater than `max` (a leading `+` is
/// accepted); separators between digits are stripped. Anything else is
/// `ExpectedInteger` at the token's position.
pub fn de_unsigned(b: &mut Bytes, max: u64) -> (r: Result<u64, Error>)
    requires
        old(b).wf(),
    ensures
        final(b).wf(),
        final(b).chars == old(b).chars,
        final(b).pos >= old(b).pos,
        r matches Err(e) ==> e.code == ErrorCode::ExpectedInteger,
        r is Ok ==> final(b).pos > old(b).pos,
        r matches Ok(v) ==> v <= max,
        forall|v: u64|
            v <= max && old(b).rem() == spec_dec_str(v as nat) ==> r == Ok::<u64, Error>(v)
                && final(b).pos == final(b).chars@.len(),
        spec_digit_run_lit(old(b).rem()) && spec_run_val(old(b).rem()) <= max ==> r == Ok::<
            u64,
            Error,
        >(spec_run_val(old(b).rem()) as u64) && final(b).pos == final(b).chars@.len(),
    {
        proof {
            crate::digits::lemma_dec_str_digits(0);
            if spec_digit_run_lit(old(b).rem()) {
                lemma_rem_index(*old(b), 0);
            }
        }
        proof {
            assert forall|v: u64| old(b).rem() == spec_dec_str(v as nat) implies spec_is_digit(
                old(b).chars@[old(b).pos as int],
            ) by {
                crate::digits::lemma_dec_str_digits(v as nat);
                lemma_rem_index(*old(b), 0);
                assert(old(b).rem()[0] == spec_dec_str(v as nat)[0]);
            }
        }
        b.skip_ws();
        let p = b.position();
        b.consume('+');
        let is_dig = match b.peek() {
            Some(c) => is_digit(c),
            None => false,
        };
        if !is_dig {
            return err(ErrorCode::ExpectedInteger, p.line, p.col);
        }
        let ghost run_start = b.pos as int;
        let mag = match b.digit_run() {
            Some(m) => m,
            None => {
                proof {
                    assert forall|v: u64|
                        v <= max && old(b).rem() == spec_dec_str(v as nat) implies false by {
                        let d = spec_dec_str(v as nat);
                        crate::digits::lemma_dec_str_digits(v as nat);
                        if b.pos < b.chars@.len() {
                            lemma_rem_index(*old(b), b.pos - run_start);
                            assert(b.chars@[b.pos as int] == old(b).rem()[b.pos - run_start]);
                            assert(spec_is_digit(d[b.pos - run_start]));
                            assert(false);
                        }
                        let consumed = old(b).chars@.subrange(run_start, b.pos as int);
                        assert(consumed =~= d);
                        lemma_strip_unders_id(d);
                        crate::digits::lemma_digits_val_dec_str(v as nat);
                    }
                    if spec_digit_run_lit(old(b).rem()) && spec_run_val(old(b).rem()) <= max {
                        if b.pos < b.chars@.len() {
                            lemma_rem_index(*old(b), b.pos - run_start);
                            assert(false);
                        }
                        assert(old(b).chars@.subrange(run_start, b.pos as int) =~= old(b).rem());
                        assert(false);
                    }
                }
                return err(ErrorCode::ExpectedInteger, p.line, p.col);
            },
        };
        proof {
            assert forall|v: u64|
                v <= max && old(b).rem() == spec_dec_str(
                    v as nat,
                ) implies mag == v && b.pos == b.chars@.len() by {
                let d = spec_dec_str(v as nat);
                crate::digits::lemma_dec_str_digits(v as nat);
                if b.pos < b.chars@.len() {
                    lemma_rem_index(*old(b), b.pos - run_start);
                    assert(b.chars@[b.pos as int] == old(b).rem()[b.pos - run_start]);
                    assert(spec_is_digit(d[b.pos - run_start]));
                    assert(false);
                }
                let consumed = old(b).chars@.subrange(run_start, b.pos as int);
                assert(consumed =~= d);
                lemma_strip_unders_id(d);
                crate::digits::lemma_digits_val_dec_str(v as nat);
            }
            if spec_digit_run_lit(old(b).rem()) && spec_run_val(old(b).rem()) <= max {
                if b.pos < b.chars@.len() {
                    lemma_rem_index(*old(b), b.pos - run_start);
                    assert(false);
                }
                assert(old(b).chars@.subrange(run_start, b.pos as int) =~= old(b).rem());
                assert(mag == spec_run_val(old(b).rem()));
            }
        }
        if mag <= max {
            Ok(mag)
        } else {
            err(ErrorCode::ExpectedInteger, p.line, p.col)
        }
    }

/// Reads a signed integer: an optional sign, then digits; the magnitude
/// may reach `neg_max` after a minus sign and `pos_max` otherwise.
pub fn de_signed(b: &mut Bytes, neg_max: u64, pos_max: u64) -> (r: Result<i64, Error>)
    requires
        old(b).wf(),
        neg_max <= 0x8000_0000_0000_0000,
        pos_max <= 0x7fff_ffff_ffff_ffff,
    ensures
        final(b).wf(),
        final(b).chars == old(b).chars,
        final(b).pos >= old(b).pos,
        r matches Err(e) ==> e.code == ErrorCode::ExpectedInteger,
        r is Ok ==> final(b).pos > old(b).pos,
        r matches Ok(v) ==> -(neg_max as int) <= v as int <= pos_max as int,
        forall|v: i64|
            -(neg_max as int) <= v as int <= pos_max as int && old(b).rem()
                == crate::digits::spec_dec_str_signed(v as int) ==> r == Ok::<i64, Error>(v)
                && final(b).pos == final(b).chars@.len(),
        spec_signed_run_lit(old(b).rem()) && -(neg_max as int) <= spec_signed_run_val(
            old(b).rem(),
        ) <= pos_max as int ==> r == Ok::<i64, Error>(spec_signed_run_val(old(b).rem()) as i64)
            && final(b).pos == final(b).chars@.len(),
    {
        proof {
            assert forall|v: i64|
                old(b).rem() == crate::digits::spec_dec_str_signed(v as int) implies !spec_is_skippable(
                old(b).chars@[old(b).pos as int],
            ) && old(b).chars@[old(b).pos as int] != '+' by {
                lemma_rem_index(*old(b), 0);
                if v as int >= 0 {
                    crate::digits::lemma_dec_str_digits(v as nat);
                }
            }
            if spec_signed_run_lit(old(b).rem()) {
                lemma_rem_index(*old(b), 0);
            }
        }
        b.skip_ws();
        let p = b.position();
        let negative = if b.consume('-') {
            true
        } else {
            b.consume('+');
            false
        };
        let is_dig = match b.peek() {
            Some(c) => is_digit(c),
            None => false,
        };
        if !is_dig {
            proof {
                assert forall|v: i64|
                    old(b).rem() == crate::digits::spec_dec_str_signed(v as int) implies false by {
                    lemma_rem_index(*old(b), 0);
                    if v as int >= 0 {
                        crate::digits::lemma_dec_str_digits(v as nat);
                    } else {
                        crate::digits::lemma_dec_str_digits((-(v as int)) as nat);
                        lemma_rem_index(*old(b), 1);
                        assert(old(b).rem()[1] == spec_dec_str((-(v as int)) as nat)[0]);
                    }
                }
                if spec_signed_run_lit(old(b).rem()) {
                    let rm = old(b).rem();
                    lemma_rem_index(*old(b), 0);
                    if rm[0] == '+' || rm[0] == '-' {
                        lemma_rem_index(*old(b), 1);
                        assert(rm.skip(1)[0] == rm[1]);
                        assert(spec_is_digit(rm[1]));
                    }
                    assert(false);
                }
            }
            return err(ErrorCode::ExpectedInteger, p.line, p.col);
        }
        let ghost run_start = b.pos as int;
        let mag = match b.digit_run() {
            Some(m) => m,
            None => {
                proof {
                    assert forall|v: i64|
                        (-(neg_max as int)) <= v as int && v as int <= pos_max as int && old(b).rem() == crate::digits::spec_dec_str_signed(v as int) implies false by {
                        let m = if (v as int) < 0 {
                            (-(v as int)) as nat
                        } else {
                            v as nat
                        };
                        let d = spec_dec_str(m);
                        crate::digits::lemma_dec_str_digits(m);
                        lemma_rem_index(*old(b), 0);
                        if b.pos < b.chars@.len() {
                            lemma_rem_index(*old(b), b.pos - old(b).pos);
                            assert(spec_is_digit(d[b.pos - run_start]));
                            assert(false);
                        }
                        let consumed = old(b).chars@.subrange(run_start, b.pos as int);
                        assert forall|i: int| 0 <= i < consumed.len() implies consumed[i] == d[i] by {
                            lemma_rem_index(*old(b), run_start - old(b).pos + i);
                        }
                        assert(consumed =~= d);
                        lemma_strip_unders_id(d);
                        crate::digits::lemma_digits_val_dec_str(m);
                    }
                    if spec_signed_run_lit(old(b).rem()) && -(neg_max as int)
                        <= spec_signed_run_val(old(b).rem()) && spec_signed_run_val(old(b).rem())
                        <= pos_max as int {
                        let rm = old(b).rem();
                        lemma_rem_index(*old(b), 0);
                        let soff: int = if rm[0] == '+' || rm[0] == '-' {
                            1
                        } else {
                            0
                        };
                        let body = rm.skip(soff);
                        if b.pos < b.chars@.len() {
                            lemma_rem_index(*old(b), b.pos - old(b).pos);
                            assert(body[b.pos - old(b).pos - soff] == rm[b.pos - old(b).pos]);
                            assert(false);
                        }
                        let consumed = old(b).chars@.subrange(run_start, b.pos as int);
                        assert forall|i: int| 0 <= i < consumed.len() implies consumed[i]
                            == body[i] by {
                            lemma_rem_index(*old(b), soff + i);
                            assert(body[i] == rm[soff + i]);
                        }
                        assert(consumed =~= body);
                        assert(false);
                    }
                }
                return err(ErrorCode::ExpectedInteger, p.line, p.col);
            },
        };
        proof {
            assert forall|v: i64|
                0 <= v as int && v as int <= pos_max as int && old(b).rem()
                    == crate::digits::spec_dec_str_signed(v as int) implies mag == v as int
                && !negative && b.pos == b.chars@.len() by {
                let m = v as nat;
                let d = spec_dec_str(m);
                crate::digits::lemma_dec_str_digits(m);
                lemma_rem_index(*old(b), 0);
                if b.pos < b.chars@.len() {
                    lemma_rem_index(*old(b), b.pos - old(b).pos);
                    assert(spec_is_digit(d[b.pos - run_start]));
                    assert(false);
                }
                let consumed = old(b).chars@.subrange(run_start, b.pos as int);
                assert forall|i: int| 0 <= i < consumed.len() implies consumed[i] == d[i] by {
                    lemma_rem_index(*old(b), run_start - old(b).pos + i);
                }
                assert(consumed =~= d);
                lemma_strip_unders_id(d);
                crate::digits::lemma_digits_val_dec_str(m);
            }
            assert forall|v: i64|
                (-(neg_max as int)) <= v as int && (v as int) < 0 && old(b).rem()
                    == crate::digits::spec_dec_str_signed(v as int) implies mag as int == -(
                v as int) && negative && b.pos == b.chars@.len() by {
                let m = (-(v as int)) as nat;
                let d = spec_dec_str(m);
                crate::digits::lemma_dec_str_digits(m);
                lemma_rem_index(*old(b), 0);
                assert(old(b).rem()[0] == '-');
                if b.pos < b.chars@.len() {
                    lemma_rem_index(*old(b), b.pos - old(b).pos);
                    assert(spec_is_digit(d[b.pos - run_start]));
                    assert(false);
                }
                let consumed = old(b).chars@.subrange(run_start, b.pos as int);
                assert forall|i: int| 0 <= i < consumed.len() implies consumed[i] == d[i] by {
                    lemma_rem_index(*old(b), run_start - old(b).pos + i);
                }
                assert(consumed =~= d);
                lemma_strip_unders_id(d);
                crate::digits::lemma_digits_val_dec_str(m);
            }
            if spec_signed_run_lit(old(b).rem()) && -(neg_max as int) <= spec_signed_run_val(
                old(b).rem(),
            ) && spec_signed_run_val(old(b).rem()) <= pos_max as int {
                let rm = old(b).rem();
                lemma_rem_index(*old(b), 0);
                let soff: int = if rm[0] == '+' || rm[0] == '-' {
                    1
                } else {
                    0
                };
                let body = rm.skip(soff);
                if b.pos < b.chars@.len() {
                    lemma_rem_index(*old(b), b.pos - old(b).pos);
                    assert(body[b.pos - old(b).pos - soff] == rm[b.pos - old(b).pos]);
                    assert(false);
                }
                let consumed = old(b).chars@.subrange(run_start, b.pos as int);
                assert forall|i: int| 0 <= i < consumed.len() implies consumed[i] == body[i] by {
                    lemma_rem_index(*old(b), soff + i);
                    assert(body[i] == rm[soff + i]);
                }
                assert(consumed =~= body);
                assert(mag == spec_run_val(body));
                assert(negative == (rm[0] == '-'));
            }
        }
        if negative {
            if mag <= neg_max {
                if mag == 0x8000_0000_0000_0000u64 {
                    Ok(i64::MIN)
                } else {
                    Ok(-(mag as i64))
                }
            } else {
                err(ErrorCode::ExpectedInteger, p.line, p.col)
            }
        } else {
            if mag <= pos_max {
                Ok(mag as i64)
            } else {
                err(ErrorCode::ExpectedInteger, p.line, p.col)
            }
        }
    }

/// Whether `c` may appear in a float token.
pub open spec fn spec_is_float_char(c: char) -> bool {
    spec_is_digit(c) || c == '.' || c == '+' || c == '-' || c == '_' || c == 'e' || c == 'E' || c
        == 'i' || c == 'n' || c == 'f' || c == 'a' || c == 'N' || c == 'I'
}

fn is_float_char(c: char) -> (r: bool)
    ensures
        r == spec_is_float_char(c),
{
    is_digit(c) || c == '.' || c == '+' || c == '-' || c == '_' || c == 'e' || c == 'E' || c == 'i'
        || c == 'n' || c == 'f' || c == 'a' || c == 'N' || c == 'I'
}

impl Bytes {
    /// Consumes a maximal run of float-token characters, yielding them with
    /// the separators stripped.
    pub fn float_token(&mut self) -> (r: String)
        requires
            old(self).wf(),
        ensures
            final(self).wf(),
            final(self).chars == old(self).chars,
            final(self).pos >= old(self).pos,
            forall|i: int|
                old(self).pos <= i < final(self).pos ==> spec_is_float_char(
                    #[trigger] old(self).chars@[i],
                ),
            final(self).pos == final(self).chars@.len() || !spec_is_float_char(
                final(self).chars@[final(self).pos as int],
            ),
            r@ == spec_strip_unders(
                old(self).chars@.subrange(old(self).pos as int, final(self).pos as int),
            ),
    {
        let mut tok = String::new();
        let ghost start = self.pos as int;
        while self.pos < self.chars.len() && is_float_char(self.chars[self.pos])
            invariant
                self.wf(),
                self.chars == old(self).chars,
                self.pos >= old(self).pos,
                start == old(self).pos as int,
                forall|i: int|
                    start <= i < self.pos ==> spec_is_float_char(#[trigger] self.chars@[i]),
                tok@ == spec_strip_unders(self.chars@.subrange(start, self.pos as int)),
            decreases self.chars@.len() - self.pos,
        {
            let c = self.chars[self.pos];
            proof {
                assert(self.chars@.subrange(start, self.pos + 1 as int).drop_last()
                    =~= self.chars@.subrange(start, self.pos as int));
            }
            if c != '_' {
                push_char(&mut tok, c);
            }
            proof {
                assert(tok@ =~= spec_strip_unders(self.chars@.subrange(start, self.pos + 1 as int)));
            }
            self.advance();
        }
        tok
    }

    /// Whether the cursor stands on the reserved `r#` prefix.
    pub open spec fn spec_at_raw_prefix(&self) -> bool {
        &&& self.pos + 1 < self.chars@.len()
        &&& self.chars@[self.pos as int] == 'r'
        &&& self.chars@[self.pos + 1] == '#'
    }

    /// Reads an identifier, allowing the reserved `r#` prefix before an
    /// otherwise-invalid spelling (leading digit, embedded hyphen). Without
    /// the prefix it reads exactly as [`Bytes::ident`]; with it, the word
    /// is the maximal run of identifier characters and hyphens after the
    /// prefix.
    pub fn raw_ident(&mut self) -> (r: Result<String, Error>)
        requires
            old(self).wf(),
        ensures
            final(self).wf(),
            final(self).chars == old(self).chars,
            final(self).pos >= old(self).pos,
            r matches Err(e) ==> e == (Error {
                code: ErrorCode::ExpectedIdentifier,
                position: Position { line: old(self).line, col: old(self).col },
            }) && *final(self) == *old(self),
            r is Ok ==> final(self).pos > old(self).pos,
            match r {
                Ok(w) => !old(self).spec_at_raw_prefix() ==> {
                    &&& final(self).pos == old(self).pos + w@.len()
                    &&& w@ == old(self).chars@.subrange(
                        old(self).pos as int,
                        final(self).pos as int,
                    )
                    &&& w@.len() >= 1
                    &&& spec_is_ident_first_char(w@[0])
                    &&& forall|i: int|
                        0 < i < w@.len() ==> spec_is_ident_other_char(#[trigger] w@[i])
                    &&& (final(self).pos == final(self).chars@.len() || !spec_is_ident_other_char(
                        final(self).chars@[final(self).pos as int],
                    ))
                },
                Err(_) => true,
            },
            match r {
                Ok(w) => old(self).spec_at_raw_prefix() ==> {
                    &&& final(self).pos == old(self).pos + 2 + w@.len()
                    &&& w@ == old(self).chars@.subrange(old(self).pos + 2, final(self).pos as int)
                    &&& forall|i: int|
                        0 <= i < w@.len() ==> spec_is_raw_ident_char(#[trigger] w@[i])
                    &&& (final(self).pos == final(self).chars@.len() || !spec_is_raw_ident_char(
                        final(self).chars@[final(self).pos as int],
                    ))
                },
                Err(_) => true,
            },
    {
        let is_raw = self.pos < self.chars.len() && self.chars[self.pos] == 'r' && self.pos + 1
            < self.chars.len() && self.chars[self.pos + 1] == '#';
        if !is_raw {
            return self.ident();
        }
        self.advance();
        self.advance();
        let mut w = String::new();
        while self.pos < self.chars.len() && (is_ident_other_char(self.chars[self.pos])
            || self.chars[self.pos] == '-')
            invariant
                self.wf(),
                self.chars == old(self).chars,
                self.pos >= old(self).pos + 2,
                w@.len() == self.pos - old(self).pos - 2,
                w@ == old(self).chars@.subrange(old(self).pos + 2, self.pos as int),
                forall|i: int| 0 <= i < w@.len() ==> spec_is_raw_ident_char(#[trigger] w@[i]),
            decreases self.chars@.len() - self.pos,
        {
            push_char(&mut w, self.chars[self.pos]);
            self.advance();
            proof {
                assert(w@ =~= old(self).chars@.subrange(old(self).pos + 2, self.pos as int));
            }
        }
        Ok(w)
    }
}

/// Reads a float of the given width as its bit pattern: a maximal run of
/// float-token characters, separators stripped, handed to the trusted
/// decimal conversion. A remaining input that is exactly a simple decimal
/// literal yields its parsed bits whole; an empty or unconvertible run is
/// `ExpectedFloat` at the token's position.
pub fn de_f64_bits(b: &mut Bytes) -> (r: Result<u64, Error>)
    requires
        old(b).wf(),
    ensures
        final(b).wf(),
        final(b).chars == old(b).chars,
        final(b).pos >= old(b).pos,
        r matches Err(e) ==> e.code == ErrorCode::ExpectedFloat,
        r is Ok ==> final(b).pos > old(b).pos,
        crate::outside::spec_simple_float_literal(old(b).rem()) ==> r == Ok::<u64, Error>(
            crate::outside::f64_bits_of_dec(old(b).rem()),
        ) && final(b).pos == final(b).chars@.len(),
{
    proof {
        if crate::outside::spec_simple_float_literal(old(b).rem()) {
            let s0 = old(b).rem();
            lemma_rem_index(*old(b), 0);
            if s0.len() > 0 && (s0[0] == '+' || s0[0] == '-') {
            } else {
                assert(crate::ident::spec_is_digit(s0[0]) || s0[0] == '.');
            }
        }
    }
    b.skip_ws();
    let p = b.position();
    let start = b.pos;
    let tok = b.float_token();
    proof {
        if crate::outside::spec_simple_float_literal(old(b).rem()) {
            let s0 = old(b).rem();
            assert forall|i: int| 0 <= i < s0.len() implies spec_is_float_char(
                #[trigger] s0[i],
            ) by {
                if s0.len() > 0 && (s0[0] == '+' || s0[0] == '-') {
                    if i > 0 {
                        assert(s0.skip(1)[i - 1] == s0[i]);
                    }
                }
            }
            if b.pos < b.chars.len() {
                lemma_rem_index(*old(b), b.pos - old(b).pos);
                assert(spec_is_float_char(b.chars@[b.pos as int]));
                assert(false);
            }
            let consumed = old(b).chars@.subrange(old(b).pos as int, b.pos as int);
            assert forall|i: int| 0 <= i < consumed.len() implies consumed[i] == s0[i] by {
                lemma_rem_index(*old(b), i);
            }
            assert(consumed =~= s0);
            lemma_strip_float_id(s0);
            assert(tok@ =~= s0);
        }
    }
    if b.pos == start {
        return err(ErrorCode::ExpectedFloat, p.line, p.col);
    }
    match crate::outside::parse_f64_bits(tok.as_str()) {
        Some(bits) => Ok(bits),
        None => err(ErrorCode::ExpectedFloat, p.line, p.col),
    }
}

/// As [`de_f64_bits`], for binary32.
pub fn de_f32_bits(b: &mut Bytes) -> (r: Result<u32, Error>)
    requires
        old(b).wf(),
    ensures
        final(b).wf(),
        final(b).chars == old(b).chars,
        final(b).pos >= old(b).pos,
        r matches Err(e) ==> e.code == ErrorCode::ExpectedFloat,
        r is Ok ==> final(b).pos > old(b).pos,
        crate::outside::spec_simple_float_literal(old(b).rem()) ==> r == Ok::<u32, Error>(
            crate::outside::f32_bits_of_dec(old(b).rem()),
        ) && final(b).pos == final(b).chars@.len(),
{
    proof {
        if crate::outside::spec_simple_float_literal(old(b).rem()) {
            let s0 = old(b).rem();
            lemma_rem_index(*old(b), 0);
            if s0.len() > 0 && (s0[0] == '+' || s0[0] == '-') {
            } else {
                assert(crate::ident::spec_is_digit(s0[0]) || s0[0] == '.');
            }
        }
    }
    b.skip_ws();
    let p = b.position();
    let start = b.pos;
    let tok = b.float_token();
    proof {
        if crate::outside::spec_simple_float_literal(old(b).rem()) {
            let s0 = old(b).rem();
            assert forall|i: int| 0 <= i < s0.len() implies spec_is_float_char(
                #[trigger] s0[i],
            ) by {
                if s0.len() > 0 && (s0[0] == '+' || s0[0] == '-') {
                    if i > 0 {
                        assert(s0.skip(1)[i - 1] == s0[i]);
                    }
                }
            }
            if b.pos < b.chars.len() {
                lemma_rem_index(*old(b), b.pos - old(b).pos);
                assert(spec_is_float_char(b.chars@[b.pos as int]));
                assert(false);
            }
            let consumed = old(b).chars@.subrange(old(b).pos as int, b.pos as int);
            assert forall|i: int| 0 <= i < consumed.len() implies consumed[i] == s0[i] by {
                lemma_rem_index(*old(b), i);
            }
            assert(consumed =~= s0);
            lemma_strip_float_id(s0);
            assert(tok@ =~= s0);
        }
    }
    if b.pos == start {
        return err(ErrorCode::ExpectedFloat, p.line, p.col);
    }
    match crate::outside::parse_f32_bits(tok.as_str()) {
        Some(bits) => Ok(bits),
        None => err(ErrorCode::ExpectedFloat, p.line, p.col),
    }
}

/// Reads a string: double-quoted with escapes (`\"`, `\\`, `\'`, `\n`,
/// `\r`, `\t`, `\0`, `\u{...}`), or a bare identifier word. A quoted string
/// with no closing quote is `ExpectedStringEnd` at the opening quote.
#[verifier::loop_isolation(false)]
pub fn de_string_token(b: &mut Bytes) -> (r: Result<String, Error>)
    requires
        old(b).wf(),
    ensures
        final(b).wf(),
        final(b).chars == old(b).chars,
        final(b).pos >= old(b).pos,
        r matches Err(e) ==> e.code == ErrorCode::ExpectedString || e.code
            == ErrorCode::ExpectedStringEnd || e.code matches ErrorCode::Mismatch(_),
        r is Ok ==> final(b).pos > old(b).pos,
        spec_is_ident(old(b).rem()) ==> r is Ok && final(b).pos == final(b).chars@.len(),
        spec_quoted_plain(old(b).rem()) ==> r is Ok && final(b).pos == final(b).chars@.len(),
        match r {
            Ok(w) => {
                &&& (spec_is_ident(old(b).rem()) ==> w@ == old(b).rem())
                &&& (spec_quoted_plain(old(b).rem()) ==> w@ == old(b).rem().subrange(
                    1,
                    old(b).rem().len() - 1,
                ))
            },
            Err(e) => {
                &&& (old(b).pos < old(b).chars@.len() && old(b).chars@[old(b).pos as int] == '"'
                    ==> (e.code == ErrorCode::ExpectedStringEnd || e.code
                    matches ErrorCode::Mismatch(_)) && (e.code == ErrorCode::ExpectedStringEnd
                    ==> e.position == (Position { line: old(b).line, col: old(b).col })))
                &&& (old(b).pos < old(b).chars@.len() && !spec_is_skippable(
                    old(b).chars@[old(b).pos as int],
                ) && old(b).chars@[old(b).pos as int] != '"' && !spec_is_ident_first_char(
                    old(b).chars@[old(b).pos as int],
                ) ==> e == (Error {
                    code: ErrorCode::ExpectedString,
                    position: Position { line: old(b).line, col: old(b).col },
                }))
            },
        },
{
    proof {
        if old(b).rem().len() > 0 {
            lemma_rem_index(*old(b), 0);
        }
    }
    b.skip_ws();
    let p = b.position();
    if b.consume('"') {
        let mut out = String::new();
        loop
            invariant
                b.wf(),
                b.chars == old(b).chars,
                b.pos > old(b).pos,
                spec_quoted_plain(old(b).rem()) ==> {
                    &&& b.pos - old(b).pos <= old(b).rem().len() - 1
                    &&& out@ == old(b).rem().subrange(1, b.pos - old(b).pos)
                },
            decreases b.chars@.len() - b.pos,
        {
            proof {
                if spec_quoted_plain(old(b).rem()) {
                    lemma_rem_index(*old(b), b.pos - old(b).pos);
                    assert(b.chars@[b.pos as int] == old(b).rem()[b.pos - old(b).pos]);
                }
            }
            let ghost it0 = b.pos;
            let c = match b.peek() {
                Some(c) => c,
                None => {
                    return err(ErrorCode::ExpectedStringEnd, p.line, p.col);
                },
            };
            if c == '"' {
                proof {
                    if spec_quoted_plain(old(b).rem()) {
                        if b.pos - old(b).pos < old(b).rem().len() - 1 {
                            assert(spec_is_plain_str_char(old(b).rem()[b.pos - old(b).pos]));
                            assert(false);
                        }
                        assert(out@ =~= old(b).rem().subrange(1, old(b).rem().len() - 1));
                    }
                }
                b.advance();
                return Ok(out);
            } else if c == '\\' {
                b.advance();
                let e0 = match b.peek() {
                    Some(c) => c,
                    None => {
                        return err(ErrorCode::ExpectedStringEnd, p.line, p.col);
                    },
                };
                let ep = b.position();
                b.advance();
                match e0 {
                    '"' => push_char(&mut out, '"'),
                    '\\' => push_char(&mut out, '\\'),
                    '\'' => push_char(&mut out, '\''),
                    'n' => push_char(&mut out, '\n'),
                    'r' => push_char(&mut out, '\r'),
                    't' => push_char(&mut out, '\t'),
                    '0' => push_char(&mut out, '\0'),
                    'u' => {
                        if !b.consume('{') {
                            return err(
                                ErrorCode::Mismatch(String::from_str("invalid escape")),
                                ep.line,
                                ep.col,
                            );
                        }
                        let mut acc: u32 = 0;
                        let mut seen = false;
                        loop
                            invariant
                                b.wf(),
                                b.chars == old(b).chars,
                                b.pos > it0,
                                b.pos > old(b).pos,
                                acc <= 0x10_ffff,
                            decreases b.chars@.len() - b.pos,
                        {
                            let h = match b.peek() {
                                Some(c) => c,
                                None => {
                                    return err(ErrorCode::ExpectedStringEnd, p.line, p.col);
                                },
                            };
                            if h == '}' {
                                b.advance();
                                break ;
                            }
                            let hv: u32 = if is_digit(h) {
                                digit_val(h)
                            } else if 'a' <= h && h <= 'f' {
                                h as u32 - 'a' as u32 + 10
                            } else if 'A' <= h && h <= 'F' {
                                h as u32 - 'A' as u32 + 10
                            } else {
                                return err(
                                    ErrorCode::Mismatch(String::from_str("invalid escape")),
                                    ep.line,
                                    ep.col,
                                );
                            };
                            if acc > 0xffff {
                                return err(
                                    ErrorCode::Mismatch(String::from_str("invalid escape")),
                                    ep.line,
                                    ep.col,
                                );
                            }
                            acc = acc * 16 + hv;
                            seen = true;
                            b.advance();
                        }
                        if !seen {
                            return err(
                                ErrorCode::Mismatch(String::from_str("invalid escape")),
                                ep.line,
                                ep.col,
                            );
                        }
                        match crate::outside::char_of_u32(acc) {
                            Some(u) => push_char(&mut out, u),
                            None => {
                                return err(
                                    ErrorCode::Mismatch(String::from_str("invalid escape")),
                                    ep.line,
                                    ep.col,
                                );
                            },
                        }
                    },
                    _ => {
                        return err(
                            ErrorCode::Mismatch(String::from_str("invalid escape")),
                            ep.line,
                            ep.col,
                        );
                    },
                }
            } else {
                b.advance();
                push_char(&mut out, c);
                proof {
                    if spec_quoted_plain(old(b).rem()) {
                        assert(out@ =~= old(b).rem().subrange(1, b.pos - old(b).pos));
                    }
                }
            }
        }
    } else {
        proof {
            if spec_quoted_plain(old(b).rem()) {
                assert(false);
            }
        }
        match b.ident() {
            Ok(w) => {
                proof {
                    if spec_is_ident(old(b).rem()) {
                        if w@.len() < old(b).rem().len() {
                            lemma_rem_index(*old(b), w@.len() as int);
                            assert(spec_is_ident_other_char(old(b).rem()[w@.len() as int]));
                            assert(false);
                        }
                        assert(w@ =~= old(b).rem());
                    }
                }
                Ok(w)
            },
            Err(_) => {
                proof {
                    if spec_is_ident(old(b).rem()) {
                        assert(false);
                    }
                }
                err(ErrorCode::ExpectedString, p.line, p.col)
            },
        }
    }
}

/// The result of the any-number read: the narrowest width that holds the
/// literal, signed exactly when a sign was written, floats as bit patterns.
#[derive(Clone, Copy, Debug, PartialEq, Eq)]
pub enum AnyNum {
    I8(i8),
    U8(u8),
    I16(i16),
    U16(u16),
    I32(i32),
    U32(u32),
    I64(i64),
    U64(u64),
    F32(u32),
    F64(u64),
}

/// The narrowest unsigned width holding an unsigned literal's magnitude.
pub open spec fn spec_classify_unsigned(v: u64) -> AnyNum {
    if v <= 0xff {
        AnyNum::U8(v as u8)
    } else if v <= 0xffff {
        AnyNum::U16(v as u16)
    } else if v <= 0xffff_ffff {
        AnyNum::U32(v as u32)
    } else {
        AnyNum::U64(v)
    }
}

/// The narrowest signed width holding a `+`-signed literal's magnitude.
pub open spec fn spec_classify_plus(v: u64) -> AnyNum {
    if v <= 0x7f {
        AnyNum::I8(v as i8)
    } else if v <= 0x7fff {
        AnyNum::I16(v as i16)
    } else if v <= 0x7fff_ffff {
        AnyNum::I32(v as i32)
    } else {
        AnyNum::I64(v as i64)
    }
}

/// The narrowest signed width holding the negation of a `-`-signed
/// literal's magnitude.
pub open spec fn spec_classify_minus(v: u64) -> AnyNum {
    if v <= 0x80 {
        AnyNum::I8((-(v as int)) as i8)
    } else if v <= 0x8000 {
        AnyNum::I16((-(v as int)) as i16)
    } else if v <= 0x8000_0000 {
        AnyNum::I32((-(v as int)) as i32)
    } else {
        AnyNum::I64((-(v as int)) as i64)
    }
}

/// A dotted literal is read as binary64 and narrowed to binary32 exactly
/// when widening back reproduces the same binary64 value.
pub open spec fn spec_classify_float(db: u64) -> AnyNum {
    if crate::outside::f64_of_f32_bits(crate::outside::f32_of_f64_bits(db)) == db {
        AnyNum::F32(crate::outside::f32_of_f64_bits(db))
    } else {
        AnyNum::F64(db)
    }
}

/// An optionally signed run of digits and dots with at least one digit, at
/// most one dot, and at least one dot present.
pub open spec fn spec_dotted_literal(s: Seq<char>) -> bool {
    &&& crate::outside::spec_simple_float_literal(s)
    &&& exists|i: int| 0 <= i < s.len() && s[i] == '.'
}

impl Bytes {
    /// Reads a numeric literal with width inference: without a dot or
    /// exponent, the narrowest unsigned width when no sign was written and
    /// the narrowest signed width when one was; with a dot, a float,
    /// narrowed to binary32 when that loses nothing.
    #[verifier::rlimit(60)]
    pub fn any_num(&mut self) -> (r: Result<AnyNum, Error>)
        requires
            old(self).wf(),
        ensures
            final(self).wf(),
            final(self).chars == old(self).chars,
            final(self).pos >= old(self).pos,
            r is Ok ==> final(self).pos > old(self).pos,
            forall|v: u64|
                old(self).rem() == spec_dec_str(v as nat) ==> r == Ok::<AnyNum, Error>(
                    spec_classify_unsigned(v),
                ) && final(self).pos == final(self).chars@.len(),
            forall|v: u64|
                v <= 0x7fff_ffff_ffff_ffff && old(self).rem() == seq!['+'] + spec_dec_str(v as nat)
                    ==> r == Ok::<AnyNum, Error>(spec_classify_plus(v)) && final(self).pos == final(self).chars@.len(),
            forall|v: u64|
                v <= 0x8000_0000_0000_0000 && old(self).rem() == seq!['-'] + spec_dec_str(v as nat)
                    ==> r == Ok::<AnyNum, Error>(spec_classify_minus(v)) && final(self).pos
                    == final(self).chars@.len(),
            spec_digit_run_lit(old(self).rem()) && spec_run_val(old(self).rem()) <= u64::MAX
                ==> r == Ok::<AnyNum, Error>(
                spec_classify_unsigned(spec_run_val(old(self).rem()) as u64),
            ) && final(self).pos == final(self).chars@.len(),
            old(self).rem().len() > 0 && old(self).rem()[0] == '+' && spec_digit_run_lit(
                old(self).rem().skip(1),
            ) && spec_run_val(old(self).rem().skip(1)) <= 0x7fff_ffff_ffff_ffff ==> r == Ok::<
                AnyNum,
                Error,
            >(spec_classify_plus(spec_run_val(old(self).rem().skip(1)) as u64)) && final(self).pos
                == final(self).chars@.len(),
            old(self).rem().len() > 0 && old(self).rem()[0] == '-' && spec_digit_run_lit(
                old(self).rem().skip(1),
            ) && spec_run_val(old(self).rem().skip(1)) <= 0x8000_0000_0000_0000 ==> r == Ok::<
                AnyNum,
                Error,
            >(spec_classify_minus(spec_run_val(old(self).rem().skip(1)) as u64)) && final(self).pos == final(self).chars@.len(),
            spec_dotted_literal(old(self).rem()) ==> r == Ok::<AnyNum, Error>(
                spec_classify_float(crate::outside::f64_bits_of_dec(old(self).rem())),
            ) && final(self).pos == final(self).chars@.len(),
    {
        proof {
            lemma_any_num_head(*old(self));
        }
        self.skip_ws();
        let p = self.position();
        let snap = self.save();
        let neg = self.consume('-');
        let plus = if neg {
            false
        } else {
            self.consume('+')
        };
        let has_digits = match self.peek() {
            Some(c) => is_digit(c),
            None => false,
        };
        let ghost run_start = self.pos as int;
        let mut mag_opt: Option<u64> = None;
        if has_digits {
            mag_opt = self.digit_run();
        }
        let next_float = match self.peek() {
            Some(c) => c == '.' || c == 'e' || c == 'E',
            None => false,
        };
        proof {
            lemma_any_num_mid(*old(self), *self, neg, plus, has_digits, run_start, mag_opt, next_float);
        }
        if has_digits && !next_float {
            if let Some(mag) = mag_opt {
                if neg {
                    if mag <= 0x80 {
                        return Ok(AnyNum::I8(if mag == 0x80 {
                            i8::MIN
                        } else {
                            -(mag as i8)
                        }));
                    } else if mag <= 0x8000 {
                        return Ok(AnyNum::I16(if mag == 0x8000 {
                            i16::MIN
                        } else {
                            -(mag as i16)
                        }));
                    } else if mag <= 0x8000_0000 {
                        return Ok(AnyNum::I32(if mag == 0x8000_0000 {
                            i32::MIN
                        } else {
                            -(mag as i32)
                        }));
                    } else if mag <= 0x8000_0000_0000_0000 {
                        return Ok(AnyNum::I64(if mag == 0x8000_0000_0000_0000 {
                            i64::MIN
                        } else {
                            -(mag as i64)
                        }));
                    }
                } else if plus {
                    if mag <= 0x7f {
                        return Ok(AnyNum::I8(mag as i8));
                    } else if mag <= 0x7fff {
                        return Ok(AnyNum::I16(mag as i16));
                    } else if mag <= 0x7fff_ffff {
                        return Ok(AnyNum::I32(mag as i32));
                    } else if mag <= 0x7fff_ffff_ffff_ffff {
                        return Ok(AnyNum::I64(mag as i64));
                    }
                } else {
                    if mag <= 0xff {
                        return Ok(AnyNum::U8(mag as u8));
                    } else if mag <= 0xffff {
                        return Ok(AnyNum::U16(mag as u16));
                    } else if mag <= 0xffff_ffff {
                        return Ok(AnyNum::U32(mag as u32));
                    } else {
                        return Ok(AnyNum::U64(mag));
                    }
                }
            }
        }
        self.restore(snap);
        let start = self.pos;
        let tok = self.float_token();
        if self.pos == start {
            return err(ErrorCode::ExpectedFloat, p.line, p.col);
        }
        proof {
            if spec_dotted_literal(old(self).rem()) {
                let s = old(self).rem();
                assert forall|i: int| 0 <= i < s.len() implies spec_is_float_char(
                    #[trigger] s[i],
                ) by {
                    if s.len() > 0 && (s[0] == '+' || s[0] == '-') {
                        if i > 0 {
                            assert(s.skip(1)[i - 1] == s[i]);
                        }
                    }
                }
                if self.pos < self.chars.len() {
                    lemma_rem_index(*old(self), self.pos - old(self).pos);
                    assert(spec_is_float_char(self.chars@[self.pos as int]));
                    assert(false);
                }
                let consumed = old(self).chars@.subrange(old(self).pos as int, self.pos as int);
                assert forall|i: int| 0 <= i < consumed.len() implies consumed[i] == s[i] by {
                    lemma_rem_index(*old(self), i);
                }
                assert(consumed =~= s);
                lemma_strip_float_id(s);
                assert(tok@ =~= s);
            }
        }
        match crate::outside::parse_f64_bits(tok.as_str()) {
            Some(db) => {
                let f32b = crate::outside::f64_bits_to_f32_bits(db);
                if crate::outside::f32_bits_to_f64_bits(f32b) == db {
                    Ok(AnyNum::F32(f32b))
                } else {
                    Ok(AnyNum::F64(db))
                }
            },
            None => err(ErrorCode::ExpectedFloat, p.line, p.col),
        }
    }
}

/// Under any of the literal hypotheses, the first character is significant.
proof fn lemma_any_num_head(b0: Bytes)
    requires
        b0.pos <= b0.chars@.len(),
    ensures
        forall|v: u64|
            b0.rem() == spec_dec_str(v as nat) ==> !spec_is_skippable(
                b0.chars@[b0.pos as int],
            ) && b0.chars@[b0.pos as int] != '-' && b0.chars@[b0.pos as int] != '+',
        forall|v: u64|
            b0.rem() == seq!['+'] + spec_dec_str(v as nat) ==> b0.chars@[b0.pos as int] == '+',
        forall|v: u64|
            b0.rem() == seq!['-'] + spec_dec_str(v as nat) ==> b0.chars@[b0.pos as int] == '-',
        spec_dotted_literal(b0.rem()) ==> !spec_is_skippable(b0.chars@[b0.pos as int]),
{
    assert forall|v: u64| b0.rem() == spec_dec_str(v as nat) implies !spec_is_skippable(
        b0.chars@[b0.pos as int],
    ) && b0.chars@[b0.pos as int] != '-' && b0.chars@[b0.pos as int] != '+' by {
        crate::digits::lemma_dec_str_digits(v as nat);
        lemma_rem_index(b0, 0);
    }
    assert forall|v: u64| b0.rem() == seq!['+'] + spec_dec_str(v as nat) implies b0.chars@[b0.pos as int]
        == '+' by {
        crate::digits::lemma_dec_str_digits(v as nat);
        lemma_rem_index(b0, 0);
    }
    assert forall|v: u64| b0.rem() == seq!['-'] + spec_dec_str(v as nat) implies b0.chars@[b0.pos as int]
        == '-' by {
        crate::digits::lemma_dec_str_digits(v as nat);
        lemma_rem_index(b0, 0);
    }
    if spec_dotted_literal(b0.rem()) {
        lemma_rem_index(b0, 0);
        assert(b0.chars@[b0.pos as int] == b0.rem()[0]);
    }
    if b0.rem().len() > 0 {
        lemma_rem_index(b0, 0);
        assert(b0.chars@[b0.pos as int] == b0.rem()[0]);
    }
}

/// Stripping separators from a simple float literal changes nothing.
proof fn lemma_strip_float_id(s: Seq<char>)
    requires
        crate::outside::spec_simple_float_literal(s),
    ensures
        spec_strip_unders(s) == s,
{
    assert forall|i: int| 0 <= i < s.len() implies s[i] != '_' by {
        if s.len() > 0 && (s[0] == '+' || s[0] == '-') {
            if i > 0 {
                assert(s.skip(1)[i - 1] == s[i]);
            }
        }
    }
    lemma_strip_unders_id(s);
}

/// After the sign and digit run of the any-number read, each literal
/// hypothesis pins the state: integers are fully consumed with the stated
/// magnitude; dotted literals stop the run at the dot.
#[verifier::rlimit(100)]
proof fn lemma_any_num_mid(
    b0: Bytes,
    b1: Bytes,
    neg: bool,
    plus: bool,
    has_digits: bool,
    run_start: int,
    mag_opt: Option<u64>,
    next_float: bool,
)
    requires
        b0.wf(),
        b1.wf(),
        b1.chars == b0.chars,
        b0.pos <= run_start <= b1.pos,
        // relation established by the executable path:
        forall|v: u64| b0.rem() == spec_dec_str(v as nat) ==> !neg && !plus && run_start == b0.pos,
        forall|v: u64|
            b0.rem() == seq!['+'] + spec_dec_str(v as nat) ==> !neg && plus && run_start == b0.pos
                + 1,
        forall|v: u64|
            b0.rem() == seq!['-'] + spec_dec_str(v as nat) ==> neg && !plus && run_start == b0.pos
                + 1,
        has_digits == (run_start < b0.chars@.len() && spec_is_digit(b0.chars@[run_start])),
        has_digits ==> {
            &&& forall|i: int|
                run_start <= i < b1.pos ==> spec_is_digit_run_char(#[trigger] b0.chars@[i])
            &&& (b1.pos == b0.chars@.len() || !spec_is_digit_run_char(
                b0.chars@[b1.pos as int],
            ))
            &&& (mag_opt matches Some(m) ==> m == spec_digits_val(
                spec_strip_unders(b0.chars@.subrange(run_start, b1.pos as int)),
            ))
            &&& (mag_opt is None ==> spec_digits_val(
                spec_strip_unders(b0.chars@.subrange(run_start, b1.pos as int)),
            ) > u64::MAX)
        },
        !has_digits ==> b1.pos == run_start,
        next_float == (b1.pos < b0.chars@.len() && (b0.chars@[b1.pos as int] == '.'
            || b0.chars@[b1.pos as int] == 'e' || b0.chars@[b1.pos as int] == 'E')),
        spec_dotted_literal(b0.rem()) ==> run_start == b0.pos + (if b0.rem()[0] == '+'
            || b0.rem()[0] == '-' {
            1int
        } else {
            0int
        }),
        spec_digit_run_lit(b0.rem()) ==> !neg && !plus && run_start == b0.pos,
        b0.rem().len() > 0 && b0.rem()[0] == '+' && spec_digit_run_lit(b0.rem().skip(1)) ==> !neg
            && plus && run_start == b0.pos + 1,
        b0.rem().len() > 0 && b0.rem()[0] == '-' && spec_digit_run_lit(b0.rem().skip(1)) ==> neg
            && !plus && run_start == b0.pos + 1,
    ensures
        forall|v: u64|
            b0.rem() == spec_dec_str(v as nat) ==> has_digits && !next_float && mag_opt
                == Some::<u64>(v) && b1.pos == b0.chars@.len(),
        forall|v: u64|
            v <= 0x7fff_ffff_ffff_ffff && b0.rem() == seq!['+'] + spec_dec_str(v as nat)
                ==> has_digits && !next_float && mag_opt == Some::<u64>(v) && b1.pos
                == b0.chars@.len(),
        forall|v: u64|
            v <= 0x8000_0000_0000_0000 && b0.rem() == seq!['-'] + spec_dec_str(v as nat)
                ==> has_digits && !next_float && mag_opt == Some::<u64>(v) && b1.pos
                == b0.chars@.len(),
        spec_dotted_literal(b0.rem()) ==> !(has_digits && !next_float && mag_opt is Some),
        spec_digit_run_lit(b0.rem()) && spec_run_val(b0.rem()) <= u64::MAX ==> has_digits
            && !next_float && mag_opt == Some::<u64>(spec_run_val(b0.rem()) as u64) && b1.pos
            == b0.chars@.len(),
        b0.rem().len() > 0 && b0.rem()[0] == '+' && spec_digit_run_lit(b0.rem().skip(1))
            && spec_run_val(b0.rem().skip(1)) <= 0x7fff_ffff_ffff_ffff ==> has_digits
            && !next_float && mag_opt == Some::<u64>(spec_run_val(b0.rem().skip(1)) as u64)
            && b1.pos == b0.chars@.len(),
        b0.rem().len() > 0 && b0.rem()[0] == '-' && spec_digit_run_lit(b0.rem().skip(1))
            && spec_run_val(b0.rem().skip(1)) <= 0x8000_0000_0000_0000 ==> has_digits
            && !next_float && mag_opt == Some::<u64>(spec_run_val(b0.rem().skip(1)) as u64)
            && b1.pos == b0.chars@.len(),
{
    let rm = b0.rem();
    if spec_signed_run_lit(rm) {
        lemma_rem_index(b0, 0);
        let soff: int = if rm[0] == '+' || rm[0] == '-' {
            1
        } else {
            0
        };
        let body = rm.skip(soff);
        if soff == 1 {
            lemma_rem_index(b0, 1);
            assert(body[0] == rm[1]);
        }
        if b1.pos < b0.chars@.len() {
            lemma_rem_index(b0, b1.pos - b0.pos);
            assert(body[b1.pos - b0.pos - soff] == rm[b1.pos - b0.pos]);
            assert(false);
        }
        let consumed = b0.chars@.subrange(run_start, b1.pos as int);
        assert forall|i: int| 0 <= i < consumed.len() implies consumed[i] == body[i] by {
            lemma_rem_index(b0, soff + i);
            assert(body[i] == rm[soff + i]);
        }
        assert(consumed =~= body);
        if spec_run_val(body) <= u64::MAX {
            assert(mag_opt == Some::<u64>(spec_run_val(body) as u64));
        }
    }
    assert forall|v: u64| b0.rem() == spec_dec_str(v as nat) implies has_digits && !next_float
        && mag_opt == Some::<u64>(v) && b1.pos == b0.chars@.len() by {
        let d = spec_dec_str(v as nat);
        crate::digits::lemma_dec_str_digits(v as nat);
        lemma_rem_index(b0, 0);
        if b1.pos < b0.chars@.len() {
            lemma_rem_index(b0, b1.pos - b0.pos);
            assert(spec_is_digit(d[b1.pos - run_start]));
            assert(false);
        }
        let consumed = b0.chars@.subrange(run_start, b1.pos as int);
        assert forall|i: int| 0 <= i < consumed.len() implies consumed[i] == d[i] by {
            lemma_rem_index(b0, run_start - b0.pos + i);
        }
        assert(consumed =~= d);
        lemma_strip_unders_id(d);
        crate::digits::lemma_digits_val_dec_str(v as nat);
    }
    assert forall|v: u64|
        v <= 0x7fff_ffff_ffff_ffff && b0.rem() == seq!['+'] + spec_dec_str(
            v as nat,
        ) implies has_digits && !next_float && mag_opt == Some::<u64>(v) && b1.pos
        == b0.chars@.len() by {
        let d = spec_dec_str(v as nat);
        crate::digits::lemma_dec_str_digits(v as nat);
        lemma_rem_index(b0, 0);
        lemma_rem_index(b0, 1);
        if b1.pos < b0.chars@.len() {
            lemma_rem_index(b0, b1.pos - b0.pos);
            assert(spec_is_digit(d[b1.pos - run_start]));
            assert(false);
        }
        let consumed = b0.chars@.subrange(run_start, b1.pos as int);
        assert forall|i: int| 0 <= i < consumed.len() implies consumed[i] == d[i] by {
            lemma_rem_index(b0, run_start - b0.pos + i);
        }
        assert(consumed =~= d);
        lemma_strip_unders_id(d);
        crate::digits::lemma_digits_val_dec_str(v as nat);
    }
    assert forall|v: u64|
        v <= 0x8000_0000_0000_0000 && b0.rem() == seq!['-'] + spec_dec_str(
            v as nat,
        ) implies has_digits && !next_float && mag_opt == Some::<u64>(v) && b1.pos
        == b0.chars@.len() by {
        let d = spec_dec_str(v as nat);
        crate::digits::lemma_dec_str_digits(v as nat);
        lemma_rem_index(b0, 0);
        lemma_rem_index(b0, 1);
        if b1.pos < b0.chars@.len() {
            lemma_rem_index(b0, b1.pos - b0.pos);
            assert(spec_is_digit(d[b1.pos - run_start]));
            assert(false);
        }
        let consumed = b0.chars@.subrange(run_start, b1.pos as int);
        assert forall|i: int| 0 <= i < consumed.len() implies consumed[i] == d[i] by {
            lemma_rem_index(b0, run_start - b0.pos + i);
        }
        assert(consumed =~= d);
        lemma_strip_unders_id(d);
        crate::digits::lemma_digits_val_dec_str(v as nat);
    }
    if spec_dotted_literal(b0.rem()) && has_digits && !next_float && mag_opt is Some {
        let s = b0.rem();
        lemma_rem_index(b0, 0);
        let signed = s[0] == '+' || s[0] == '-';
        let soff: int = if signed {
            1
        } else {
            0
        };
        let body = s.skip(soff);
        if b1.pos == b0.chars@.len() {
            // everything after the sign was consumed as digits and
            // separators, leaving no place for the dot
            let di = choose|i: int| 0 <= i < s.len() && s[i] == '.';
            assert(s[di] == '.');
            assert(di >= soff);
            assert(run_start <= b0.pos + di < b1.pos);
            assert(spec_is_digit_run_char(b0.chars@[b0.pos + di]));
            lemma_rem_index(b0, di);
            assert(false);
        } else {
            // the run stopped inside the literal's body at a character
            // that is neither a digit nor a separator: only the dot fits
            lemma_rem_index(b0, b1.pos - b0.pos);
            let stop = b0.chars@[b1.pos as int];
            assert(stop == s[b1.pos - b0.pos]);
            assert(b1.pos - b0.pos >= soff);
            assert(body[b1.pos - b0.pos - soff] == s[b1.pos - b0.pos]);
            assert(crate::ident::spec_is_digit(stop) || stop == '.');
            assert(stop == '.');
            assert(false);
        }
    }
}

/// Reads any value into the dynamic tree: the shape is inferred from the
/// text alone. Bare words become strings (or booleans, or an absent
/// option); numbers take the narrowest width the any-number read infers.
#[verifier::loop_isolation(false)]
#[verifier::rlimit(100)]
pub fn de_any(b: &mut Bytes) -> (r: Result<crate::value::Value, Error>)
    requires
        old(b).wf(),
    ensures
        final(b).wf(),
        final(b).chars == old(b).chars,
        final(b).pos >= old(b).pos,
        r is Ok ==> final(b).pos > old(b).pos,
        forall|v: u64|
            v <= 0x7fff_ffff_ffff_ffff && old(b).rem() == spec_dec_str(v as nat) ==> r
                == Ok::<crate::value::Value, Error>(
                crate::value::Value::Number(crate::value::Number::Integer(v as i64)),
            ) && final(b).pos == final(b).chars@.len(),
        spec_digit_run_lit(old(b).rem()) && spec_run_val(old(b).rem()) <= 0x7fff_ffff_ffff_ffff
            ==> r == Ok::<crate::value::Value, Error>(
            crate::value::Value::Number(
                crate::value::Number::Integer(spec_run_val(old(b).rem()) as i64),
            ),
        ) && final(b).pos == final(b).chars@.len(),
        old(b).rem().len() > 0 && old(b).rem()[0] == '-' && spec_digit_run_lit(
            old(b).rem().skip(1),
        ) && spec_run_val(old(b).rem().skip(1)) <= 0x8000_0000_0000_0000 ==> r == Ok::<
            crate::value::Value,
            Error,
        >(
            crate::value::Value::Number(
                crate::value::Number::Integer(
                    (-(spec_run_val(old(b).rem().skip(1)) as int)) as i64,
                ),
            ),
        ) && final(b).pos == final(b).chars@.len(),
        spec_dotted_literal(old(b).rem()) ==> (match r {
            Ok(v) => (match v {
                crate::value::Value::Number(n) => (match n {
                    crate::value::Number::Float(f) => f.bits() == crate::outside::f64_bits_of_dec(
                        old(b).rem(),
                    ),
                    _ => false,
                }),
                _ => false,
            }) && final(b).pos == final(b).chars@.len(),
            Err(_) => false,
        }),
        old(b).rem() == seq!['t', 'r', 'u', 'e'] ==> r == Ok::<crate::value::Value, Error>(
            crate::value::Value::Bool(true),
        ) && final(b).pos == final(b).chars@.len(),
        old(b).rem() == seq!['f', 'a', 'l', 's', 'e'] ==> r == Ok::<crate::value::Value, Error>(
            crate::value::Value::Bool(false),
        ) && final(b).pos == final(b).chars@.len(),
        old(b).rem() == seq!['N', 'o', 'n', 'e'] ==> r == Ok::<crate::value::Value, Error>(
            crate::value::Value::Option(None),
        ) && final(b).pos == final(b).chars@.len(),
    decreases old(b).chars@.len() - old(b).pos,
{
    proof {
        assert forall|v: u64| old(b).rem() == spec_dec_str(v as nat) implies spec_is_digit(
            old(b).chars@[old(b).pos as int],
        ) && old(b).pos < old(b).chars@.len() by {
            crate::digits::lemma_dec_str_digits(v as nat);
            lemma_rem_index(*old(b), 0);
        }
        if old(b).rem().len() > 0 {
            lemma_rem_index(*old(b), 0);
        }
        if spec_dotted_literal(old(b).rem()) {
            let rm = old(b).rem();
            if rm[0] == '+' || rm[0] == '-' {
            } else {
                assert(spec_is_digit(rm[0]) || rm[0] == '.');
            }
        }
    }
    b.skip_ws();
    let p = b.position();
    let c = match b.peek() {
        Some(c) => c,
        None => {
            return err(ErrorCode::Eof, p.line, p.col);
        },
    };
    if c == '"' {
        let s = de_string_token(b)?;
        Ok(crate::value::Value::String(s))
    } else if c == '\'' {
        let ch = de_char(b)?;
        Ok(crate::value::Value::Char(ch))
    } else if is_digit(c) || c == '+' || c == '-' || c == '.' {
        let n = b.any_num()?;
        Ok(crate::value::Value::Number(any_num_to_number(n)))
    } else if c == '[' {
        b.advance();
        let mut items: Vec<crate::value::Value> = Vec::new();
        loop
            invariant
                b.wf(),
                b.chars == old(b).chars,
                b.pos > old(b).pos,
            decreases b.chars@.len() - b.pos,
        {
            b.skip_ws();
            if b.consume(']') {
                break ;
            }
            let v = de_any(b)?;
            items.push(v);
            b.skip_ws();
            if !b.consume(',') {
                b.skip_ws();
                if b.consume(']') {
                    break ;
                }
                return err(ErrorCode::ExpectedArrayEnd, b.line, b.col);
            }
        }
        Ok(crate::value::Value::List(items))
    } else if c == '(' {
        b.advance();
        let mut items: Vec<crate::value::Value> = Vec::new();
        loop
            invariant
                b.wf(),
                b.chars == old(b).chars,
                b.pos > old(b).pos,
            decreases b.chars@.len() - b.pos,
        {
            b.skip_ws();
            if b.consume(')') {
                break ;
            }
            let v = de_any(b)?;
            items.push(v);
            b.skip_ws();
            if !b.consume(',') {
                b.skip_ws();
                if b.consume(')') {
                    break ;
                }
                return err(ErrorCode::ExpectedArrayEnd, b.line, b.col);
            }
        }
        if items.len() == 0 {
            Ok(crate::value::Value::Unit)
        } else {
            Ok(crate::value::Value::List(items))
        }
    } else if c == '{' {
        b.advance();
        let mut map = crate::value::ValueMap::new();
        loop
            invariant
                b.wf(),
                b.chars == old(b).chars,
                b.pos > old(b).pos,
                map.wf(),
            decreases b.chars@.len() - b.pos,
        {
            let ghost it0 = b.pos;
            b.skip_ws();
            if b.consume('}') {
                break ;
            }
            if b.consume('<') {
                let k = de_any(b)?;
                b.skip_ws();
                if !b.consume('>') {
                    return err(ErrorCode::ExpectedMapEnd, b.line, b.col);
                }
                let v = de_any(b)?;
                map.insert(k, v);
            } else {
                let k = de_any(b)?;
                b.skip_ws();
                if b.consume(':') {
                    let v = de_any(b)?;
                    map.insert(k, v);
                } else {
                    b.skip_ws();
                    if b.peek() == Some('<') {
                        let mut inner = crate::value::ValueMap::new();
                        while b.consume('<')
                            invariant
                                b.wf(),
                                b.chars == old(b).chars,
                                b.pos > old(b).pos,
                                b.pos > it0,
                                inner.wf(),
                            decreases b.chars@.len() - b.pos,
                        {
                            let ik = de_any(b)?;
                            b.skip_ws();
                            if !b.consume('>') {
                                return err(ErrorCode::ExpectedMapEnd, b.line, b.col);
                            }
                            let iv = de_any(b)?;
                            inner.insert(ik, iv);
                            b.skip_ws();
                        }
                        map.insert(k, crate::value::Value::Mapping(inner));
                    } else {
                        return err(ErrorCode::ExpectedMap, b.line, b.col);
                    }
                }
            }
            b.skip_ws();
            if !b.consume(',') {
                if !b.consume(';') {
                    b.skip_ws();
                    if b.consume('}') {
                        break ;
                    }
                    return err(ErrorCode::ExpectedMapEnd, b.line, b.col);
                }
            }
        }
        Ok(crate::value::Value::Mapping(map))
    } else if is_ident_first_char(c) {
        proof {
            if old(b).rem() == seq!['t', 'r', 'u', 'e'] || old(b).rem() == seq![
                'f',
                'a',
                'l',
                's',
                'e',
            ] || old(b).rem() == seq!['N', 'o', 'n', 'e'] {
                assert(!spec_is_skippable(old(b).chars@[old(b).pos as int]));
                assert(*b == *old(b));
            }
        }
        let w = match b.ident() {
            Ok(w) => w,
            Err(e) => {
                proof {
                    if old(b).rem() == seq!['t', 'r', 'u', 'e'] || old(b).rem() == seq![
                        'f',
                        'a',
                        'l',
                        's',
                        'e',
                    ] || old(b).rem() == seq!['N', 'o', 'n', 'e'] {
                        assert(false);
                    }
                }
                return Err(e);
            },
        };
        proof {
            reveal_strlit("true");
            reveal_strlit("false");
            reveal_strlit("None");
            if old(b).rem() == seq!['t', 'r', 'u', 'e'] || old(b).rem() == seq![
                'f',
                'a',
                'l',
                's',
                'e',
            ] || old(b).rem() == seq!['N', 'o', 'n', 'e'] {
                if w@.len() < old(b).rem().len() {
                    assert(b.pos < b.chars@.len());
                    lemma_rem_index(*old(b), w@.len() as int);
                    assert(b.chars@[b.pos as int] == old(b).rem()[w@.len() as int]);
                    assert(false);
                }
                assert forall|i: int| 0 <= i < old(b).rem().len() implies w@[i] == old(b).rem()[i] by {
                    lemma_rem_index(*old(b), i);
                }
                assert(w@ =~= old(b).rem());
            }
        }
        let is_true = crate::strutil::str_eq(w.as_str(), "true");
        let is_false = crate::strutil::str_eq(w.as_str(), "false");
        let is_none = crate::strutil::str_eq(w.as_str(), "None");
        proof {
            if old(b).rem() == seq!['t', 'r', 'u', 'e'] {
                assert(w@ == "true"@);
                assert(is_true);
            }
            if old(b).rem() == seq!['f', 'a', 'l', 's', 'e'] {
                assert(w@ == "false"@);
                assert(is_false);
                assert(!is_true);
            }
            if old(b).rem() == seq!['N', 'o', 'n', 'e'] {
                assert(w@ == "None"@);
                assert(is_none);
                assert(!is_true && !is_false);
            }
        }
        if is_true {
            Ok(crate::value::Value::Bool(true))
        } else if is_false {
            Ok(crate::value::Value::Bool(false))
        } else if is_none {
            Ok(crate::value::Value::Option(None))
        } else {
            Ok(crate::value::Value::String(w))
        }
    } else {
        err(ErrorCode::Eof, p.line, p.col)
    }
}

/// Widens an any-number classification into the dynamic number model:
/// integers into the signed 64-bit range, floats to binary64 bits, an
/// unsigned value beyond that range lossily to a float.
pub fn any_num_to_number(n: AnyNum) -> (r: crate::value::Number)
    ensures
        forall|v: u64|
            v <= 0x7fff_ffff_ffff_ffff && n == spec_classify_unsigned(v) ==> r
                == crate::value::Number::Integer(v as i64),
        forall|v: u64|
            v <= 0x7fff_ffff_ffff_ffff && n == spec_classify_plus(v) ==> r
                == crate::value::Number::Integer(v as i64),
        forall|v: u64|
            v <= 0x8000_0000_0000_0000 && n == spec_classify_minus(v) ==> r
                == crate::value::Number::Integer((-(v as int)) as i64),
        forall|db: u64|
            n == spec_classify_float(db) ==> (r matches crate::value::Number::Float(f) && f.bits()
                == db),
{
    match n {
        AnyNum::I8(v) => crate::value::Number::from_i64(v as i64),
        AnyNum::U8(v) => crate::value::Number::from_i64(v as i64),
        AnyNum::I16(v) => crate::value::Number::from_i64(v as i64),
        AnyNum::U16(v) => crate::value::Number::from_i64(v as i64),
        AnyNum::I32(v) => crate::value::Number::from_i64(v as i64),
        AnyNum::U32(v) => crate::value::Number::from_i64(v as i64),
        AnyNum::I64(v) => crate::value::Number::from_i64(v),
        AnyNum::U64(v) => crate::value::Number::from_u64(v),
        AnyNum::F32(bits) => crate::value::Number::Float(
            crate::value::Float::new(crate::outside::f32_bits_to_f64_bits(bits)),
        ),
        AnyNum::F64(bits) => crate::value::Number::Float(crate::value::Float::new(bits)),
    }
}

/// Reads a whole text into the dynamic value tree; everything after the
/// value may only be whitespace and comments.
pub fn decode_value(s: &str) -> (r: Result<crate::value::Value, Error>)
    requires
        s@.len() < usize::MAX,
    ensures
        forall|v: u64|
            v <= 0x7fff_ffff_ffff_ffff && s@ == spec_dec_str(v as nat) ==> r == Ok::<
                crate::value::Value,
                Error,
            >(crate::value::Value::Number(crate::value::Number::Integer(v as i64))),
        spec_digit_run_lit(s@) && spec_run_val(s@) <= 0x7fff_ffff_ffff_ffff ==> r == Ok::<
            crate::value::Value,
            Error,
        >(crate::value::Value::Number(crate::value::Number::Integer(spec_run_val(s@) as i64))),
        s@.len() > 0 && s@[0] == '-' && spec_digit_run_lit(s@.skip(1)) && spec_run_val(s@.skip(1))
            <= 0x8000_0000_0000_0000 ==> r == Ok::<crate::value::Value, Error>(
            crate::value::Value::Number(
                crate::value::Number::Integer((-(spec_run_val(s@.skip(1)) as int)) as i64),
            ),
        ),
        spec_dotted_literal(s@) ==> (match r {
            Ok(v) => (match v {
                crate::value::Value::Number(n) => (match n {
                    crate::value::Number::Float(f) => f.bits() == crate::outside::f64_bits_of_dec(
                        s@,
                    ),
                    _ => false,
                }),
                _ => false,
            }),
            Err(_) => false,
        }),
        s@ == seq!['t', 'r', 'u', 'e'] ==> r == Ok::<crate::value::Value, Error>(
            crate::value::Value::Bool(true),
        ),
        s@ == seq!['f', 'a', 'l', 's', 'e'] ==> r == Ok::<crate::value::Value, Error>(
            crate::value::Value::Bool(false),
        ),
        s@ == seq!['N', 'o', 'n', 'e'] ==> r == Ok::<crate::value::Value, Error>(
            crate::value::Value::Option(None),
        ),
{
    let mut b = Bytes::new(s);
    proof {
        assert(b.rem() =~= s@);
    }
    let v = de_any(&mut b)?;
    b.skip_ws();
    if !b.at_eof() {
        return err(ErrorCode::TrailingCharacters, b.line, b.col);
    }
    Ok(v)
}

/// Whether `s` is a literal the any-number read accepts whole: an
/// optionally signed run of digits (separators between them allowed)
/// within the matching 64-bit range, or a dotted decimal literal.
pub open spec fn spec_any_num_literal(s: Seq<char>) -> bool {
    ||| (spec_digit_run_lit(s) && spec_run_val(s) <= u64::MAX)
    ||| (s.len() > 0 && s[0] == '+' && spec_digit_run_lit(s.skip(1)) && spec_run_val(s.skip(1))
        <= 0x7fff_ffff_ffff_ffff)
    ||| (s.len() > 0 && s[0] == '-' && spec_digit_run_lit(s.skip(1)) && spec_run_val(s.skip(1))
        <= 0x8000_0000_0000_0000)
    ||| spec_dotted_literal(s)
}

/// Reads `s` whole with numeric-precision inference: the narrowest
/// unsigned width without a sign, the narrowest signed width with one, and
/// for dotted literals binary32 exactly when it loses nothing.
pub fn de_any_number(s: &str) -> (r: AnyNum)
    requires
        s@.len() < usize::MAX,
        spec_any_num_literal(s@),
    ensures
        spec_digit_run_lit(s@) && spec_run_val(s@) <= u64::MAX ==> r == spec_classify_unsigned(
            spec_run_val(s@) as u64,
        ),
        s@.len() > 0 && s@[0] == '+' && spec_digit_run_lit(s@.skip(1)) && spec_run_val(s@.skip(1))
            <= 0x7fff_ffff_ffff_ffff ==> r == spec_classify_plus(spec_run_val(s@.skip(1)) as u64),
        s@.len() > 0 && s@[0] == '-' && spec_digit_run_lit(s@.skip(1)) && spec_run_val(s@.skip(1))
            <= 0x8000_0000_0000_0000 ==> r == spec_classify_minus(spec_run_val(s@.skip(1)) as u64),
        spec_dotted_literal(s@) ==> r == spec_classify_float(crate::outside::f64_bits_of_dec(s@)),
{
    let mut b = Bytes::new(s);
    proof {
        assert(b.rem() =~= s@);
    }
    match b.any_num() {
        Ok(n) => n,
        Err(_) => {
            proof {
                assert(false);
            }
            AnyNum::U8(0)
        },
    }
}

/// Sets `name` to `value` among struct fields: the first entry already
/// keyed by `name` is overwritten in place, except that a sequence-typed
/// field extends the sequence already stored (repeated keys accumulate);
/// a fresh key is appended at the end.
pub fn set_field(fields: &mut Vec<(String, Item)>, name: String, value: Item, is_list_field: bool)
    ensures
        ({
            ||| {
                &&& forall|j: int|
                    0 <= j < old(fields)@.len() ==> (#[trigger] old(fields)@[j]).0@ != name@
                &&& final(fields)@ == old(fields)@ + seq![(name, value)]
            }
            ||| exists|j: int|
                {
                    &&& 0 <= j < old(fields)@.len()
                    &&& (#[trigger] old(fields)@[j]).0@ == name@
                    &&& forall|k: int| 0 <= k < j ==> (#[trigger] old(fields)@[k]).0@ != name@
                    &&& if is_list_field && (old(fields)@[j].1 matches Item::List(_)) && (
                    value matches Item::List(_)) {
                        &&& final(fields)@.len() == old(fields)@.len()
                        &&& (forall|k: int|
                            0 <= k < old(fields)@.len() && k != j ==> final(fields)@[k] == old(fields)@[k])
                        &&& final(fields)@[j].0 == old(fields)@[j].0
                        &&& (final(fields)@[j].1 matches Item::List(zs) && zs@ == old(fields)@[j].1->List_0@ + value->List_0@)
                    } else {
                        final(fields)@ == old(fields)@.update(j, (old(fields)@[j].0, value))
                    }
                }
        }),
{
    let n = fields.len();
    let mut j: usize = 0;
    while j < n
        invariant
            j <= n,
            n == fields@.len(),
            fields@ == old(fields)@,
            forall|k: int| 0 <= k < j ==> (#[trigger] fields@[k]).0@ != name@,
        decreases n - j,
    {
        if crate::strutil::str_eq(fields[j].0.as_str(), name.as_str()) {
            let (k, old_v) = fields.remove(j);
            let merge = is_list_field && (matches!(old_v, Item::List(_)) && matches!(
                value,
                Item::List(_),
            ));
            if merge {
                let ghost ov = old_v;
                let ghost nv = value;
                if let (Item::List(mut xs), Item::List(ys)) = (old_v, value) {
                    let ghost xs0 = xs@;
                    let ghost ys0 = ys@;
                    let mut ys = ys;
                    while ys.len() > 0
                        invariant
                            ys0.len() >= ys@.len(),
                            ys@ == ys0.skip(ys0.len() - ys@.len()),
                            xs@ == xs0 + ys0.take(ys0.len() - ys@.len()),
                        decreases ys@.len(),
                    {
                        let ghost c = ys0.len() - ys@.len();
                        let e = ys.remove(0);
                        xs.push(e);
                        proof {
                            assert(ys@ =~= ys0.skip(c + 1));
                            assert(xs@ =~= xs0 + ys0.take(c + 1));
                        }
                    }
                    proof {
                        assert(ys0.take(ys0.len() as int) =~= ys0);
                    }
                    fields.insert(j, (k, Item::List(xs)));
                    proof {
                        assert(forall|m: int|
                            0 <= m < old(fields)@.len() && m != j ==> final(fields)@[m] == old(fields)@[m]);
                    }
                    return ;
                } else {
                    proof {
                        assert(false);
                    }
                    return ;
                }
            }
            fields.insert(j, (k, value));
            proof {
                assert(fields@ =~= old(fields)@.update(j as int, (old(fields)@[j as int].0, value)));
            }
            return ;
        }
        j += 1;
    }
    fields.push((name, value));
}

/// Sets `key` to `value` among map entries, with the same overwrite and
/// sequence-accumulation rule as [`set_field`], keys compared by
/// [`spec_item_eq`][crate::item::spec_item_eq].
pub fn set_entry(entries: &mut Vec<(Item, Item)>, key: Item, value: Item, is_list_value: bool)
    ensures
        ({
            ||| {
                &&& forall|j: int|
                    0 <= j < old(entries)@.len() ==> !crate::item::spec_item_eq(
                        (#[trigger] old(entries)@[j]).0,
                        key,
                    )
                &&& final(entries)@ == old(entries)@ + seq![(key, value)]
            }
            ||| exists|j: int|
                {
                    &&& 0 <= j < old(entries)@.len()
                    &&& crate::item::spec_item_eq((#[trigger] old(entries)@[j]).0, key)
                    &&& forall|k: int|
                        0 <= k < j ==> !crate::item::spec_item_eq(
                            (#[trigger] old(entries)@[k]).0,
                            key,
                        )
                    &&& if is_list_value && (old(entries)@[j].1 matches Item::List(_)) && (
                    value matches Item::List(_)) {
                        &&& final(entries)@.len() == old(entries)@.len()
                        &&& (forall|k: int|
                            0 <= k < old(entries)@.len() && k != j ==> final(entries)@[k] == old(entries)@[k])
                        &&& final(entries)@[j].0 == old(entries)@[j].0
                        &&& (final(entries)@[j].1 matches Item::List(zs) && zs@ == old(entries)@[j].1->List_0@ + value->List_0@)
                    } else {
                        final(entries)@ == old(entries)@.update(j, (old(entries)@[j].0, value))
                    }
                }
        }),
{
    let n = entries.len();
    let mut j: usize = 0;
    while j < n
        invariant
            j <= n,
            n == entries@.len(),
            entries@ == old(entries)@,
            forall|k: int| 0 <= k < j ==> !crate::item::spec_item_eq((#[trigger] entries@[k]).0, key),
        decreases n - j,
    {
        if crate::item::item_eq(&entries[j].0, &key) {
            let (k, old_v) = entries.remove(j);
            let merge = is_list_value && (matches!(old_v, Item::List(_)) && matches!(
                value,
                Item::List(_),
            ));
            if merge {
                if let (Item::List(mut xs), Item::List(ys)) = (old_v, value) {
                    let ghost xs0 = xs@;
                    let ghost ys0 = ys@;
                    let mut ys = ys;
                    while ys.len() > 0
                        invariant
                            ys0.len() >= ys@.len(),
                            ys@ == ys0.skip(ys0.len() - ys@.len()),
                            xs@ == xs0 + ys0.take(ys0.len() - ys@.len()),
                        decreases ys@.len(),
                    {
                        let ghost c = ys0.len() - ys@.len();
                        let e = ys.remove(0);
                        xs.push(e);
                        proof {
                            assert(ys@ =~= ys0.skip(c + 1));
                            assert(xs@ =~= xs0 + ys0.take(c + 1));
                        }
                    }
                    proof {
                        assert(ys0.take(ys0.len() as int) =~= ys0);
                    }
                    entries.insert(j, (k, Item::List(xs)));
                    proof {
                        assert(forall|m: int|
                            0 <= m < old(entries)@.len() && m != j ==> final(entries)@[m] == old(entries)@[m]);
                    }
                    return ;
                } else {
                    proof {
                        assert(false);
                    }
                    return ;
                }
            }
            entries.insert(j, (k, value));
            proof {
                assert(entries@ =~= old(entries)@.update(
                    j as int,
                    (old(entries)@[j as int].0, value),
                ));
            }
            return ;
        }
        j += 1;
    }
    entries.push((key, value));
}

/// Reads `[` elements `]` after the opening bracket was consumed.
#[verifier::loop_isolation(false)]
fn de_seq_items(b: &mut Bytes, sub: &Shape) -> (r: Result<Vec<Item>, Error>)
    requires
        old(b).wf(),
    ensures
        final(b).wf(),
        final(b).chars == old(b).chars,
        final(b).pos >= old(b).pos,
        old(b).rem() == seq![']'] ==> r is Ok && final(b).pos == final(b).chars@.len(),
        match r {
            Ok(v) => old(b).rem() == seq![']'] ==> v@ == Seq::<Item>::empty(),
            Err(_) => true,
        },
    decreases old(b).chars@.len() - old(b).pos, *sub, 1int,
{
    proof {
        if old(b).rem() == seq![']'] {
            lemma_rem_index(*old(b), 0);
        }
    }
    let mut items: Vec<Item> = Vec::new();
    loop
        invariant
            b.wf(),
            b.chars == old(b).chars,
            b.pos >= old(b).pos,
            old(b).rem() == seq![']'] ==> b.pos == old(b).pos && items@ == Seq::<Item>::empty(),
        decreases b.chars@.len() - b.pos,
    {
        let ghost it0 = b.pos;
        b.skip_ws();
        if b.consume(']') {
            return Ok(items);
        }
        let v = de_value(b, sub)?;
        items.push(v);
        b.skip_ws();
        if !b.consume(',') {
            if !b.consume(';') {
                b.skip_ws();
                if b.consume(']') {
                    return Ok(items);
                }
                return err(ErrorCode::ExpectedArrayEnd, b.line, b.col);
            }
        }
    }
}

/// Reads `(` members `)` after the opening parenthesis was consumed: one
/// value per member shape, commas between, a trailing comma allowed.
#[verifier::loop_isolation(false)]
fn de_tuple_items(b: &mut Bytes, subs: &Vec<Shape>) -> (r: Result<Vec<Item>, Error>)
    requires
        old(b).wf(),
    ensures
        final(b).wf(),
        final(b).chars == old(b).chars,
        final(b).pos >= old(b).pos,
        subs@.len() == 0 && old(b).rem() == seq![')'] ==> r is Ok && final(b).pos == final(b).chars@.len(),
        match r {
            Ok(v) => subs@.len() == 0 && old(b).rem() == seq![')'] ==> v@ == Seq::<Item>::empty(),
            Err(_) => true,
        },
    decreases old(b).chars@.len() - old(b).pos, subs@, 1int,
{
    proof {
        if old(b).rem() == seq![')'] {
            lemma_rem_index(*old(b), 0);
        }
    }
    let mut items: Vec<Item> = Vec::new();
    let n = subs.len();
    let mut i: usize = 0;
    while i < n
        invariant
            i <= n,
            n == subs@.len(),
            b.wf(),
            b.chars == old(b).chars,
            b.pos >= old(b).pos,
            n == 0 ==> *b == *old(b) && items@ == Seq::<Item>::empty(),
        decreases n - i,
    {
        proof {
            assert(decreases_to!(subs@ => subs@[i as int]));
        }
        let v = de_value(b, &subs[i])?;
        items.push(v);
        b.skip_ws();
        if i + 1 < n {
            if !b.consume(',') {
                return err(ErrorCode::ExpectedArrayEnd, b.line, b.col);
            }
        } else {
            b.consume(',');
        }
        i += 1;
    }
    b.skip_ws();
    if !b.consume(')') {
        return err(ErrorCode::ExpectedArrayEnd, b.line, b.col);
    }
    Ok(items)
}

/// Reads struct-body entries through the closing `}` (the `{` was
/// consumed): `key: value` and `<key> value` entries in either separator
/// style, the nested bracketed sugar for map-shaped fields, repeated keys
/// merged by [`set_field`], unknown keys read dynamically and dropped.
#[verifier::loop_isolation(false)]
fn de_struct_fields(b: &mut Bytes, fields: &Vec<FieldShape>) -> (r: Result<
    Vec<(String, Item)>,
    Error,
>)
    requires
        old(b).wf(),
    ensures
        final(b).wf(),
        final(b).chars == old(b).chars,
        final(b).pos >= old(b).pos,
    decreases old(b).chars@.len() - old(b).pos, fields@, 1int,
{
    let mut out: Vec<(String, Item)> = Vec::new();
    loop
        invariant
            b.wf(),
            b.chars == old(b).chars,
            b.pos >= old(b).pos,
        decreases b.chars@.len() - b.pos,
    {
        let ghost it0 = b.pos;
        b.skip_ws();
        if b.consume('}') {
            return Ok(out);
        }
        let bracketed = b.consume('<');
        b.skip_ws();
        let key = b.raw_ident()?;
        if bracketed {
            b.skip_ws();
            if !b.consume('>') {
                return err(ErrorCode::ExpectedMapEnd, b.line, b.col);
            }
        }
        // find the field's shape
        let mut found: Option<usize> = None;
        let nf = fields.len();
        let mut fj: usize = 0;
        while fj < nf
            invariant
                fj <= nf,
                nf == fields@.len(),
                found matches Some(ix) ==> ix < nf,
            decreases nf - fj,
        {
            if crate::strutil::str_eq(fields[fj].name.as_str(), key.as_str()) {
                found = Some(fj);
                fj = nf;
            } else {
                fj += 1;
            }
        }
        b.skip_ws();
        let colon = if bracketed {
            false
        } else {
            if !b.consume(':') {
                if b.peek() != Some('<') {
                    return err(ErrorCode::ExpectedMap, b.line, b.col);
                }
                false
            } else {
                true
            }
        };
        match found {
            Some(ix) => {
                proof {
                    assert(decreases_to!(fields@ => fields@[ix as int]));
                    assert(decreases_to!(fields@[ix as int] => fields@[ix as int].shape));
                }
                let fshape = &fields[ix].shape;
                if !bracketed && !colon {
                    // nested bracketed sugar: the field's value is a map
                    // built from `<key> value` pairs
                    match fshape {
                        Shape::Mapping(ks, vs) => {
                            let mut inner: Vec<(Item, Item)> = Vec::new();
                            while b.consume('<')
                                invariant
                                    b.wf(),
                                    b.chars == old(b).chars,
                                    b.pos > it0,
                                    b.pos >= old(b).pos,
                                decreases b.chars@.len() - b.pos,
                            {
                                proof {
                                    assert(decreases_to!(fields@[ix as int].shape => *ks));
                                    assert(decreases_to!(fields@[ix as int].shape => *vs));
                                }
                                let ik = de_value(b, ks)?;
                                b.skip_ws();
                                if !b.consume('>') {
                                    return err(ErrorCode::ExpectedMapEnd, b.line, b.col);
                                }
                                let iv = de_value(b, vs)?;
                                let acc = matches!(&**vs, Shape::List(_));
                                set_entry(&mut inner, ik, iv, acc);
                                b.skip_ws();
                            }
                            set_field(&mut out, key, Item::Mapping(inner), false);
                        },
                        _ => {
                            return err(ErrorCode::ExpectedMap, b.line, b.col);
                        },
                    }
                } else {
                    let v = de_value(b, fshape)?;
                    let is_list = matches!(fshape, Shape::List(_));
                    set_field(&mut out, key, v, is_list);
                }
            },
            None => {
                // unknown key: read the value dynamically and drop it
                if !bracketed && !colon {
                    return err(ErrorCode::ExpectedMap, b.line, b.col);
                }
                let _dropped = de_any(b)?;
            },
        }
        b.skip_ws();
        if !b.consume(',') {
            if !b.consume(';') {
                b.skip_ws();
                if b.consume('}') {
                    return Ok(out);
                }
                return err(ErrorCode::ExpectedMapEnd, b.line, b.col);
            }
        }
    }
}

/// Reads map entries through the closing `}` (the `{` was consumed):
/// `key: value` and `<key> value` entries, the nested bracketed sugar, and
/// repeated keys merged by [`set_entry`].
#[verifier::loop_isolation(false)]
fn de_map_entries(b: &mut Bytes, mshape: &Shape) -> (r: Result<Vec<(Item, Item)>, Error>)
    requires
        old(b).wf(),
        *mshape matches Shape::Mapping(_, _),
    ensures
        final(b).wf(),
        final(b).chars == old(b).chars,
        final(b).pos >= old(b).pos,
        old(b).rem() == seq!['}'] ==> r is Ok && final(b).pos == final(b).chars@.len(),
        match r {
            Ok(v) => old(b).rem() == seq!['}'] ==> v@ == Seq::<(Item, Item)>::empty(),
            Err(_) => true,
        },
    decreases old(b).chars@.len() - old(b).pos, *mshape, 1int,
{
    proof {
        if old(b).rem() == seq!['}'] {
            lemma_rem_index(*old(b), 0);
        }
    }
    let mut out: Vec<(Item, Item)> = Vec::new();
    loop
        invariant
            b.wf(),
            b.chars == old(b).chars,
            b.pos >= old(b).pos,
            *mshape matches Shape::Mapping(_, _),
            old(b).rem() == seq!['}'] ==> b.pos == old(b).pos && out@ == Seq::<
                (Item, Item),
            >::empty(),
        decreases b.chars@.len() - b.pos,
    {
        let ghost it0 = b.pos;
        b.skip_ws();
        if b.consume('}') {
            return Ok(out);
        }
        let (ks, vs) = match mshape {
            Shape::Mapping(ks, vs) => (ks, vs),
            _ => {
                proof {
                    assert(false);
                }
                return err(ErrorCode::ExpectedMap, b.line, b.col);
            },
        };
        proof {
            assert(decreases_to!(*mshape => (*mshape)->Mapping_0));
            assert(decreases_to!(*mshape => (*mshape)->Mapping_1));
        }
        let is_list_value = matches!(&**vs, Shape::List(_));
        if b.consume('<') {
            let k = de_value(b, ks)?;
            b.skip_ws();
            if !b.consume('>') {
                return err(ErrorCode::ExpectedMapEnd, b.line, b.col);
            }
            let v = de_value(b, vs)?;
            set_entry(&mut out, k, v, is_list_value);
        } else {
            let k = de_value(b, ks)?;
            b.skip_ws();
            if b.consume(':') {
                let v = de_value(b, vs)?;
                set_entry(&mut out, k, v, is_list_value);
            } else {
                b.skip_ws();
                if b.peek() != Some('<') {
                    return err(ErrorCode::ExpectedMap, b.line, b.col);
                }
                // nested bracketed sugar: the entry's value is itself a map
                match &**vs {
                    Shape::Mapping(iks, ivs) => {
                        let mut inner: Vec<(Item, Item)> = Vec::new();
                        while b.consume('<')
                            invariant
                                b.wf(),
                                b.chars == old(b).chars,
                                b.pos > it0,
                                b.pos >= old(b).pos,
                            decreases b.chars@.len() - b.pos,
                        {
                            proof {
                                assert(**vs == (*mshape)->Mapping_1);
                                assert(decreases_to!(*mshape => (*mshape)->Mapping_1));
                                assert(decreases_to!((*mshape)->Mapping_1 => (**vs)->Mapping_0));
                                assert(decreases_to!((*mshape)->Mapping_1 => (**vs)->Mapping_1));
                            }
                            let ik = de_value(b, iks)?;
                            b.skip_ws();
                            if !b.consume('>') {
                                return err(ErrorCode::ExpectedMapEnd, b.line, b.col);
                            }
                            let iv = de_value(b, ivs)?;
                            let acc = matches!(&**ivs, Shape::List(_));
                            set_entry(&mut inner, ik, iv, acc);
                            b.skip_ws();
                        }
                        set_entry(&mut out, k, Item::Mapping(inner), false);
                    },
                    _ => {
                        return err(ErrorCode::ExpectedMap, b.line, b.col);
                    },
                }
            }
        }
        b.skip_ws();
        if !b.consume(',') {
            if !b.consume(';') {
                b.skip_ws();
                if b.consume('}') {
                    return Ok(out);
                }
                return err(ErrorCode::ExpectedMapEnd, b.line, b.col);
            }
        }
    }
}

/// Re-binds a dynamic value into a typed shape: the same shape families as
/// the text reader, driven by the tree instead of tokens. No text is being
/// scanned, so failures carry the generic mismatch kind with no position.
/// An integer re-binds into any numeric shape whose range holds it; an
/// option accepts only option values here; an enum accepts its variants'
/// bare names.
#[verifier::loop_isolation(false)]
pub fn into_rust(value: &crate::value::Value, shape: &Shape) -> (r: Result<Item, Error>)
    ensures
        *shape == Shape::Bool ==> forall|bv: bool|
            *value == crate::value::Value::Bool(bv) ==> r == Ok::<Item, Error>(Item::Bool(bv)),
        *shape == Shape::Char ==> forall|cv: char|
            *value == crate::value::Value::Char(cv) ==> r == Ok::<Item, Error>(Item::Char(cv)),
        *shape == Shape::Unit && *value == crate::value::Value::Unit ==> r == Ok::<Item, Error>(
            Item::Unit,
        ),
        *shape == Shape::I64 ==> forall|iv: i64|
            *value == crate::value::Value::Number(crate::value::Number::Integer(iv)) ==> r == Ok::<
                Item,
                Error,
            >(Item::I64(iv)),
        *shape == Shape::U8 ==> forall|iv: i64|
            *value == crate::value::Value::Number(crate::value::Number::Integer(iv)) ==> (0 <= iv
                <= 0xff ==> r == Ok::<Item, Error>(Item::U8(iv as u8))) && (!(0 <= iv <= 0xff)
                ==> r is Err),
        *shape == Shape::U16 ==> forall|iv: i64|
            *value == crate::value::Value::Number(crate::value::Number::Integer(iv)) ==> (0 <= iv
                <= 0xffff ==> r == Ok::<Item, Error>(Item::U16(iv as u16))) && (!(0 <= iv
                <= 0xffff) ==> r is Err),
        *shape == Shape::U32 ==> forall|iv: i64|
            *value == crate::value::Value::Number(crate::value::Number::Integer(iv)) ==> (0 <= iv
                <= 0xffff_ffff ==> r == Ok::<Item, Error>(Item::U32(iv as u32))) && (!(0 <= iv
                <= 0xffff_ffff) ==> r is Err),
        *shape == Shape::U64 ==> forall|iv: i64|
            *value == crate::value::Value::Number(crate::value::Number::Integer(iv)) ==> (0 <= iv
                ==> r == Ok::<Item, Error>(Item::U64(iv as u64))) && (iv < 0 ==> r is Err),
        *shape == Shape::I8 ==> forall|iv: i64|
            *value == crate::value::Value::Number(crate::value::Number::Integer(iv)) ==> (-0x80
                <= iv <= 0x7f ==> r == Ok::<Item, Error>(Item::I8(iv as i8))) && (!(-0x80 <= iv
                <= 0x7f) ==> r is Err),
        *shape == Shape::I16 ==> forall|iv: i64|
            *value == crate::value::Value::Number(crate::value::Number::Integer(iv)) ==> (-0x8000
                <= iv <= 0x7fff ==> r == Ok::<Item, Error>(Item::I16(iv as i16))) && (!(-0x8000
                <= iv <= 0x7fff) ==> r is Err),
        *shape == Shape::I32 ==> forall|iv: i64|
            *value == crate::value::Value::Number(crate::value::Number::Integer(iv)) ==> (
            -0x8000_0000 <= iv <= 0x7fff_ffff ==> r == Ok::<Item, Error>(Item::I32(iv as i32)))
                && (!(-0x8000_0000 <= iv <= 0x7fff_ffff) ==> r is Err),
        (match *value {
            crate::value::Value::Number(n) => *shape == Shape::F64 ==> (match n {
                crate::value::Number::Float(f) => r == Ok::<Item, Error>(Item::F64(f.bits())),
                crate::value::Number::Integer(_) => true,
            }),
            _ => true,
        }),
        (match *value {
            crate::value::Value::String(sv) => *shape == Shape::Str ==> (r matches Ok(it)
                && it matches Item::Str(w) && w@ == sv@),
            _ => true,
        }),
        (match *shape {
            Shape::UnitStruct(n) => *value == crate::value::Value::Unit ==> r == Ok::<Item, Error>(
                Item::UnitStruct(n),
            ),
            _ => true,
        }),
        (*shape matches Shape::Option(_)) && *value == crate::value::Value::Option(None) ==> r
            == Ok::<Item, Error>(Item::Option(None)),
        (*shape == Shape::U8 || *shape == Shape::U16 || *shape == Shape::U32 || *shape
            == Shape::U64 || *shape == Shape::I8 || *shape == Shape::I16 || *shape == Shape::I32
            || *shape == Shape::I64 || *shape == Shape::F32 || *shape == Shape::F64) && !(
        *value matches crate::value::Value::Number(_)) ==> r is Err,
    decreases *value, *shape,
{
    let mism = |what: &str| -> Error {
        Error {
            code: ErrorCode::Mismatch(String::from_str(what)),
            position: Position { line: 0, col: 0 },
        }
    };
    match shape {
        Shape::Bool => match value {
            crate::value::Value::Bool(bv) => Ok(Item::Bool(*bv)),
            _ => Err(mism("expected a boolean")),
        },
        Shape::Char => match value {
            crate::value::Value::Char(cv) => Ok(Item::Char(*cv)),
            _ => Err(mism("expected a char")),
        },
        Shape::U8 => match value {
            crate::value::Value::Number(crate::value::Number::Integer(iv)) => {
                if 0 <= *iv && *iv <= 0xff {
                    Ok(Item::U8(*iv as u8))
                } else {
                    Err(mism("integer out of range"))
                }
            },
            _ => Err(mism("expected a number")),
        },
        Shape::U16 => match value {
            crate::value::Value::Number(crate::value::Number::Integer(iv)) => {
                if 0 <= *iv && *iv <= 0xffff {
                    Ok(Item::U16(*iv as u16))
                } else {
                    Err(mism("integer out of range"))
                }
            },
            _ => Err(mism("expected a number")),
        },
        Shape::U32 => match value {
            crate::value::Value::Number(crate::value::Number::Integer(iv)) => {
                if 0 <= *iv && *iv <= 0xffff_ffff {
                    Ok(Item::U32(*iv as u32))
                } else {
                    Err(mism("integer out of range"))
                }
            },
            _ => Err(mism("expected a number")),
        },
        Shape::U64 => match value {
            crate::value::Value::Number(crate::value::Number::Integer(iv)) => {
                if 0 <= *iv {
                    Ok(Item::U64(*iv as u64))
                } else {
                    Err(mism("integer out of range"))
                }
            },
            _ => Err(mism("expected a number")),
        },
        Shape::I8 => match value {
            crate::value::Value::Number(crate::value::Number::Integer(iv)) => {
                if -0x80 <= *iv && *iv <= 0x7f {
                    Ok(Item::I8(*iv as i8))
                } else {
                    Err(mism("integer out of range"))
                }
            },
            _ => Err(mism("expected a number")),
        },
        Shape::I16 => match value {
            crate::value::Value::Number(crate::value::Number::Integer(iv)) => {
                if -0x8000 <= *iv && *iv <= 0x7fff {
                    Ok(Item::I16(*iv as i16))
                } else {
                    Err(mism("integer out of range"))
                }
            },
            _ => Err(mism("expected a number")),
        },
        Shape::I32 => match value {
            crate::value::Value::Number(crate::value::Number::Integer(iv)) => {
                if -0x8000_0000 <= *iv && *iv <= 0x7fff_ffff {
                    Ok(Item::I32(*iv as i32))
                } else {
                    Err(mism("integer out of range"))
                }
            },
            _ => Err(mism("expected a number")),
        },
        Shape::I64 => match value {
            crate::value::Value::Number(crate::value::Number::Integer(iv)) => Ok(Item::I64(*iv)),
            _ => Err(mism("expected a number")),
        },
        Shape::F64 => match value {
            crate::value::Value::Number(n) => Ok(Item::F64(number_to_f64_bits(*n))),
            _ => Err(mism("expected a number")),
        },
        Shape::F32 => match value {
            crate::value::Value::Number(n) => Ok(
                Item::F32(crate::outside::f64_bits_to_f32_bits(number_to_f64_bits(*n))),
            ),
            _ => Err(mism("expected a number")),
        },
        Shape::Str => match value {
            crate::value::Value::String(sv) => Ok(Item::Str(sv.clone())),
            _ => Err(mism("expected a string")),
        },
        Shape::Bytes => match value {
            crate::value::Value::String(sv) => match crate::outside::b64_decode(sv.as_str()) {
                Some(bytes) => Ok(Item::Bytes(bytes)),
                None => Err(mism("invalid base64")),
            },
            _ => Err(mism("expected a string")),
        },
        Shape::Option(sub) => {
            proof {
                assert(decreases_to!(*shape => (*shape)->Option_0));
            }
            match value {
                crate::value::Value::Option(None) => Ok(Item::Option(None)),
                crate::value::Value::Option(Some(x)) => {
                    proof {
                        assert(decreases_to!(*value => (*value)->Option_0));
                        assert(decreases_to!((*value)->Option_0 => ((*value)->Option_0)->0));
                    }
                    let inner = into_rust(&**x, sub)?;
                    Ok(Item::Option(Some(Box::new(inner))))
                },
                _ => Err(mism("expected an option")),
            }
        },
        Shape::Unit => match value {
            crate::value::Value::Unit => Ok(Item::Unit),
            _ => Err(mism("expected a unit")),
        },
        Shape::UnitStruct(name) => match value {
            crate::value::Value::Unit => Ok(Item::UnitStruct(name.clone())),
            _ => Err(mism("expected a unit")),
        },
        Shape::NewtypeStruct(name, sub) => {
            proof {
                assert(decreases_to!(*shape => (*shape)->NewtypeStruct_1));
            }
            let inner = into_rust(value, sub)?;
            Ok(Item::NewtypeStruct(name.clone(), Box::new(inner)))
        },
        Shape::List(sub) => {
            proof {
                assert(decreases_to!(*shape => (*shape)->List_0));
            }
            match value {
                crate::value::Value::List(xs) => {
                    let mut items: Vec<Item> = Vec::new();
                    let n = xs.len();
                    let mut i: usize = 0;
                    while i < n
                        invariant
                            i <= n,
                            n == xs@.len(),
                        decreases n - i,
                    {
                        proof {
                            assert(decreases_to!(*value => (*value)->List_0));
                            assert(decreases_to!((*value)->List_0 => xs@));
                            assert(decreases_to!(xs@ => xs@[i as int]));
                        }
                        let it = into_rust(&xs[i], sub)?;
                        items.push(it);
                        i += 1;
                    }
                    Ok(Item::List(items))
                },
                _ => Err(mism("expected a sequence")),
            }
        },
        Shape::Tuple(subs) => match value {
            crate::value::Value::List(xs) => {
                if xs.len() != subs.len() {
                    return Err(mism("wrong tuple length"));
                }
                let mut items: Vec<Item> = Vec::new();
                let n = xs.len();
                let mut i: usize = 0;
                while i < n
                    invariant
                        i <= n,
                        n == xs@.len(),
                    decreases n - i,
                {
                    proof {
                        assert(decreases_to!(*value => (*value)->List_0));
                        assert(decreases_to!((*value)->List_0 => xs@));
                        assert(decreases_to!(xs@ => xs@[i as int]));
                        assert(decreases_to!(*shape => (*shape)->Tuple_0));
                        assert(decreases_to!((*shape)->Tuple_0 => (*shape)->Tuple_0@));
                        assert(decreases_to!((*shape)->Tuple_0@ => (*shape)->Tuple_0@[i as int]));
                    }
                    let it = into_rust(&xs[i], &subs[i])?;
                    items.push(it);
                    i += 1;
                }
                Ok(Item::Tuple(items))
            },
            _ => Err(mism("expected a sequence")),
        },
        Shape::TupleStruct(name, subs) => match value {
            crate::value::Value::List(xs) => {
                if xs.len() != subs.len() {
                    return Err(mism("wrong tuple length"));
                }
                let mut items: Vec<Item> = Vec::new();
                let n = xs.len();
                let mut i: usize = 0;
                while i < n
                    invariant
                        i <= n,
                        n == xs@.len(),
                    decreases n - i,
                {
                    proof {
                        assert(decreases_to!(*value => (*value)->List_0));
                        assert(decreases_to!((*value)->List_0 => xs@));
                        assert(decreases_to!(xs@ => xs@[i as int]));
                        assert(decreases_to!(*shape => (*shape)->TupleStruct_1));
                        assert(decreases_to!((*shape)->TupleStruct_1 => (*shape)->TupleStruct_1@));
                        assert(decreases_to!((*shape)->TupleStruct_1@ => (*shape)->TupleStruct_1@[i as int]));
                    }
                    let it = into_rust(&xs[i], &subs[i])?;
                    items.push(it);
                    i += 1;
                }
                Ok(Item::TupleStruct(name.clone(), items))
            },
            _ => Err(mism("expected a sequence")),
        },
        Shape::Mapping(ks, vs) => match value {
            crate::value::Value::Mapping(m) => {
                let entries = m.entries_vec();
                let mut out: Vec<(Item, Item)> = Vec::new();
                let n = entries.len();
                let mut i: usize = 0;
                let is_list_value = matches!(&**vs, Shape::List(_));
                while i < n
                    invariant
                        i <= n,
                        n == entries@.len(),
                        entries@ == m@,
                    decreases n - i,
                {
                    proof {
                        assert(decreases_to!(*value => (*value)->Mapping_0));
                        crate::value::lemma_valuemap_entry_decreases(*m, i as int);
                        assert(decreases_to!(m@[i as int] => m@[i as int].0));
                        assert(decreases_to!(m@[i as int] => m@[i as int].1));
                        assert(decreases_to!(*shape => (*shape)->Mapping_0));
                        assert(decreases_to!(*shape => (*shape)->Mapping_1));
                    }
                    let (kv, vv) = &entries[i];
                    let k = into_rust(kv, ks)?;
                    let v = into_rust(vv, vs)?;
                    set_entry(&mut out, k, v, is_list_value);
                    i += 1;
                }
                Ok(Item::Mapping(out))
            },
            _ => Err(mism("expected a map")),
        },
        Shape::Struct(name, fields) => match value {
            crate::value::Value::Mapping(m) => {
                let entries = m.entries_vec();
                let mut out: Vec<(String, Item)> = Vec::new();
                let n = entries.len();
                let mut i: usize = 0;
                while i < n
                    invariant
                        i <= n,
                        n == entries@.len(),
                        entries@ == m@,
                    decreases n - i,
                {
                    proof {
                        assert(decreases_to!(*value => (*value)->Mapping_0));
                        crate::value::lemma_valuemap_entry_decreases(*m, i as int);
                        assert(decreases_to!(m@[i as int] => m@[i as int].1));
                    }
                    let (kv, vv) = &entries[i];
                    let key = match kv {
                        crate::value::Value::String(sv) => sv.clone(),
                        _ => {
                            return Err(mism("expected a string key"));
                        },
                    };
                    let nf = fields.len();
                    let mut fj: usize = 0;
                    let mut found: Option<usize> = None;
                    while fj < nf
                        invariant
                            fj <= nf,
                            nf == fields@.len(),
                            found matches Some(ix) ==> ix < nf,
                        decreases nf - fj,
                    {
                        if crate::strutil::str_eq(fields[fj].name.as_str(), key.as_str()) {
                            found = Some(fj);
                            fj = nf;
                        } else {
                            fj += 1;
                        }
                    }
                    if let Some(ix) = found {
                        proof {
                            assert(decreases_to!(*shape => (*shape)->Struct_1));
                            assert(decreases_to!((*shape)->Struct_1 => (*shape)->Struct_1@));
                            assert(decreases_to!((*shape)->Struct_1@ => (*shape)->Struct_1@[ix as int]));
                            assert(decreases_to!((*shape)->Struct_1@[ix as int] => (*shape)->Struct_1@[ix as int].shape));
                        }
                        let fshape = &fields[ix].shape;
                        let v = into_rust(vv, fshape)?;
                        let is_list = matches!(fshape, Shape::List(_));
                        set_field(&mut out, key, v, is_list);
                    }
                    i += 1;
                }
                Ok(Item::Struct(name.clone(), out))
            },
            _ => Err(mism("expected a map")),
        },
        Shape::Enum(_, variants) => match value {
            crate::value::Value::String(sv) => {
                let nv = variants.len();
                let mut vi: usize = 0;
                while vi < nv
                    invariant
                        vi <= nv,
                        nv == variants@.len(),
                    decreases nv - vi,
                {
                    if crate::strutil::str_eq(variants[vi].name.as_str(), sv.as_str()) {
                        if matches!(&variants[vi].form, VariantForm::Unit) {
                            return Ok(Item::UnitVariant(variants[vi].name.clone()));
                        }
                        return Err(mism("variant needs a payload"));
                    }
                    vi += 1;
                }
                Err(mism("no such variant"))
            },
            _ => Err(mism("expected a variant name")),
        },
        Shape::Untagged(cands) => {
            let n = cands.len();
            let mut i: usize = 0;
            let mut last: Option<Error> = None;
            while i < n
                invariant
                    i <= n,
                    n == cands@.len(),
                decreases n - i,
            {
                proof {
                    assert(decreases_to!(*shape => (*shape)->Untagged_0));
                    assert(decreases_to!((*shape)->Untagged_0 => (*shape)->Untagged_0@));
                    assert(decreases_to!((*shape)->Untagged_0@ => (*shape)->Untagged_0@[i as int]));
                }
                match into_rust(value, &cands[i]) {
                    Ok(v) => {
                        return Ok(v);
                    },
                    Err(e) => {
                        last = Some(e);
                    },
                }
                i += 1;
            }
            match last {
                Some(e) => Err(e),
                None => Err(mism("no candidate shape")),
            }
        },
    }
}

/// The binary64 bits of a dynamic number: a float's own bits, an integer
/// rounded to the nearest binary64 (by magnitude, the sign re-applied).
pub fn number_to_f64_bits(n: crate::value::Number) -> (r: u64)
    ensures
        forall|f: crate::value::Float| n == crate::value::Number::Float(f) ==> r == f.bits(),
{
    match n {
        crate::value::Number::Float(f) => f.get(),
        crate::value::Number::Integer(i) => {
            let mag: u64 = if i == i64::MIN {
                9223372036854775808u64
            } else if i < 0 {
                (-i) as u64
            } else {
                i as u64
            };
            let bits = crate::outside::u64_to_f64_bits(mag);
            if i < 0 {
                bits | 0x8000_0000_0000_0000
            } else {
                bits
            }
        },
    }
}

/// Reads the value the shape expects. Grammar families and their
/// convenience equivalences: a bare `None` for an absent option, `()`/`{}`
/// for units, named and bare struct bodies, bracketed-key entries beside
/// colon entries, base64 strings for byte buffers, shape-matched candidates
/// for untagged enums.
#[verifier::loop_isolation(false)]
#[verifier::rlimit(100)]
pub fn de_value(b: &mut Bytes, shape: &Shape) -> (r: Result<Item, Error>)
    requires
        old(b).wf(),
    ensures
        final(b).wf(),
        final(b).chars == old(b).chars,
        final(b).pos >= old(b).pos,
        r is Ok ==> final(b).pos > old(b).pos,
        *shape == Shape::Bool && old(b).rem() == seq!['t', 'r', 'u', 'e'] ==> r == Ok::<
            Item,
            Error,
        >(Item::Bool(true)) && final(b).pos == final(b).chars@.len(),
        *shape == Shape::Bool && old(b).rem() == seq!['f', 'a', 'l', 's', 'e'] ==> r == Ok::<
            Item,
            Error,
        >(Item::Bool(false)) && final(b).pos == final(b).chars@.len(),
        *shape == Shape::Char ==> forall|c: char|
            old(b).rem() == seq!['\''] + crate::ser::spec_esc_char(c) + seq!['\''] ==> r == Ok::<
                Item,
                Error,
            >(Item::Char(c)) && final(b).pos == final(b).chars@.len(),
        *shape == Shape::U8 ==> forall|v: u64|
            v <= 0xff && old(b).rem() == spec_dec_str(v as nat) ==> r == Ok::<Item, Error>(
                Item::U8(v as u8),
            ) && final(b).pos == final(b).chars@.len(),
        *shape == Shape::U16 ==> forall|v: u64|
            v <= 0xffff && old(b).rem() == spec_dec_str(v as nat) ==> r == Ok::<Item, Error>(
                Item::U16(v as u16),
            ) && final(b).pos == final(b).chars@.len(),
        *shape == Shape::U32 ==> forall|v: u64|
            v <= 0xffff_ffff && old(b).rem() == spec_dec_str(v as nat) ==> r == Ok::<Item, Error>(
                Item::U32(v as u32),
            ) && final(b).pos == final(b).chars@.len(),
        *shape == Shape::U64 ==> forall|v: u64|
            old(b).rem() == spec_dec_str(v as nat) ==> r == Ok::<Item, Error>(Item::U64(v))
                && final(b).pos == final(b).chars@.len(),
        *shape == Shape::I8 ==> forall|v: i64|
            -0x80 <= v as int <= 0x7f && old(b).rem() == crate::digits::spec_dec_str_signed(
                v as int,
            ) ==> r == Ok::<Item, Error>(Item::I8(v as i8)) && final(b).pos == final(b).chars@.len(),
        *shape == Shape::I16 ==> forall|v: i64|
            -0x8000 <= v as int <= 0x7fff && old(b).rem() == crate::digits::spec_dec_str_signed(
                v as int,
            ) ==> r == Ok::<Item, Error>(Item::I16(v as i16)) && final(b).pos == final(b).chars@.len(),
        *shape == Shape::I32 ==> forall|v: i64|
            -0x8000_0000 <= v as int <= 0x7fff_ffff && old(b).rem()
                == crate::digits::spec_dec_str_signed(v as int) ==> r == Ok::<Item, Error>(
                Item::I32(v as i32),
            ) && final(b).pos == final(b).chars@.len(),
        *shape == Shape::I64 ==> forall|v: i64|
            old(b).rem() == crate::digits::spec_dec_str_signed(v as int) ==> r == Ok::<Item, Error>(
                Item::I64(v),
            ) && final(b).pos == final(b).chars@.len(),
        *shape == Shape::Unit && old(b).rem() == seq!['(', ')'] ==> r == Ok::<Item, Error>(
            Item::Unit,
        ) && final(b).pos == final(b).chars@.len(),
        (*shape matches Shape::Option(_)) && old(b).rem() == seq!['N', 'o', 'n', 'e'] ==> r == Ok::<
            Item,
            Error,
        >(Item::Option(None)) && final(b).pos == final(b).chars@.len(),
        *shape == Shape::F64 && crate::outside::spec_simple_float_literal(old(b).rem()) ==> r
            == Ok::<Item, Error>(Item::F64(crate::outside::f64_bits_of_dec(old(b).rem())))
            && final(b).pos == final(b).chars@.len(),
        *shape == Shape::F32 && crate::outside::spec_simple_float_literal(old(b).rem()) ==> r
            == Ok::<Item, Error>(Item::F32(crate::outside::f32_bits_of_dec(old(b).rem())))
            && final(b).pos == final(b).chars@.len(),
        *shape == Shape::Str && (spec_is_ident(old(b).rem()) || spec_quoted_plain(old(b).rem()))
            ==> r is Ok && final(b).pos == final(b).chars@.len(),
        *shape == Shape::Bytes && spec_quoted_plain(old(b).rem()) && r is Ok ==> final(b).pos
            == final(b).chars@.len(),
        (*shape matches Shape::List(_)) && old(b).rem() == seq!['[', ']'] ==> r is Ok && final(b).pos == final(b).chars@.len(),
        (match *shape {
            Shape::Tuple(subs) => subs@.len() == 0 && old(b).rem() == seq!['(', ')'] ==> r is Ok
                && final(b).pos == final(b).chars@.len(),
            _ => true,
        }),
        (*shape matches Shape::Mapping(_, _)) && old(b).rem() == seq!['{', '}'] ==> r is Ok
            && final(b).pos == final(b).chars@.len(),
        match r {
            Ok(it) => {
                &&& (*shape == Shape::Str && spec_is_ident(old(b).rem()) ==> (
                it matches Item::Str(w) && w@ == old(b).rem()))
                &&& (*shape == Shape::Str && spec_quoted_plain(old(b).rem()) ==> (
                it matches Item::Str(w) && w@ == old(b).rem().subrange(
                    1,
                    old(b).rem().len() - 1,
                )))
                &&& (*shape == Shape::Bytes && spec_quoted_plain(old(b).rem()) ==> (
                it matches Item::Bytes(bs) && bs@ == crate::outside::b64_bytes_of(
                    old(b).rem().subrange(1, old(b).rem().len() - 1),
                )))
                &&& ((*shape matches Shape::List(_)) && old(b).rem() == seq!['[', ']'] ==> (
                it matches Item::List(xs) && xs@ == Seq::<Item>::empty()))
                &&& (match *shape {
                    Shape::Tuple(subs) => subs@.len() == 0 && old(b).rem() == seq!['(', ')'] ==> (
                    it matches Item::Tuple(xs) && xs@ == Seq::<Item>::empty()),
                    _ => true,
                })
                &&& ((*shape matches Shape::Mapping(_, _)) && old(b).rem() == seq!['{', '}'] ==> (
                it matches Item::Mapping(es) && es@ == Seq::<(Item, Item)>::empty()))
            },
            Err(e) => *shape == Shape::Bytes && spec_quoted_plain(old(b).rem())
                ==> e.code matches ErrorCode::Mismatch(_),
        },
        (*shape matches Shape::List(_)) && old(b).pos < old(b).chars@.len() && !spec_is_skippable(
            old(b).chars@[old(b).pos as int],
        ) && old(b).chars@[old(b).pos as int] != '[' ==> r == Err::<Item, Error>(
            Error {
                code: ErrorCode::ExpectedArray,
                position: Position { line: old(b).line, col: old(b).col },
            },
        ),
        (*shape matches Shape::Tuple(_)) && old(b).pos < old(b).chars@.len() && !spec_is_skippable(
            old(b).chars@[old(b).pos as int],
        ) && old(b).chars@[old(b).pos as int] != '(' ==> r == Err::<Item, Error>(
            Error {
                code: ErrorCode::ExpectedArray,
                position: Position { line: old(b).line, col: old(b).col },
            },
        ),
        (*shape matches Shape::Mapping(_, _)) && old(b).pos < old(b).chars@.len()
            && !spec_is_skippable(old(b).chars@[old(b).pos as int]) && old(b).chars@[old(b).pos as int]
            != '{' ==> r == Err::<Item, Error>(
            Error {
                code: ErrorCode::ExpectedMap,
                position: Position { line: old(b).line, col: old(b).col },
            },
        ),
    decreases old(b).chars@.len() - old(b).pos, *shape, 0int,
{
    match shape {
        Shape::Bool => match de_bool(b) {
            Ok(v) => Ok(Item::Bool(v)),
            Err(e) => Err(e),
        },
        Shape::Char => match de_char(b) {
            Ok(v) => Ok(Item::Char(v)),
            Err(e) => Err(e),
        },
        Shape::U8 => match de_unsigned(b, 0xff) {
            Ok(v) => Ok(Item::U8(v as u8)),
            Err(e) => Err(e),
        },
        Shape::U16 => match de_unsigned(b, 0xffff) {
            Ok(v) => Ok(Item::U16(v as u16)),
            Err(e) => Err(e),
        },
        Shape::U32 => match de_unsigned(b, 0xffff_ffff) {
            Ok(v) => Ok(Item::U32(v as u32)),
            Err(e) => Err(e),
        },
        Shape::U64 => match de_unsigned(b, 0xffff_ffff_ffff_ffff) {
            Ok(v) => Ok(Item::U64(v)),
            Err(e) => Err(e),
        },
        Shape::I8 => match de_signed(b, 0x80, 0x7f) {
            Ok(v) => Ok(Item::I8(v as i8)),
            Err(e) => Err(e),
        },
        Shape::I16 => match de_signed(b, 0x8000, 0x7fff) {
            Ok(v) => Ok(Item::I16(v as i16)),
            Err(e) => Err(e),
        },
        Shape::I32 => match de_signed(b, 0x8000_0000, 0x7fff_ffff) {
            Ok(v) => Ok(Item::I32(v as i32)),
            Err(e) => Err(e),
        },
        Shape::I64 => match de_signed(b, 0x8000_0000_0000_0000, 0x7fff_ffff_ffff_ffff) {
            Ok(v) => Ok(Item::I64(v)),
            Err(e) => Err(e),
        },
        Shape::F32 => match de_f32_bits(b) {
            Ok(bits) => Ok(Item::F32(bits)),
            Err(e) => Err(e),
        },
        Shape::F64 => match de_f64_bits(b) {
            Ok(bits) => Ok(Item::F64(bits)),
            Err(e) => Err(e),
        },
        Shape::Str => match de_string_token(b) {
            Ok(s) => Ok(Item::Str(s)),
            Err(e) => Err(e),
        },
        Shape::Bytes => {
            proof {
                if spec_quoted_plain(old(b).rem()) {
                    lemma_rem_index(*old(b), 0);
                }
            }
            b.skip_ws();
            let p = b.position();
            let s = de_string_token(b)?;
            match crate::outside::b64_decode(s.as_str()) {
                Some(bytes) => Ok(Item::Bytes(bytes)),
                None => err(
                    ErrorCode::Mismatch(String::from_str("invalid base64")),
                    p.line,
                    p.col,
                ),
            }
        },
        Shape::Option(sub) => {
            proof {
                assert(decreases_to!(*shape => (*shape)->Option_0));
            }
            proof {
                if old(b).rem() == seq!['N', 'o', 'n', 'e'] {
                    lemma_rem_index(*old(b), 0);
                }
            }
            b.skip_ws();
            let snap = b.save();
            let mut none_seen = false;
            match b.ident() {
                Ok(w) => {
                    proof {
                        if old(b).rem() == seq!['N', 'o', 'n', 'e'] {
                            reveal_strlit("None");
                            if w@.len() < 4 {
                                assert(b.pos < b.chars@.len());
                                lemma_rem_index(*old(b), w@.len() as int);
                                assert(b.chars@[b.pos as int] == old(b).rem()[w@.len() as int]);
                                assert(false);
                            }
                            assert forall|i: int| 0 <= i < 4 implies w@[i] == old(b).rem()[i] by {
                                lemma_rem_index(*old(b), i);
                            }
                            assert(w@ =~= "None"@);
                        }
                    }
                    if crate::strutil::str_eq(w.as_str(), "None") {
                        none_seen = true;
                    } else {
                        b.restore(snap);
                    }
                },
                Err(_) => {
                    proof {
                        if old(b).rem() == seq!['N', 'o', 'n', 'e'] {
                            assert(false);
                        }
                    }
                },
            }
            if none_seen {
                Ok(Item::Option(None))
            } else {
                proof {
                    if old(b).rem() == seq!['N', 'o', 'n', 'e'] {
                        assert(false);
                    }
                }
                let inner = de_value(b, sub)?;
                Ok(Item::Option(Some(Box::new(inner))))
            }
        },
        Shape::Unit => {
            proof {
                if old(b).rem() == seq!['(', ')'] {
                    lemma_rem_index(*old(b), 0);
                    lemma_rem_index(*old(b), 1);
                }
            }
            b.skip_ws();
            let p = b.position();
            if b.consume('(') {
                b.skip_ws();
                if b.consume(')') {
                    Ok(Item::Unit)
                } else {
                    err(ErrorCode::ExpectedUnit, p.line, p.col)
                }
            } else if b.consume('{') {
                b.skip_ws();
                if b.consume('}') {
                    Ok(Item::Unit)
                } else {
                    err(ErrorCode::ExpectedUnit, p.line, p.col)
                }
            } else {
                err(ErrorCode::ExpectedUnit, p.line, p.col)
            }
        },
        Shape::UnitStruct(name) => {
            b.skip_ws();
            let p = b.position();
            let c = match b.peek() {
                Some(c) => c,
                None => {
                    return err(ErrorCode::ExpectedNamedStruct(name.clone()), p.line, p.col);
                },
            };
            if is_ident_first_char(c) {
                let w = b.raw_ident()?;
                if !crate::strutil::str_eq(w.as_str(), name.as_str()) {
                    return Err(
                        Error {
                            code: ErrorCode::ExpectedStructName { expected: name.clone(), found: w },
                            position: p,
                        },
                    );
                }
                b.skip_ws();
                if b.consume('{') {
                    b.skip_ws();
                    if !b.consume('}') {
                        return err(ErrorCode::ExpectedUnit, p.line, p.col);
                    }
                } else if b.consume('(') {
                    b.skip_ws();
                    if !b.consume(')') {
                        return err(ErrorCode::ExpectedUnit, p.line, p.col);
                    }
                }
                Ok(Item::UnitStruct(name.clone()))
            } else if c == '{' {
                b.advance();
                b.skip_ws();
                if !b.consume('}') {
                    return err(ErrorCode::ExpectedUnit, p.line, p.col);
                }
                Ok(Item::UnitStruct(name.clone()))
            } else if c == '(' {
                b.advance();
                b.skip_ws();
                if !b.consume(')') {
                    return err(ErrorCode::ExpectedUnit, p.line, p.col);
                }
                Ok(Item::UnitStruct(name.clone()))
            } else {
                err(ErrorCode::ExpectedNamedStruct(name.clone()), p.line, p.col)
            }
        },
        Shape::NewtypeStruct(name, sub) => {
            proof {
                assert(decreases_to!(*shape => (*shape)->NewtypeStruct_1));
            }
            b.skip_ws();
            let p = b.position();
            let c = match b.peek() {
                Some(c) => c,
                None => {
                    return err(ErrorCode::ExpectedNamedStruct(name.clone()), p.line, p.col);
                },
            };
            if is_ident_first_char(c) {
                let w = b.raw_ident()?;
                if !crate::strutil::str_eq(w.as_str(), name.as_str()) {
                    return Err(
                        Error {
                            code: ErrorCode::ExpectedStructName { expected: name.clone(), found: w },
                            position: p,
                        },
                    );
                }
                b.skip_ws();
            }
            if !b.consume('(') {
                return err(ErrorCode::ExpectedNamedStruct(name.clone()), p.line, p.col);
            }
            let inner = de_value(b, sub)?;
            b.skip_ws();
            b.consume(',');
            b.skip_ws();
            if !b.consume(')') {
                return err(ErrorCode::ExpectedArrayEnd, b.line, b.col);
            }
            Ok(Item::NewtypeStruct(name.clone(), Box::new(inner)))
        },
        Shape::List(sub) => {
            proof {
                assert(decreases_to!(*shape => (*shape)->List_0));
            }
            proof {
                if old(b).rem().len() > 0 {
                    lemma_rem_index(*old(b), 0);
                }
            }
            b.skip_ws();
            let p = b.position();
            if !b.consume('[') {
                return err(ErrorCode::ExpectedArray, p.line, p.col);
            }
            proof {
                if old(b).rem() == seq!['[', ']'] {
                    lemma_rem_index(*old(b), 1);
                    assert(b.rem() =~= seq![']']);
                }
            }
            let items = de_seq_items(b, sub)?;
            Ok(Item::List(items))
        },
        Shape::Tuple(subs) => {
            proof {
                assert(decreases_to!(*shape => (*shape)->Tuple_0));
                assert(decreases_to!((*shape)->Tuple_0 => (*shape)->Tuple_0@));
            }
            proof {
                if old(b).rem().len() > 0 {
                    lemma_rem_index(*old(b), 0);
                }
            }
            b.skip_ws();
            let p = b.position();
            if !b.consume('(') {
                return err(ErrorCode::ExpectedArray, p.line, p.col);
            }
            proof {
                if old(b).rem() == seq!['(', ')'] {
                    lemma_rem_index(*old(b), 1);
                    assert(b.rem() =~= seq![')']);
                }
            }
            let items = de_tuple_items(b, subs)?;
            Ok(Item::Tuple(items))
        },
        Shape::TupleStruct(name, subs) => {
            proof {
                assert(decreases_to!(*shape => (*shape)->TupleStruct_1));
                assert(decreases_to!((*shape)->TupleStruct_1 => (*shape)->TupleStruct_1@));
            }
            b.skip_ws();
            let p = b.position();
            let c = match b.peek() {
                Some(c) => c,
                None => {
                    return err(ErrorCode::ExpectedNamedStruct(name.clone()), p.line, p.col);
                },
            };
            if is_ident_first_char(c) {
                let w = b.raw_ident()?;
                if !crate::strutil::str_eq(w.as_str(), name.as_str()) {
                    return Err(
                        Error {
                            code: ErrorCode::ExpectedStructName { expected: name.clone(), found: w },
                            position: p,
                        },
                    );
                }
                b.skip_ws();
            }
            if !b.consume('(') {
                return err(ErrorCode::ExpectedArray, p.line, p.col);
            }
            let items = de_tuple_items(b, subs)?;
            Ok(Item::TupleStruct(name.clone(), items))
        },
        Shape::Mapping(_, _) => {
            proof {
                if old(b).rem().len() > 0 {
                    lemma_rem_index(*old(b), 0);
                }
            }
            b.skip_ws();
            let p = b.position();
            if !b.consume('{') {
                return err(ErrorCode::ExpectedMap, p.line, p.col);
            }
            proof {
                if old(b).rem() == seq!['{', '}'] {
                    lemma_rem_index(*old(b), 1);
                    assert(b.rem() =~= seq!['}']);
                }
            }
            let entries = de_map_entries(b, shape)?;
            Ok(Item::Mapping(entries))
        },
        Shape::Struct(name, fields) => {
            proof {
                assert(decreases_to!(*shape => (*shape)->Struct_1));
                assert(decreases_to!((*shape)->Struct_1 => (*shape)->Struct_1@));
            }
            b.skip_ws();
            let p = b.position();
            let c = match b.peek() {
                Some(c) => c,
                None => {
                    return err(ErrorCode::ExpectedNamedStruct(name.clone()), p.line, p.col);
                },
            };
            if is_ident_first_char(c) {
                let w = b.raw_ident()?;
                if !crate::strutil::str_eq(w.as_str(), name.as_str()) {
                    return Err(
                        Error {
                            code: ErrorCode::ExpectedStructName { expected: name.clone(), found: w },
                            position: p,
                        },
                    );
                }
                b.skip_ws();
            }
            if !b.consume('{') {
                return err(ErrorCode::ExpectedNamedStruct(name.clone()), p.line, p.col);
            }
            let out = de_struct_fields(b, fields)?;
            Ok(Item::Struct(name.clone(), out))
        },
        Shape::Enum(_, variants) => {
            b.skip_ws();
            let p = b.position();
            let w = b.raw_ident()?;
            let nv = variants.len();
            let mut vi: usize = 0;
            let mut found: Option<usize> = None;
            while vi < nv
                invariant
                    vi <= nv,
                    nv == variants@.len(),
                    found matches Some(ix) ==> ix < nv,
                decreases nv - vi,
            {
                if crate::strutil::str_eq(variants[vi].name.as_str(), w.as_str()) {
                    found = Some(vi);
                    vi = nv;
                } else {
                    vi += 1;
                }
            }
            let ix = match found {
                Some(ix) => ix,
                None => {
                    return Err(Error { code: ErrorCode::Mismatch(w), position: p });
                },
            };
            proof {
                assert(decreases_to!(*shape => (*shape)->Enum_1));
                assert(decreases_to!((*shape)->Enum_1 => (*shape)->Enum_1@));
                assert(decreases_to!((*shape)->Enum_1@ => (*shape)->Enum_1@[ix as int]));
                assert(decreases_to!((*shape)->Enum_1@[ix as int] => (*shape)->Enum_1@[ix as int].form));
            }
            let var = &variants[ix];
            match &var.form {
                VariantForm::Unit => Ok(Item::UnitVariant(var.name.clone())),
                VariantForm::Newtype(sub) => {
                    proof {
                        assert(decreases_to!((*shape)->Enum_1@[ix as int].form => (*shape)->Enum_1@[ix as int].form->Newtype_0));
                    }
                    b.skip_ws();
                    if !b.consume('(') {
                        return err(ErrorCode::ExpectedArray, b.line, b.col);
                    }
                    let inner = de_value(b, sub)?;
                    b.skip_ws();
                    b.consume(',');
                    b.skip_ws();
                    if !b.consume(')') {
                        return err(ErrorCode::ExpectedArrayEnd, b.line, b.col);
                    }
                    Ok(Item::NewtypeVariant(var.name.clone(), Box::new(inner)))
                },
                VariantForm::Tuple(subs) => {
                    proof {
                        assert(decreases_to!((*shape)->Enum_1@[ix as int].form => (*shape)->Enum_1@[ix as int].form->Tuple_0));
                        assert(decreases_to!((*shape)->Enum_1@[ix as int].form->Tuple_0 => (*shape)->Enum_1@[ix as int].form->Tuple_0@));
                    }
                    b.skip_ws();
                    if !b.consume('(') {
                        return err(ErrorCode::ExpectedArray, b.line, b.col);
                    }
                    let items = de_tuple_items(b, subs)?;
                    Ok(Item::TupleVariant(var.name.clone(), items))
                },
                VariantForm::Struct(fs) => {
                    proof {
                        assert(decreases_to!((*shape)->Enum_1@[ix as int].form => (*shape)->Enum_1@[ix as int].form->Struct_0));
                        assert(decreases_to!((*shape)->Enum_1@[ix as int].form->Struct_0 => (*shape)->Enum_1@[ix as int].form->Struct_0@));
                    }
                    b.skip_ws();
                    if !b.consume('{') {
                        return err(ErrorCode::ExpectedMap, b.line, b.col);
                    }
                    let out = de_struct_fields(b, fs)?;
                    Ok(Item::StructVariant(var.name.clone(), out))
                },
            }
        },
        Shape::Untagged(cands) => {
            b.skip_ws();
            let snap = b.save();
            let n = cands.len();
            let mut i: usize = 0;
            let mut last_err: Option<Error> = None;
            while i < n
                invariant
                    i <= n,
                    n == cands@.len(),
                    b.wf(),
                    b.chars == old(b).chars,
                    b.pos >= old(b).pos,
                    snap.0 <= b.chars@.len(),
                    1 <= snap.1 <= snap.0 + 1,
                    1 <= snap.2 <= snap.0 + 1,
                    snap.0 >= old(b).pos,
                decreases n - i,
            {
                proof {
                    assert(decreases_to!(*shape => (*shape)->Untagged_0));
                    assert(decreases_to!((*shape)->Untagged_0 => (*shape)->Untagged_0@));
                    assert(decreases_to!((*shape)->Untagged_0@ => (*shape)->Untagged_0@[i as int]));
                }
                b.restore(snap);
                match de_value(b, &cands[i]) {
                    Ok(v) => {
                        return Ok(v);
                    },
                    Err(e) => {
                        last_err = Some(e);
                    },
                }
                i += 1;
            }
            b.restore(snap);
            match last_err {
                Some(e) => Err(e),
                None => err(ErrorCode::Eof, b.line, b.col),
            }
        },
    }
}

/// Reads a whole text as the given shape; everything after the value may
/// only be whitespace and comments.
pub fn from_str(s: &str, shape: &Shape) -> (r: Result<Item, Error>)
    requires
        s@.len() < usize::MAX,
    ensures
        *shape == Shape::Bool && s@ == seq!['t', 'r', 'u', 'e'] ==> r == Ok::<Item, Error>(
            Item::Bool(true),
        ),
        *shape == Shape::Bool && s@ == seq!['f', 'a', 'l', 's', 'e'] ==> r == Ok::<Item, Error>(
            Item::Bool(false),
        ),
        *shape == Shape::Char ==> forall|c: char|
            s@ == seq!['\''] + crate::ser::spec_esc_char(c) + seq!['\''] ==> r == Ok::<Item, Error>(
                Item::Char(c),
            ),
        *shape == Shape::U8 ==> forall|v: u64|
            v <= 0xff && s@ == spec_dec_str(v as nat) ==> r == Ok::<Item, Error>(Item::U8(v as u8)),
        *shape == Shape::U16 ==> forall|v: u64|
            v <= 0xffff && s@ == spec_dec_str(v as nat) ==> r == Ok::<Item, Error>(
                Item::U16(v as u16),
            ),
        *shape == Shape::U32 ==> forall|v: u64|
            v <= 0xffff_ffff && s@ == spec_dec_str(v as nat) ==> r == Ok::<Item, Error>(
                Item::U32(v as u32),
            ),
        *shape == Shape::U64 ==> forall|v: u64|
            s@ == spec_dec_str(v as nat) ==> r == Ok::<Item, Error>(Item::U64(v)),
        *shape == Shape::I8 ==> forall|v: i64|
            -0x80 <= v as int <= 0x7f && s@ == crate::digits::spec_dec_str_signed(v as int) ==> r
                == Ok::<Item, Error>(Item::I8(v as i8)),
        *shape == Shape::I16 ==> forall|v: i64|
            -0x8000 <= v as int <= 0x7fff && s@ == crate::digits::spec_dec_str_signed(v as int)
                ==> r == Ok::<Item, Error>(Item::I16(v as i16)),
        *shape == Shape::I32 ==> forall|v: i64|
            -0x8000_0000 <= v as int <= 0x7fff_ffff && s@ == crate::digits::spec_dec_str_signed(
                v as int,
            ) ==> r == Ok::<Item, Error>(Item::I32(v as i32)),
        *shape == Shape::I64 ==> forall|v: i64|
            s@ == crate::digits::spec_dec_str_signed(v as int) ==> r == Ok::<Item, Error>(
                Item::I64(v),
            ),
        *shape == Shape::Unit && s@ == seq!['(', ')'] ==> r == Ok::<Item, Error>(Item::Unit),
        (*shape matches Shape::Option(_)) && s@ == seq!['N', 'o', 'n', 'e'] ==> r == Ok::<
            Item,
            Error,
        >(Item::Option(None)),
        *shape == Shape::F64 && crate::outside::spec_simple_float_literal(s@) ==> r == Ok::<
            Item,
            Error,
        >(Item::F64(crate::outside::f64_bits_of_dec(s@))),
        *shape == Shape::F32 && crate::outside::spec_simple_float_literal(s@) ==> r == Ok::<
            Item,
            Error,
        >(Item::F32(crate::outside::f32_bits_of_dec(s@))),
        *shape == Shape::Str && (spec_is_ident(s@) || spec_quoted_plain(s@)) ==> r is Ok,
        (*shape matches Shape::List(_)) && s@ == seq!['[', ']'] ==> r is Ok,
        (match *shape {
            Shape::Tuple(subs) => subs@.len() == 0 && s@ == seq!['(', ')'] ==> r is Ok,
            _ => true,
        }),
        (*shape matches Shape::Mapping(_, _)) && s@ == seq!['{', '}'] ==> r is Ok,
        match r {
            Ok(it) => {
                &&& (*shape == Shape::Str && spec_is_ident(s@) ==> (it matches Item::Str(w) && w@
                    == s@))
                &&& (*shape == Shape::Str && spec_quoted_plain(s@) ==> (it matches Item::Str(w)
                    && w@ == s@.subrange(1, s@.len() - 1)))
                &&& (*shape == Shape::Bytes && spec_quoted_plain(s@) ==> (
                it matches Item::Bytes(bs) && bs@ == crate::outside::b64_bytes_of(
                    s@.subrange(1, s@.len() - 1),
                )))
                &&& ((*shape matches Shape::List(_)) && s@ == seq!['[', ']'] ==> (
                it matches Item::List(xs) && xs@ == Seq::<Item>::empty()))
                &&& (match *shape {
                    Shape::Tuple(subs) => subs@.len() == 0 && s@ == seq!['(', ')'] ==> (
                    it matches Item::Tuple(xs) && xs@ == Seq::<Item>::empty()),
                    _ => true,
                })
                &&& ((*shape matches Shape::Mapping(_, _)) && s@ == seq!['{', '}'] ==> (
                it matches Item::Mapping(es) && es@ == Seq::<(Item, Item)>::empty()))
            },
            Err(e) => *shape == Shape::Bytes && spec_quoted_plain(s@)
                ==> e.code matches ErrorCode::Mismatch(_),
        },
        (*shape matches Shape::List(_)) && s@.len() > 0 && !spec_is_skippable(s@[0]) && s@[0]
            != '[' ==> r == Err::<Item, Error>(
            Error { code: ErrorCode::ExpectedArray, position: Position { line: 1, col: 1 } },
        ),
        (*shape matches Shape::Tuple(_)) && s@.len() > 0 && !spec_is_skippable(s@[0]) && s@[0]
            != '(' ==> r == Err::<Item, Error>(
            Error { code: ErrorCode::ExpectedArray, position: Position { line: 1, col: 1 } },
        ),
        (*shape matches Shape::Mapping(_, _)) && s@.len() > 0 && !spec_is_skippable(s@[0]) && s@[0]
            != '{' ==> r == Err::<Item, Error>(
            Error { code: ErrorCode::ExpectedMap, position: Position { line: 1, col: 1 } },
        ),
{
    let mut b = Bytes::new(s);
    proof {
        assert(b.rem() =~= s@);
        if s@.len() > 0 {
            lemma_rem_index(b, 0);
        }
    }
    let v = match de_value(&mut b, shape) {
        Ok(v) => v,
        Err(e) => {
            return Err(e);
        },
    };
    b.skip_ws();
    if !b.at_eof() {
        return err(ErrorCode::TrailingCharacters, b.line, b.col);
    }
    Ok(v)
}

} // verus!
