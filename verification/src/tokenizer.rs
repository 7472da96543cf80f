//! Lexical scanner for the SQL subset.
//!
//! The input is scanned left to right; at each position the recognizers
//! are tried in a fixed priority order (whitespace run, punctuation,
//! single-quoted identifier, double-quoted string literal, decimal
//! integer, keyword, bare identifier). The first match wins. If none
//! matches, scanning stops and the tokens produced so far are returned;
//! the rest of the input is dropped. Keyword matching is case-insensitive
//! and requires a word boundary after the keyword. An integer literal
//! whose value does not fit in `u32` is not recognized, so scanning stops
//! there instead of failing loudly.

use vstd::prelude::*;

verus! {

/// A keyword of the SQL subset.
#[derive(Debug, PartialEq, Eq, Structural, Clone, Copy)]
pub enum Keyword {
    Select,
    From,
    Insert,
    Into,
    Values,
    Where,
}

/// Half-open range `[start, end)` of positions in the scanned input.
#[derive(Debug, PartialEq, Eq, Structural, Clone, Copy)]
pub struct Span {
    pub start: usize,
    pub end: usize,
}

/// The payload of one token.
#[derive(Debug, PartialEq)]
pub enum TokenKind {
    Keyword(Keyword),
    Comma,
    Equals,
    GreaterThan,
    GreaterThanEquals,
    SmallerThan,
    SmallerThanEquals,
    Whitespace,
    SemiColon,
    Identifier(String),
    String(String),
    Integer(u32),
}

/// One recognized token together with where it was found.
#[derive(Debug, PartialEq)]
pub struct Token {
    pub span: Span,
    pub kind: TokenKind,
}

/// Failure of a single recognizer; never escapes `Tokenizer::parse`,
/// which stops scanning instead.
#[derive(Debug, PartialEq)]
pub enum Error {
    UnknownKeyword(String),
    NoMatch,
}

/// Mathematical model of a token kind: string payloads as `Seq<char>`.
pub enum TokKind {
    Keyword(Keyword),
    Comma,
    Equals,
    GreaterThan,
    GreaterThanEquals,
    SmallerThan,
    SmallerThanEquals,
    Whitespace,
    SemiColon,
    Identifier(Seq<char>),
    StrLit(Seq<char>),
    Integer(u32),
}

/// Mathematical model of a token.
pub struct Tok {
    pub kind: TokKind,
    pub start: int,
    pub end: int,
}

impl View for TokenKind {
    type V = TokKind;

    open spec fn view(&self) -> TokKind {
        match self {
            TokenKind::Keyword(k) => TokKind::Keyword(*k),
            TokenKind::Comma => TokKind::Comma,
            TokenKind::Equals => TokKind::Equals,
            TokenKind::GreaterThan => TokKind::GreaterThan,
            TokenKind::GreaterThanEquals => TokKind::GreaterThanEquals,
            TokenKind::SmallerThan => TokKind::SmallerThan,
            TokenKind::SmallerThanEquals => TokKind::SmallerThanEquals,
            TokenKind::Whitespace => TokKind::Whitespace,
            TokenKind::SemiColon => TokKind::SemiColon,
            TokenKind::Identifier(s) => TokKind::Identifier(s@),
            TokenKind::String(s) => TokKind::StrLit(s@),
            TokenKind::Integer(n) => TokKind::Integer(*n),
        }
    }
}

impl View for Token {
    type V = Tok;

    open spec fn view(&self) -> Tok {
        Tok { kind: self.kind@, start: self.span.start as int, end: self.span.end as int }
    }
}

/// The model of a token sequence.
pub open spec fn toks_view(v: Seq<Token>) -> Seq<Tok> {
    v.map_values(|t: Token| t@)
}

// ---------------------------------------------------------------------------
// Character classes
// ---------------------------------------------------------------------------

/// Whitespace recognized between tokens.
pub open spec fn is_space(c: char) -> bool {
    c == ' ' || c == '\t' || c == '\n' || c == '\r'
}

pub open spec fn is_letter(c: char) -> bool {
    ('a' as u32 <= c as u32 && c as u32 <= 'z' as u32) || ('A' as u32 <= c as u32 && c as u32
        <= 'Z' as u32)
}

pub open spec fn is_digit_char(c: char) -> bool {
    '0' as u32 <= c as u32 && c as u32 <= '9' as u32
}

/// Characters kept inside an identifier.
pub open spec fn is_ident_char(c: char) -> bool {
    is_letter(c) || c == '.'
}

/// Characters that extend a word; a keyword must not be followed by one.
pub open spec fn is_word_char(c: char) -> bool {
    is_ident_char(c) || is_digit_char(c)
}

pub open spec fn digit_val(c: char) -> int {
    c as u32 - '0' as u32
}

/// Case-insensitive match of `a` against a reference lowercase letter `b`.
pub open spec fn eq_ci(a: char, b: char) -> bool {
    a as u32 == b as u32 || ('A' as u32 <= a as u32 && a as u32 <= 'Z' as u32 && a as u32 + 32
        == b as u32)
}

// ---------------------------------------------------------------------------
// Runs and searches
// ---------------------------------------------------------------------------

/// Length of the whitespace run starting at `pos`.
pub open spec fn space_run(s: Seq<char>, pos: int) -> int
    decreases s.len() - pos,
{
    if pos < 0 || pos >= s.len() || !is_space(s[pos]) {
        0
    } else {
        1 + space_run(s, pos + 1)
    }
}

/// Length of the digit run starting at `pos`.
pub open spec fn digit_run(s: Seq<char>, pos: int) -> int
    decreases s.len() - pos,
{
    if pos < 0 || pos >= s.len() || !is_digit_char(s[pos]) {
        0
    } else {
        1 + digit_run(s, pos + 1)
    }
}

/// Length of the identifier-character run starting at `pos`.
pub open spec fn ident_run(s: Seq<char>, pos: int) -> int
    decreases s.len() - pos,
{
    if pos < 0 || pos >= s.len() || !is_ident_char(s[pos]) {
        0
    } else {
        1 + ident_run(s, pos + 1)
    }
}

/// Least index `>= pos` holding `c`, if any.
pub open spec fn find_char(s: Seq<char>, pos: int, c: char) -> Option<int>
    decreases s.len() - pos,
{
    if pos < 0 || pos >= s.len() {
        None
    } else if s[pos] == c {
        Some(pos)
    } else {
        find_char(s, pos + 1, c)
    }
}

/// The characters of `s` that belong in an identifier, in order.
pub open spec fn keep_ident(s: Seq<char>) -> Seq<char>
    decreases s.len(),
{
    if s.len() == 0 {
        Seq::empty()
    } else if is_ident_char(s[0]) {
        seq![s[0]] + keep_ident(s.drop_first())
    } else {
        keep_ident(s.drop_first())
    }
}

/// Value of the `n` decimal digits of `s` starting at `pos`.
pub open spec fn num_val(s: Seq<char>, pos: int, n: int) -> int
    decreases n,
{
    if n <= 0 {
        0
    } else {
        num_val(s, pos, n - 1) * 10 + digit_val(s[pos + n - 1])
    }
}

// ---------------------------------------------------------------------------
// Recognizers
// ---------------------------------------------------------------------------

pub open spec fn kw_chars(k: Keyword) -> Seq<char> {
    match k {
        Keyword::Select => seq!['s', 'e', 'l', 'e', 'c', 't'],
        Keyword::From => seq!['f', 'r', 'o', 'm'],
        Keyword::Insert => seq!['i', 'n', 's', 'e', 'r', 't'],
        Keyword::Into => seq!['i', 'n', 't', 'o'],
        Keyword::Values => seq!['v', 'a', 'l', 'u', 'e', 's'],
        Keyword::Where => seq!['w', 'h', 'e', 'r', 'e'],
    }
}

/// Case-insensitive match of the word `w` at `pos`, bounded by a word
/// boundary (end of input or a non-word character).
pub open spec fn kw_match(s: Seq<char>, pos: int, w: Seq<char>) -> bool {
    &&& 0 <= pos
    &&& pos + w.len() <= s.len()
    &&& (forall|j: int| 0 <= j < w.len() ==> eq_ci(s[pos + j], w[j]))
    &&& (pos + w.len() == s.len() || !is_word_char(s[pos + w.len()]))
}

pub open spec fn keyword_at(s: Seq<char>, pos: int) -> Option<Keyword> {
    if kw_match(s, pos, kw_chars(Keyword::Select)) {
        Some(Keyword::Select)
    } else if kw_match(s, pos, kw_chars(Keyword::Insert)) {
        Some(Keyword::Insert)
    } else if kw_match(s, pos, kw_chars(Keyword::From)) {
        Some(Keyword::From)
    } else if kw_match(s, pos, kw_chars(Keyword::Where)) {
        Some(Keyword::Where)
    } else if kw_match(s, pos, kw_chars(Keyword::Values)) {
        Some(Keyword::Values)
    } else if kw_match(s, pos, kw_chars(Keyword::Into)) {
        Some(Keyword::Into)
    } else {
        None
    }
}

/// Single- or double-character punctuation at `pos`.
pub open spec fn punct_at(s: Seq<char>, pos: int) -> Option<(TokKind, int)> {
    if !(0 <= pos < s.len()) {
        None
    } else if s[pos] == ',' {
        Some((TokKind::Comma, 1))
    } else if s[pos] == '=' {
        Some((TokKind::Equals, 1))
    } else if s[pos] == ';' {
        Some((TokKind::SemiColon, 1))
    } else if s[pos] == '>' {
        if pos + 1 < s.len() && s[pos + 1] == '=' {
            Some((TokKind::GreaterThanEquals, 2))
        } else {
            Some((TokKind::GreaterThan, 1))
        }
    } else if s[pos] == '<' {
        if pos + 1 < s.len() && s[pos + 1] == '=' {
            Some((TokKind::SmallerThanEquals, 2))
        } else {
            Some((TokKind::SmallerThan, 1))
        }
    } else {
        None
    }
}

/// The token recognized at `pos`, or `None` if scanning stops there.
pub open spec fn next_tok(s: Seq<char>, pos: int) -> Option<Tok> {
    if !(0 <= pos < s.len()) {
        None
    } else if space_run(s, pos) > 0 {
        Some(Tok { kind: TokKind::Whitespace, start: pos, end: pos + space_run(s, pos) })
    } else if punct_at(s, pos) is Some {
        let (k, n) = punct_at(s, pos)->0;
        Some(Tok { kind: k, start: pos, end: pos + n })
    } else if s[pos] == '\'' && find_char(s, pos + 1, '\'') is Some {
        let close = find_char(s, pos + 1, '\'')->0;
        Some(
            Tok {
                kind: TokKind::Identifier(keep_ident(s.subrange(pos + 1, close))),
                start: pos,
                end: close + 1,
            },
        )
    } else if s[pos] == '"' && find_char(s, pos + 1, '"') is Some {
        let close = find_char(s, pos + 1, '"')->0;
        Some(
            Tok { kind: TokKind::StrLit(s.subrange(pos + 1, close)), start: pos, end: close + 1 },
        )
    } else if digit_run(s, pos) > 0 {
        let n = digit_run(s, pos);
        if num_val(s, pos, n) <= u32::MAX {
            Some(
                Tok {
                    kind: TokKind::Integer(num_val(s, pos, n) as u32),
                    start: pos,
                    end: pos + n,
                },
            )
        } else {
            None
        }
    } else if keyword_at(s, pos) is Some {
        let k = keyword_at(s, pos)->0;
        Some(Tok { kind: TokKind::Keyword(k), start: pos, end: pos + kw_chars(k).len() })
    } else if is_letter(s[pos]) {
        Some(
            Tok {
                kind: TokKind::Identifier(s.subrange(pos, pos + ident_run(s, pos))),
                start: pos,
                end: pos + ident_run(s, pos),
            },
        )
    } else {
        None
    }
}

/// All tokens recognized from `pos` on.
pub open spec fn tokenize_from(s: Seq<char>, pos: int) -> Seq<Tok>
    decreases s.len() - pos when pos >= 0
{
    if pos < 0 || pos >= s.len() {
        Seq::empty()
    } else {
        match next_tok(s, pos) {
            None => Seq::empty(),
            Some(t) => if pos < t.end <= s.len() {
                seq![t] + tokenize_from(s, t.end)
            } else {
                seq![t]
            },
        }
    }
}

/// The token sequence of a whole input.
pub open spec fn tokenize(s: Seq<char>) -> Seq<Tok> {
    tokenize_from(s, 0)
}

// ---------------------------------------------------------------------------
// Supporting lemmas
// ---------------------------------------------------------------------------

proof fn lemma_keep_ident_append(a: Seq<char>, b: Seq<char>)
    ensures
        keep_ident(a + b) == keep_ident(a) + keep_ident(b),
    decreases a.len(),
{
    if a.len() == 0 {
        assert(a + b =~= b);
        assert(keep_ident(a) + keep_ident(b) =~= keep_ident(b));
    } else {
        assert((a + b).len() > 0);
        assert((a + b)[0] == a[0]);
        assert((a + b).drop_first() =~= a.drop_first() + b);
        lemma_keep_ident_append(a.drop_first(), b);
        if is_ident_char(a[0]) {
            assert(seq![a[0]] + (keep_ident(a.drop_first()) + keep_ident(b)) =~= (seq![a[0]]
                + keep_ident(a.drop_first())) + keep_ident(b));
        }
    }
}

proof fn lemma_keep_ident_push(s: Seq<char>, c: char)
    ensures
        keep_ident(s.push(c)) == keep_ident(s) + (if is_ident_char(c) {
            seq![c]
        } else {
            Seq::<char>::empty()
        }),
{
    assert(s.push(c) =~= s + seq![c]);
    lemma_keep_ident_append(s, seq![c]);
    assert(seq![c][0] == c);
    assert(seq![c].drop_first() =~= Seq::<char>::empty());
    assert(keep_ident(Seq::<char>::empty()) == Seq::<char>::empty());
    if is_ident_char(c) {
        assert(keep_ident(seq![c]) =~= seq![c]);
    } else {
        assert(keep_ident(seq![c]) =~= Seq::<char>::empty());
    }
}

proof fn lemma_ident_run_nonneg(s: Seq<char>, pos: int)
    ensures
        ident_run(s, pos) >= 0,
    decreases s.len() - pos,
{
    if !(pos < 0 || pos >= s.len() || !is_ident_char(s[pos])) {
        lemma_ident_run_nonneg(s, pos + 1);
    }
}

proof fn lemma_space_run_bounds(s: Seq<char>, pos: int)
    requires
        0 <= pos <= s.len(),
    ensures
        0 <= space_run(s, pos) <= s.len() - pos,
    decreases s.len() - pos,
{
    if pos < s.len() && is_space(s[pos]) {
        lemma_space_run_bounds(s, pos + 1);
    }
}

proof fn lemma_digit_run_bounds(s: Seq<char>, pos: int)
    requires
        0 <= pos <= s.len(),
    ensures
        0 <= digit_run(s, pos) <= s.len() - pos,
    decreases s.len() - pos,
{
    if pos < s.len() && is_digit_char(s[pos]) {
        lemma_digit_run_bounds(s, pos + 1);
    }
}

proof fn lemma_ident_run_bounds(s: Seq<char>, pos: int)
    requires
        0 <= pos <= s.len(),
    ensures
        0 <= ident_run(s, pos) <= s.len() - pos,
    decreases s.len() - pos,
{
    if pos < s.len() && is_ident_char(s[pos]) {
        lemma_ident_run_bounds(s, pos + 1);
    }
}

proof fn lemma_find_char_bounds(s: Seq<char>, pos: int, c: char)
    requires
        0 <= pos,
        find_char(s, pos, c) is Some,
    ensures
        pos <= find_char(s, pos, c)->0 < s.len(),
        s[find_char(s, pos, c)->0] == c,
    decreases s.len() - pos,
{
    if pos < s.len() && s[pos] != c {
        lemma_find_char_bounds(s, pos + 1, c);
    }
}

/// Whatever token is recognized at `pos` starts there, is nonempty, and
/// stays inside the input.
proof fn lemma_next_tok_bounds(s: Seq<char>, pos: int)
    requires
        0 <= pos < s.len(),
        next_tok(s, pos) is Some,
    ensures
        next_tok(s, pos)->0.start == pos,
        pos < next_tok(s, pos)->0.end <= s.len(),
{
    lemma_space_run_bounds(s, pos);
    lemma_digit_run_bounds(s, pos);
    if space_run(s, pos) > 0 {
    } else if punct_at(s, pos) is Some {
    } else if s[pos] == '\'' && find_char(s, pos + 1, '\'') is Some {
        lemma_find_char_bounds(s, pos + 1, '\'');
    } else if s[pos] == '"' && find_char(s, pos + 1, '"') is Some {
        lemma_find_char_bounds(s, pos + 1, '"');
    } else if digit_run(s, pos) > 0 {
    } else if keyword_at(s, pos) is Some {
        let k = keyword_at(s, pos)->0;
        assert(kw_match(s, pos, kw_chars(k)));
        assert(kw_chars(k).len() >= 4);
    } else {
        assert(is_letter(s[pos]));
        lemma_ident_run_bounds(s, pos);
        lemma_ident_run_nonneg(s, pos + 1);
        assert(ident_run(s, pos) == 1 + ident_run(s, pos + 1));
    }
}

/// Span coverage from `pos`: the tokens recognized from `pos` on carry
/// contiguous, non-overlapping spans that start exactly at `pos` and
/// stay inside the input.
pub proof fn lemma_token_spans_from(s: Seq<char>, pos: int)
    requires
        0 <= pos <= s.len(),
    ensures
        ({
            let ts = tokenize_from(s, pos);
            &&& ts.len() > 0 ==> ts[0].start == pos
            &&& forall|i: int|
                0 <= i < ts.len() ==> pos <= #[trigger] ts[i].start < ts[i].end <= s.len()
            &&& forall|i: int| 0 < i < ts.len() ==> #[trigger] ts[i].start == ts[i - 1].end
        }),
    decreases s.len() - pos,
{
    let ts = tokenize_from(s, pos);
    if pos < s.len() && next_tok(s, pos) is Some {
        let t = next_tok(s, pos)->0;
        lemma_next_tok_bounds(s, pos);
        lemma_token_spans_from(s, t.end);
        let rest = tokenize_from(s, t.end);
        assert(ts =~= seq![t] + rest);
        assert forall|i: int|
            0 <= i < ts.len() implies pos <= #[trigger] ts[i].start < ts[i].end <= s.len() by {
            if i > 0 {
                assert(ts[i] == rest[i - 1]);
            }
        }
        assert forall|i: int| 0 < i < ts.len() implies #[trigger] ts[i].start == ts[i - 1].end by {
            if i == 1 {
                assert(rest.len() > 0);
                assert(ts[1] == rest[0]);
            } else {
                assert(ts[i] == rest[i - 1]);
                assert(ts[i - 1] == rest[i - 2]);
            }
        }
    }
}

/// Span coverage: the produced token spans are contiguous and
/// non-overlapping, and their union is exactly the consumed prefix
/// `[0, end of the last token)` of the input.
pub proof fn lemma_token_spans(s: Seq<char>)
    ensures
        ({
            let ts = tokenize(s);
            &&& ts.len() > 0 ==> ts[0].start == 0
            &&& forall|i: int|
                0 <= i < ts.len() ==> 0 <= #[trigger] ts[i].start < ts[i].end <= s.len()
            &&& forall|i: int| 0 < i < ts.len() ==> #[trigger] ts[i].start == ts[i - 1].end
        }),
{
    lemma_token_spans_from(s, 0);
}

proof fn lemma_num_val_nonneg(s: Seq<char>, pos: int, n: int)
    requires
        forall|k: int| pos <= k < pos + n ==> is_digit_char(s[k]),
    ensures
        num_val(s, pos, n) >= 0,
    decreases n,
{
    if n > 0 {
        lemma_num_val_nonneg(s, pos, n - 1);
    }
}

proof fn lemma_num_val_mono(s: Seq<char>, pos: int, a: int, b: int)
    requires
        0 <= a <= b,
        forall|k: int| pos <= k < pos + b ==> is_digit_char(s[k]),
    ensures
        num_val(s, pos, a) <= num_val(s, pos, b),
    decreases b - a,
{
    if a < b {
        lemma_num_val_mono(s, pos, a, b - 1);
        lemma_num_val_nonneg(s, pos, b - 1);
    }
}

// ---------------------------------------------------------------------------
// Executable character classes
// ---------------------------------------------------------------------------

fn is_space_ex(c: char) -> (b: bool)
    ensures
        b == is_space(c),
{
    c == ' ' || c == '\t' || c == '\n' || c == '\r'
}

fn is_letter_ex(c: char) -> (b: bool)
    ensures
        b == is_letter(c),
{
    let u = c as u32;
    ('a' as u32 <= u && u <= 'z' as u32) || ('A' as u32 <= u && u <= 'Z' as u32)
}

fn is_digit_ex(c: char) -> (b: bool)
    ensures
        b == is_digit_char(c),
{
    let u = c as u32;
    '0' as u32 <= u && u <= '9' as u32
}

fn is_ident_ex(c: char) -> (b: bool)
    ensures
        b == is_ident_char(c),
{
    is_letter_ex(c) || c == '.'
}

fn is_word_ex(c: char) -> (b: bool)
    ensures
        b == is_word_char(c),
{
    is_ident_ex(c) || is_digit_ex(c)
}

fn digit_ex(c: char) -> (d: u32)
    requires
        is_digit_char(c),
    ensures
        d as int == digit_val(c),
{
    c as u32 - '0' as u32
}

fn eq_ci_ex(a: char, b: char) -> (r: bool)
    ensures
        r == eq_ci(a, b),
{
    let ua = a as u32;
    let ub = b as u32;
    ua == ub || ('A' as u32 <= ua && ua <= 'Z' as u32 && ua + 32 == ub)
}

/// Relies on String::push: appends exactly one character to the string.
#[verifier::external_body]
fn push_char(s: &mut String, c: char)
    ensures
        final(s)@ == old(s)@.push(c),
{
    s.push(c);
}

// ---------------------------------------------------------------------------
// The tokenizer
// ---------------------------------------------------------------------------

/// Scanner state: the input, decoded into characters once at construction.
pub struct Tokenizer {
    chars: Vec<char>,
}

impl View for Tokenizer {
    type V = Seq<char>;

    closed spec fn view(&self) -> Seq<char> {
        self.chars@
    }
}

impl Tokenizer {
    pub fn new(input: &str) -> (t: Tokenizer)
        ensures
            t@ == input@,
    {
        let n = input.unicode_len();
        let mut chars: Vec<char> = Vec::new();
        let mut i: usize = 0;
        while i < n
            invariant
                i <= n,
                n == input@.len(),
                chars@ == input@.subrange(0, i as int),
            decreases n - i,
        {
            let c = input.get_char(i);
            chars.push(c);
            proof {
                assert(input@.subrange(0, i + 1) =~= input@.subrange(0, i as int).push(
                    input@[i as int],
                ));
            }
            i = i + 1;
        }
        proof {
            assert(chars@ =~= input@);
        }
        Tokenizer { chars }
    }

    /// End of the whitespace run starting at `pos`.
    fn space_end(&self, pos: usize) -> (e: usize)
        requires
            pos <= self.chars.len(),
        ensures
            pos <= e <= self.chars.len(),
            e as int == pos + space_run(self@, pos as int),
    {
        let n = self.chars.len();
        let mut e = pos;
        while e < n && is_space_ex(self.chars[e])
            invariant
                pos <= e <= n,
                n == self.chars.len(),
                space_run(self@, pos as int) == (e - pos) + space_run(self@, e as int),
            decreases n - e,
        {
            e = e + 1;
        }
        e
    }

    /// End of the digit run starting at `pos`.
    fn digit_end(&self, pos: usize) -> (e: usize)
        requires
            pos <= self.chars.len(),
        ensures
            pos <= e <= self.chars.len(),
            e as int == pos + digit_run(self@, pos as int),
            forall|k: int| pos <= k < e ==> is_digit_char(self@[k]),
    {
        let n = self.chars.len();
        let mut e = pos;
        while e < n && is_digit_ex(self.chars[e])
            invariant
                pos <= e <= n,
                n == self.chars.len(),
                digit_run(self@, pos as int) == (e - pos) + digit_run(self@, e as int),
                forall|k: int| pos <= k < e ==> is_digit_char(self@[k]),
            decreases n - e,
        {
            e = e + 1;
        }
        e
    }

    /// End of the identifier-character run starting at `pos`.
    fn ident_end(&self, pos: usize) -> (e: usize)
        requires
            pos <= self.chars.len(),
        ensures
            pos <= e <= self.chars.len(),
            e as int == pos + ident_run(self@, pos as int),
    {
        let n = self.chars.len();
        let mut e = pos;
        while e < n && is_ident_ex(self.chars[e])
            invariant
                pos <= e <= n,
                n == self.chars.len(),
                ident_run(self@, pos as int) == (e - pos) + ident_run(self@, e as int),
            decreases n - e,
        {
            e = e + 1;
        }
        e
    }

    /// First position `>= from` holding `q`, if any.
    fn find_close(&self, from: usize, q: char) -> (r: Option<usize>)
        requires
            from <= self.chars.len(),
        ensures
            match r {
                Some(j) => from <= j < self.chars.len() && find_char(self@, from as int, q)
                    == Some(j as int),
                None => find_char(self@, from as int, q) is None,
            },
    {
        let n = self.chars.len();
        let mut j = from;
        while j < n
            invariant
                from <= j <= n,
                n == self.chars.len(),
                find_char(self@, from as int, q) == find_char(self@, j as int, q),
            decreases n - j,
        {
            if self.chars[j] == q {
                return Some(j);
            }
            j = j + 1;
        }
        None
    }

    /// The identifier characters among `self.chars[lo..hi]`, as a string.
    fn ident_text(&self, lo: usize, hi: usize) -> (t: String)
        requires
            lo <= hi <= self.chars.len(),
        ensures
            t@ == keep_ident(self@.subrange(lo as int, hi as int)),
    {
        let mut t = String::new();
        let mut k = lo;
        proof {
            assert(self@.subrange(lo as int, lo as int) =~= Seq::<char>::empty());
        }
        while k < hi
            invariant
                lo <= k <= hi <= self.chars.len(),
                t@ == keep_ident(self@.subrange(lo as int, k as int)),
            decreases hi - k,
        {
            let c = self.chars[k];
            proof {
                assert(self@.subrange(lo as int, k + 1) =~= self@.subrange(lo as int, k as int)
                    .push(self@[k as int]));
                lemma_keep_ident_push(self@.subrange(lo as int, k as int), self@[k as int]);
            }
            if is_ident_ex(c) {
                push_char(&mut t, c);
            }
            k = k + 1;
        }
        t
    }

    /// The characters `self.chars[lo..hi]`, unchanged, as a string.
    fn raw_text(&self, lo: usize, hi: usize) -> (t: String)
        requires
            lo <= hi <= self.chars.len(),
        ensures
            t@ == self@.subrange(lo as int, hi as int),
    {
        let mut t = String::new();
        let mut k = lo;
        proof {
            assert(self@.subrange(lo as int, lo as int) =~= Seq::<char>::empty());
        }
        while k < hi
            invariant
                lo <= k <= hi <= self.chars.len(),
                t@ == self@.subrange(lo as int, k as int),
            decreases hi - k,
        {
            let c = self.chars[k];
            proof {
                assert(self@.subrange(lo as int, k + 1) =~= self@.subrange(lo as int, k as int)
                    .push(self@[k as int]));
            }
            push_char(&mut t, c);
            k = k + 1;
        }
        t
    }

    /// Case-insensitive, word-bounded match of `w` at `pos`.
    fn word_match(&self, pos: usize, w: &str) -> (b: bool)
        requires
            pos <= self.chars.len(),
        ensures
            b == kw_match(self@, pos as int, w@),
    {
        let n = self.chars.len();
        let wn = w.unicode_len();
        if n - pos < wn {
            return false;
        }
        let mut j: usize = 0;
        while j < wn
            invariant
                j <= wn,
                wn == w@.len(),
                pos + wn <= n,
                n == self.chars.len(),
                forall|k: int| 0 <= k < j ==> eq_ci(self@[pos + k], w@[k]),
            decreases wn - j,
        {
            if !eq_ci_ex(self.chars[pos + j], w.get_char(j)) {
                assert(!eq_ci(self@[pos + j as int], w@[j as int]));
                return false;
            }
            j = j + 1;
        }
        if pos + wn == n {
            true
        } else {
            !is_word_ex(self.chars[pos + wn])
        }
    }

    /// The keyword recognized at `pos` and its end, if any.
    fn keyword_token(&self, pos: usize) -> (r: Option<(Keyword, usize)>)
        requires
            pos < self.chars.len(),
        ensures
            match r {
                Some((k, e)) => keyword_at(self@, pos as int) == Some(k) && e as int == pos
                    + kw_chars(k).len() && e <= self.chars.len(),
                None => keyword_at(self@, pos as int) is None,
            },
    {
        proof {
            reveal_strlit("select");
            reveal_strlit("insert");
            reveal_strlit("from");
            reveal_strlit("where");
            reveal_strlit("values");
            reveal_strlit("into");
            assert("select"@ =~= kw_chars(Keyword::Select));
            assert("insert"@ =~= kw_chars(Keyword::Insert));
            assert("from"@ =~= kw_chars(Keyword::From));
            assert("where"@ =~= kw_chars(Keyword::Where));
            assert("values"@ =~= kw_chars(Keyword::Values));
            assert("into"@ =~= kw_chars(Keyword::Into));
        }
        if self.word_match(pos, "select") {
            Some((Keyword::Select, pos + 6))
        } else if self.word_match(pos, "insert") {
            Some((Keyword::Insert, pos + 6))
        } else if self.word_match(pos, "from") {
            Some((Keyword::From, pos + 4))
        } else if self.word_match(pos, "where") {
            Some((Keyword::Where, pos + 5))
        } else if self.word_match(pos, "values") {
            Some((Keyword::Values, pos + 6))
        } else if self.word_match(pos, "into") {
            Some((Keyword::Into, pos + 4))
        } else {
            None
        }
    }

    /// The token at `pos` and the position after it, or `None` where
    /// scanning stops.
    fn next_token(&self, pos: usize) -> (r: Option<(Token, usize)>)
        requires
            pos < self.chars.len(),
        ensures
            match r {
                Some((t, e)) => next_tok(self@, pos as int) == Some(t@) && e as int == t@.end && pos
                    < e <= self.chars.len(),
                None => next_tok(self@, pos as int) is None,
            },
    {
        let n = self.chars.len();
        // whitespace run
        let we = self.space_end(pos);
        if we > pos {
            return Some(
                (Token { span: Span { start: pos, end: we }, kind: TokenKind::Whitespace }, we),
            );
        }
        // punctuation
        let c0 = self.chars[pos];
        if c0 == ',' {
            return Some(
                (Token { span: Span { start: pos, end: pos + 1 }, kind: TokenKind::Comma }, pos + 1),
            );
        }
        if c0 == '=' {
            return Some(
                (
                    Token { span: Span { start: pos, end: pos + 1 }, kind: TokenKind::Equals },
                    pos + 1,
                ),
            );
        }
        if c0 == ';' {
            return Some(
                (
                    Token { span: Span { start: pos, end: pos + 1 }, kind: TokenKind::SemiColon },
                    pos + 1,
                ),
            );
        }
        if c0 == '>' {
            if pos + 1 < n && self.chars[pos + 1] == '=' {
                return Some(
                    (
                        Token {
                            span: Span { start: pos, end: pos + 2 },
                            kind: TokenKind::GreaterThanEquals,
                        },
                        pos + 2,
                    ),
                );
            }
            return Some(
                (
                    Token { span: Span { start: pos, end: pos + 1 }, kind: TokenKind::GreaterThan },
                    pos + 1,
                ),
            );
        }
        if c0 == '<' {
            if pos + 1 < n && self.chars[pos + 1] == '=' {
                return Some(
                    (
                        Token {
                            span: Span { start: pos, end: pos + 2 },
                            kind: TokenKind::SmallerThanEquals,
                        },
                        pos + 2,
                    ),
                );
            }
            return Some(
                (
                    Token { span: Span { start: pos, end: pos + 1 }, kind: TokenKind::SmallerThan },
                    pos + 1,
                ),
            );
        }
        // single-quoted identifier
        if c0 == '\'' {
            if let Some(close) = self.find_close(pos + 1, '\'') {
                let txt = self.ident_text(pos + 1, close);
                return Some(
                    (
                        Token {
                            span: Span { start: pos, end: close + 1 },
                            kind: TokenKind::Identifier(txt),
                        },
                        close + 1,
                    ),
                );
            }
        }
        // double-quoted string literal
        if c0 == '"' {
            if let Some(close) = self.find_close(pos + 1, '"') {
                let txt = self.raw_text(pos + 1, close);
                return Some(
                    (
                        Token {
                            span: Span { start: pos, end: close + 1 },
                            kind: TokenKind::String(txt),
                        },
                        close + 1,
                    ),
                );
            }
        }
        // decimal integer literal
        let de = self.digit_end(pos);
        if de > pos {
            let ghost run = digit_run(self@, pos as int);
            let mut acc: u32 = 0;
            let mut j = pos;
            while j < de
                invariant
                    pos <= j <= de <= self.chars.len(),
                    de as int == pos + run,
                    run == digit_run(self@, pos as int),
                    forall|k: int| pos <= k < de ==> is_digit_char(self@[k]),
                    acc as int == num_val(self@, pos as int, j - pos),
                decreases de - j,
            {
                let d = digit_ex(self.chars[j]);
                let m = match acc.checked_mul(10) {
                    Some(m) => m,
                    None => {
                        proof {
                            lemma_num_val_mono(self@, pos as int, j - pos + 1, run);
                            lemma_num_val_nonneg(self@, pos as int, j - pos);
                        }
                        return None;
                    },
                };
                let a2 = match m.checked_add(d) {
                    Some(a2) => a2,
                    None => {
                        proof {
                            lemma_num_val_mono(self@, pos as int, j - pos + 1, run);
                        }
                        return None;
                    },
                };
                acc = a2;
                j = j + 1;
            }
            return Some(
                (
                    Token { span: Span { start: pos, end: de }, kind: TokenKind::Integer(acc) },
                    de,
                ),
            );
        }
        // keyword
        if let Some((k, e)) = self.keyword_token(pos) {
            let kind = TokenKind::Keyword(k);
            return Some((Token { span: Span { start: pos, end: e }, kind }, e));
        }
        // bare identifier
        if is_letter_ex(c0) {
            let ie = self.ident_end(pos);
            proof {
                lemma_ident_run_nonneg(self@, pos as int + 1);
                assert(ident_run(self@, pos as int) == 1 + ident_run(self@, pos as int + 1));
            }
            let txt = self.raw_text(pos, ie);
            return Some(
                (
                    Token {
                        span: Span { start: pos, end: ie },
                        kind: TokenKind::Identifier(txt),
                    },
                    ie,
                ),
            );
        }
        None
    }

    /// Scan the whole input into tokens, stopping at the first position
    /// where nothing is recognized and dropping the rest.
    pub fn parse(&self) -> (tokens: Vec<Token>)
        ensures
            toks_view(tokens@) == tokenize(self@),
    {
        let n = self.chars.len();
        let mut out: Vec<Token> = Vec::new();
        let mut pos: usize = 0;
        let mut done = false;
        proof {
            assert(toks_view(Seq::<Token>::empty()) =~= Seq::<Tok>::empty());
        }
        while !done && pos < n
            invariant
                pos <= n,
                n == self.chars.len(),
                tokenize(self@) == toks_view(out@) + tokenize_from(self@, pos as int),
                done ==> tokenize_from(self@, pos as int) == Seq::<Tok>::empty(),
            decreases n - pos + (if done {
                0int
            } else {
                1int
            }),
        {
            match self.next_token(pos) {
                Some((t, e)) => {
                    proof {
                        assert(tokenize_from(self@, pos as int) =~= seq![t@] + tokenize_from(
                            self@,
                            e as int,
                        ));
                        assert(toks_view(out@.push(t)) =~= toks_view(out@) + seq![t@]);
                        assert((toks_view(out@) + seq![t@]) + tokenize_from(self@, e as int)
                            =~= toks_view(out@) + (seq![t@] + tokenize_from(self@, e as int)));
                    }
                    out.push(t);
                    pos = e;
                },
                None => {
                    done = true;
                },
            }
        }
        proof {
            assert(tokenize(self@) =~= toks_view(out@));
        }
        out
    }
}

} // verus!

