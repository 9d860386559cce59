//! Lexical analysis: source text to a flat token sequence.
//!
//! The lexer is total over UTF-8 input: it either produces the token
//! sequence that the ghost tokenizer `spec_tokens` describes, or reports a
//! grammar error on exactly the inputs where `spec_tokens` reports one.
//! It never aborts.

use vstd::prelude::*;
use crate::num::Num;
use crate::text::{digit_char, push_char, str_to_chars};
use crate::{ParseError, ParseResult};

verus! {

/// One lexical token. The stream a tokenizer run produces always ends with
/// `Eof`.
#[derive(Debug, PartialEq)]
pub enum Token {
    Spec,
    Description,
    Inputs,
    Computed,
    Events,
    Constraints,
    Lifecycle,
    Extensions,
    Types,
    StringLiteral(String),
    IntLiteral(i64),
    FloatLiteral(Num),
    Identifier(String),
    LeftBrace,
    RightBrace,
    LeftParen,
    RightParen,
    Colon,
    Comma,
    Arrow,
    Dot,
    Version(u32, u32, Option<u32>),
    Eof,
}

/// The mathematical model of a token: text as character sequences, numbers
/// as mathematical integers (scaled, for floats).
pub enum TokModel {
    Spec,
    Description,
    Inputs,
    Computed,
    Events,
    Constraints,
    Lifecycle,
    Extensions,
    Types,
    StringLit(Seq<char>),
    IntLit(int),
    FloatLit(int),
    Ident(Seq<char>),
    LBrace,
    RBrace,
    LParen,
    RParen,
    Colon,
    Comma,
    Arrow,
    Dot,
    Version(int, int, Option<int>),
    Eof,
}

impl Token {
    /// The model of this token.
    pub open spec fn model(self) -> TokModel {
        match self {
            Token::Spec => TokModel::Spec,
            Token::Description => TokModel::Description,
            Token::Inputs => TokModel::Inputs,
            Token::Computed => TokModel::Computed,
            Token::Events => TokModel::Events,
            Token::Constraints => TokModel::Constraints,
            Token::Lifecycle => TokModel::Lifecycle,
            Token::Extensions => TokModel::Extensions,
            Token::Types => TokModel::Types,
            Token::StringLiteral(s) => TokModel::StringLit(s@),
            Token::IntLiteral(n) => TokModel::IntLit(n as int),
            Token::FloatLiteral(n) => TokModel::FloatLit(n.spec_units()),
            Token::Identifier(s) => TokModel::Ident(s@),
            Token::LeftBrace => TokModel::LBrace,
            Token::RightBrace => TokModel::RBrace,
            Token::LeftParen => TokModel::LParen,
            Token::RightParen => TokModel::RParen,
            Token::Colon => TokModel::Colon,
            Token::Comma => TokModel::Comma,
            Token::Arrow => TokModel::Arrow,
            Token::Dot => TokModel::Dot,
            Token::Version(a, b, c) => TokModel::Version(
                a as int,
                b as int,
                match c {
                    Some(p) => Some(p as int),
                    None => None,
                },
            ),
            Token::Eof => TokModel::Eof,
        }
    }
}

impl Token {
    /// A short description of the token, for expected-versus-found error
    /// messages.
    pub fn describe(&self) -> &'static str {
        match self {
            Token::Spec => "keyword 'spec'",
            Token::Description => "keyword 'description'",
            Token::Inputs => "keyword 'inputs'",
            Token::Computed => "keyword 'computed'",
            Token::Events => "keyword 'events'",
            Token::Constraints => "keyword 'constraints'",
            Token::Lifecycle => "keyword 'lifecycle'",
            Token::Extensions => "keyword 'extensions'",
            Token::Types => "keyword 'types'",
            Token::StringLiteral(_) => "string literal",
            Token::IntLiteral(_) => "integer literal",
            Token::FloatLiteral(_) => "float literal",
            Token::Identifier(_) => "identifier",
            Token::LeftBrace => "'{'",
            Token::RightBrace => "'}'",
            Token::LeftParen => "'('",
            Token::RightParen => "')'",
            Token::Colon => "':'",
            Token::Comma => "','",
            Token::Arrow => "'->'",
            Token::Dot => "'.'",
            Token::Version(_, _, _) => "version literal",
            Token::Eof => "end of input",
        }
    }
}

/// The models of a token list, in order.
pub open spec fn tokens_model(ts: Seq<Token>) -> Seq<TokModel> {
    ts.map_values(|t: Token| t.model())
}

/// The digit predicate, as a named function value.
pub open spec fn digit_pred() -> spec_fn(char) -> bool {
    |c: char| is_digit(c)
}

/// The identifier-character predicate, as a named function value.
pub open spec fn ident_pred() -> spec_fn(char) -> bool {
    |c: char| is_ident_char(c)
}

/// The not-a-double-quote predicate, as a named function value.
pub open spec fn nonquote_pred() -> spec_fn(char) -> bool {
    |c: char| c != '"'
}

/// Insignificant whitespace.
pub open spec fn is_space(c: char) -> bool {
    c == ' ' || c == '\t' || c == '\n' || c == '\r'
}

/// An ASCII decimal digit.
pub open spec fn is_digit(c: char) -> bool {
    48 <= (c as u32) && (c as u32) <= 57
}

/// A character that may start an identifier.
pub open spec fn is_ident_start(c: char) -> bool {
    (97 <= (c as u32) && (c as u32) <= 122) || (65 <= (c as u32) && (c as u32) <= 90) || c == '_'
}

/// A character that may continue an identifier.
pub open spec fn is_ident_char(c: char) -> bool {
    is_ident_start(c) || is_digit(c)
}

/// The numeric value of a decimal digit character.
pub open spec fn digit_val(c: char) -> nat {
    ((c as u32) - ('0' as u32)) as nat
}

/// The first position at or after `i` where `p` stops holding, or the end.
pub open spec fn run_end(s: Seq<char>, i: int, p: spec_fn(char) -> bool) -> int
    decreases s.len() - i,
{
    if 0 <= i < s.len() && p(s[i]) {
        run_end(s, i + 1, p)
    } else {
        i
    }
}

/// A run extends from its start to its end and stops for a reason.
pub proof fn lemma_run_end(s: Seq<char>, i: int, p: spec_fn(char) -> bool)
    requires
        0 <= i <= s.len(),
    ensures
        i <= run_end(s, i, p) <= s.len(),
        forall|k: int| i <= k < run_end(s, i, p) ==> p(s[k]),
        run_end(s, i, p) == s.len() || !p(s[run_end(s, i, p)]),
    decreases s.len() - i,
{
    if i < s.len() && p(s[i]) {
        lemma_run_end(s, i + 1, p);
    }
}

/// The value of a digit string read in base ten.
pub open spec fn dec_value(ds: Seq<char>) -> nat
    decreases ds.len(),
{
    if ds.len() == 0 {
        0
    } else {
        dec_value(ds.drop_last()) * 10 + digit_val(ds.last())
    }
}

/// Reading more digits never shrinks the value.
pub proof fn lemma_dec_value_mono(s: Seq<char>, a: int, i: int, j: int)
    requires
        0 <= a <= i <= j <= s.len(),
    ensures
        dec_value(s.subrange(a, j)) >= dec_value(s.subrange(a, i)),
    decreases j - i,
{
    if i < j {
        lemma_dec_value_mono(s, a, i, j - 1);
        assert(s.subrange(a, j).drop_last() =~= s.subrange(a, j - 1));
        assert(dec_value(s.subrange(a, j)) == dec_value(s.subrange(a, j - 1)) * 10 + digit_val(
            s.subrange(a, j).last(),
        ));
    } else {
        assert(s.subrange(a, j) =~= s.subrange(a, i));
    }
}

/// Every character of the string is a decimal digit.
pub open spec fn all_digits(ds: Seq<char>) -> bool {
    forall|k: int| 0 <= k < ds.len() ==> is_digit(#[trigger] ds[k])
}

/// A non-empty all-digit string read in base ten, when its value is at
/// most `bound`.
pub open spec fn parse_dec(ds: Seq<char>, bound: int) -> Option<int> {
    if ds.len() > 0 && all_digits(ds) && dec_value(ds) <= bound {
        Some(dec_value(ds) as int)
    } else {
        None
    }
}

/// The keyword for a word, or a plain identifier.
pub open spec fn kw_or_ident(w: Seq<char>) -> TokModel {
    if w == "spec"@ {
        TokModel::Spec
    } else if w == "description"@ {
        TokModel::Description
    } else if w == "inputs"@ {
        TokModel::Inputs
    } else if w == "computed"@ {
        TokModel::Computed
    } else if w == "events"@ {
        TokModel::Events
    } else if w == "constraints"@ {
        TokModel::Constraints
    } else if w == "lifecycle"@ {
        TokModel::Lifecycle
    } else if w == "extensions"@ {
        TokModel::Extensions
    } else if w == "types"@ {
        TokModel::Types
    } else {
        TokModel::Ident(w)
    }
}

/// The scaled value of up to six fractional digits.
pub open spec fn frac_units(ds: Seq<char>) -> int {
    if ds.len() >= 6 {
        dec_value(ds.subrange(0, 6)) as int
    } else {
        (dec_value(ds) * pow10((6 - ds.len()) as nat)) as int
    }
}

/// A power of ten.
pub open spec fn pow10(k: nat) -> nat
    decreases k,
{
    if k == 0 {
        1
    } else {
        10 * pow10((k - 1) as nat)
    }
}

/// What the tokenizer does at position `i`: `None` is a lexical error;
/// otherwise at most one token and the next position.
pub open spec fn spec_next(s: Seq<char>, i: int) -> Option<(Option<TokModel>, int)>
    recommends
        0 <= i < s.len(),
{
    let c = s[i];
    if is_space(c) {
        Some((None, i + 1))
    } else if c == '{' {
        Some((Some(TokModel::LBrace), i + 1))
    } else if c == '}' {
        Some((Some(TokModel::RBrace), i + 1))
    } else if c == '(' {
        Some((Some(TokModel::LParen), i + 1))
    } else if c == ')' {
        Some((Some(TokModel::RParen), i + 1))
    } else if c == ':' {
        Some((Some(TokModel::Colon), i + 1))
    } else if c == ',' {
        Some((Some(TokModel::Comma), i + 1))
    } else if c == '.' {
        Some((Some(TokModel::Dot), i + 1))
    } else if c == '-' {
        if i + 1 < s.len() && s[i + 1] == '>' {
            Some((Some(TokModel::Arrow), i + 2))
        } else {
            None
        }
    } else if c == '"' {
        let e = run_end(s, i + 1, nonquote_pred());
        if e < s.len() {
            Some((Some(TokModel::StringLit(s.subrange(i + 1, e))), e + 1))
        } else {
            None
        }
    } else if is_digit(c) {
        spec_next_number(s, i)
    } else if is_ident_start(c) {
        spec_next_word(s, i)
    } else {
        None
    }
}

/// The token for a number starting at `i`: an integer literal, or a float
/// literal once a single decimal point appears.
pub open spec fn spec_next_number(s: Seq<char>, i: int) -> Option<(Option<TokModel>, int)> {
    let e1 = run_end(s, i, digit_pred());
    if e1 < s.len() && s[e1] == '.' {
        let e2 = run_end(s, e1 + 1, digit_pred());
        let whole = dec_value(s.subrange(i, e1));
        let units = whole * 1_000_000 + frac_units(s.subrange(e1 + 1, e2));
        if units <= i64::MAX {
            Some((Some(TokModel::FloatLit(units as int)), e2))
        } else {
            None
        }
    } else {
        match parse_dec(s.subrange(i, e1), i64::MAX as int) {
            Some(v) => Some((Some(TokModel::IntLit(v)), e1)),
            None => None,
        }
    }
}

/// The token for a word starting at `i`: a composite version literal when
/// the word is `v<digits>` followed by `.<digits>` and an optional
/// `.<digits>`; otherwise a keyword or identifier. When a version pattern
/// was tried and fails, the characters it consumed stay consumed.
pub open spec fn spec_next_word(s: Seq<char>, i: int) -> Option<(Option<TokModel>, int)> {
    let we = run_end(s, i, ident_pred());
    let w = s.subrange(i, we);
    if w[0] == 'v' && w.len() > 1 && we < s.len() && s[we] == '.' {
        let minor_end = run_end(s, we + 1, digit_pred());
        let found_minor = minor_end > we + 1;
        let has_patch_dot = minor_end < s.len() && s[minor_end] == '.';
        let ce = if has_patch_dot {
            run_end(s, minor_end + 1, digit_pred())
        } else {
            minor_end
        };
        if found_minor {
            let maj = parse_dec(w.subrange(1, w.len() as int), u32::MAX as int);
            let min = parse_dec(s.subrange(we + 1, minor_end), u32::MAX as int);
            if maj is Some && min is Some {
                if has_patch_dot {
                    match parse_dec(s.subrange(minor_end + 1, ce), u32::MAX as int) {
                        Some(p) => Some(
                            (Some(TokModel::Version(maj->0, min->0, Some(p))), ce),
                        ),
                        None => Some((Some(kw_or_ident(w)), ce)),
                    }
                } else {
                    Some((Some(TokModel::Version(maj->0, min->0, None)), ce))
                }
            } else {
                Some((Some(kw_or_ident(w)), ce))
            }
        } else {
            Some((Some(kw_or_ident(w)), ce))
        }
    } else {
        Some((Some(kw_or_ident(w)), we))
    }
}

/// Every tokenizer step moves forward and stays inside the text.
pub proof fn lemma_next_bounds(s: Seq<char>, i: int)
    requires
        0 <= i < s.len(),
    ensures
        spec_next(s, i) matches Some((_, j)) ==> i < j <= s.len(),
{
    lemma_run_end(s, i + 1, nonquote_pred());
    lemma_run_end(s, i, digit_pred());
    lemma_run_end(s, i, ident_pred());
    let e1 = run_end(s, i, digit_pred());
    if 0 <= e1 + 1 <= s.len() {
        lemma_run_end(s, e1 + 1, digit_pred());
    }
    let we = run_end(s, i, ident_pred());
    if 0 <= we + 1 <= s.len() {
        lemma_run_end(s, we + 1, digit_pred());
        let minor_end = run_end(s, we + 1, digit_pred());
        if 0 <= minor_end + 1 <= s.len() {
            lemma_run_end(s, minor_end + 1, digit_pred());
        }
    }
}

/// The tokens of the text from position `i` on: `None` on a lexical
/// error, otherwise the token sequence ending in `Eof`.
pub open spec fn spec_tokens(s: Seq<char>, i: int) -> Option<Seq<TokModel>>
    recommends
        0 <= i <= s.len(),
    decreases s.len() - i,
        via spec_tokens_dec
{
    if i >= s.len() || i < 0 {
        Some(seq![TokModel::Eof])
    } else {
        match spec_next(s, i) {
            None => None,
            Some((t, j)) => match spec_tokens(s, j) {
                None => None,
                Some(rest) => match t {
                    Some(tok) => Some(seq![tok] + rest),
                    None => Some(rest),
                },
            },
        }
    }
}

#[via_fn]
proof fn spec_tokens_dec(s: Seq<char>, i: int) {
    if 0 <= i < s.len() {
        lemma_next_bounds(s, i);
    }
}



/// Whether position `j` holds a decimal digit.
fn digit_at(cs: &Vec<char>, j: usize) -> (r: bool)
    requires
        j <= cs.len(),
    ensures
        r == (j < cs.len() && is_digit(cs@[j as int])),
{
    if j < cs.len() {
        let u = cs[j] as u32;
        48 <= u && u <= 57
    } else {
        false
    }
}

/// Whether position `j` holds an identifier character.
fn ident_at(cs: &Vec<char>, j: usize) -> (r: bool)
    requires
        j <= cs.len(),
    ensures
        r == (j < cs.len() && is_ident_char(cs@[j as int])),
{
    if j < cs.len() {
        let u = cs[j] as u32;
        (97 <= u && u <= 122) || (65 <= u && u <= 90) || cs[j] == '_' || (48 <= u && u <= 57)
    } else {
        false
    }
}

/// A digit string is always worth less than the power of ten of its length.
pub proof fn lemma_dec_value_bound(ds: Seq<char>)
    requires
        all_digits(ds),
    ensures
        dec_value(ds) < pow10(ds.len()),
    decreases ds.len(),
{
    if ds.len() > 0 {
        assert(all_digits(ds.drop_last()));
        assert(is_digit(ds.last()));
        lemma_dec_value_bound(ds.drop_last());
    }
}

/// First position at or after `i` that is not a decimal digit.
fn scan_digits(cs: &Vec<char>, i: usize) -> (e: usize)
    requires
        i <= cs.len(),
    ensures
        e as int == run_end(cs@, i as int, digit_pred()),
        i <= e <= cs.len(),
{
    proof {
        lemma_run_end(cs@, i as int, digit_pred());
    }
    let mut j = i;
    while digit_at(cs, j)
        invariant
            i <= j <= cs.len(),
            run_end(cs@, i as int, digit_pred()) == run_end(cs@, j as int, digit_pred()),
        decreases cs.len() - j,
    {
        j = j + 1;
    }
    j
}

/// First position at or after `i` that is not an identifier character.
fn scan_idents(cs: &Vec<char>, i: usize) -> (e: usize)
    requires
        i <= cs.len(),
    ensures
        e as int == run_end(cs@, i as int, ident_pred()),
        i <= e <= cs.len(),
{
    proof {
        lemma_run_end(cs@, i as int, ident_pred());
    }
    let mut j = i;
    while ident_at(cs, j)
        invariant
            i <= j <= cs.len(),
            run_end(cs@, i as int, ident_pred()) == run_end(cs@, j as int, ident_pred()),
        decreases cs.len() - j,
    {
        j = j + 1;
    }
    j
}

/// First position at or after `i` holding a double quote, or the end.
fn scan_nonquote(cs: &Vec<char>, i: usize) -> (e: usize)
    requires
        i <= cs.len(),
    ensures
        e as int == run_end(cs@, i as int, nonquote_pred()),
        i <= e <= cs.len(),
{
    proof {
        lemma_run_end(cs@, i as int, nonquote_pred());
    }
    let mut j = i;
    while j < cs.len() && cs[j] != '"'
        invariant
            i <= j <= cs.len(),
            run_end(cs@, i as int, nonquote_pred()) == run_end(cs@, j as int, nonquote_pred()),
        decreases cs.len() - j,
    {
        j = j + 1;
    }
    j
}

/// The characters of `cs` between `from` and `to`, as a string.
fn collect_range(cs: &Vec<char>, from: usize, to: usize) -> (r: String)
    requires
        from <= to <= cs.len(),
    ensures
        r@ == cs@.subrange(from as int, to as int),
{
    let mut r = String::new();
    let mut j = from;
    while j < to
        invariant
            from <= j <= to <= cs.len(),
            r@ == cs@.subrange(from as int, j as int),
        decreases to - j,
    {
        push_char(&mut r, cs[j]);
        proof {
            assert(cs@.subrange(from as int, j as int) + seq![cs@[j as int]] =~= cs@.subrange(
                from as int,
                j as int + 1,
            ));
        }
        j = j + 1;
    }
    proof {
        assert(r@ =~= cs@.subrange(from as int, to as int));
    }
    r
}

/// Read the digit string between `from` and `to` in base ten; `None` when
/// it is empty, holds a non-digit, or is worth more than `bound`.
fn parse_dec_exec(cs: &Vec<char>, from: usize, to: usize, bound: u64) -> (r: Option<u64>)
    requires
        from <= to <= cs.len(),
    ensures
        match r {
            Some(v) => parse_dec(cs@.subrange(from as int, to as int), bound as int) == Some(
                v as int,
            ),
            None => parse_dec(cs@.subrange(from as int, to as int), bound as int) is None,
        },
{
    let ghost whole = cs@.subrange(from as int, to as int);
    if from == to {
        return None;
    }
    let mut acc: u64 = 0;
    let mut j = from;
    while j < to
        invariant
            from <= j <= to <= cs.len(),
            whole == cs@.subrange(from as int, to as int),
            all_digits(cs@.subrange(from as int, j as int)),
            acc as nat == dec_value(cs@.subrange(from as int, j as int)),
            acc <= bound,
        decreases to - j,
    {
        let c = cs[j];
        let u = c as u32;
        if !(48 <= u && u <= 57) {
            proof {
                assert(whole[j as int - from as int] == cs@[j as int]);
                assert(!all_digits(whole));
            }
            return None;
        }
        let d: u64 = ((u - 48) as u64);
        let ghost prev = cs@.subrange(from as int, j as int);
        let ghost cur = cs@.subrange(from as int, j as int + 1);
        proof {
            assert(cur.drop_last() =~= prev);
            assert(cur.last() == cs@[j as int]);
            assert(forall|k: int| 0 <= k < cur.len() ==> is_digit(#[trigger] cur[k]));
        }
        let next = match acc.checked_mul(10) {
            Some(x) => x.checked_add(d),
            None => None,
        };
        match next {
            Some(v) => {
                if v > bound {
                    proof {
                        lemma_dec_value_mono(cs@, from as int, j as int + 1, to as int);
                    }
                    return None;
                }
                acc = v;
            },
            None => {
                proof {
                    assert(dec_value(cur) > u64::MAX);
                    lemma_dec_value_mono(cs@, from as int, j as int + 1, to as int);
                }
                return None;
            },
        }
        j = j + 1;
    }
    proof {
        assert(cs@.subrange(from as int, j as int) =~= whole);
    }
    Some(acc)
}

/// Whether a string's characters equal a literal's.
fn str_eq_lit(w: &String, lit: &str) -> (r: bool)
    ensures
        r == (w@ == lit@),
{
    let l = String::from_str(lit);
    *w == l
}

/// The token for a word: a keyword where the word is one, otherwise an
/// identifier.
fn kw_token(word: String) -> (t: Token)
    ensures
        t.model() == kw_or_ident(word@),
{
    if str_eq_lit(&word, "spec") {
        Token::Spec
    } else if str_eq_lit(&word, "description") {
        Token::Description
    } else if str_eq_lit(&word, "inputs") {
        Token::Inputs
    } else if str_eq_lit(&word, "computed") {
        Token::Computed
    } else if str_eq_lit(&word, "events") {
        Token::Events
    } else if str_eq_lit(&word, "constraints") {
        Token::Constraints
    } else if str_eq_lit(&word, "lifecycle") {
        Token::Lifecycle
    } else if str_eq_lit(&word, "extensions") {
        Token::Extensions
    } else if str_eq_lit(&word, "types") {
        Token::Types
    } else {
        Token::Identifier(word)
    }
}

/// The value of an optional token, in the model.
pub open spec fn opt_model(t: Option<Token>) -> Option<TokModel> {
    match t {
        Some(tok) => Some(tok.model()),
        None => None,
    }
}

/// Powers of ten up to one million.
fn pow10_small(k: u64) -> (r: u64)
    requires
        k <= 6,
    ensures
        r as nat == pow10(k as nat),
{
    proof {
        reveal_with_fuel(pow10, 8);
    }
    if k == 0 {
        1
    } else if k == 1 {
        10
    } else if k == 2 {
        100
    } else if k == 3 {
        1_000
    } else if k == 4 {
        10_000
    } else if k == 5 {
        100_000
    } else {
        1_000_000
    }
}

/// Multiplying powers of ten adds their exponents.
pub proof fn lemma_pow10_add(a: nat, b: nat)
    ensures
        pow10(a) * pow10(b) == pow10(a + b),
    decreases a,
{
    if a == 0 {
        assert(pow10(0) == 1);
    } else {
        lemma_pow10_add((a - 1) as nat, b);
        assert(pow10(a) * pow10(b) == 10 * pow10((a - 1) as nat) * pow10(b));
        assert(10 * pow10((a - 1) as nat) * pow10(b) == 10 * (pow10((a - 1) as nat) * pow10(b)))
            by (nonlinear_arith);
        assert(pow10(a + b) == 10 * pow10((a + b - 1) as nat));
    }
}

/// The number token starting at `i`.
fn next_number(cs: &Vec<char>, i: usize) -> (r: ParseResult<(Option<Token>, usize)>)
    requires
        i < cs.len(),
        is_digit(cs@[i as int]),
    ensures
        match r {
            Ok((t, j)) => spec_next(cs@, i as int) == Some((opt_model(t), j as int)) && i < j
                <= cs.len(),
            Err(e) => spec_next(cs@, i as int) is None && e is Grammar,
        },
{
    proof {
        lemma_run_end(cs@, i as int, digit_pred());
        reveal_strlit("Invalid float literal: ");
        reveal_strlit("Invalid integer literal: ");
    }
    let e1 = scan_digits(cs, i);
    if e1 < cs.len() && cs[e1] == '.' {
        proof {
            lemma_run_end(cs@, e1 as int + 1, digit_pred());
        }
        let e2 = scan_digits(cs, e1 + 1);
        let whole = match parse_dec_exec(cs, i, e1, 9_223_372_036_854_775_807u64) {
            Some(v) => v,
            None => {
                proof {
                    let w = cs@.subrange(i as int, e1 as int);
                    assert(w.len() > 0);
                    assert(all_digits(w));
                    assert(dec_value(w) > i64::MAX);
                    assert(dec_value(w) * 1_000_000 + frac_units(
                        cs@.subrange(e1 as int + 1, e2 as int),
                    ) > i64::MAX) by (nonlinear_arith)
                        requires
                            dec_value(w) > i64::MAX,
                            frac_units(cs@.subrange(e1 as int + 1, e2 as int)) >= 0,
                    ;
                }
                let mut m = String::from_str("Invalid float literal: ");
                let text = collect_range(cs, i, e2);
                m.append(text.as_str());
                return Err(ParseError::Grammar(m));
            },
        };
        let fl: usize = e2 - (e1 + 1);
        let ghost fds = cs@.subrange(e1 as int + 1, e2 as int);
        let fv: u64 = if fl >= 6 {
            proof {
                assert(all_digits(fds.subrange(0, 6)));
                lemma_dec_value_bound(fds.subrange(0, 6));
                reveal_with_fuel(pow10, 8);
                assert(fds.subrange(0, 6) =~= cs@.subrange(e1 as int + 1, e1 as int + 7));
            }
            match parse_dec_exec(cs, e1 + 1, e1 + 7, 999_999u64) {
                Some(v) => {
                    proof {
                        assert(v as nat == dec_value(fds.subrange(0, 6)));
                        assert(v as int == frac_units(fds));
                    }
                    v
                },
                None => {
                    proof {
                        assert(false);
                    }
                    0
                },
            }
        } else if fl == 0 {
            proof {
                assert(fds =~= Seq::<char>::empty());
                reveal_with_fuel(pow10, 8);
                assert(fds.len() == 0);
                assert(dec_value(fds) == 0);
                assert(frac_units(fds) == dec_value(fds) * pow10(6));
                assert(dec_value(fds) * pow10(6) == 0) by (nonlinear_arith)
                    requires
                        dec_value(fds) == 0,
                ;
                assert(frac_units(fds) == 0);
            }
            0u64
        } else {
            proof {
                assert(all_digits(fds));
                lemma_dec_value_bound(fds);
                reveal_with_fuel(pow10, 8);
            }
            let raw = match parse_dec_exec(cs, e1 + 1, e2, 999_999u64) {
                Some(v) => v,
                None => {
                    proof {
                        lemma_pow10_add(fds.len(), (6 - fds.len()) as nat);
                        assert(false);
                    }
                    0
                },
            };
            let mult: u64 = pow10_small(6 - (fl as u64));
            proof {
                assert((raw as nat) < pow10(fds.len()));
                assert((raw as nat) * pow10((6 - fds.len()) as nat) < pow10(fds.len()) * pow10(
                    (6 - fds.len()) as nat,
                )) by (nonlinear_arith)
                    requires
                        (raw as nat) < pow10(fds.len()),
                        pow10((6 - fds.len()) as nat) > 0,
                ;
                lemma_pow10_add(fds.len(), (6 - fds.len()) as nat);
                assert((raw as nat) * (mult as nat) < 1_000_000);
                assert((raw * mult) as int == dec_value(fds) * pow10((6 - fds.len()) as nat));
                assert((raw * mult) as int == frac_units(fds));
            }
            raw * mult
        };
        proof {
            assert(fv as int == frac_units(fds));
            assert(fv <= 999_999);
        }
        let units: u128 = (whole as u128) * 1_000_000 + (fv as u128);
        if units <= 9_223_372_036_854_775_807u128 {
            Ok((Some(Token::FloatLiteral(Num::from_scaled(units as i64))), e2))
        } else {
            let mut m = String::from_str("Invalid float literal: ");
            let text = collect_range(cs, i, e2);
            m.append(text.as_str());
            Err(ParseError::Grammar(m))
        }
    } else {
        match parse_dec_exec(cs, i, e1, 9_223_372_036_854_775_807u64) {
            Some(v) => Ok((Some(Token::IntLiteral(v as i64)), e1)),
            None => {
                let mut m = String::from_str("Invalid integer literal: ");
                let text = collect_range(cs, i, e1);
                m.append(text.as_str());
                Err(ParseError::Grammar(m))
            },
        }
    }
}

/// The word token starting at `i`: a composite version literal, a keyword,
/// or an identifier.
fn next_word(cs: &Vec<char>, i: usize) -> (r: ParseResult<(Option<Token>, usize)>)
    requires
        i < cs.len(),
        is_ident_start(cs@[i as int]),
    ensures
        match r {
            Ok((t, j)) => spec_next(cs@, i as int) == Some((opt_model(t), j as int)) && i < j
                <= cs.len(),
            Err(e) => spec_next(cs@, i as int) is None && e is Grammar,
        },
{
    proof {
        lemma_run_end(cs@, i as int, ident_pred());
    }
    let we = scan_idents(cs, i);
    let ghost w = cs@.subrange(i as int, we as int);
    proof {
        assert(we > i);
        assert(w[0] == cs@[i as int]);
    }
    if cs[i] == 'v' && we > i + 1 && we < cs.len() && cs[we] == '.' {
        proof {
            lemma_run_end(cs@, we as int + 1, digit_pred());
        }
        let minor_end = scan_digits(cs, we + 1);
        let found_minor = minor_end > we + 1;
        let has_patch_dot = minor_end < cs.len() && cs[minor_end] == '.';
        let ce = if has_patch_dot {
            proof {
                lemma_run_end(cs@, minor_end as int + 1, digit_pred());
            }
            scan_digits(cs, minor_end + 1)
        } else {
            minor_end
        };
        if found_minor {
            let maj = parse_dec_exec(cs, i + 1, we, 4_294_967_295u64);
            let min = parse_dec_exec(cs, we + 1, minor_end, 4_294_967_295u64);
            proof {
                assert(w.subrange(1, w.len() as int) =~= cs@.subrange(i as int + 1, we as int));
            }
            match (maj, min) {
                (Some(mj), Some(mn)) => {
                    if has_patch_dot {
                        match parse_dec_exec(cs, minor_end + 1, ce, 4_294_967_295u64) {
                            Some(p) => Ok(
                                (Some(Token::Version(mj as u32, mn as u32, Some(p as u32))), ce),
                            ),
                            None => {
                                let word = collect_range(cs, i, we);
                                Ok((Some(kw_token(word)), ce))
                            },
                        }
                    } else {
                        Ok((Some(Token::Version(mj as u32, mn as u32, None)), ce))
                    }
                },
                _ => {
                    let word = collect_range(cs, i, we);
                    Ok((Some(kw_token(word)), ce))
                },
            }
        } else {
            let word = collect_range(cs, i, we);
            Ok((Some(kw_token(word)), ce))
        }
    } else {
        let word = collect_range(cs, i, we);
        Ok((Some(kw_token(word)), we))
    }
}

/// One tokenizer step at position `i`: at most one token and the next
/// position, or the first lexical error.
fn next_token(cs: &Vec<char>, i: usize) -> (r: ParseResult<(Option<Token>, usize)>)
    requires
        i < cs.len(),
    ensures
        match r {
            Ok((t, j)) => spec_next(cs@, i as int) == Some((opt_model(t), j as int)) && i < j
                <= cs.len(),
            Err(e) => spec_next(cs@, i as int) is None && e is Grammar,
        },
{
    proof {
        lemma_next_bounds(cs@, i as int);
        reveal_strlit("Unexpected character: ");
        reveal_strlit("Unterminated string literal");
    }
    let c = cs[i];
    if c == ' ' || c == '\t' || c == '\n' || c == '\r' {
        Ok((None, i + 1))
    } else if c == '{' {
        Ok((Some(Token::LeftBrace), i + 1))
    } else if c == '}' {
        Ok((Some(Token::RightBrace), i + 1))
    } else if c == '(' {
        Ok((Some(Token::LeftParen), i + 1))
    } else if c == ')' {
        Ok((Some(Token::RightParen), i + 1))
    } else if c == ':' {
        Ok((Some(Token::Colon), i + 1))
    } else if c == ',' {
        Ok((Some(Token::Comma), i + 1))
    } else if c == '.' {
        Ok((Some(Token::Dot), i + 1))
    } else if c == '-' {
        if i + 1 < cs.len() && cs[i + 1] == '>' {
            Ok((Some(Token::Arrow), i + 2))
        } else {
            let mut m = String::from_str("Unexpected character: ");
            push_char(&mut m, c);
            Err(ParseError::Grammar(m))
        }
    } else if c == '"' {
        let e = scan_nonquote(cs, i + 1);
        if e < cs.len() {
            let content = collect_range(cs, i + 1, e);
            Ok((Some(Token::StringLiteral(content)), e + 1))
        } else {
            Err(ParseError::Grammar(String::from_str("Unterminated string literal")))
        }
    } else if {
        let u = c as u32;
        48 <= u && u <= 57
    } {
        next_number(cs, i)
    } else if {
        let u = c as u32;
        (97 <= u && u <= 122) || (65 <= u && u <= 90) || c == '_'
    } {
        next_word(cs, i)
    } else {
        let mut m = String::from_str("Unexpected character: ");
        push_char(&mut m, c);
        Err(ParseError::Grammar(m))
    }
}


/// A successful tokenizer run always ends with the end-of-input marker.
pub proof fn lemma_spec_tokens_eof(s: Seq<char>, i: int)
    requires
        0 <= i,
    ensures
        spec_tokens(s, i) matches Some(ms) ==> ms.len() >= 1 && ms.last() is Eof,
    decreases s.len() - i,
{
    if i < s.len() {
        lemma_next_bounds(s, i);
        match spec_next(s, i) {
            Some((t, j)) => {
                lemma_spec_tokens_eof(s, j);
            },
            None => {},
        }
    }
}

/// Turn source text into its token sequence, ending in `Eof`; the first
/// unrecognized construct is a grammar error instead. Total over UTF-8
/// input: every outcome is exactly described by the ghost tokenizer.
pub fn tokenize(input: &str) -> (r: ParseResult<Vec<Token>>)
    ensures
        match r {
            Ok(ts) => spec_tokens(input@, 0) == Some(tokens_model(ts@)),
            Err(e) => spec_tokens(input@, 0) is None && e is Grammar,
        },
{
    let cs = str_to_chars(input);
    let mut toks: Vec<Token> = Vec::new();
    let mut i: usize = 0;
    while i < cs.len()
        invariant
            i <= cs.len(),
            cs@ == input@,
            match spec_tokens(cs@, i as int) {
                None => spec_tokens(cs@, 0) is None,
                Some(rest) => spec_tokens(cs@, 0) == Some(tokens_model(toks@) + rest),
            },
        decreases cs.len() - i,
    {
        match next_token(&cs, i) {
            Ok((t, j)) => {
                match t {
                    Some(tok) => {
                        let ghost old_toks = toks@;
                        let ghost tm = tok.model();
                        toks.push(tok);
                        proof {
                            assert(tokens_model(toks@) =~= tokens_model(old_toks) + seq![tm]);
                            if spec_tokens(cs@, j as int) is Some {
                                let rest = spec_tokens(cs@, j as int)->0;
                                assert(tokens_model(toks@) + rest =~= tokens_model(old_toks) + (
                                seq![tm] + rest));
                            }
                        }
                        i = j;
                    },
                    None => {
                        i = j;
                    },
                }
            },
            Err(e) => {
                return Err(e);
            },
        }
    }
    let ghost old_toks = toks@;
    toks.push(Token::Eof);
    proof {
        assert(tokens_model(toks@) =~= tokens_model(old_toks) + seq![TokModel::Eof]);
        assert(spec_tokens(cs@, i as int) == Some(seq![TokModel::Eof]));
    }
    Ok(toks)
}


/// Decimal renderings hold only digits and at least one of them.
pub proof fn lemma_dec_str_digits(n: nat)
    ensures
        all_digits(crate::text::dec_str(n)),
        crate::text::dec_str(n).len() >= 1,
    decreases n,
{
    if n >= 10 {
        lemma_dec_str_digits(n / 10);
        let s = crate::text::dec_str(n);
        assert(s == crate::text::dec_str(n / 10) + seq![crate::text::digit_char(n % 10)]);
        assert forall|k: int| 0 <= k < s.len() implies is_digit(#[trigger] s[k]) by {
            if k < crate::text::dec_str(n / 10).len() {
                assert(s[k] == crate::text::dec_str(n / 10)[k]);
            }
        }
    }
}

/// Reading a decimal rendering back gives the number it renders.
pub proof fn lemma_dec_round_trip(n: nat)
    ensures
        dec_value(crate::text::dec_str(n)) == n,
    decreases n,
{
    if n < 10 {
        let c = crate::text::digit_char(n);
        assert(crate::text::dec_str(n) == seq![c]);
        assert(seq![c].drop_last() =~= Seq::<char>::empty());
        assert(dec_value(Seq::<char>::empty()) == 0);
        assert(seq![c].last() == c);
        assert(dec_value(seq![c]) == digit_val(c));
        assert(digit_val(c) == n);
    } else {
        lemma_dec_round_trip(n / 10);
        let a = crate::text::dec_str(n / 10);
        let s = crate::text::dec_str(n);
        assert(s == a + seq![crate::text::digit_char(n % 10)]);
        assert(s.drop_last() =~= a);
        assert(s.last() == crate::text::digit_char(n % 10));
        assert(dec_value(s) == dec_value(a) * 10 + digit_val(crate::text::digit_char(n % 10)));
    }
}

/// A run over an all-digit stretch that ends at a non-digit or at the end
/// stops exactly there.
pub proof fn lemma_run_end_exact(s: Seq<char>, i: int, e: int)
    requires
        0 <= i <= e <= s.len(),
        forall|k: int| i <= k < e ==> is_digit(#[trigger] s[k]),
        e == s.len() || !is_digit(s[e]),
    ensures
        run_end(s, i, digit_pred()) == e,
    decreases e - i,
{
    if i < e {
        lemma_run_end_exact(s, i + 1, e);
    }
}

/// The version a well-formed version text denotes: one or two dots
/// separating non-empty digit runs, each read as a 32-bit number.
pub open spec fn spec_parse_version_text(s: Seq<char>) -> Option<(int, int, Option<int>)> {
    let d1 = run_end(s, 0, digit_pred());
    if d1 == 0 || d1 >= s.len() || s[d1] != '.' {
        None
    } else {
        let d2 = run_end(s, d1 + 1, digit_pred());
        if d2 == d1 + 1 {
            None
        } else if d2 == s.len() {
            match (parse_dec(s.subrange(0, d1), u32::MAX as int), parse_dec(
                s.subrange(d1 + 1, d2),
                u32::MAX as int,
            )) {
                (Some(ma), Some(mi)) => Some((ma, mi, None)),
                _ => None,
            }
        } else if s[d2] == '.' {
            let d3 = run_end(s, d2 + 1, digit_pred());
            if d3 == d2 + 1 || d3 != s.len() {
                None
            } else {
                match (parse_dec(s.subrange(0, d1), u32::MAX as int), parse_dec(
                    s.subrange(d1 + 1, d2),
                    u32::MAX as int,
                ), parse_dec(s.subrange(d2 + 1, d3), u32::MAX as int)) {
                    (Some(ma), Some(mi), Some(pa)) => Some((ma, mi, Some(pa))),
                    _ => None,
                }
            }
        } else {
            None
        }
    }
}

/// Version round-trip: the rendered form of any version reads back as
/// exactly that version.
pub proof fn lemma_version_round_trip(v: crate::ast::Version)
    ensures
        spec_parse_version_text(v.spec_render()) == Some(
            (
                v.major as int,
                v.minor as int,
                match v.patch {
                    Some(p) => Some(p as int),
                    None => None,
                },
            ),
        ),
{
    let ma = crate::text::dec_str(v.major as nat);
    let mi = crate::text::dec_str(v.minor as nat);
    lemma_dec_str_digits(v.major as nat);
    lemma_dec_str_digits(v.minor as nat);
    lemma_dec_round_trip(v.major as nat);
    lemma_dec_round_trip(v.minor as nat);
    assert(!is_digit('.'));
    let s = v.spec_render();
    let mal = ma.len() as int;
    let mil = mi.len() as int;
    match v.patch {
        None => {
            assert(s == ma + seq!['.'] + mi);
            assert(s.len() == mal + 1 + mil);
            assert(forall|k: int| 0 <= k < mal ==> #[trigger] s[k] == ma[k]);
            assert(s[mal] == '.');
            assert(forall|k: int| 0 <= k < mil ==> #[trigger] s[mal + 1 + k] == mi[k]);
            lemma_run_end_exact(s, 0, mal);
            assert forall|k: int| mal + 1 <= k < s.len() implies is_digit(#[trigger] s[k]) by {
                assert(s[k] == mi[k - (mal + 1)]);
            }
            lemma_run_end_exact(s, mal + 1, s.len() as int);
            assert(s.subrange(0, mal) =~= ma);
            assert(s.subrange(mal + 1, s.len() as int) =~= mi);
        },
        Some(p) => {
            let pa = crate::text::dec_str(p as nat);
            let pal = pa.len() as int;
            lemma_dec_str_digits(p as nat);
            lemma_dec_round_trip(p as nat);
            assert(s == ma + seq!['.'] + mi + seq!['.'] + pa);
            assert(s.len() == mal + 1 + mil + 1 + pal);
            assert(forall|k: int| 0 <= k < mal ==> #[trigger] s[k] == ma[k]);
            assert(s[mal] == '.');
            assert(forall|k: int| 0 <= k < mil ==> #[trigger] s[mal + 1 + k] == mi[k]);
            assert(s[mal + 1 + mil] == '.');
            assert(forall|k: int| 0 <= k < pal ==> #[trigger] s[mal + 1 + mil + 1 + k] == pa[k]);
            lemma_run_end_exact(s, 0, mal);
            assert forall|k: int| mal + 1 <= k < mal + 1 + mil implies is_digit(
                #[trigger] s[k],
            ) by {
                assert(s[k] == mi[k - (mal + 1)]);
            }
            lemma_run_end_exact(s, mal + 1, mal + 1 + mil);
            assert forall|k: int| mal + 1 + mil + 1 <= k < s.len() implies is_digit(
                #[trigger] s[k],
            ) by {
                assert(s[k] == pa[k - (mal + 1 + mil + 1)]);
            }
            lemma_run_end_exact(s, mal + 1 + mil + 1, s.len() as int);
            assert(s.subrange(0, mal) =~= ma);
            assert(s.subrange(mal + 1, mal + 1 + mil) =~= mi);
            assert(s.subrange(mal + 1 + mil + 1, s.len() as int) =~= pa);
        },
    }
}

} // verus!
